//! The minimal-diff frame emitter.
//!
//! After a frame is rasterized, the current glyph and color buffers are
//! compared cell by cell against the previous frame's snapshot, in
//! row-major order. An unchanged cell emits nothing. A changed cell emits
//! a 1-based cursor move, the cell's color tag — but only when it differs
//! from the color most recently emitted in this scan — and the glyph.

use vstd::prelude::*;
use crate::ansi_escape_code::{cursor_pos_bytes, SetCursorPos};
use crate::color::{Color, color_bytes, push_color};
use vstd::arithmetic::div_mod::{lemma_fundamental_div_mod_converse, lemma_div_is_ordered,
    lemma_div_pos_is_pos, lemma_mod_bound};

verus! {

/// The exact bytes the emitter writes for cells `idx` onward, with `last`
/// the color tag most recently emitted.
pub open spec fn diff_output(
    cur_ch: Seq<u8>,
    cur_co: Seq<Color>,
    prev_ch: Seq<u8>,
    prev_co: Seq<Color>,
    width: int,
    idx: int,
    last: Color,
) -> Seq<u8>
    decreases cur_ch.len() - idx,
{
    if idx < 0 || idx >= cur_ch.len() {
        Seq::empty()
    } else if cur_ch[idx] == prev_ch[idx] && cur_co[idx] == prev_co[idx] {
        diff_output(cur_ch, cur_co, prev_ch, prev_co, width, idx + 1, last)
    } else {
        cursor_pos_bytes((idx / width + 1) as nat, (idx % width + 1) as nat) + (if cur_co[idx]
            == last {
            Seq::<u8>::empty()
        } else {
            color_bytes(cur_co[idx])
        }) + seq![cur_ch[idx]] + diff_output(
            cur_ch,
            cur_co,
            prev_ch,
            prev_co,
            width,
            idx + 1,
            cur_co[idx],
        )
    }
}

/// Law: a frame whose buffers are identical to the previous frame's emits
/// no output at all.
pub proof fn lemma_diff_identical(ch: Seq<u8>, co: Seq<Color>, width: int, idx: int, last: Color)
    ensures
        diff_output(ch, co, ch, co, width, idx, last) == Seq::<u8>::empty(),
    decreases ch.len() - idx,
{
    if 0 <= idx < ch.len() {
        lemma_diff_identical(ch, co, width, idx + 1, last);
    }
}

/// Scan the current buffers against the previous frame's snapshot and
/// append the minimal redraw byte sequence to `out`.
pub fn render_diff(
    buffer: &Vec<u8>,
    cbuffer: &Vec<Color>,
    buffer_prev: &Vec<u8>,
    cbuffer_prev: &Vec<Color>,
    width: u16,
    height: u16,
    out: &mut Vec<u8>,
)
    requires
        1 <= width <= 4096,
        1 <= height <= 4096,
        buffer@.len() == width as int * height as int,
        cbuffer@.len() == buffer@.len(),
        buffer_prev@.len() == buffer@.len(),
        cbuffer_prev@.len() == buffer@.len(),
    ensures
        final(out)@ == old(out)@ + diff_output(
            buffer@,
            cbuffer@,
            buffer_prev@,
            cbuffer_prev@,
            width as int,
            0,
            Color::Reset,
        ),
{
    let mut prev_set_color: Color = Color::Reset;
    let mut index: usize = 0;
    while index < buffer.len()
        invariant
            1 <= width <= 4096,
            1 <= height <= 4096,
            buffer@.len() == width as int * height as int,
            cbuffer@.len() == buffer@.len(),
            buffer_prev@.len() == buffer@.len(),
            cbuffer_prev@.len() == buffer@.len(),
            0 <= index <= buffer@.len(),
            out@ + diff_output(
                buffer@,
                cbuffer@,
                buffer_prev@,
                cbuffer_prev@,
                width as int,
                index as int,
                prev_set_color,
            ) == old(out)@ + diff_output(
                buffer@,
                cbuffer@,
                buffer_prev@,
                cbuffer_prev@,
                width as int,
                0,
                Color::Reset,
            ),
        decreases buffer@.len() - index,
    {
        let val: u8 = buffer[index];
        let color: Color = cbuffer[index];
        if !(val == buffer_prev[index] && color == cbuffer_prev[index]) {
            proof {
                lemma_mod_bound(index as int, width as int);
                lemma_div_pos_is_pos(index as int, width as int);
                lemma_div_is_ordered(
                    index as int,
                    width as int * height as int - 1,
                    width as int,
                );
                assert(width as int * height as int - 1 == (height as int - 1) * (width as int) + (
                width as int - 1)) by (nonlinear_arith);
                lemma_fundamental_div_mod_converse(
                    width as int * height as int - 1,
                    width as int,
                    height as int - 1,
                    width as int - 1,
                );
            }
            let x: u16 = (index % width as usize) as u16;
            let y: u16 = (index / width as usize) as u16;
            let ghost pre_out: Seq<u8> = out@;
            let ghost pre_last: Color = prev_set_color;
            let pos = SetCursorPos(y + 1, x + 1);
            pos.write_to(out);
            if !(color == prev_set_color) {
                push_color(out, color);
            }
            out.push(val);
            prev_set_color = color;
            proof {
                assert(out@ + diff_output(
                    buffer@,
                    cbuffer@,
                    buffer_prev@,
                    cbuffer_prev@,
                    width as int,
                    index as int + 1,
                    color,
                ) =~= pre_out + diff_output(
                    buffer@,
                    cbuffer@,
                    buffer_prev@,
                    cbuffer_prev@,
                    width as int,
                    index as int,
                    pre_last,
                ));
            }
        }
        index = index + 1;
    }
    proof {
        assert(out@ =~= old(out)@ + diff_output(
            buffer@,
            cbuffer@,
            buffer_prev@,
            cbuffer_prev@,
            width as int,
            0,
            Color::Reset,
        ));
    }
}

} // verus!
