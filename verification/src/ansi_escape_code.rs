//! Terminal control sequences, built as verified byte strings.
//!
//! Every sequence is specified exactly, down to each byte: `ESC [`
//! followed by parameters and a final letter. Decimal parameters are
//! rendered by [`push_decimal`], whose output is pinned to the
//! mathematical digit expansion [`dec_digits`].

use vstd::prelude::*;

verus! {

/// The decimal digit bytes of `n`, most significant first.
pub open spec fn dec_digits(n: nat) -> Seq<u8>
    decreases n,
{
    if n < 10 {
        seq![(48 + n) as u8]
    } else {
        dec_digits(n / 10) + seq![(48 + n % 10) as u8]
    }
}

/// Append the decimal digits of `n` to `out`.
pub fn push_decimal(out: &mut Vec<u8>, n: u16)
    ensures
        final(out)@ == old(out)@ + dec_digits(n as nat),
    decreases n,
{
    if n < 10 {
        out.push(48 + n as u8);
        proof {
            assert(out@ =~= old(out)@ + dec_digits(n as nat));
        }
    } else {
        push_decimal(out, n / 10);
        out.push(48 + (n % 10) as u8);
        proof {
            assert(out@ =~= old(out)@ + dec_digits(n as nat));
        }
    }
}

/// The bytes of the cursor-positioning sequence `ESC [ row ; col H`
/// (row and column are 1-based).
pub open spec fn cursor_pos_bytes(row: nat, col: nat) -> Seq<u8> {
    seq![27u8, 91u8] + dec_digits(row) + seq![59u8] + dec_digits(col) + seq![72u8]
}

/// Moves the cursor to `(row, col)`, both 1-based: `ESC [ row ; col H`.
pub struct SetCursorPos(pub u16, pub u16);

impl SetCursorPos {
    /// Append this sequence's bytes to `out`.
    pub fn write_to(&self, out: &mut Vec<u8>)
        ensures
            final(out)@ == old(out)@ + cursor_pos_bytes(self.0 as nat, self.1 as nat),
    {
        out.push(27);
        out.push(91);
        push_decimal(out, self.0);
        out.push(59);
        push_decimal(out, self.1);
        out.push(72);
        proof {
            assert(out@ =~= old(out)@ + cursor_pos_bytes(self.0 as nat, self.1 as nat));
        }
    }
}

/// `ESC [ H`: move the cursor to the home position.
pub fn set_cursor_home() -> (r: Vec<u8>)
    ensures
        r@ == seq![27u8, 91u8, 72u8],
{
    let mut out: Vec<u8> = Vec::new();
    out.push(27);
    out.push(91);
    out.push(72);
    proof {
        assert(out@ =~= seq![27u8, 91u8, 72u8]);
    }
    out
}

/// `ESC [ ? 2 5 h`: make the cursor visible.
pub fn cursor_visible() -> (r: Vec<u8>)
    ensures
        r@ == seq![27u8, 91u8, 63u8, 50u8, 53u8, 104u8],
{
    let mut out: Vec<u8> = Vec::new();
    out.push(27);
    out.push(91);
    out.push(63);
    out.push(50);
    out.push(53);
    out.push(104);
    proof {
        assert(out@ =~= seq![27u8, 91u8, 63u8, 50u8, 53u8, 104u8]);
    }
    out
}

/// `ESC [ ? 2 5 l`: hide the cursor.
pub fn cursor_invisible() -> (r: Vec<u8>)
    ensures
        r@ == seq![27u8, 91u8, 63u8, 50u8, 53u8, 108u8],
{
    let mut out: Vec<u8> = Vec::new();
    out.push(27);
    out.push(91);
    out.push(63);
    out.push(50);
    out.push(53);
    out.push(108);
    proof {
        assert(out@ =~= seq![27u8, 91u8, 63u8, 50u8, 53u8, 108u8]);
    }
    out
}

/// `ESC [ 2 J`: erase the whole screen.
pub fn erase_screen() -> (r: Vec<u8>)
    ensures
        r@ == seq![27u8, 91u8, 50u8, 74u8],
{
    let mut out: Vec<u8> = Vec::new();
    out.push(27);
    out.push(91);
    out.push(50);
    out.push(74);
    proof {
        assert(out@ =~= seq![27u8, 91u8, 50u8, 74u8]);
    }
    out
}

/// `ESC [ 2 K`: erase the current line.
pub fn erase_current_line() -> (r: Vec<u8>)
    ensures
        r@ == seq![27u8, 91u8, 50u8, 75u8],
{
    let mut out: Vec<u8> = Vec::new();
    out.push(27);
    out.push(91);
    out.push(50);
    out.push(75);
    proof {
        assert(out@ =~= seq![27u8, 91u8, 50u8, 75u8]);
    }
    out
}

/// `ESC [ 1 K`: erase from the start of the line to the cursor.
pub fn erase_line_start_to_cursor() -> (r: Vec<u8>)
    ensures
        r@ == seq![27u8, 91u8, 49u8, 75u8],
{
    let mut out: Vec<u8> = Vec::new();
    out.push(27);
    out.push(91);
    out.push(49);
    out.push(75);
    proof {
        assert(out@ =~= seq![27u8, 91u8, 49u8, 75u8]);
    }
    out
}

/// `ESC [ ? 1 0 4 9 h`: switch to the alternate screen buffer.
pub fn enable_alt_buffer() -> (r: Vec<u8>)
    ensures
        r@ == seq![27u8, 91u8, 63u8, 49u8, 48u8, 52u8, 57u8, 104u8],
{
    let mut out: Vec<u8> = Vec::new();
    out.push(27);
    out.push(91);
    out.push(63);
    out.push(49);
    out.push(48);
    out.push(52);
    out.push(57);
    out.push(104);
    proof {
        assert(out@ =~= seq![27u8, 91u8, 63u8, 49u8, 48u8, 52u8, 57u8, 104u8]);
    }
    out
}

/// `ESC [ ? 1 0 4 9 l`: leave the alternate screen buffer.
pub fn disable_alt_buffer() -> (r: Vec<u8>)
    ensures
        r@ == seq![27u8, 91u8, 63u8, 49u8, 48u8, 52u8, 57u8, 108u8],
{
    let mut out: Vec<u8> = Vec::new();
    out.push(27);
    out.push(91);
    out.push(63);
    out.push(49);
    out.push(48);
    out.push(52);
    out.push(57);
    out.push(108);
    proof {
        assert(out@ =~= seq![27u8, 91u8, 63u8, 49u8, 48u8, 52u8, 57u8, 108u8]);
    }
    out
}

} // verus!
