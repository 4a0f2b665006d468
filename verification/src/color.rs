//! The closed palette of terminal color tags.
//!
//! The rasterizer stores these small value-typed tags in the color buffer;
//! only the diff renderer turns a tag into its SGR escape sequence.

use vstd::prelude::*;
use crate::ansi_escape_code::{dec_digits, push_decimal};

verus! {

/// A named terminal color, plus the attribute reset.
#[derive(Clone, Copy, PartialEq, Eq, Structural, Debug)]
pub enum Color {
    Reset,
    Black,
    Red,
    Green,
    Yellow,
    Blue,
    Magenta,
    Cyan,
    White,
    BoldBlack,
    BoldRed,
    BoldGreen,
    BoldYellow,
    BoldBlue,
    BoldMagenta,
    BoldCyan,
    BoldWhite,
}

impl Color {
    /// The SGR parameter of this tag (`ESC [ <param> m`).
    pub open spec fn spec_sgr(self) -> int {
        match self {
            Color::Reset => 0,
            Color::Black => 30,
            Color::Red => 31,
            Color::Green => 32,
            Color::Yellow => 33,
            Color::Blue => 34,
            Color::Magenta => 35,
            Color::Cyan => 36,
            Color::White => 37,
            Color::BoldBlack => 90,
            Color::BoldRed => 91,
            Color::BoldGreen => 92,
            Color::BoldYellow => 93,
            Color::BoldBlue => 94,
            Color::BoldMagenta => 95,
            Color::BoldCyan => 96,
            Color::BoldWhite => 97,
        }
    }

    /// The SGR parameter of this tag.
    pub fn sgr(self) -> (r: u8)
        ensures
            r == self.spec_sgr(),
    {
        match self {
            Color::Reset => 0,
            Color::Black => 30,
            Color::Red => 31,
            Color::Green => 32,
            Color::Yellow => 33,
            Color::Blue => 34,
            Color::Magenta => 35,
            Color::Cyan => 36,
            Color::White => 37,
            Color::BoldBlack => 90,
            Color::BoldRed => 91,
            Color::BoldGreen => 92,
            Color::BoldYellow => 93,
            Color::BoldBlue => 94,
            Color::BoldMagenta => 95,
            Color::BoldCyan => 96,
            Color::BoldWhite => 97,
        }
    }
}

/// The escape-sequence bytes that select color `c`: `ESC [ <sgr> m`.
pub open spec fn color_bytes(c: Color) -> Seq<u8> {
    seq![27u8, 91u8] + dec_digits(c.spec_sgr() as nat) + seq![109u8]
}

/// Append the escape sequence of `c` to `out`.
pub fn push_color(out: &mut Vec<u8>, c: Color)
    ensures
        final(out)@ == old(out)@ + color_bytes(c),
{
    out.push(27);
    out.push(91);
    let p: u8 = c.sgr();
    push_decimal(out, p as u16);
    out.push(109);
    proof {
        assert(out@ =~= old(out)@ + color_bytes(c));
    }
}

} // verus!
