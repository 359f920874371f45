//! Terminal text for one cell: a glyph painted with 256-colour escape codes.
use vstd::prelude::*;

verus! {

/// The decimal digit `d`.
pub open spec fn digit(d: int) -> char {
    seq!['0', '1', '2', '3', '4', '5', '6', '7', '8', '9'][d]
}

/// The decimal writing of a byte, without leading zeros.
pub open spec fn decimal(b: u8) -> Seq<char> {
    let v = b as int;
    if v < 10 {
        seq![digit(v)]
    } else if v < 100 {
        seq![digit(v / 10), digit(v % 10)]
    } else {
        seq![digit(v / 100), digit((v / 10) % 10), digit(v % 10)]
    }
}

/// `glyph` on background colour `bg` in foreground colour `fg`, both of the
/// 256-colour table: `ESC[48;5;<bg>;38;5;<fg>m`, the glyph, then `ESC[0m`.
pub open spec fn ansi_cell(fg: u8, bg: u8, glyph: char) -> Seq<char> {
    seq!['\x1b', '[', '4', '8', ';', '5', ';'] + decimal(bg) + seq![';', '3', '8', ';', '5', ';']
        + decimal(fg) + seq!['m', glyph] + seq!['\x1b', '[', '0', 'm']
}

/// Relies on `ansi_term`: `Colour::Fixed(fg).on(Colour::Fixed(bg))` writes the
/// background code, then the foreground code, then `m`; `paint` puts the text
/// between that prefix and the reset code.
#[verifier::external_body]
pub(crate) fn paint_cell(fg: u8, bg: u8, glyph: char) -> (s: String)
    ensures
        s@ == ansi_cell(fg, bg, glyph),
{
    ansi_term::Colour::Fixed(fg).on(ansi_term::Colour::Fixed(bg)).paint(glyph.to_string()).to_string()
}

} // verus!
