//! Colour: a glyph wrapped in the escape sequences that make a terminal show
//! it in a colour of its own.

use termion::color;
use vstd::prelude::*;

verus! {

/// The character for the decimal digit `d`.
pub open spec fn digit(d: nat) -> char {
    (d + 48) as char
}

/// `n` in decimal digits, without leading zeros.
pub open spec fn decimal(n: nat) -> Seq<char>
    decreases n,
{
    if n < 10 {
        seq![digit(n)]
    } else {
        decimal(n / 10).push(digit(n % 10))
    }
}

/// The escape sequence that sets the foreground to the colour of `red`,
/// `green` and `blue`: `ESC [ 38 ; 2 ; red ; green ; blue m`.
pub open spec fn foreground(color: (u8, u8, u8)) -> Seq<char> {
    seq!['\x1b', '[', '3', '8', ';', '2', ';'] + decimal(color.0 as nat) + seq![';'] + decimal(
        color.1 as nat,
    ) + seq![';'] + decimal(color.2 as nat) + seq!['m']
}

/// The escape sequence that sets the foreground back to the terminal's own
/// colour: `ESC [ 39 m`.
pub open spec fn foreground_reset() -> Seq<char> {
    seq!['\x1b', '[', '3', '9', 'm']
}

/// `glyph` in the colour `color`: the sequence that sets the colour, the
/// glyph, and the sequence that sets the colour back.
pub open spec fn painted(color: (u8, u8, u8), glyph: char) -> Seq<char> {
    foreground(color) + seq![glyph] + foreground_reset()
}

/// `glyph` between what `termion` writes for `color::Fg(color::Rgb(..))` and
/// for `color::Fg(color::Reset)`. Not proved: the contract states the two
/// escape sequences as termion's source gives them, the numbers of the
/// colour in decimal.
#[verifier::external_body]
pub(crate) fn paint(color: (u8, u8, u8), glyph: char) -> (text: String)
    ensures
        text@ == painted(color, glyph),
{
    let rgb = color::Rgb(color.0, color.1, color.2);
    format!("{}{}{}", color::Fg(rgb), glyph, color::Fg(color::Reset))
}

} // verus!
