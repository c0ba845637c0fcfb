//! Display widths of characters and of sequences of characters.

use vstd::prelude::*;

verus! {

/// What `unicode_width` reports for a character: its width in terminal
/// columns, or `None` for a control character.
pub uninterp spec fn char_width_of(c: char) -> Option<usize>;

/// Relies on `unicode_width::UnicodeWidthChar::width`: the display width of a
/// character, `None` for a control character. The crate's source answers
/// `Some(1)` for printable ASCII (U+0020 to U+007E) and `None` below U+0020;
/// its documented rules give width 1 to an ambiguous-width symbol outside an
/// East Asian context, which is what U+FFFD is.
#[verifier::external_body]
pub(crate) fn char_width(c: char) -> (r: Option<usize>)
    ensures
        r == char_width_of(c),
        0x20 <= c as u32 && (c as u32) < 0x7f ==> r == Some(1usize),
        (c as u32) < 0x20 ==> r is None,
        c == '\u{fffd}' ==> r == Some(1usize),
{
    unicode_width::UnicodeWidthChar::width(c)
}

/// The number of columns a character takes: a control character takes none.
pub open spec fn glyph_width(c: char) -> nat {
    match char_width_of(c) {
        Some(w) => w as nat,
        None => 0,
    }
}

/// Columns of one character, as `glyph_width` states it.
pub fn glyph_width_exec(c: char) -> (r: usize)
    ensures
        r == glyph_width(c),
{
    match char_width(c) {
        Some(w) => w,
        None => 0,
    }
}

} // verus!

verus! {

/// The space and U+FFFD take one column each and a line break none; a call
/// brings those facts of the width measure into the caller's proof.
pub fn unit_widths()
    ensures
        glyph_width(' ') == 1,
        glyph_width('\u{FFFD}') == 1,
        glyph_width('\n') == 0,
{
    let space = char_width(' ');
    let marker = char_width('\u{FFFD}');
    let newline = char_width('\n');
    assert(space == Some(1usize) && marker == Some(1usize) && newline is None);
}

} // verus!
