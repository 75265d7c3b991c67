//! Terminal display-width helpers, resting on the Unicode width tables.
use vstd::prelude::*;

verus! {

/// The number of terminal columns a string occupies.  A function of the
/// characters alone, looked up in the Unicode width tables.
pub uninterp spec fn display_width(s: Seq<char>) -> usize;

/// The number of terminal columns one character occupies.  A function of
/// the character alone, looked up in the Unicode width tables.
pub uninterp spec fn char_display_width(c: char) -> usize;

/// Relies on `unicode_width::UnicodeWidthStr::width`: the string's
/// display width in terminal columns; an empty string has width zero.
#[verifier::external_body]
pub fn str_cols(s: &str) -> (r: usize)
    ensures
        r == display_width(s@),
        s@.len() == 0 ==> r == 0,
{
    unicode_width::UnicodeWidthStr::width(s)
}

/// Relies on `unicode_width::UnicodeWidthChar::width`: the character's
/// display width in terminal columns, zero for control characters.
#[verifier::external_body]
pub fn char_cols(c: char) -> (r: usize)
    ensures
        r == char_display_width(c),
{
    unicode_width::UnicodeWidthChar::width(c).unwrap_or(0)
}

/// A character width estimator backed by the Unicode width tables.
#[derive(Clone, Copy)]
pub struct UnicodeCharWidthEstimator;

impl UnicodeCharWidthEstimator {
    /// The character's display width in terminal columns.
    pub fn estimate_char_width(&self, c: char) -> (r: usize)
        ensures
            r == char_display_width(c),
    {
        char_cols(c)
    }
}

} // verus!
