//! Formatting helpers for terminal display elements.
use vstd::prelude::*;

use crate::buffer::push_char;
use crate::terminal::{display_width, str_cols};

verus! {

/// `count` copies of `ch`.
pub open spec fn repeated(ch: char, count: int) -> Seq<char>
    decreases count,
    when count >= 0
{
    if count <= 0 {
        Seq::empty()
    } else {
        repeated(ch, count - 1).push(ch)
    }
}

/// A padding string: the character repeated the given number of times.
pub fn padding(ch: char, count: usize) -> (r: String)
    ensures
        r@ == repeated(ch, count as int),
{
    let mut s = String::new();
    let mut i: usize = 0;
    while i < count
        invariant
            i <= count,
            s@ == repeated(ch, i as int),
    decreases count - i,
    {
        push_char(&mut s, ch);
        i = i + 1;
    }
    s
}

/// The text a centered banner shows: when the text and two surrounding
/// spaces fit within the width, padding on both sides with the remainder
/// split in half (the right half taking any odd column); else padding
/// across the whole width.
pub open spec fn centered_text(text: Seq<char>, pad: char, width: int, cols: int) -> Seq<char> {
    if cols + 4 <= width {
        let needed = width - cols - 2;
        let left = needed / 2;
        let right = needed - left;
        repeated(pad, left) + seq![' '] + text + seq![' '] + repeated(pad, right)
    } else {
        repeated(pad, width)
    }
}

/// Centers the text within `width` columns, padding both sides with the
/// given character; text too wide to fit gives a full line of padding.
pub fn centered(text: &str, padding_ch: char, width: usize) -> (r: String)
    ensures
        r@ == centered_text(text@, padding_ch, width as int, display_width(text@) as int),
{
    let text_cols = str_cols(text);
    if width >= 4 && text_cols <= width - 4 {
        let needed = width - text_cols - 2;
        let left = needed / 2;
        let right = needed - left;
        let mut s = padding(padding_ch, left);
        push_char(&mut s, ' ');
        s.append(text);
        push_char(&mut s, ' ');
        let tail = padding(padding_ch, right);
        s.append(tail.as_str());
        proof {
            assert(s@ =~= centered_text(
                text@,
                padding_ch,
                width as int,
                display_width(text@) as int,
            ));
        }
        s
    } else {
        padding(padding_ch, width)
    }
}

} // verus!
