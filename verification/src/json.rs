//! Helpers for pointing at a position inside a line of text, as error
//! reports do.
use vstd::prelude::*;

use crate::buffer::{chars_of, push_char};

verus! {

/// At most this many characters of context are shown around an error
/// position.
pub const MAX_ERROR_LINE_CHARS: usize = 80;

/// The window of the line that a report shows around `column_pos`, and
/// where the caret column lands inside it: up to half the limit of
/// context on each side, with an ellipsis marking each trimmed end.
pub open spec fn line_window(chars: Seq<char>, column_pos: int) -> (Seq<char>, int) {
    let max_context = MAX_ERROR_LINE_CHARS as int / 2;
    let error_pos = if column_pos - 1 < 0 {
        0
    } else if column_pos - 1 > chars.len() {
        chars.len() as int
    } else {
        column_pos - 1
    };
    let start = if error_pos - max_context < 0 {
        0
    } else {
        error_pos - max_context
    };
    let end = if error_pos + max_context + 1 > chars.len() {
        chars.len() as int
    } else {
        error_pos + max_context + 1
    };
    let dots = seq!['.', '.', '.'];
    let body = chars.subrange(start, end);
    let shown = (if start > 0 {
        dots + body
    } else {
        body
    }) + (if end < chars.len() {
        dots
    } else {
        Seq::<char>::empty()
    });
    let caret: int = error_pos - start + 1 + (if start > 0 {
        3int
    } else {
        0int
    });
    (shown, caret)
}

/// Trims a line of text to a window around an error position, marking
/// trimmed ends with an ellipsis, and returns the window together with
/// the caret column inside it.
pub fn format_line_around_position(line: &str, column_pos: usize) -> (r: (String, usize))
    ensures
        r.0@ == line_window(line@, column_pos as int).0,
        r.1 as int == line_window(line@, column_pos as int).1,
{
    let chars: Vec<char> = chars_of(line);
    let max_context = MAX_ERROR_LINE_CHARS / 2;
    let len = chars.len();
    let below = if column_pos >= 1 {
        column_pos - 1
    } else {
        0
    };
    let error_pos = if below > len {
        len
    } else {
        below
    };
    let start = if error_pos >= max_context {
        error_pos - max_context
    } else {
        0
    };
    let end = if len - error_pos > max_context {
        error_pos + max_context + 1
    } else {
        len
    };
    let mut s = String::new();
    let mut caret = error_pos - start + 1;
    if start > 0 {
        push_char(&mut s, '.');
        push_char(&mut s, '.');
        push_char(&mut s, '.');
        caret = caret + 3;
    }
    let ghost head = s@;
    let mut k: usize = start;
    while k < end
        invariant
            start <= k <= end <= chars@.len(),
            chars@ == line@,
            s@ == head + line@.subrange(start as int, k as int),
    decreases end - k,
    {
        push_char(&mut s, chars[k]);
        assert(s@ =~= head + line@.subrange(start as int, k + 1));
        k = k + 1;
    }
    if end < len {
        push_char(&mut s, '.');
        push_char(&mut s, '.');
        push_char(&mut s, '.');
    }
    proof {
        assert(s@ =~= line_window(line@, column_pos as int).0);
    }
    (s, caret)
}

} // verus!
