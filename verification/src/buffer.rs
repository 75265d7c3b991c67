//! Text buffers: identity, cursor and mark positions, line storage, and
//! the cursor-editing primitives the event loop dispatches to.
use vstd::prelude::*;
use vstd::string::StrSliceExecFns;

use crate::lsp::SemanticTokenType;
use crate::rpc::SemanticToken;

verus! {

/// Identifies one open buffer by its display name and its path.
pub struct BufferId {
    /// The file name shown to the user.
    pub name: String,
    /// The full path the buffer was opened from.
    pub path: String,
}

/// The display name of a path: what follows its last `/`, or `*scratch`
/// when that is empty.
pub open spec fn file_name_of(path: Seq<char>) -> Seq<char> {
    let cut = last_slash_cut(path);
    if path.skip(cut).len() == 0 {
        seq!['*', 's', 'c', 'r', 'a', 't', 'c', 'h']
    } else {
        path.skip(cut)
    }
}

/// Index just past the last `/`, or `0` when there is none.
pub open spec fn last_slash_cut(path: Seq<char>) -> int
    decreases path.len(),
{
    if path.len() == 0 {
        0
    } else if path.last() == '/' {
        path.len() as int
    } else {
        last_slash_cut(path.drop_last())
    }
}

proof fn lemma_last_slash_cut_props(path: Seq<char>)
    ensures
        0 <= last_slash_cut(path) <= path.len(),
        forall|i: int| last_slash_cut(path) <= i < path.len() ==> (#[trigger] path[i]) != '/',
        last_slash_cut(path) > 0 ==> path[last_slash_cut(path) - 1] == '/',
    decreases path.len(),
{
    if path.len() == 0 {
    } else if path.last() == '/' {
    } else {
        let p1 = path.drop_last();
        lemma_last_slash_cut_props(p1);
        assert forall|i: int| last_slash_cut(path) <= i < path.len() implies (#[trigger] path[i])
            != '/' by {
            if i < path.len() - 1 {
                assert(path[i] == p1[i]);
            }
        }
    }
}

impl BufferId {
    /// Derives a buffer identity from a path: the name is the path's last
    /// component, or `*scratch` when the path ends in a separator or is
    /// empty.
    pub fn from_path(path: String) -> (r: Self)
        ensures
            r.path@ == path@,
            r.name@ == file_name_of(path@),
    {
        proof {
            lemma_last_slash_cut_props(path@);
        }
        let chars: Vec<char> = chars_of(&path);
        let mut cut: usize = chars.len();
        while cut > 0 && chars[cut - 1] != '/'
            invariant
                cut <= chars@.len(),
                chars@ == path@,
                forall|i: int| cut <= i < chars@.len() ==> (#[trigger] chars@[i]) != '/',
        decreases cut,
        {
            cut = cut - 1;
        }
        proof {
            let sc = last_slash_cut(path@);
            if sc < cut {
                assert(path@[cut - 1] == '/');
            }
            if cut < sc {
                assert(path@[sc - 1] == '/');
            }
            assert(cut as int == sc);
        }
        let mut name = String::new();
        let mut i: usize = cut;
        while i < chars.len()
            invariant
                cut <= i <= chars@.len(),
                chars@ == path@,
                name@ == path@.subrange(cut as int, i as int),
        decreases chars@.len() - i,
        {
            push_char(&mut name, chars[i]);
            assert(name@ =~= path@.subrange(cut as int, i + 1));
            i = i + 1;
        }
        if name.as_str().is_empty() {
            let scratch: String = scratch_name();
            assert(path@.subrange(cut as int, path@.len() as int) =~= path@.skip(cut as int));
            return BufferId { name: scratch, path };
        }
        assert(path@.subrange(cut as int, path@.len() as int) =~= path@.skip(cut as int));
        BufferId { name, path }
    }
}

fn scratch_name() -> (r: String)
    ensures
        r@ == seq!['*', 's', 'c', 'r', 'a', 't', 'c', 'h'],
{
    let mut s = String::new();
    push_char(&mut s, '*');
    push_char(&mut s, 's');
    push_char(&mut s, 'c');
    push_char(&mut s, 'r');
    push_char(&mut s, 'a');
    push_char(&mut s, 't');
    push_char(&mut s, 'c');
    push_char(&mut s, 'h');
    assert(s@ =~= seq!['*', 's', 'c', 'r', 'a', 't', 'c', 'h']);
    s
}

/// Relies on `String::push`: appends one character.
#[verifier::external_body]
pub fn push_char(s: &mut String, c: char)
    ensures
        final(s)@ == old(s)@.push(c),
{
    s.push(c);
}

/// The characters of a string, in order.
pub fn chars_of(s: &str) -> (r: Vec<char>)
    ensures
        r@ == s@,
{
    let n = s.unicode_len();
    let mut r: Vec<char> = Vec::new();
    let mut i: usize = 0;
    while i < n
        invariant
            n == s@.len(),
            i <= n,
            r@ == s@.take(i as int),
        decreases n - i,
    {
        r.push(s.get_char(i));
        assert(r@ =~= s@.take(i + 1));
        i = i + 1;
    }
    assert(r@ =~= s@);
    r
}

impl PartialEq for BufferId {
    /// Two identities are equal when both the name and the path read the
    /// same.
    fn eq(&self, other: &Self) -> (r: bool) {
        self.name == other.name && self.path == other.path
    }
}

impl vstd::std_specs::cmp::PartialEqSpecImpl for BufferId {
    open spec fn obeys_eq_spec() -> bool {
        true
    }

    open spec fn eq_spec(&self, other: &Self) -> bool {
        self.name@ == other.name@ && self.path@ == other.path@
    }
}

impl Eq for BufferId {}

impl Clone for BufferId {
    /// The copy carries the same name and path.
    fn clone(&self) -> (r: Self)
        ensures
            r.name@ == self.name@ && r.path@ == self.path@,
    {
        BufferId { name: self.name.clone(), path: self.path.clone() }
    }
}

/// A position inside a buffer, counted in rows and columns of characters.
#[derive(Clone, Copy, PartialEq, Eq, Structural)]
pub struct BufferPosition {
    /// Zero-based row.
    pub row: usize,
    /// Zero-based column.
    pub col: usize,
}

impl BufferPosition {
    /// Packs a row and a column.
    pub fn new(row: usize, col: usize) -> (r: Self)
        ensures
            r == (BufferPosition { row, col }),
    {
        BufferPosition { row, col }
    }
}

/// Row-major order, inclusive.
pub open spec fn pos_le(a: BufferPosition, b: BufferPosition) -> bool {
    a.row < b.row || (a.row == b.row && a.col <= b.col)
}

/// Row-major order, strict.
pub open spec fn pos_lt(a: BufferPosition, b: BufferPosition) -> bool {
    a.row < b.row || (a.row == b.row && a.col < b.col)
}

/// A half-open region between two positions, kept ordered.
#[derive(Clone, Copy, PartialEq, Eq, Structural)]
pub struct BufferRegion {
    /// First position inside the region.
    pub start: BufferPosition,
    /// First position after the region.
    pub end: BufferPosition,
}

impl Default for BufferRegion {
    /// The empty region at the origin.
    fn default() -> (r: Self)
        ensures
            r.start == (BufferPosition { row: 0, col: 0 }),
            r.end == (BufferPosition { row: 0, col: 0 }),
    {
        BufferRegion {
            start: BufferPosition { row: 0, col: 0 },
            end: BufferPosition { row: 0, col: 0 },
        }
    }
}

impl BufferRegion {
    /// Builds the region spanned by two positions, in either order.
    pub fn new(p0: BufferPosition, p1: BufferPosition) -> (r: Self)
        ensures
            pos_le(p0, p1) ==> r == (BufferRegion { start: p0, end: p1 }),
            !pos_le(p0, p1) ==> r == (BufferRegion { start: p1, end: p0 }),
    {
        if p0.row < p1.row || (p0.row == p1.row && p0.col <= p1.col) {
            BufferRegion { start: p0, end: p1 }
        } else {
            BufferRegion { start: p1, end: p0 }
        }
    }

    /// Whether the position lies inside the region.
    pub fn contains(self, pos: BufferPosition) -> (r: bool)
        ensures
            r == (pos_le(self.start, pos) && pos_lt(pos, self.end)),
    {
        let after_start = self.start.row < pos.row || (self.start.row == pos.row
            && self.start.col <= pos.col);
        let before_end = pos.row < self.end.row || (pos.row == self.end.row
            && pos.col < self.end.col);
        after_start && before_end
    }
}

/// Where the cursor stands.
#[derive(Clone, Copy, PartialEq, Eq, Structural)]
pub struct Cursor {
    /// Zero-based line.
    pub line: usize,
    /// Zero-based column.
    pub column: usize,
}

/// A relative cursor move.
#[derive(Clone, Copy, PartialEq, Eq, Structural)]
pub struct CursorDelta {
    /// Columns to the right when positive.
    pub x: isize,
    /// Rows downward when positive.
    pub y: isize,
}

impl CursorDelta {
    /// Packs the two offsets, columns first.
    pub fn xy(x: isize, y: isize) -> (r: Self)
        ensures
            r == (CursorDelta { x, y }),
    {
        CursorDelta { x, y }
    }
}

/// A terminal's size in character cells.
#[derive(Clone, Copy, PartialEq, Eq, Structural)]
pub struct TerminalSize {
    /// Columns.
    pub width: u16,
    /// Rows.
    pub height: u16,
}

impl Default for TerminalSize {
    /// A zero-by-zero size, used before the real size is known.
    fn default() -> (r: Self)
        ensures
            r == (TerminalSize { width: 0, height: 0 }),
    {
        TerminalSize { width: 0, height: 0 }
    }
}

/// A position on the screen, in character cells.
#[derive(Clone, Copy, PartialEq, Eq, Structural)]
pub struct ScreenPosition {
    /// Column.
    pub x: u16,
    /// Row.
    pub y: u16,
}

/// One open text buffer.
pub struct Buffer {
    /// Its identity.
    pub id: BufferId,
    /// The text, one vector of characters per line.
    pub lines: Vec<Vec<char>>,
    /// The first line shown on screen.
    pub start_line: usize,
    /// The cursor.
    pub cursor: Cursor,
    /// The LSP server this buffer was announced to, if any.
    pub lsp_server_name: Option<String>,
    /// Document version counter reported to LSP servers.
    pub version: u64,
    /// The semantic tokens last decoded for this buffer.
    pub semantic_tokens: Vec<SemanticToken>,
    /// Where the mark was set, if it is active.
    pub mark_origin: Option<BufferPosition>,
}

impl Buffer {
    /// The cursor points at a character slot of an existing line, or at
    /// column zero just past the last line.
    pub open spec fn wf(&self) -> bool {
        &&& self.cursor.line <= self.lines@.len()
        &&& (if self.cursor.line < self.lines@.len() {
            self.cursor.column <= self.lines@[self.cursor.line as int]@.len()
        } else {
            self.cursor.column == 0
        })
    }

    /// A fresh buffer over the given lines, cursor at the origin.
    pub fn new(id: BufferId, lines: Vec<Vec<char>>) -> (r: Self)
        ensures
            r.id == id,
            r.lines == lines,
            r.start_line == 0,
            r.cursor == (Cursor { line: 0, column: 0 }),
            r.lsp_server_name is None,
            r.version == 0,
            r.semantic_tokens@.len() == 0,
            r.mark_origin is None,
            r.wf(),
    {
        Buffer {
            id,
            lines,
            start_line: 0,
            cursor: Cursor { line: 0, column: 0 },
            lsp_server_name: None,
            version: 0,
            semantic_tokens: Vec::new(),
            mark_origin: None,
        }
    }

    /// The region between the mark and the cursor, or the empty region at
    /// the origin when no mark is set.
    pub fn marked_region(&self) -> (r: BufferRegion)
        ensures
            ({
                match self.mark_origin {
                    None => r == (BufferRegion {
                        start: BufferPosition { row: 0, col: 0 },
                        end: BufferPosition { row: 0, col: 0 },
                    }),
                    Some(start) => {
                        let cur = BufferPosition {
                            row: self.cursor.line,
                            col: self.cursor.column,
                        };
                        (pos_le(start, cur) ==> r == (BufferRegion { start, end: cur }))
                            && (!pos_le(start, cur) ==> r == (BufferRegion { start: cur, end: start }))
                    },
                }
            }),
    {
        match self.mark_origin {
            None => BufferRegion::default(),
            Some(start) => BufferRegion::new(start, self.cursor_buffer_position()),
        }
    }

    /// The cursor as a buffer position.
    pub fn cursor_buffer_position(&self) -> (r: BufferPosition)
        ensures
            r == (BufferPosition { row: self.cursor.line, col: self.cursor.column }),
    {
        BufferPosition { row: self.cursor.line, col: self.cursor.column }
    }

    /// The cursor's place on screen, relative to the first shown line.
    /// Coordinates larger than a screen cell index wrap, as a cast does.
    pub fn cursor_position(&self) -> (r: ScreenPosition)
        ensures
            r.x as int == self.cursor.column as int % 0x10000,
            r.y as int == (if self.cursor.line >= self.start_line {
                (self.cursor.line - self.start_line) % 0x10000
            } else {
                0
            }),
    {
        let y_row = if self.cursor.line >= self.start_line {
            self.cursor.line - self.start_line
        } else {
            0
        };
        ScreenPosition { x: (self.cursor.column % 0x10000) as u16, y: (y_row % 0x10000) as u16 }
    }

    /// How many lines the buffer holds.
    pub fn len_lines(&self) -> (r: usize)
        ensures
            r == self.lines@.len(),
    {
        self.lines.len()
    }

    /// The whole text, lines joined by a newline.
    pub fn text(&self) -> (r: String)
        ensures
            r@ == joined_text(self.lines.deep_view()),
    {
        let mut s = String::new();
        let mut i: usize = 0;
        proof {
            assert(self.lines.deep_view().take(0) =~= Seq::<Seq<char>>::empty());
        }
        while i < self.lines.len()
            invariant
                i <= self.lines@.len(),
                self.lines.deep_view().len() == self.lines@.len(),
                s@ == joined_text(self.lines.deep_view().take(i as int)),
        decreases self.lines@.len() - i,
        {
            if i > 0 {
                push_char(&mut s, '\n');
            }
            let line = &self.lines[i];
            let mut k: usize = 0;
            let ghost base = s@;
            while k < line.len()
                invariant
                    k <= line@.len(),
                    line@ == self.lines@[i as int]@,
                    s@ == base + line@.take(k as int),
            decreases line@.len() - k,
            {
                push_char(&mut s, line[k]);
                assert(s@ =~= base + line@.take(k + 1));
                k = k + 1;
            }
            proof {
                let dv = self.lines.deep_view();
                assert(line@.take(line@.len() as int) =~= line@);
                assert(dv[i as int] == line@);
                assert(dv.take(i + 1).drop_last() =~= dv.take(i as int));
                assert(dv.take(i + 1).last() == dv[i as int]);
                if i == 0 {
                    assert(s@ =~= joined_text(dv.take(1)));
                } else {
                    assert(s@ =~= joined_text(dv.take(i as int)) + seq!['\n'] + dv[i as int]);
                }
            }
            i = i + 1;
        }
        proof {
            assert(self.lines.deep_view().take(self.lines@.len() as int) =~= self.lines.deep_view());
        }
        s
    }

    /// Replaces the stored semantic tokens.
    pub fn set_semantic_tokens(&mut self, tokens: &Vec<SemanticToken>)
        ensures
            final(self).semantic_tokens@ == tokens@,
            *final(self) == (Buffer { semantic_tokens: final(self).semantic_tokens, ..*old(self) }),
    {
        let mut copy: Vec<SemanticToken> = Vec::new();
        let mut i: usize = 0;
        while i < tokens.len()
            invariant
                i <= tokens@.len(),
                copy@ == tokens@.take(i as int),
        decreases tokens@.len() - i,
        {
            copy.push(tokens[i]);
            assert(copy@ =~= tokens@.take(i + 1));
            i = i + 1;
        }
        assert(copy@ =~= tokens@);
        self.semantic_tokens = copy;
    }

    /// Sets the mark at the cursor.
    pub fn mark(&mut self)
        ensures
            *final(self) == (Buffer {
                mark_origin: Some(
                    BufferPosition { row: old(self).cursor.line, col: old(self).cursor.column },
                ),
                ..*old(self)
            }),
    {
        self.mark_origin = Some(self.cursor_buffer_position());
    }

    /// Inserts a character at the cursor and steps the cursor past it.
    /// Does nothing when the cursor hangs past the last line.
    pub fn insert_char(&mut self, c: char)
        requires
            old(self).wf(),
        ensures
            final(self).wf(),
            insert_char_rel(*old(self), *final(self), c),
            ({
                let line = old(self).cursor.line as int;
                let col = old(self).cursor.column as int;
                if line < old(self).lines@.len() && old(self).lines@[line]@.len() < usize::MAX {
                    final(self).lines@.len() == old(self).lines@.len()
                        && final(self).lines@[line]@ == old(self).lines@[line]@.insert(col, c)
                        && (forall|j: int| 0 <= j < old(self).lines@.len() && j != line
                            ==> (#[trigger] final(self).lines@[j])@ == old(self).lines@[j]@)
                        && final(self).cursor == (Cursor {
                        line: old(self).cursor.line,
                        column: (col + 1) as usize,
                    })
                } else {
                    final(self).lines@ == old(self).lines@ && final(self).cursor == old(self).cursor
                }
            }),
            final(self).id == old(self).id,
            final(self).start_line == old(self).start_line,
            final(self).lsp_server_name == old(self).lsp_server_name,
            final(self).version == old(self).version,
            final(self).semantic_tokens == old(self).semantic_tokens,
            final(self).mark_origin == old(self).mark_origin,
    {
        if self.cursor.line < self.lines.len() {
            let col = self.cursor.column;
            let line_len = self.lines[self.cursor.line].len();
            if line_len < usize::MAX {
                let line_ref = &mut self.lines[self.cursor.line];
                line_ref.insert(col, c);
                self.cursor.column = col + 1;
            }
        }
    }

    /// Splits the current line at the cursor and moves the cursor to the
    /// start of the new line.  Does nothing when the cursor hangs past the
    /// last line.
    pub fn insert_newline(&mut self)
        requires
            old(self).wf(),
            old(self).lines@.len() < usize::MAX,
        ensures
            final(self).wf(),
            insert_newline_rel(*old(self), *final(self)),
            ({
                let line = old(self).cursor.line as int;
                let col = old(self).cursor.column as int;
                if line < old(self).lines@.len() {
                    final(self).lines@.len() == old(self).lines@.len() + 1
                        && final(self).lines@[line]@ == old(self).lines@[line]@.take(col)
                        && final(self).lines@[line + 1]@ == old(self).lines@[line]@.skip(col)
                        && (forall|j: int| 0 <= j < line
                            ==> (#[trigger] final(self).lines@[j])@ == old(self).lines@[j]@)
                        && (forall|j: int| line + 1 < j < final(self).lines@.len()
                            ==> (#[trigger] final(self).lines@[j])@ == old(self).lines@[j - 1]@)
                        && final(self).cursor == (Cursor { line: (line + 1) as usize, column: 0 })
                } else {
                    final(self).lines@ == old(self).lines@ && final(self).cursor == old(self).cursor
                }
            }),
            final(self).id == old(self).id,
            final(self).start_line == old(self).start_line,
            final(self).lsp_server_name == old(self).lsp_server_name,
            final(self).version == old(self).version,
            final(self).semantic_tokens == old(self).semantic_tokens,
            final(self).mark_origin == old(self).mark_origin,
    {
        if self.cursor.line < self.lines.len() {
            let col = self.cursor.column;
            let cur_line = self.cursor.line;
            let line_ref = &mut self.lines[cur_line];
            let rest: Vec<char> = line_ref.split_off(col);
            self.cursor.line = cur_line + 1;
            self.cursor.column = 0;
            self.lines.insert(cur_line + 1, rest);
        }
    }
}

/// Lines joined by a newline character.
pub open spec fn joined_text(ls: Seq<Seq<char>>) -> Seq<char>
    decreases ls.len(),
{
    if ls.len() == 0 {
        Seq::empty()
    } else if ls.len() == 1 {
        ls[0]
    } else {
        joined_text(ls.drop_last()) + seq!['\n'] + ls.last()
    }
}


impl Buffer {
    /// Moves the cursor to the given absolute coordinates, clamping the
    /// row to just past the last line and the column to the row's length;
    /// an absent coordinate is kept.  Setting the row scrolls the view so
    /// the cursor stays within a screen of the first shown line.
    pub fn set_cursor(&mut self, row: Option<u32>, col: Option<u32>, terminal_size: TerminalSize)
        requires
            old(self).wf(),
        ensures
            final(self).wf(),
            final(self).lines == old(self).lines,
            final(self).id == old(self).id,
            final(self).lsp_server_name == old(self).lsp_server_name,
            final(self).version == old(self).version,
            final(self).semantic_tokens == old(self).semantic_tokens,
            final(self).mark_origin == old(self).mark_origin,
            (
                final(self).cursor.line as int,
                final(self).cursor.column as int,
                final(self).start_line as int,
            ) == set_cursor_result(*old(self), row, col, terminal_size),
            ({
                let nl = match row {
                    Some(r) => if old(self).lines@.len() <= r as int {
                        old(self).lines@.len() as int
                    } else {
                        r as int
                    },
                    None => old(self).cursor.line as int,
                };
                &&& final(self).cursor.line == nl
                &&& (match row {
                    Some(r) => {
                        let h = terminal_size.height as int;
                        if nl >= old(self).start_line && nl - old(self).start_line > h {
                            final(self).start_line == nl - h / 2
                        } else {
                            final(self).start_line == old(self).start_line
                        }
                    },
                    None => final(self).start_line == old(self).start_line,
                })
                &&& (match col {
                    Some(c) => {
                        let linelen: int = if nl < old(self).lines@.len() {
                            old(self).lines@[nl]@.len() as int
                        } else {
                            0
                        };
                        final(self).cursor.column == (if linelen <= c as int {
                            linelen
                        } else {
                            c as int
                        })
                    },
                    None => ({
                        &&& (row is None ==> final(self).cursor.column == old(self).cursor.column)
                        &&& (row is Some ==> final(self).cursor.column == 0)
                    }),
                })
            }),
    {
        if let Some(r) = row {
            let want: usize = if r as usize as u32 == r {
                r as usize
            } else {
                usize::MAX
            };
            self.cursor.line = if self.lines.len() <= want {
                self.lines.len()
            } else {
                want
            };
            // keep an out-of-date column from pointing past the new line
            self.cursor.column = 0;
            if self.cursor.line >= self.start_line && self.cursor.line - self.start_line
                > terminal_size.height as usize {
                self.start_line = self.cursor.line - terminal_size.height as usize / 2;
            }
        }
        if let Some(c) = col {
            let line_len: usize = if self.cursor.line < self.lines.len() {
                self.lines[self.cursor.line].len()
            } else {
                0
            };
            let want: usize = if c as usize as u32 == c {
                c as usize
            } else {
                usize::MAX
            };
            self.cursor.column = if line_len <= want {
                line_len
            } else {
                want
            };
        }
    }

    /// Moves the cursor by a relative amount, clamping the row to the last
    /// line and the column to the row's length, and scrolls the first
    /// shown line by one when the cursor leaves the screen.
    pub fn move_cursor(&mut self, delta: CursorDelta, terminal_size: TerminalSize)
        requires
            old(self).wf(),
        ensures
            final(self).wf(),
            final(self).lines == old(self).lines,
            final(self).id == old(self).id,
            final(self).lsp_server_name == old(self).lsp_server_name,
            final(self).version == old(self).version,
            final(self).semantic_tokens == old(self).semantic_tokens,
            final(self).mark_origin == old(self).mark_origin,
            (
                final(self).cursor.line as int,
                final(self).cursor.column as int,
                final(self).start_line as int,
            ) == move_cursor_result(*old(self), delta, terminal_size),
            ({
                let last: int = if old(self).lines@.len() == 0 {
                    0
                } else {
                    old(self).lines@.len() - 1
                };
                let moved: int = old(self).cursor.line + delta.y;
                let nl: int = if moved < 0 {
                    0
                } else if moved > last {
                    last
                } else {
                    moved
                };
                &&& final(self).cursor.line == nl
                &&& ({
                    let s0: int = if nl < old(self).start_line {
                        if old(self).start_line > 0 {
                            old(self).start_line - 1
                        } else {
                            0
                        }
                    } else {
                        old(self).start_line as int
                    };
                    let h = terminal_size.height as int;
                    final(self).start_line == (if nl >= s0 && nl - s0 > h && s0 < usize::MAX {
                        s0 + 1
                    } else {
                        s0
                    })
                })
                &&& ({
                    let linelen: int = if nl < old(self).lines@.len() {
                        old(self).lines@[nl]@.len() as int
                    } else {
                        0
                    };
                    let movedc: int = old(self).cursor.column + delta.x;
                    let clamped: int = if movedc < 0 {
                        0
                    } else {
                        movedc
                    };
                    final(self).cursor.column == (if clamped > linelen {
                        linelen
                    } else {
                        clamped
                    })
                })
            }),
    {
        let last: usize = if self.lines.len() == 0 {
            0
        } else {
            self.lines.len() - 1
        };
        let line0 = self.cursor.line;
        let nl: usize = if delta.y >= 0 {
            let dy = delta.y as usize;
            if line0 > last || dy > last - line0 {
                last
            } else {
                line0 + dy
            }
        } else {
            let dy: usize = if delta.y == isize::MIN {
                (isize::MAX as usize) + 1
            } else {
                (-delta.y) as usize
            };
            let moved_down: usize = if line0 >= dy {
                line0 - dy
            } else {
                0
            };
            if moved_down > last {
                last
            } else {
                moved_down
            }
        };
        self.cursor.line = nl;
        if self.cursor.line < self.start_line {
            if self.start_line > 0 {
                self.start_line = self.start_line - 1;
            }
        }
        if self.cursor.line >= self.start_line && self.cursor.line - self.start_line
            > terminal_size.height as usize && self.start_line < usize::MAX {
            self.start_line = self.start_line + 1;
        }
        let linelen: usize = if self.cursor.line < self.lines.len() {
            self.lines[self.cursor.line].len()
        } else {
            0
        };
        let col0 = self.cursor.column;
        let nc: usize = if delta.x >= 0 {
            let dx = delta.x as usize;
            if col0 > linelen || dx > linelen - col0 {
                linelen
            } else {
                col0 + dx
            }
        } else {
            let dx: usize = if delta.x == isize::MIN {
                (isize::MAX as usize) + 1
            } else {
                (-delta.x) as usize
            };
            let moved_left: usize = if col0 >= dx {
                col0 - dx
            } else {
                0
            };
            if moved_left > linelen {
                linelen
            } else {
                moved_left
            }
        };
        self.cursor.column = nc;
    }
}


impl Buffer {
    /// Deletes one character leftwards.  Inside a line the character
    /// before the cursor goes; at the start of an empty line the line
    /// goes; at the start of a non-empty line the last character of the
    /// previous line goes, with the cursor landing where it was.  At the
    /// very start of the buffer, and with the cursor hanging past the last
    /// line, nothing happens.
    pub fn backspace_char(&mut self)
        requires
            old(self).wf(),
        ensures
            final(self).wf(),
            backspace_rel(*old(self), *final(self)),
            final(self).id == old(self).id,
            final(self).start_line == old(self).start_line,
            final(self).lsp_server_name == old(self).lsp_server_name,
            final(self).version == old(self).version,
            final(self).semantic_tokens == old(self).semantic_tokens,
            final(self).mark_origin == old(self).mark_origin,
            ({
                let ls = old(self).lines@;
                let line = old(self).cursor.line as int;
                let col = old(self).cursor.column as int;
                if line >= ls.len() {
                    final(self).lines@ == ls && final(self).cursor == old(self).cursor
                } else if col > 0 {
                    final(self).lines@.len() == ls.len() && final(self).lines@[line]@
                        == ls[line]@.remove(col - 1) && (forall|j: int|
                        0 <= j < ls.len() && j != line ==> (#[trigger] final(self).lines@[j])@
                            == ls[j]@) && final(self).cursor == (Cursor {
                        line: line as usize,
                        column: (col - 1) as usize,
                    })
                } else if ls[line]@.len() == 0 {
                    let nl: int = if line > 0 {
                        line - 1
                    } else {
                        0
                    };
                    final(self).lines@ == ls.remove(line) && final(self).cursor.line == nl
                        && final(self).cursor.column as int == (if nl < ls.remove(line).len() {
                        ls.remove(line)[nl]@.len() as int
                    } else {
                        0
                    })
                } else if line > 0 {
                    if ls[line - 1]@.len() > 0 {
                        final(self).lines@.len() == ls.len() && final(self).lines@[line - 1]@
                            == ls[line - 1]@.drop_last() && (forall|j: int|
                            0 <= j < ls.len() && j != line - 1 ==> (
                            #[trigger] final(self).lines@[j])@ == ls[j]@) && final(self).cursor
                            == (Cursor {
                            line: (line - 1) as usize,
                            column: (ls[line - 1]@.len() - 1) as usize,
                        })
                    } else {
                        final(self).lines@ == ls.remove(line - 1) && final(self).cursor == (Cursor {
                            line: (if line >= 2 {
                                line - 2
                            } else {
                                0
                            }) as usize,
                            column: (if line >= 2 {
                                ls[line - 2]@.len() as int
                            } else {
                                ls[1]@.len() as int
                            }) as usize,
                        })
                    }
                } else {
                    final(self).lines@ == ls && final(self).cursor == old(self).cursor
                }
            }),
    {
        if self.cursor.line >= self.lines.len() {
            return ;
        }
        let line = self.cursor.line;
        let col = self.cursor.column;
        if col > 0 {
            let line_ref = &mut self.lines[line];
            line_ref.remove(col - 1);
            self.cursor.column = col - 1;
            proof {
                assert(self.lines@[line as int]@ =~= old(self).lines@[line as int]@.remove(
                    col - 1,
                ));
            }
            return ;
        }
        if self.lines[line].len() == 0 {
            self.lines.remove(line);
            let nl: usize = if line > 0 {
                line - 1
            } else {
                0
            };
            self.cursor.line = nl;
            self.cursor.column = if nl < self.lines.len() {
                self.lines[nl].len()
            } else {
                0
            };
            return ;
        }
        if line > 0 {
            let prev_len = self.lines[line - 1].len();
            if prev_len > 0 {
                let prev_ref = &mut self.lines[line - 1];
                prev_ref.remove(prev_len - 1);
                self.cursor.line = line - 1;
                self.cursor.column = prev_len - 1;
                proof {
                    assert(self.lines@[line - 1]@ =~= old(self).lines@[line - 1]@.drop_last());
                }
            } else {
                self.lines.remove(line - 1);
                if line >= 2 {
                    self.cursor.line = line - 2;
                    self.cursor.column = self.lines[line - 2].len();
                    proof {
                        assert(self.lines@[line - 2] == old(self).lines@[line - 2]);
                    }
                } else {
                    self.cursor.line = 0;
                    self.cursor.column = self.lines[0].len();
                    proof {
                        assert(self.lines@[0] == old(self).lines@[1]);
                    }
                }
            }
        }
    }
}


/// The region's positions exist in the buffer.
pub open spec fn region_valid(ls: Seq<Seq<char>>, r: BufferRegion) -> bool {
    &&& pos_le(r.start, r.end)
    &&& (r.end.row as int) < ls.len()
    &&& r.start.col <= ls[r.start.row as int].len()
    &&& r.end.col <= ls[r.end.row as int].len()
}

/// The text covered by the region, one sequence per spanned row; the
/// first and last may be partial rows.
pub open spec fn region_lines(ls: Seq<Seq<char>>, r: BufferRegion) -> Seq<Seq<char>> {
    if r.start.row == r.end.row {
        seq![ls[r.start.row as int].subrange(r.start.col as int, r.end.col as int)]
    } else {
        seq![ls[r.start.row as int].skip(r.start.col as int)] + ls.subrange(
            r.start.row + 1,
            r.end.row as int,
        ) + seq![ls[r.end.row as int].take(r.end.col as int)]
    }
}

/// The buffer's lines with the region deleted: what precedes the region
/// on its first row is glued to what follows it on its last row.
pub open spec fn region_removed(ls: Seq<Seq<char>>, r: BufferRegion) -> Seq<Seq<char>> {
    ls.take(r.start.row as int) + seq![
        ls[r.start.row as int].take(r.start.col as int) + ls[r.end.row as int].skip(
            r.end.col as int,
        ),
    ] + ls.skip(r.end.row + 1)
}

/// The buffer's lines with the clip spliced in at position `(row, col)`:
/// the clip's first row continues the text before the split and its last
/// row is continued by the text after it.
pub open spec fn lines_spliced(ls: Seq<Seq<char>>, row: int, col: int, clip: Seq<Seq<char>>) -> Seq<
    Seq<char>,
> {
    if clip.len() == 1 {
        ls.update(row, ls[row].take(col) + clip[0] + ls[row].skip(col))
    } else {
        ls.take(row) + seq![ls[row].take(col) + clip[0]] + clip.subrange(1, clip.len() - 1) + seq![
            clip.last() + ls[row].skip(col),
        ] + ls.skip(row + 1)
    }
}

fn clone_chars(v: &Vec<char>) -> (r: Vec<char>)
    ensures
        r@ == v@,
{
    sub_chars(v, 0, v.len())
}

fn sub_chars(v: &Vec<char>, lo: usize, hi: usize) -> (r: Vec<char>)
    requires
        lo <= hi <= v@.len(),
    ensures
        r@ == v@.subrange(lo as int, hi as int),
{
    let mut r: Vec<char> = Vec::new();
    let mut k: usize = lo;
    while k < hi
        invariant
            lo <= k <= hi <= v@.len(),
            r@ == v@.subrange(lo as int, k as int),
        decreases hi - k,
    {
        r.push(v[k]);
        assert(r@ =~= v@.subrange(lo as int, k + 1));
        k = k + 1;
    }
    r
}

fn extend_chars(dst: &mut Vec<char>, src: &Vec<char>, lo: usize, hi: usize)
    requires
        lo <= hi <= src@.len(),
    ensures
        final(dst)@ == old(dst)@ + src@.subrange(lo as int, hi as int),
{
    let mut k: usize = lo;
    while k < hi
        invariant
            lo <= k <= hi <= src@.len(),
            dst@ == old(dst)@ + src@.subrange(lo as int, k as int),
        decreases hi - k,
    {
        dst.push(src[k]);
        assert(dst@ =~= old(dst)@ + src@.subrange(lo as int, k + 1));
        k = k + 1;
    }
}

impl Buffer {
    /// Whether the region's positions exist in this buffer's lines.
    pub fn region_is_valid(&self, r: BufferRegion) -> (b: bool)
        ensures
            b == region_valid(self.lines.deep_view(), r),
    {
        let ghost ls = self.lines.deep_view();
        if !(r.start.row < r.end.row || (r.start.row == r.end.row && r.start.col <= r.end.col)) {
            return false;
        }
        if !(r.end.row < self.lines.len()) {
            return false;
        }
        proof {
            assert(ls[r.start.row as int] == self.lines@[r.start.row as int]@);
            assert(ls[r.end.row as int] == self.lines@[r.end.row as int]@);
        }
        r.start.col <= self.lines[r.start.row].len() && r.end.col <= self.lines[r.end.row].len()
    }

    /// Copies the region's text out of the buffer, one row per element;
    /// `None` when the region's positions do not exist.
    pub fn copy_region(&self, r: BufferRegion) -> (c: Option<Vec<Vec<char>>>)
        ensures
            ({
                let ls = self.lines.deep_view();
                match c {
                    Some(clip) => region_valid(ls, r) && clip.deep_view() == region_lines(ls, r)
                        && clip@.len() >= 1,
                    None => !region_valid(ls, r),
                }
            }),
    {
        let ghost ls = self.lines.deep_view();
        if !self.region_is_valid(r) {
            return None;
        }
        proof {
            assert(forall|i: int| 0 <= i < ls.len() ==> #[trigger] ls[i] == self.lines@[i]@);
        }
        let mut clip: Vec<Vec<char>> = Vec::new();
        if r.start.row == r.end.row {
            clip.push(sub_chars(&self.lines[r.start.row], r.start.col, r.end.col));
            proof {
                assert(clip.deep_view() =~~= region_lines(ls, r));
            }
            return Some(clip);
        }
        clip.push(sub_chars(&self.lines[r.start.row], r.start.col, self.lines[r.start.row].len()));
        proof {
            assert(clip@[0]@ =~= ls[r.start.row as int].skip(r.start.col as int));
        }
        let mut row: usize = r.start.row + 1;
        while row < r.end.row
            invariant
                r.start.row < row <= r.end.row,
                ls == self.lines.deep_view(),
                region_valid(ls, r),
                (r.end.row as int) < ls.len(),
                clip@.len() == row - r.start.row,
                clip@[0]@ == ls[r.start.row as int].skip(r.start.col as int),
                forall|i: int| 1 <= i < clip@.len() ==> (#[trigger] clip@[i])@
                    == ls[r.start.row + i],
        decreases r.end.row - row,
        {
            clip.push(clone_chars(&self.lines[row]));
            proof {
                assert(clip@.last()@ =~= ls[row as int]);
            }
            row = row + 1;
        }
        clip.push(sub_chars(&self.lines[r.end.row], 0, r.end.col));
        proof {
            assert(clip@.last()@ =~= ls[r.end.row as int].take(r.end.col as int));
            assert(clip.deep_view() =~~= region_lines(ls, r));
        }
        Some(clip)
    }

    /// Deletes the region's text and puts the cursor at the region's
    /// start; with positions that do not exist, nothing happens.
    pub fn remove_region(&mut self, r: BufferRegion) -> (removed: bool)
        requires
            old(self).wf(),
        ensures
            final(self).wf(),
            final(self).id == old(self).id,
            final(self).start_line == old(self).start_line,
            final(self).lsp_server_name == old(self).lsp_server_name,
            final(self).version == old(self).version,
            final(self).semantic_tokens == old(self).semantic_tokens,
            final(self).mark_origin == old(self).mark_origin,
            removed == region_valid(old(self).lines.deep_view(), r),
            ({
                let ls = old(self).lines.deep_view();
                if region_valid(ls, r) {
                    final(self).lines.deep_view() == region_removed(ls, r) && final(self).cursor
                        == (Cursor { line: r.start.row, column: r.start.col })
                } else {
                    final(self).lines == old(self).lines && final(self).cursor == old(self).cursor
                }
            }),
    {
        let ghost ls = self.lines.deep_view();
        if !self.region_is_valid(r) {
            return false;
        }
        proof {
            assert(forall|i: int| 0 <= i < ls.len() ==> #[trigger] ls[i] == self.lines@[i]@);
        }
        let mut out: Vec<Vec<char>> = Vec::new();
        let mut row: usize = 0;
        while row < r.start.row
            invariant
                row <= r.start.row,
                ls == self.lines.deep_view(),
                region_valid(ls, r),
                *self == *old(self),
                out@.len() == row,
                forall|i: int| 0 <= i < out@.len() ==> (#[trigger] out@[i])@ == ls[i],
        decreases r.start.row - row,
        {
            out.push(clone_chars(&self.lines[row]));
            proof {
                assert(out@.last()@ =~= ls[row as int]);
            }
            row = row + 1;
        }
        let mut merged = sub_chars(&self.lines[r.start.row], 0, r.start.col);
        extend_chars(&mut merged, &self.lines[r.end.row], r.end.col, self.lines[r.end.row].len());
        proof {
            assert(merged@ =~= ls[r.start.row as int].take(r.start.col as int) + ls[
                r.end.row as int
            ].skip(r.end.col as int));
        }
        out.push(merged);
        let ghost mid_len = out@.len();
        let nlines = self.lines.len();
        let mut row2: usize = r.end.row + 1;
        while row2 < self.lines.len()
            invariant
                r.end.row < row2 <= self.lines@.len(),
                ls == self.lines.deep_view(),
                region_valid(ls, r),
                *self == *old(self),
                mid_len == r.start.row + 1,
                out@.len() == mid_len + (row2 - r.end.row - 1),
                forall|i: int| 0 <= i < r.start.row ==> (#[trigger] out@[i])@ == ls[i],
                out@[r.start.row as int]@ == ls[r.start.row as int].take(
                    r.start.col as int,
                ) + ls[r.end.row as int].skip(r.end.col as int),
                forall|i: int| mid_len <= i < out@.len() ==> (#[trigger] out@[i])@ == ls[
                    i - mid_len + r.end.row + 1
                ],
        decreases self.lines@.len() - row2,
        {
            out.push(clone_chars(&self.lines[row2]));
            proof {
                assert(out@.last()@ =~= ls[row2 as int]);
            }
            row2 = row2 + 1;
        }
        proof {
            assert(out.deep_view() =~~= region_removed(ls, r));
        }
        self.lines = out;
        self.cursor.line = r.start.row;
        self.cursor.column = r.start.col;
        proof {
            let newls = region_removed(ls, r);
            assert(newls[r.start.row as int] == ls[r.start.row as int].take(r.start.col as int)
                + ls[r.end.row as int].skip(r.end.col as int));
            assert(self.lines@[r.start.row as int]@ == newls[r.start.row as int]);
        }
        true
    }

    /// Splices clipboard rows in at the cursor and puts the cursor after
    /// the pasted text.  Nothing happens when the cursor hangs past the
    /// last line, when the clip is empty, or when the result would not fit
    /// in memory.
    pub fn insert_lines(&mut self, clip: &Vec<Vec<char>>) -> (pasted: bool)
        requires
            old(self).wf(),
        ensures
            final(self).wf(),
            final(self).id == old(self).id,
            final(self).start_line == old(self).start_line,
            final(self).lsp_server_name == old(self).lsp_server_name,
            final(self).version == old(self).version,
            final(self).semantic_tokens == old(self).semantic_tokens,
            final(self).mark_origin == old(self).mark_origin,
            pasted == (clip@.len() >= 1 && old(self).cursor.line < old(self).lines@.len() && (
            if clip@.len() == 1 {
                old(self).lines@[old(self).cursor.line as int]@.len() + clip@[0]@.len()
                    <= usize::MAX
            } else {
                old(self).lines@.len() + clip@.len() <= usize::MAX
            })),
            !pasted ==> final(self).lines == old(self).lines && final(self).cursor == old(
                self,
            ).cursor,
            pasted ==> ({
                let ls = old(self).lines.deep_view();
                let row = old(self).cursor.line as int;
                let col = old(self).cursor.column as int;
                &&& clip@.len() >= 1
                &&& row < ls.len()
                &&& final(self).lines.deep_view() == lines_spliced(ls, row, col, clip.deep_view())
                &&& final(self).cursor.line == row + clip@.len() - 1
                &&& final(self).cursor.column == (if clip@.len() == 1 {
                    col + clip.deep_view()[0].len()
                } else {
                    clip.deep_view().last().len() as int
                })
            }),
    {
        let ghost ls = self.lines.deep_view();
        let ghost cl = clip.deep_view();
        if clip.len() == 0 || self.cursor.line >= self.lines.len() {
            return false;
        }
        let row = self.cursor.line;
        let col = self.cursor.column;
        proof {
            assert(forall|i: int| 0 <= i < ls.len() ==> #[trigger] ls[i] == self.lines@[i]@);
            assert(forall|i: int| 0 <= i < cl.len() ==> #[trigger] cl[i] == clip@[i]@);
        }
        if clip.len() == 1 {
            if usize::MAX - clip[0].len() < self.lines[row].len() {
                return false;
            }
            let mut line = sub_chars(&self.lines[row], 0, col);
            extend_chars(&mut line, &clip[0], 0, clip[0].len());
            extend_chars(&mut line, &self.lines[row], col, self.lines[row].len());
            proof {
                assert(line@ =~= ls[row as int].take(col as int) + cl[0] + ls[row as int].skip(
                    col as int,
                ));
            }
            let newcol = col + clip[0].len();
            self.lines[row] = line;
            self.cursor.column = newcol;
            proof {
                assert(self.lines.deep_view() =~~= lines_spliced(ls, row as int, col as int, cl));
            }
            return true;
        }
        if usize::MAX - clip.len() < self.lines.len() {
            return false;
        }
        let mut out: Vec<Vec<char>> = Vec::new();
        let mut i: usize = 0;
        while i < row
            invariant
                i <= row,
                row < self.lines@.len(),
                ls == self.lines.deep_view(),
                *self == *old(self),
                out@.len() == i,
                forall|j: int| 0 <= j < out@.len() ==> (#[trigger] out@[j])@ == ls[j],
        decreases row - i,
        {
            out.push(clone_chars(&self.lines[i]));
            proof {
                assert(out@.last()@ =~= ls[i as int]);
            }
            i = i + 1;
        }
        let mut first = sub_chars(&self.lines[row], 0, col);
        extend_chars(&mut first, &clip[0], 0, clip[0].len());
        proof {
            assert(first@ =~= ls[row as int].take(col as int) + cl[0]);
        }
        out.push(first);
        proof {
            assert(out@.last()@ == ls[row as int].take(col as int) + cl[0]);
        }
        let ghost head_len = out@.len();
        let mut k: usize = 1;
        while k < clip.len() - 1
            invariant
                1 <= k <= clip@.len() - 1,
                row < self.lines@.len(),
                col <= ls[row as int].len(),
                ls == self.lines.deep_view(),
                cl == clip.deep_view(),
                cl.len() == clip@.len(),
                *self == *old(self),
                head_len == row + 1,
                out@.len() == head_len + k - 1,
                forall|j: int| 0 <= j < row ==> (#[trigger] out@[j])@ == ls[j],
                out@[row as int]@ == ls[row as int].take(col as int) + cl[0],
                forall|j: int| head_len <= j < out@.len() ==> (#[trigger] out@[j])@ == cl[
                    j - head_len + 1
                ],
        decreases clip@.len() - k,
        {
            out.push(clone_chars(&clip[k]));
            proof {
                assert(out@.last()@ =~= cl[k as int]);
            }
            k = k + 1;
        }
        let lastidx = clip.len() - 1;
        let mut last = sub_chars(&clip[lastidx], 0, clip[lastidx].len());
        extend_chars(&mut last, &self.lines[row], col, self.lines[row].len());
        proof {
            assert(last@ =~= cl.last() + ls[row as int].skip(col as int));
        }
        out.push(last);
        proof {
            assert(out@.last()@ == cl.last() + ls[row as int].skip(col as int));
        }
        let ghost tail_start = out@.len();
        let mut t: usize = row + 1;
        while t < self.lines.len()
            invariant
                row < t <= self.lines@.len(),
                col <= ls[row as int].len(),
                ls == self.lines.deep_view(),
                cl == clip.deep_view(),
                cl.len() == clip@.len(),
                cl.len() >= 2,
                *self == *old(self),
                head_len == row + 1,
                tail_start == row + cl.len(),
                out@.len() == tail_start + (t - row - 1),
                forall|j: int| 0 <= j < row ==> (#[trigger] out@[j])@ == ls[j],
                out@[row as int]@ == ls[row as int].take(col as int) + cl[0],
                forall|j: int| head_len <= j < tail_start - 1 ==> (#[trigger] out@[j])@
                    == cl[j - head_len + 1],
                out@[tail_start - 1]@ == cl.last() + ls[row as int].skip(col as int),
                forall|j: int| tail_start <= j < out@.len() ==> (#[trigger] out@[j])@ == ls[
                    j - tail_start + row + 1
                ],
        decreases self.lines@.len() - t,
        {
            out.push(clone_chars(&self.lines[t]));
            proof {
                assert(out@.last()@ =~= ls[t as int]);
            }
            t = t + 1;
        }
        proof {
            assert(out.deep_view() =~~= lines_spliced(ls, row as int, col as int, cl));
        }
        self.lines = out;
        self.cursor.line = row + lastidx;
        self.cursor.column = clip[lastidx].len();
        proof {
            let newls = lines_spliced(ls, row as int, col as int, cl);
            assert(self.lines@[row + cl.len() - 1]@ == newls[row + cl.len() - 1]);
            assert(newls[row + cl.len() - 1] == cl.last() + ls[row as int].skip(col as int));
        }
        true
    }
}


/// Where `set_cursor` lands: `(line, column, start_line)`.
pub open spec fn set_cursor_result(b: Buffer, row: Option<u32>, col: Option<u32>, ts: TerminalSize) -> (
    int,
    int,
    int,
) {
    let nl: int = match row {
        Some(r) => if b.lines@.len() <= r as int {
            b.lines@.len() as int
        } else {
            r as int
        },
        None => b.cursor.line as int,
    };
    let ns: int = match row {
        Some(r) => {
            let h = ts.height as int;
            if nl >= b.start_line && nl - b.start_line > h {
                nl - h / 2
            } else {
                b.start_line as int
            }
        },
        None => b.start_line as int,
    };
    let nc: int = match col {
        Some(c) => {
            let linelen: int = if nl < b.lines@.len() {
                b.lines@[nl]@.len() as int
            } else {
                0
            };
            if linelen <= c as int {
                linelen
            } else {
                c as int
            }
        },
        None => if row is None {
            b.cursor.column as int
        } else {
            0
        },
    };
    (nl, nc, ns)
}

/// Where `move_cursor` lands: `(line, column, start_line)`.
pub open spec fn move_cursor_result(b: Buffer, delta: CursorDelta, ts: TerminalSize) -> (
    int,
    int,
    int,
) {
    let last: int = if b.lines@.len() == 0 {
        0
    } else {
        b.lines@.len() - 1
    };
    let moved: int = b.cursor.line + delta.y;
    let nl: int = if moved < 0 {
        0
    } else if moved > last {
        last
    } else {
        moved
    };
    let s0: int = if nl < b.start_line {
        if b.start_line > 0 {
            b.start_line - 1
        } else {
            0
        }
    } else {
        b.start_line as int
    };
    let h = ts.height as int;
    let ns: int = if nl >= s0 && nl - s0 > h && s0 < usize::MAX {
        s0 + 1
    } else {
        s0
    };
    let linelen: int = if nl < b.lines@.len() {
        b.lines@[nl]@.len() as int
    } else {
        0
    };
    let movedc: int = b.cursor.column + delta.x;
    let clamped: int = if movedc < 0 {
        0
    } else {
        movedc
    };
    let nc: int = if clamped > linelen {
        linelen
    } else {
        clamped
    };
    (nl, nc, ns)
}


/// How `insert_char` relates the new buffer to the old one.
pub open spec fn insert_char_rel(ob: Buffer, nb: Buffer, c: char) -> bool {
    &&& ({
        let line = ob.cursor.line as int;
        let col = ob.cursor.column as int;
        if line < ob.lines@.len() && ob.lines@[line]@.len() < usize::MAX {
            nb.lines@.len() == ob.lines@.len() && nb.lines@[line]@ == ob.lines@[line]@.insert(
                col,
                c,
            ) && (forall|j: int| 0 <= j < ob.lines@.len() && j != line
                ==> (#[trigger] nb.lines@[j])@ == ob.lines@[j]@) && nb.cursor == (Cursor {
                line: ob.cursor.line,
                column: (col + 1) as usize,
            })
        } else {
            nb.lines@ == ob.lines@ && nb.cursor == ob.cursor
        }
    })
    &&& nb.id == ob.id
    &&& nb.start_line == ob.start_line
    &&& nb.lsp_server_name == ob.lsp_server_name
    &&& nb.version == ob.version
    &&& nb.semantic_tokens == ob.semantic_tokens
    &&& nb.mark_origin == ob.mark_origin
}

/// How `insert_newline` relates the new buffer to the old one.
pub open spec fn insert_newline_rel(ob: Buffer, nb: Buffer) -> bool {
    &&& ({
        let line = ob.cursor.line as int;
        let col = ob.cursor.column as int;
        if line < ob.lines@.len() {
            nb.lines@.len() == ob.lines@.len() + 1 && nb.lines@[line]@ == ob.lines@[line]@.take(
                col,
            ) && nb.lines@[line + 1]@ == ob.lines@[line]@.skip(col) && (forall|j: int|
                0 <= j < line ==> (#[trigger] nb.lines@[j])@ == ob.lines@[j]@) && (forall|j: int|
                line + 1 < j < nb.lines@.len() ==> (#[trigger] nb.lines@[j])@ == ob.lines@[j - 1]@)
                && nb.cursor == (Cursor { line: (line + 1) as usize, column: 0 })
        } else {
            nb.lines@ == ob.lines@ && nb.cursor == ob.cursor
        }
    })
    &&& nb.id == ob.id
    &&& nb.start_line == ob.start_line
    &&& nb.lsp_server_name == ob.lsp_server_name
    &&& nb.version == ob.version
    &&& nb.semantic_tokens == ob.semantic_tokens
    &&& nb.mark_origin == ob.mark_origin
}

/// How `backspace_char` relates the new buffer to the old one.
pub open spec fn backspace_rel(ob: Buffer, nb: Buffer) -> bool {
    &&& ({
        let ls = ob.lines@;
        let line = ob.cursor.line as int;
        let col = ob.cursor.column as int;
        if line >= ls.len() {
            nb.lines@ == ls && nb.cursor == ob.cursor
        } else if col > 0 {
            nb.lines@.len() == ls.len() && nb.lines@[line]@ == ls[line]@.remove(col - 1) && (
            forall|j: int| 0 <= j < ls.len() && j != line ==> (#[trigger] nb.lines@[j])@ == ls[j]@)
                && nb.cursor == (Cursor { line: line as usize, column: (col - 1) as usize })
        } else if ls[line]@.len() == 0 {
            let nl: int = if line > 0 {
                line - 1
            } else {
                0
            };
            nb.lines@ == ls.remove(line) && nb.cursor.line == nl && nb.cursor.column as int == (
            if nl < ls.remove(line).len() {
                ls.remove(line)[nl]@.len() as int
            } else {
                0
            })
        } else if line > 0 {
            if ls[line - 1]@.len() > 0 {
                nb.lines@.len() == ls.len() && nb.lines@[line - 1]@ == ls[line - 1]@.drop_last()
                    && (forall|j: int| 0 <= j < ls.len() && j != line - 1
                    ==> (#[trigger] nb.lines@[j])@ == ls[j]@) && nb.cursor == (Cursor {
                    line: (line - 1) as usize,
                    column: (ls[line - 1]@.len() - 1) as usize,
                })
            } else {
                nb.lines@ == ls.remove(line - 1) && nb.cursor == (Cursor {
                    line: (if line >= 2 {
                        line - 2
                    } else {
                        0
                    }) as usize,
                    column: (if line >= 2 {
                        ls[line - 2]@.len() as int
                    } else {
                        ls[1]@.len() as int
                    }) as usize,
                })
            }
        } else {
            nb.lines@ == ls && nb.cursor == ob.cursor
        }
    })
    &&& nb.id == ob.id
    &&& nb.start_line == ob.start_line
    &&& nb.lsp_server_name == ob.lsp_server_name
    &&& nb.version == ob.version
    &&& nb.semantic_tokens == ob.semantic_tokens
    &&& nb.mark_origin == ob.mark_origin
}


/// Whether the position `(row, c)` lies inside the region.
pub open spec fn contains_at(region: BufferRegion, row: int, c: int) -> bool {
    (region.start.row < row || (region.start.row == row && region.start.col <= c)) && (row
        < region.end.row || (row == region.end.row && c < region.end.col))
}

/// Offset of the first position at or after `col` whose containment in
/// the region equals `want`, looking at most `len` positions ahead.
pub open spec fn first_flip(region: BufferRegion, row: int, col: int, len: int, want: bool) -> int
    decreases len,
    when len >= 0
{
    if len <= 0 {
        0
    } else if contains_at(region, row, col) == want {
        0
    } else {
        1 + first_flip(region, row, col + 1, len - 1, want)
    }
}

/// How one run of text starting at `(row, col)` splits against the marked
/// region: kept whole when wholly inside or wholly outside it, split at
/// the crossing otherwise, each piece flagged with whether it is marked.
pub open spec fn segment_split(
    region: BufferRegion,
    row: int,
    ty: Option<SemanticTokenType>,
    s: Seq<char>,
    col: int,
) -> Seq<(Option<SemanticTokenType>, bool, Seq<char>)> {
    let first_in = contains_at(region, row, col);
    let last_in = contains_at(region, row, col + s.len());
    if first_in && last_in {
        seq![(ty, true, s)]
    } else if first_in && !last_in {
        let i = first_flip(region, row, col, s.len() as int + 1, false);
        seq![(ty, true, s.take(i)), (ty, false, s.skip(i))]
    } else if !first_in && last_in {
        let i = first_flip(region, row, col, s.len() as int + 1, true);
        seq![(ty, false, s.take(i)), (ty, true, s.skip(i))]
    } else {
        seq![(ty, false, s)]
    }
}

/// The runs of row `row`, walked off the token list from index `i` with
/// `offset` characters already emitted: untyped gaps between tokens, the
/// tokens' own typed runs, and, at the first token past the row, the
/// untyped rest of the line.  A token that overlaps an earlier one or
/// overruns the line is skipped; a row whose tokens simply end gets no
/// trailing run.
pub open spec fn line_runs(
    region: BufferRegion,
    row: int,
    line: Seq<char>,
    tokens: Seq<SemanticToken>,
    i: int,
    offset: int,
) -> Seq<(Option<SemanticTokenType>, bool, Seq<char>)>
    decreases tokens.len() - i,
    when 0 <= i <= tokens.len() && 0 <= offset <= line.len()
{
    if i >= tokens.len() {
        Seq::empty()
    } else {
        let t = tokens[i];
        if (t.line as int) < row {
            line_runs(region, row, line, tokens, i + 1, offset)
        } else if t.line as int != row {
            segment_split(region, row, None, line.skip(offset), offset)
        } else if t.column < offset || t.column > line.len() || t.token_len > line.len()
            - t.column {
            line_runs(region, row, line, tokens, i + 1, offset)
        } else {
            (if offset < t.column {
                segment_split(region, row, None, line.subrange(offset, t.column as int), offset)
            } else {
                Seq::empty()
            }) + segment_split(
                region,
                row,
                Some(t.token_type),
                line.subrange(t.column as int, t.column + t.token_len),
                t.column as int,
            ) + line_runs(region, row, line, tokens, i + 1, t.column + t.token_len)
        }
    }
}

impl Buffer {
    /// The display runs of one row: the row's text cut at semantic-token
    /// boundaries and at the marked region's edges, each run carrying its
    /// token category (if any) and whether it lies in the marked region.
    /// A row without a later token to close it gets no trailing untyped
    /// run, and a missing row reads as empty.
    pub fn line_tokens(&self, linenum: usize) -> (r: Vec<(Option<SemanticTokenType>, bool, Vec<char>)>)
        requires
            self.wf(),
        ensures
            ({
                let region = marked_region_of(*self);
                let line: Seq<char> = if linenum < self.lines@.len() {
                    self.lines@[linenum as int]@
                } else {
                    Seq::empty()
                };
                r.deep_view() == line_runs(
                    region,
                    linenum as int,
                    line,
                    self.semantic_tokens@,
                    0,
                    0,
                )
            }),
    {
        let region = self.marked_region();
        let empty_line: Vec<char> = Vec::new();
        let line: &Vec<char> = if linenum < self.lines.len() {
            &self.lines[linenum]
        } else {
            &empty_line
        };
        let ghost ls: Seq<char> = line@;
        proof {
            if linenum >= self.lines@.len() {
                assert(ls =~= Seq::<char>::empty());
            }
        }
        let ghost toks = self.semantic_tokens@;
        let mut out: Vec<(Option<SemanticTokenType>, bool, Vec<char>)> = Vec::new();
        let mut offset: usize = 0;
        let mut i: usize = 0;
        let line_len = line.len();
        while i < self.semantic_tokens.len()
            invariant
                0 <= i <= toks.len(),
                toks == self.semantic_tokens@,
                0 <= offset <= ls.len(),
                ls == line@,
                ls == (if linenum < self.lines@.len() {
                    self.lines@[linenum as int]@
                } else {
                    Seq::<char>::empty()
                }),
                line_len == ls.len(),
                region == marked_region_of(*self),
                line_runs(region, linenum as int, ls, toks, 0, 0) == out.deep_view() + line_runs(
                    region,
                    linenum as int,
                    ls,
                    toks,
                    i as int,
                    offset as int,
                ),
        decreases toks.len() - i,
        {
            let t = self.semantic_tokens[i];
            if t.line < linenum {
                i = i + 1;
                continue ;
            }
            if t.line != linenum {
                let tail = sub_chars(line, offset, line_len);
                push_segment(&mut out, region, linenum, None, tail, offset);
                proof {
                    assert(ls.subrange(offset as int, ls.len() as int) =~= ls.skip(offset as int));
                    assert(out.deep_view() =~~= (line_runs(region, linenum as int, ls, toks, 0, 0)));
                }
                return out;
            }
            if t.column < offset || t.column > line_len || t.token_len > line_len - t.column {
                i = i + 1;
                continue ;
            }
            let ghost out0 = out.deep_view();
            let ghost off0 = offset as int;
            if offset < t.column {
                let gap = sub_chars(line, offset, t.column);
                push_segment(&mut out, region, linenum, None, gap, offset);
            }
            let body = sub_chars(line, t.column, t.column + t.token_len);
            push_segment(&mut out, region, linenum, Some(t.token_type), body, t.column);
            offset = t.column + t.token_len;
            proof {
                let gap_runs: Seq<(Option<SemanticTokenType>, bool, Seq<char>)> = if off0
                    < t.column {
                    segment_split(region, linenum as int, None, ls.subrange(off0, t.column as int), off0)
                } else {
                    Seq::empty()
                };
                let body_runs = segment_split(
                    region,
                    linenum as int,
                    Some(t.token_type),
                    ls.subrange(t.column as int, t.column + t.token_len),
                    t.column as int,
                );
                assert(out.deep_view() =~= (out0 + gap_runs) + body_runs);
                assert(line_runs(region, linenum as int, ls, toks, i as int, off0) == gap_runs
                    + body_runs + line_runs(region, linenum as int, ls, toks, i + 1, offset as int));
                assert(out0 + (gap_runs + body_runs + line_runs(
                    region,
                    linenum as int,
                    ls,
                    toks,
                    i + 1,
                    offset as int,
                )) =~= out.deep_view() + line_runs(region, linenum as int, ls, toks, i + 1, offset as int));
            }
            i = i + 1;
        }
        proof {
            assert(out.deep_view() + Seq::<(Option<SemanticTokenType>, bool, Seq<char>)>::empty()
                =~= out.deep_view());
        }
        out
    }
}

/// The ordered marked region of a buffer, as a spec value.
pub open spec fn marked_region_of(b: Buffer) -> BufferRegion {
    match b.mark_origin {
        None => BufferRegion {
            start: BufferPosition { row: 0, col: 0 },
            end: BufferPosition { row: 0, col: 0 },
        },
        Some(start) => {
            let cur = BufferPosition { row: b.cursor.line, col: b.cursor.column };
            if pos_le(start, cur) {
                BufferRegion { start, end: cur }
            } else {
                BufferRegion { start: cur, end: start }
            }
        },
    }
}

fn contains_at_exec(region: BufferRegion, row: usize, c: usize) -> (r: bool)
    ensures
        r == contains_at(region, row as int, c as int),
{
    (region.start.row < row || (region.start.row == row && region.start.col <= c)) && (row
        < region.end.row || (row == region.end.row && c < region.end.col))
}

/// Appends the marked/unmarked pieces of one run to the output.
fn push_segment(
    out: &mut Vec<(Option<SemanticTokenType>, bool, Vec<char>)>,
    region: BufferRegion,
    row: usize,
    ty: Option<SemanticTokenType>,
    s: Vec<char>,
    col: usize,
)
    requires
        col + s@.len() <= usize::MAX,
    ensures
        final(out).deep_view() == old(out).deep_view() + segment_split(
            region,
            row as int,
            ty,
            s@,
            col as int,
        ),
{
    let len = s.len();
    let first_in = contains_at_exec(region, row, col);
    let last_in = contains_at_exec(region, row, col + len);
    if first_in == last_in {
        out.push((ty, first_in, s));
        proof {
            assert(final(out).deep_view() =~~= old(out).deep_view() + segment_split(
                region,
                row as int,
                ty,
                s@,
                col as int,
            ));
        }
        return ;
    }
    // the region covers one contiguous span of the row, so there is a
    // single crossing, at or before the position just past the run
    let want = !first_in;
    let mut i: usize = 0;
    loop
        invariant_except_break
            0 <= i <= len,
            col + len <= usize::MAX,
            len == s@.len(),
            want == !first_in,
            contains_at(region, row as int, col + len as int) == want,
            first_flip(region, row as int, col as int, len + 1, want) == i + first_flip(
                region,
                row as int,
                col + i,
                len + 1 - i,
                want,
            ),
        ensures
            0 <= i <= len,
            contains_at(region, row as int, col + i as int) == want,
            first_flip(region, row as int, col as int, len + 1, want) == i,
        decreases len - i,
    {
        if contains_at_exec(region, row, col + i) == want {
            break ;
        }
        if i == len {
            proof {
                assert(contains_at(region, row as int, col + i as int) == want);
            }
            break ;
        }
        i = i + 1;
    }
    let cut = i;
    let ghost fi = first_flip(region, row as int, col as int, len + 1, want);
    let head = sub_chars(&s, 0, cut);
    let tail = sub_chars(&s, cut, len);
    out.push((ty, first_in, head));
    out.push((ty, want, tail));
    proof {
        assert(s@.subrange(0, fi) =~= s@.take(fi));
        assert(s@.subrange(fi, s@.len() as int) =~= s@.skip(fi));
        assert(final(out).deep_view() =~~= old(out).deep_view() + segment_split(
            region,
            row as int,
            ty,
            s@,
            col as int,
        ));
    }
}


} // verus!
