//! The editor state driven by the single-threaded event loop: open
//! buffers, the focused buffer, the redraw flag, the clipboard, the key
//! mapper, and the LSP client manager.  Every request handler is a plain
//! state transition; the caller performs the I/O each outcome asks for.
use vstd::prelude::*;

use crate::buffer::{Buffer, BufferId, BufferRegion, Cursor, CursorDelta, TerminalSize};
use crate::key_mapper::{KeyCode, KeyEvent, KeyMapper, TerminalEvent};
use crate::lsp::LspClientManager;
use crate::rpc::{MoveDeltaParams, MoveToParams, NotifySemanticTokensParams};

verus! {

/// Index of the first buffer with this identity, or `-1`.
pub open spec fn buffer_id_index(bs: Seq<Buffer>, name: Seq<char>, path: Seq<char>) -> int
    decreases bs.len(),
{
    if bs.len() == 0 {
        -1
    } else if bs[0].id.name@ == name && bs[0].id.path@ == path {
        0
    } else {
        let r = buffer_id_index(bs.drop_first(), name, path);
        if r < 0 {
            -1
        } else {
            r + 1
        }
    }
}

proof fn lemma_buffer_id_index_props(bs: Seq<Buffer>, name: Seq<char>, path: Seq<char>)
    ensures
        ({
            let r = buffer_id_index(bs, name, path);
            if r >= 0 {
                r < bs.len() && bs[r].id.name@ == name && bs[r].id.path@ == path && (forall|j: int|
                    0 <= j < r ==> !((#[trigger] bs[j]).id.name@ == name && bs[j].id.path@ == path))
            } else {
                forall|j: int| 0 <= j < bs.len() ==> !((#[trigger] bs[j]).id.name@ == name
                    && bs[j].id.path@ == path)
            }
        }),
    decreases bs.len(),
{
    if bs.len() == 0 {
    } else if bs[0].id.name@ == name && bs[0].id.path@ == path {
    } else {
        let b1 = bs.drop_first();
        lemma_buffer_id_index_props(b1, name, path);
        let r1 = buffer_id_index(b1, name, path);
        if r1 >= 0 {
            assert(bs[r1 + 1] == b1[r1]);
            assert forall|j: int| 0 <= j < r1 + 1 implies !((#[trigger] bs[j]).id.name@ == name
                && bs[j].id.path@ == path) by {
                if j > 0 {
                    assert(bs[j] == b1[j - 1]);
                }
            }
        } else {
            assert forall|j: int| 0 <= j < bs.len() implies !((#[trigger] bs[j]).id.name@ == name
                && bs[j].id.path@ == path) by {
                if j > 0 {
                    assert(bs[j] == b1[j - 1]);
                }
            }
        }
    }
}

/// What the event loop's caller must do after a handled request.
pub enum EditorOutcome {
    /// Nothing: the request was handled entirely in memory.
    Done,
    /// Write `text` to the focused buffer's file at `path`, then reply.
    NeedsSave {
        /// The file to write.
        path: String,
        /// The full text to write.
        text: String,
    },
    /// Read the file at `path` (or treat it as empty when new) and hand
    /// its lines to `finish_open`.
    NeedsOpen {
        /// The file to read.
        path: String,
    },
    /// Spawn the LSP server process; on success call `finish_start_lsp`,
    /// on failure reply with the spawn error.
    NeedsSpawn,
    /// Run the external command without waiting for it.
    NeedsCommand {
        /// Executable to run.
        path: String,
        /// Its arguments.
        args: Vec<String>,
    },
    /// Reply to the caller with this structured error.
    Fail {
        /// The error.
        error: crate::rpc::RpcError,
    },
    /// Leave the event loop.
    Exit,
}

/// The editor's in-memory state.
pub struct Editor {
    /// Set by an `Exit` request; the event loop stops at the next turn.
    pub exit: bool,
    /// The open buffers.
    pub buffers: Vec<Buffer>,
    /// The focused buffer's identity, if one is open.
    pub current_buffer_id: Option<BufferId>,
    /// Set by state-changing handlers; the caller renders and clears it.
    pub needs_redraw: bool,
    /// The terminal's current size.
    pub terminal_size: TerminalSize,
    /// The chord-to-request mapping.
    pub key_mapper: KeyMapper,
    /// The last copied or cut region, one row per element.
    pub clipboard: Option<Vec<Vec<char>>>,
    /// The LSP clients.
    pub lsp_client_manager: LspClientManager,
}

impl Editor {
    /// Buffers are well-formed with unique identities, and the manager is
    /// well-formed.
    pub open spec fn wf(&self) -> bool {
        &&& (forall|i: int| 0 <= i < self.buffers@.len() ==> (#[trigger] self.buffers@[i]).wf())
        &&& (forall|i: int, j: int| 0 <= i < j < self.buffers@.len() ==> !((
        #[trigger] self.buffers@[i]).id.name@ == (#[trigger] self.buffers@[j]).id.name@
            && self.buffers@[i].id.path@ == self.buffers@[j].id.path@))
        &&& self.lsp_client_manager.wf()
    }

    /// A fresh editor with no buffers, the default key bindings, and an
    /// LSP manager over the given token range.
    pub fn new(lsp_min_token: usize, lsp_max_token: usize) -> (r: Self)
        requires
            lsp_min_token + 3 <= lsp_max_token,
        ensures
            r.wf(),
            !r.exit,
            r.buffers@.len() == 0,
            r.current_buffer_id is None,
            r.needs_redraw,
            r.terminal_size == (TerminalSize { width: 0, height: 0 }),
            r.clipboard is None,
            r.lsp_client_manager.clients@.len() == 0,
            r.lsp_client_manager.min_view() == lsp_min_token,
            r.lsp_client_manager.max_view() == lsp_max_token,
    {
        Editor {
            exit: false,
            buffers: Vec::new(),
            current_buffer_id: None,
            needs_redraw: true,
            terminal_size: TerminalSize { width: 0, height: 0 },
            key_mapper: KeyMapper::new(),
            clipboard: None,
            lsp_client_manager: LspClientManager::new(lsp_min_token, lsp_max_token),
        }
    }

    /// Index of the focused buffer, if the focused identity is open.
    pub fn current_buffer_index(&self) -> (r: Option<usize>)
        ensures
            ({
                match self.current_buffer_id {
                    None => r is None,
                    Some(id) => {
                        let bi = buffer_id_index(self.buffers@, id.name@, id.path@);
                        match r {
                            Some(i) => bi >= 0 && i == bi && i < self.buffers@.len(),
                            None => bi < 0,
                        }
                    },
                }
            }),
    {
        let id = match &self.current_buffer_id {
            None => {
                return None;
            },
            Some(id) => id,
        };
        let ghost bs = self.buffers@;
        let mut i: usize = 0;
        while i < self.buffers.len()
            invariant
                i <= bs.len(),
                bs == self.buffers@,
                self.current_buffer_id matches Some(cid) && cid.name@ == id.name@ && cid.path@
                    == id.path@,
                forall|j: int| 0 <= j < i ==> !((#[trigger] bs[j]).id.name@ == id.name@
                    && bs[j].id.path@ == id.path@),
        decreases bs.len() - i,
        {
            if self.buffers[i].id == *id {
                proof {
                    lemma_buffer_id_index_props(bs, id.name@, id.path@);
                    let bi = buffer_id_index(bs, id.name@, id.path@);
                    if bi < 0 {
                        assert(!(bs[i as int].id.name@ == id.name@ && bs[i as int].id.path@
                            == id.path@));
                        assert(false);
                    }
                    if bi < i {
                        assert(!(bs[bi].id.name@ == id.name@ && bs[bi].id.path@ == id.path@));
                        assert(false);
                    }
                    if bi > i {
                        assert(!(bs[i as int].id.name@ == id.name@ && bs[i as int].id.path@
                            == id.path@));
                        assert(false);
                    }
                }
                return Some(i);
            }
            i = i + 1;
        }
        proof {
            lemma_buffer_id_index_props(bs, id.name@, id.path@);
            let bi = buffer_id_index(bs, id.name@, id.path@);
            if bi >= 0 {
                assert(!(bs[bi].id.name@ == id.name@ && bs[bi].id.path@ == id.path@));
                assert(false);
            }
        }
        None
    }
}


impl Editor {
    /// Everything outside the buffers and the redraw flag.
    pub open spec fn same_frame(&self, other: &Self) -> bool {
        &&& self.exit == other.exit
        &&& self.current_buffer_id == other.current_buffer_id
        &&& self.terminal_size == other.terminal_size
        &&& self.key_mapper == other.key_mapper
        &&& self.clipboard == other.clipboard
        &&& self.lsp_client_manager == other.lsp_client_manager
    }

    /// All buffers but `i` unchanged.
    pub open spec fn buffers_same_except(&self, other: &Self, i: int) -> bool {
        &&& self.buffers@.len() == other.buffers@.len()
        &&& (forall|j: int| 0 <= j < self.buffers@.len() && j != i
            ==> (#[trigger] self.buffers@[j]) == other.buffers@[j])
    }

    /// Sets the mark at the focused buffer's cursor; with no focused
    /// buffer nothing happens.
    pub fn handle_mark(&mut self)
        requires
            old(self).wf(),
        ensures
            final(self).wf(),
            final(self).same_frame(old(self)),
            final(self).needs_redraw == old(self).needs_redraw,
            ({
                match old(self).current_buffer_index_spec() {
                    None => final(self).buffers == old(self).buffers,
                    Some(i) => ({
                        let ob = old(self).buffers@[i as int];
                        final(self).buffers_same_except(old(self), i as int)
                            && final(self).buffers@[i as int] == (Buffer {
                            mark_origin: Some(
                                crate::buffer::BufferPosition {
                                    row: ob.cursor.line,
                                    col: ob.cursor.column,
                                },
                            ),
                            ..ob
                        })
                    }),
                }
            }),
    {
        match self.current_buffer_index() {
            None => {},
            Some(i) => {
                let b = &mut self.buffers[i];
                b.mark();
                proof {
                    self.lemma_buffer_update_wf(old(self), i as int);
                }
            },
        }
    }

    /// Where the focused buffer stands, as a spec value.
    pub open spec fn current_buffer_index_spec(&self) -> Option<usize> {
        match self.current_buffer_id {
            None => None,
            Some(id) => {
                let bi = buffer_id_index(self.buffers@, id.name@, id.path@);
                if bi >= 0 {
                    Some(bi as usize)
                } else {
                    None
                }
            },
        }
    }

    proof fn lemma_buffer_update_wf(&self, prev: &Self, i: int)
        requires
            prev.wf(),
            0 <= i < prev.buffers@.len(),
            self.buffers@.len() == prev.buffers@.len(),
            forall|j: int| 0 <= j < self.buffers@.len() && j != i ==> (#[trigger] self.buffers@[j])
                == prev.buffers@[j],
            self.buffers@[i].wf(),
            self.buffers@[i].id == prev.buffers@[i].id,
            self.lsp_client_manager == prev.lsp_client_manager,
        ensures
            self.wf(),
    {
        assert forall|a: int| 0 <= a < self.buffers@.len() implies (
        #[trigger] self.buffers@[a]).wf() by {
            if a != i {
                assert(self.buffers@[a] == prev.buffers@[a]);
            }
        }
        assert forall|a: int, b: int| 0 <= a < b < self.buffers@.len() implies !((
        #[trigger] self.buffers@[a]).id.name@ == (#[trigger] self.buffers@[b]).id.name@
            && self.buffers@[a].id.path@ == self.buffers@[b].id.path@) by {
            if a != i {
                assert(self.buffers@[a] == prev.buffers@[a]);
            }
            if b != i {
                assert(self.buffers@[b] == prev.buffers@[b]);
            }
            assert(!(prev.buffers@[a].id.name@ == prev.buffers@[b].id.name@
                && prev.buffers@[a].id.path@ == prev.buffers@[b].id.path@));
        }
    }

    /// Drops the mark in the focused buffer; with no focused buffer
    /// nothing happens.
    pub fn handle_cancel(&mut self)
        requires
            old(self).wf(),
        ensures
            final(self).wf(),
            final(self).same_frame(old(self)),
            final(self).needs_redraw == old(self).needs_redraw,
            ({
                match old(self).current_buffer_index_spec() {
                    None => final(self).buffers == old(self).buffers,
                    Some(i) => ({
                        let ob = old(self).buffers@[i as int];
                        final(self).buffers_same_except(old(self), i as int)
                            && final(self).buffers@[i as int] == (Buffer { mark_origin: None, ..ob })
                    }),
                }
            }),
    {
        match self.current_buffer_index() {
            None => {},
            Some(i) => {
                let b = &mut self.buffers[i];
                b.mark_origin = None;
                proof {
                    self.lemma_buffer_update_wf(old(self), i as int);
                }
            },
        }
    }

    /// Copies the marked region of the focused buffer to the clipboard
    /// and drops the mark.  With no mark, or a mark pointing at positions
    /// that no longer exist, the clipboard is cleared instead.
    pub fn handle_copy(&mut self)
        requires
            old(self).wf(),
        ensures
            final(self).wf(),
            final(self).exit == old(self).exit,
            final(self).current_buffer_id == old(self).current_buffer_id,
            final(self).terminal_size == old(self).terminal_size,
            final(self).key_mapper == old(self).key_mapper,
            final(self).lsp_client_manager == old(self).lsp_client_manager,
            final(self).needs_redraw == old(self).needs_redraw,
            ({
                match old(self).current_buffer_index_spec() {
                    None => final(self).buffers == old(self).buffers && final(self).clipboard
                        == old(self).clipboard,
                    Some(i) => {
                        let b = old(self).buffers@[i as int];
                        let region = crate::buffer::marked_region_of(b);
                        &&& final(self).buffers_same_except(old(self), i as int)
                        &&& final(self).buffers@[i as int] == (Buffer { mark_origin: None, ..b })
                        &&& (if b.mark_origin is Some && crate::buffer::region_valid(
                            b.lines.deep_view(),
                            region,
                        ) {
                            final(self).clipboard matches Some(clip) && clip.deep_view()
                                == crate::buffer::region_lines(b.lines.deep_view(), region)
                        } else {
                            final(self).clipboard is None
                        })
                    },
                }
            }),
    {
        match self.current_buffer_index() {
            None => {},
            Some(i) => {
                let has_mark = self.buffers[i].mark_origin.is_some();
                if has_mark {
                    let region = self.buffers[i].marked_region();
                    self.clipboard = self.buffers[i].copy_region(region);
                } else {
                    self.clipboard = None;
                }
                let b = &mut self.buffers[i];
                b.mark_origin = None;
                proof {
                    self.lemma_buffer_update_wf(old(self), i as int);
                }
            },
        }
    }

    /// Cuts the marked region of the focused buffer to the clipboard,
    /// deleting its text and dropping the mark.  With no usable mark the
    /// clipboard is cleared and nothing is deleted.
    pub fn handle_cut(&mut self)
        requires
            old(self).wf(),
        ensures
            final(self).wf(),
            final(self).exit == old(self).exit,
            final(self).current_buffer_id == old(self).current_buffer_id,
            final(self).terminal_size == old(self).terminal_size,
            final(self).key_mapper == old(self).key_mapper,
            final(self).lsp_client_manager == old(self).lsp_client_manager,
            final(self).needs_redraw == old(self).needs_redraw,
            ({
                match old(self).current_buffer_index_spec() {
                    None => final(self).buffers == old(self).buffers && final(self).clipboard
                        == old(self).clipboard,
                    Some(i) => {
                        let b = old(self).buffers@[i as int];
                        let region = crate::buffer::marked_region_of(b);
                        let usable = b.mark_origin is Some && crate::buffer::region_valid(
                            b.lines.deep_view(),
                            region,
                        );
                        &&& final(self).buffers_same_except(old(self), i as int)
                        &&& (if usable {
                            final(self).clipboard matches Some(clip) && clip.deep_view()
                                == crate::buffer::region_lines(b.lines.deep_view(), region)
                                && final(self).buffers@[i as int].lines.deep_view()
                                == crate::buffer::region_removed(b.lines.deep_view(), region)
                                && final(self).buffers@[i as int].cursor == (Cursor {
                                line: region.start.row,
                                column: region.start.col,
                            })
                        } else {
                            final(self).clipboard is None && final(self).buffers@[i as int].lines
                                == b.lines && final(self).buffers@[i as int].cursor == b.cursor
                        })
                        &&& final(self).buffers@[i as int].mark_origin is None
                        &&& final(self).buffers@[i as int].id == b.id
                        &&& final(self).buffers@[i as int].start_line == b.start_line
                        &&& final(self).buffers@[i as int].lsp_server_name == b.lsp_server_name
                        &&& final(self).buffers@[i as int].version == b.version
                        &&& final(self).buffers@[i as int].semantic_tokens == b.semantic_tokens
                    },
                }
            }),
    {
        match self.current_buffer_index() {
            None => {},
            Some(i) => {
                let has_mark = self.buffers[i].mark_origin.is_some();
                if has_mark {
                    let region = self.buffers[i].marked_region();
                    self.clipboard = self.buffers[i].copy_region(region);
                    let b = &mut self.buffers[i];
                    b.remove_region(region);
                    b.mark_origin = None;
                } else {
                    self.clipboard = None;
                    let b = &mut self.buffers[i];
                    b.mark_origin = None;
                }
                proof {
                    self.lemma_buffer_update_wf(old(self), i as int);
                }
            },
        }
    }

    /// Pastes the clipboard at the focused buffer's cursor; with no
    /// clipboard or no focused buffer nothing happens.
    pub fn handle_paste(&mut self)
        requires
            old(self).wf(),
        ensures
            final(self).wf(),
            final(self).same_frame(old(self)),
            final(self).needs_redraw == old(self).needs_redraw,
            ({
                match old(self).current_buffer_index_spec() {
                    None => final(self).buffers == old(self).buffers,
                    Some(i) => {
                        match old(self).clipboard {
                            None => final(self).buffers == old(self).buffers,
                            Some(clip) => {
                                let b = old(self).buffers@[i as int];
                                let row = b.cursor.line as int;
                                let col = b.cursor.column as int;
                                let fits = clip@.len() >= 1 && row < b.lines.deep_view().len()
                                    && (if clip@.len() == 1 {
                                    b.lines.deep_view()[row].len() + clip.deep_view()[0].len()
                                        <= usize::MAX
                                } else {
                                    b.lines.deep_view().len() + clip@.len() <= usize::MAX
                                });
                                &&& final(self).buffers_same_except(old(self), i as int)
                                &&& (if fits {
                                    final(self).buffers@[i as int].lines.deep_view()
                                        == crate::buffer::lines_spliced(
                                        b.lines.deep_view(),
                                        row,
                                        col,
                                        clip.deep_view(),
                                    )
                                } else {
                                    final(self).buffers@[i as int].lines == b.lines
                                })
                            },
                        }
                    },
                }
            }),
    {
        match self.current_buffer_index() {
            None => {},
            Some(i) => {
                match &self.clipboard {
                    None => {},
                    Some(clip) => {
                        let copied = clone_clip(clip);
                        let b = &mut self.buffers[i];
                        b.insert_lines(&copied);
                        proof {
                            self.lemma_buffer_update_wf(old(self), i as int);
                        }
                    },
                }
            },
        }
    }
}

/// A copy of clipboard rows, character for character.
fn clone_clip(clip: &Vec<Vec<char>>) -> (r: Vec<Vec<char>>)
    ensures
        r@.len() == clip@.len(),
        r.deep_view() == clip.deep_view(),
{
    let mut r: Vec<Vec<char>> = Vec::new();
    let mut i: usize = 0;
    while i < clip.len()
        invariant
            i <= clip@.len(),
            r@.len() == i,
            forall|j: int| 0 <= j < i ==> (#[trigger] r@[j])@ == clip@[j]@,
    decreases clip@.len() - i,
    {
        let mut line: Vec<char> = Vec::new();
        let src = &clip[i];
        let mut k: usize = 0;
        while k < src.len()
            invariant
                k <= src@.len(),
                line@ == src@.take(k as int),
        decreases src@.len() - k,
        {
            line.push(src[k]);
            assert(line@ =~= src@.take(k + 1));
            k = k + 1;
        }
        assert(line@ =~= src@);
        r.push(line);
        i = i + 1;
    }
    proof {
        assert(r.deep_view() =~~= clip.deep_view());
    }
    r
}


impl Editor {
    /// Index of the buffer with this identity, if it is open.
    pub fn find_buffer(&self, id: &BufferId) -> (r: Option<usize>)
        ensures
            ({
                let bi = buffer_id_index(self.buffers@, id.name@, id.path@);
                match r {
                    Some(i) => bi >= 0 && i == bi && i < self.buffers@.len(),
                    None => bi < 0,
                }
            }),
    {
        let ghost bs = self.buffers@;
        let mut i: usize = 0;
        while i < self.buffers.len()
            invariant
                i <= bs.len(),
                bs == self.buffers@,
                forall|j: int| 0 <= j < i ==> !((#[trigger] bs[j]).id.name@ == id.name@
                    && bs[j].id.path@ == id.path@),
        decreases bs.len() - i,
        {
            if self.buffers[i].id == *id {
                proof {
                    lemma_buffer_id_index_props(bs, id.name@, id.path@);
                    let bi = buffer_id_index(bs, id.name@, id.path@);
                    if bi < 0 || bi < i || bi > i {
                        assert(!(bs[if bi >= 0 && bi < i { bi } else { i as int }].id.name@
                            == id.name@ && bs[if bi >= 0 && bi < i { bi } else { i as int }].id.path@
                            == id.path@));
                        assert(false);
                    }
                }
                return Some(i);
            }
            i = i + 1;
        }
        proof {
            lemma_buffer_id_index_props(bs, id.name@, id.path@);
            let bi = buffer_id_index(bs, id.name@, id.path@);
            if bi >= 0 {
                assert(!(bs[bi].id.name@ == id.name@ && bs[bi].id.path@ == id.path@));
                assert(false);
            }
        }
        None
    }

    /// Hands back the focused buffer's path and full text so the caller
    /// can write the file; with no focused buffer there is nothing to
    /// save.
    pub fn handle_save(&mut self) -> (r: Option<(String, String)>)
        requires
            old(self).wf(),
        ensures
            final(self).wf(),
            *final(self) == *old(self),
            ({
                match old(self).current_buffer_index_spec() {
                    None => r is None,
                    Some(i) => r matches Some((path, text)) && path@ == old(self).buffers@[
                        i as int
                    ].id.path@ && text@ == crate::buffer::joined_text(
                        old(self).buffers@[i as int].lines.deep_view(),
                    ),
                }
            }),
    {
        match self.current_buffer_index() {
            None => None,
            Some(i) => {
                let path = self.buffers[i].id.path.clone();
                let text = self.buffers[i].text();
                Some((path, text))
            },
        }
    }

    /// Moves the focused buffer's cursor to absolute coordinates and asks
    /// for a redraw; with no focused buffer nothing happens.
    pub fn handle_move_to(&mut self, params: &MoveToParams)
        requires
            old(self).wf(),
        ensures
            final(self).wf(),
            final(self).same_frame(old(self)),
            ({
                match old(self).current_buffer_index_spec() {
                    None => final(self).buffers == old(self).buffers && final(self).needs_redraw
                        == old(self).needs_redraw,
                    Some(i) => ({
                        let ob = old(self).buffers@[i as int];
                        let nb = final(self).buffers@[i as int];
                        &&& final(self).buffers_same_except(old(self), i as int)
                        &&& final(self).needs_redraw
                        &&& nb.lines == ob.lines
                        &&& nb.id == ob.id
                        &&& nb.lsp_server_name == ob.lsp_server_name
                        &&& nb.version == ob.version
                        &&& nb.semantic_tokens == ob.semantic_tokens
                        &&& nb.mark_origin == ob.mark_origin
                        &&& (nb.cursor.line as int, nb.cursor.column as int, nb.start_line as int)
                            == crate::buffer::set_cursor_result(
                            ob,
                            params.row,
                            params.col,
                            old(self).terminal_size,
                        )
                    }),
                }
            }),
    {
        match self.current_buffer_index() {
            None => {},
            Some(i) => {
                let ts = self.terminal_size;
                let b = &mut self.buffers[i];
                b.set_cursor(params.row, params.col, ts);
                self.needs_redraw = true;
                proof {
                    self.lemma_buffer_update_wf(old(self), i as int);
                }
            },
        }
    }

    /// Moves the focused buffer's cursor by a relative amount and asks
    /// for a redraw; with no focused buffer nothing happens.
    pub fn handle_move_delta(&mut self, params: &MoveDeltaParams)
        requires
            old(self).wf(),
        ensures
            final(self).wf(),
            final(self).same_frame(old(self)),
            ({
                match old(self).current_buffer_index_spec() {
                    None => final(self).buffers == old(self).buffers && final(self).needs_redraw
                        == old(self).needs_redraw,
                    Some(i) => ({
                        let ob = old(self).buffers@[i as int];
                        let nb = final(self).buffers@[i as int];
                        &&& final(self).buffers_same_except(old(self), i as int)
                        &&& final(self).needs_redraw
                        &&& nb.lines == ob.lines
                        &&& nb.id == ob.id
                        &&& nb.lsp_server_name == ob.lsp_server_name
                        &&& nb.version == ob.version
                        &&& nb.semantic_tokens == ob.semantic_tokens
                        &&& nb.mark_origin == ob.mark_origin
                        &&& (nb.cursor.line as int, nb.cursor.column as int, nb.start_line as int)
                            == crate::buffer::move_cursor_result(
                            ob,
                            CursorDelta { x: params.col as isize, y: params.row as isize },
                            old(self).terminal_size,
                        )
                    }),
                }
            }),
    {
        match self.current_buffer_index() {
            None => {},
            Some(i) => {
                let ts = self.terminal_size;
                let delta = CursorDelta { x: params.col as isize, y: params.row as isize };
                let b = &mut self.buffers[i];
                b.move_cursor(delta, ts);
                self.needs_redraw = true;
                proof {
                    self.lemma_buffer_update_wf(old(self), i as int);
                }
            },
        }
    }

    /// Stores decoded semantic tokens on their buffer and asks for a
    /// redraw; tokens for a buffer that is no longer open are dropped.
    pub fn handle_notify_semantic_tokens(&mut self, params: &NotifySemanticTokensParams)
        requires
            old(self).wf(),
        ensures
            final(self).wf(),
            final(self).same_frame(old(self)),
            ({
                let bi = buffer_id_index(
                    old(self).buffers@,
                    params.buffer_id.name@,
                    params.buffer_id.path@,
                );
                if bi >= 0 {
                    let ob = old(self).buffers@[bi];
                    let nb = final(self).buffers@[bi];
                    final(self).buffers_same_except(old(self), bi)
                        && nb == (Buffer { semantic_tokens: nb.semantic_tokens, ..ob })
                        && nb.semantic_tokens@ == params.tokens@
                        && final(self).needs_redraw
                } else {
                    final(self).buffers == old(self).buffers
                        && final(self).needs_redraw == old(self).needs_redraw
                }
            }),
    {
        match self.find_buffer(&params.buffer_id) {
            None => {},
            Some(i) => {
                let b = &mut self.buffers[i];
                b.set_semantic_tokens(&params.tokens);
                self.needs_redraw = true;
                proof {
                    self.lemma_buffer_update_wf(old(self), i as int);
                }
            },
        }
    }

    /// Installs a freshly read file as a buffer: a buffer already open
    /// under the same identity is replaced, focus moves to it, and a
    /// redraw is due.  The caller reports whether the file was new.
    pub fn finish_open(&mut self, path: String, lines: Vec<Vec<char>>)
        requires
            old(self).wf(),
        ensures
            final(self).wf(),
            final(self).exit == old(self).exit,
            final(self).terminal_size == old(self).terminal_size,
            final(self).key_mapper == old(self).key_mapper,
            final(self).clipboard == old(self).clipboard,
            final(self).lsp_client_manager == old(self).lsp_client_manager,
            final(self).needs_redraw,
            ({
                let name = crate::buffer::file_name_of(path@);
                let bi = buffer_id_index(old(self).buffers@, name, path@);
                let at: int = if bi >= 0 {
                    bi
                } else {
                    old(self).buffers@.len() as int
                };
                &&& final(self).buffers@.len() as int == (if bi >= 0 {
                    old(self).buffers@.len() as int
                } else {
                    old(self).buffers@.len() as int + 1
                })
                &&& (forall|j: int| 0 <= j < old(self).buffers@.len() && j != at
                    ==> (#[trigger] final(self).buffers@[j]) == old(self).buffers@[j])
                &&& ({
                    let nb = final(self).buffers@[at];
                    &&& nb.id.name@ == name
                    &&& nb.id.path@ == path@
                    &&& nb.lines == lines
                    &&& nb.cursor == (Cursor { line: 0, column: 0 })
                    &&& nb.start_line == 0
                    &&& nb.version == 0
                    &&& nb.lsp_server_name is None
                    &&& nb.semantic_tokens@.len() == 0
                    &&& nb.mark_origin is None
                })
                &&& final(self).current_buffer_id matches Some(cid) && cid.name@ == name
                    && cid.path@ == path@
            }),
    {
        let id = BufferId::from_path(path);
        let id_for_focus = id.clone();
        let buf = Buffer::new(id, lines);
        proof {
            lemma_buffer_id_index_props(self.buffers@, buf.id.name@, buf.id.path@);
        }
        match self.find_buffer(&buf.id) {
            Some(i) => {
                let ghost nid_name = buf.id.name@;
                let ghost nid_path = buf.id.path@;
                self.buffers[i] = buf;
                proof {
                    let bs = self.buffers@;
                    let obs = old(self).buffers@;
                    assert(nid_name == obs[i as int].id.name@ && nid_path == obs[i as int].id.path@);
                    assert forall|a: int| 0 <= a < bs.len() implies (#[trigger] bs[a]).wf() by {
                        if a != i {
                            assert(bs[a] == obs[a]);
                        }
                    }
                    assert forall|a: int, b: int| 0 <= a < b < bs.len() implies !((
                    #[trigger] bs[a]).id.name@ == (#[trigger] bs[b]).id.name@ && bs[a].id.path@
                        == bs[b].id.path@) by {
                        if a != i {
                            assert(bs[a] == obs[a]);
                        }
                        if b != i {
                            assert(bs[b] == obs[b]);
                        }
                        assert(!(obs[a].id.name@ == obs[b].id.name@ && obs[a].id.path@
                            == obs[b].id.path@));
                    }
                }
            },
            None => {
                self.buffers.push(buf);
                proof {
                    let bs = self.buffers@;
                    let obs = old(self).buffers@;
                    assert forall|a: int| 0 <= a < bs.len() implies (#[trigger] bs[a]).wf() by {
                        if a < bs.len() - 1 {
                            assert(bs[a] == obs[a]);
                        }
                    }
                    assert forall|a: int, b: int| 0 <= a < b < bs.len() implies !((
                    #[trigger] bs[a]).id.name@ == (#[trigger] bs[b]).id.name@ && bs[a].id.path@
                        == bs[b].id.path@) by {
                        assert(bs[a] == obs[a]);
                        if b < bs.len() - 1 {
                            assert(bs[b] == obs[b]);
                        }
                    }
                }
            },
        }
        self.current_buffer_id = Some(id_for_focus);
        self.needs_redraw = true;
    }

    /// Checks a `StartLsp` request before anything is spawned: a name
    /// already in use is rejected, otherwise the caller may spawn the
    /// process and call `finish_start_lsp`.  Nothing changes either way.
    pub fn handle_start_lsp(&mut self, params: &crate::rpc::StartLspParams) -> (r: Result<
        (),
        crate::rpc::RpcError,
    >)
        requires
            old(self).wf(),
        ensures
            final(self).wf(),
            *final(self) == *old(self),
            ({
                let conflict = crate::lsp::client_name_index(
                    old(self).lsp_client_manager.clients@,
                    params.name@,
                ) >= 0;
                match r {
                    Ok(()) => !conflict,
                    Err(e) => conflict && (e matches crate::rpc::RpcError::Other { message }),
                }
            }),
    {
        match self.lsp_client_manager.find_client(params.name.as_str()) {
            Some(_) => Err(crate::rpc::RpcError::other("LSP server name conflicts")),
            None => Ok(()),
        }
    }

    /// Stores the client for a just-spawned server and hands back its
    /// three tokens for registration; a name raced into use since the
    /// check is rejected.
    pub fn finish_start_lsp(&mut self, params: &crate::rpc::StartLspParams) -> (r: Result<
        (usize, usize, usize),
        crate::rpc::RpcError,
    >)
        requires
            old(self).wf(),
        ensures
            final(self).wf(),
            final(self).buffers == old(self).buffers,
            final(self).exit == old(self).exit,
            final(self).current_buffer_id == old(self).current_buffer_id,
            final(self).needs_redraw == old(self).needs_redraw,
            final(self).terminal_size == old(self).terminal_size,
            final(self).key_mapper == old(self).key_mapper,
            final(self).clipboard == old(self).clipboard,
            ({
                let conflict = crate::lsp::client_name_index(
                    old(self).lsp_client_manager.clients@,
                    params.name@,
                ) >= 0;
                match r {
                    Err(e) => conflict && final(self).lsp_client_manager == old(
                        self,
                    ).lsp_client_manager,
                    Ok((t0, t1, t2)) => {
                        let m0 = old(self).lsp_client_manager;
                        let m1 = final(self).lsp_client_manager;
                        let (a0, a1, a2, n3) = crate::lsp::alloc_three(
                            m0.next_view(),
                            m0.min_view(),
                            m0.max_view(),
                        );
                        &&& !conflict
                        &&& t0 == a0 && t1 == a1 && t2 == a2
                        &&& m1.next_view() == n3
                        &&& m1.min_view() == m0.min_view() && m1.max_view() == m0.max_view()
                        &&& m1.clients@.len() == m0.clients@.len() + 1
                        &&& m1.clients@.drop_last() == m0.clients@
                        &&& m1.clients@.last().name_view() == params.name@
                        &&& m1.clients@.last().tokens() == (t0, t1, t2)
                        &&& m1.clients@.last().ongoing() == seq![
                            (0u64, crate::lsp::OngoingRequest::Initialize),
                        ]
                        &&& m1.clients@.last().send_bytes() == crate::codec::frame_bytes(
                            crate::codec::json_envelope(
                                crate::lsp::method_initialize(),
                                Some(0),
                                crate::lsp::initialize_params_json_for(params.root_dir@),
                            ),
                        )
                    },
                }
            }),
    {
        self.lsp_client_manager.start(params)
    }
}


/// The client's outbound buffer and id counter after announcing the
/// buffers from `i` on: for each buffer a `didOpen` notification and then
/// a semantic-tokens request, each under the backpressure rule, the
/// request skipped entirely when the id counter is exhausted.
pub open spec fn announce_fold(sb: Seq<u8>, nid: u64, bufs: Seq<Buffer>, i: int) -> (Seq<u8>, u64)
    decreases bufs.len() - i,
    when 0 <= i <= bufs.len()
{
    if i >= bufs.len() {
        (sb, nid)
    } else {
        let b = bufs[i];
        let sb1 = crate::lsp::appended_if_fits(
            sb,
            crate::codec::frame_bytes(
                crate::codec::json_envelope(
                    crate::lsp::method_did_open(),
                    None,
                    crate::lsp::did_open_params_json(
                        b.id.path@,
                        b.version as int,
                        crate::buffer::joined_text(b.lines.deep_view()),
                    ),
                ),
            ),
        );
        if nid == u64::MAX {
            announce_fold(sb1, nid, bufs, i + 1)
        } else {
            let sb2 = crate::lsp::appended_if_fits(
                sb1,
                crate::codec::frame_bytes(
                    crate::codec::json_envelope(
                        crate::lsp::method_semantic_tokens_full(),
                        Some(nid as int),
                        crate::lsp::semantic_tokens_params_json(b.id.path@),
                    ),
                ),
            );
            let nid2: u64 = if sb1.len() > crate::SEND_BUF_SIZE_LIMIT {
                nid
            } else {
                (nid + 1) as u64
            };
            announce_fold(sb2, nid2, bufs, i + 1)
        }
    }
}

impl Editor {
    /// Reacts to an LSP server finishing initialization: every open buffer
    /// is associated with the server by name, announced with `didOpen`,
    /// and has its full semantic tokens requested.  With no client under
    /// the name the buffers are still associated and nothing is sent.
    pub fn handle_notify_lsp_started(&mut self, name: &str)
        requires
            old(self).wf(),
        ensures
            final(self).wf(),
            final(self).exit == old(self).exit,
            final(self).current_buffer_id == old(self).current_buffer_id,
            final(self).needs_redraw == old(self).needs_redraw,
            final(self).terminal_size == old(self).terminal_size,
            final(self).key_mapper == old(self).key_mapper,
            final(self).clipboard == old(self).clipboard,
            final(self).buffers@.len() == old(self).buffers@.len(),
            forall|i: int| 0 <= i < old(self).buffers@.len()
                ==> ((#[trigger] final(self).buffers@[i]).lsp_server_name matches Some(n) && n@
                == name@),
            forall|i: int| 0 <= i < old(self).buffers@.len() ==> ({
                let nb = #[trigger] final(self).buffers@[i];
                let ob = old(self).buffers@[i];
                nb.id == ob.id && nb.lines == ob.lines && nb.cursor == ob.cursor && nb.start_line
                    == ob.start_line && nb.version == ob.version && nb.semantic_tokens
                    == ob.semantic_tokens && nb.mark_origin == ob.mark_origin
            }),
            final(self).lsp_client_manager.min_view() == old(self).lsp_client_manager.min_view(),
            final(self).lsp_client_manager.max_view() == old(self).lsp_client_manager.max_view(),
            final(self).lsp_client_manager.next_view() == old(self).lsp_client_manager.next_view(),
            final(self).lsp_client_manager.clients@.len() == old(
                self,
            ).lsp_client_manager.clients@.len(),
            ({
                let ci = crate::lsp::client_name_index(
                    old(self).lsp_client_manager.clients@,
                    name@,
                );
                if ci >= 0 {
                    let oc = old(self).lsp_client_manager.clients@[ci];
                    let nc = final(self).lsp_client_manager.clients@[ci];
                    &&& (forall|j: int| 0 <= j < old(self).lsp_client_manager.clients@.len() && j
                        != ci ==> (#[trigger] final(self).lsp_client_manager.clients@[j]) == old(
                        self,
                    ).lsp_client_manager.clients@[j])
                    &&& nc.same_identity(&oc)
                    &&& nc.recv_bytes() == oc.recv_bytes()
                    &&& nc.sent_offset() == oc.sent_offset()
                    &&& nc.legend_view() == oc.legend_view()
                    &&& (nc.send_bytes(), nc.next_id()) == announce_fold(
                        oc.send_bytes(),
                        oc.next_id(),
                        old(self).buffers@,
                        0,
                    )
                    &&& nc.ongoing().len() >= oc.ongoing().len()
                    &&& nc.ongoing().take(oc.ongoing().len() as int) == oc.ongoing()
                    &&& (forall|k: int| oc.ongoing().len() <= k < nc.ongoing().len()
                        ==> (#[trigger] nc.ongoing()[k]).1 is SemanticTokensFull)
                } else {
                    final(self).lsp_client_manager.clients@ == old(self).lsp_client_manager.clients@
                }
            }),
    {
        let name_string: String = name.to_owned();
        let ghost obufs = old(self).buffers@;
        let mut i: usize = 0;
        while i < self.buffers.len()
            invariant
                i <= obufs.len(),
                obufs.len() == self.buffers@.len(),
                old(self).wf(),
                self.exit == old(self).exit,
                self.current_buffer_id == old(self).current_buffer_id,
                self.needs_redraw == old(self).needs_redraw,
                self.terminal_size == old(self).terminal_size,
                self.key_mapper == old(self).key_mapper,
                self.clipboard == old(self).clipboard,
                self.lsp_client_manager == old(self).lsp_client_manager,
                name_string@ == name@,
                obufs == old(self).buffers@,
                forall|j: int| (i as int) <= j < obufs.len() ==> (#[trigger] self.buffers@[j])
                    == obufs[j],
                forall|j: int| 0 <= j < i ==> ((#[trigger] self.buffers@[j]).lsp_server_name
                    matches Some(n) && n@ == name@),
                forall|j: int| 0 <= j < i ==> ({
                    let nb = #[trigger] self.buffers@[j];
                    let ob = obufs[j];
                    nb.id == ob.id && nb.lines == ob.lines && nb.cursor == ob.cursor
                        && nb.start_line == ob.start_line && nb.version == ob.version
                        && nb.semantic_tokens == ob.semantic_tokens && nb.mark_origin
                        == ob.mark_origin && nb.wf()
                }),
        decreases obufs.len() - i,
        {
            let b = &mut self.buffers[i];
            b.lsp_server_name = Some(name_string.clone());
            i = i + 1;
        }
        proof {
            assert forall|a: int| 0 <= a < self.buffers@.len() implies (
            #[trigger] self.buffers@[a]).wf() by {}
            assert forall|a: int, b: int| 0 <= a < b < self.buffers@.len() implies !((
            #[trigger] self.buffers@[a]).id.name@ == (#[trigger] self.buffers@[b]).id.name@
                && self.buffers@[a].id.path@ == self.buffers@[b].id.path@) by {
                assert(!(obufs[a].id.name@ == obufs[b].id.name@ && obufs[a].id.path@
                    == obufs[b].id.path@));
            }
        }
        let ci = match self.lsp_client_manager.find_client(name) {
            None => {
                return ;
            },
            Some(ci) => ci,
        };
        proof {
            crate::lsp::lemma_client_name_index_pub(old(self).lsp_client_manager.clients@, name@);
        }
        let ghost oc = old(self).lsp_client_manager.clients@[ci as int];
        let ghost bufs_now = self.buffers@;
        let mut k: usize = 0;
        while k < self.buffers.len()
            invariant
                k <= bufs_now.len(),
                bufs_now == self.buffers@,
                self.exit == old(self).exit,
                self.current_buffer_id == old(self).current_buffer_id,
                self.needs_redraw == old(self).needs_redraw,
                self.terminal_size == old(self).terminal_size,
                self.key_mapper == old(self).key_mapper,
                self.clipboard == old(self).clipboard,
                forall|j: int| 0 <= j < obufs.len() ==> ((#[trigger] self.buffers@[j]).lsp_server_name
                    matches Some(n) && n@ == name@),
                forall|j: int| 0 <= j < obufs.len() ==> ({
                    let nb = #[trigger] self.buffers@[j];
                    let ob = obufs[j];
                    nb.id == ob.id && nb.lines == ob.lines && nb.cursor == ob.cursor
                        && nb.start_line == ob.start_line && nb.version == ob.version
                        && nb.semantic_tokens == ob.semantic_tokens && nb.mark_origin
                        == ob.mark_origin
                }),
                (ci as int) < self.lsp_client_manager.clients@.len(),
                self.lsp_client_manager.clients@.len() == old(
                    self,
                ).lsp_client_manager.clients@.len(),
                self.lsp_client_manager.min_token == old(self).lsp_client_manager.min_token,
                self.lsp_client_manager.max_token == old(self).lsp_client_manager.max_token,
                self.lsp_client_manager.next_token == old(self).lsp_client_manager.next_token,
                self.lsp_client_manager.wf(),
                oc == old(self).lsp_client_manager.clients@[ci as int],
                oc.wf(),
                forall|j: int| 0 <= j < self.lsp_client_manager.clients@.len() && j != ci
                    ==> (#[trigger] self.lsp_client_manager.clients@[j]) == old(
                    self,
                ).lsp_client_manager.clients@[j],
                ({
                    let nc = self.lsp_client_manager.clients@[ci as int];
                    &&& nc.wf()
                    &&& nc.same_identity(&oc)
                    &&& nc.recv_bytes() == oc.recv_bytes()
                    &&& nc.sent_offset() == oc.sent_offset()
                    &&& nc.legend_view() == oc.legend_view()
                    &&& announce_fold(oc.send_bytes(), oc.next_id(), obufs, 0) == announce_fold(
                        nc.send_bytes(),
                        nc.next_id(),
                        obufs,
                        k as int,
                    )
                    &&& nc.ongoing().len() >= oc.ongoing().len()
                    &&& nc.ongoing().take(oc.ongoing().len() as int) == oc.ongoing()
                    &&& (forall|t: int| oc.ongoing().len() <= t < nc.ongoing().len()
                        ==> (#[trigger] nc.ongoing()[t]).1 is SemanticTokensFull)
                }),
                obufs.len() == bufs_now.len(),
                forall|j: int| 0 <= j < obufs.len() ==> ({
                    let nb = #[trigger] bufs_now[j];
                    let ob = obufs[j];
                    nb.id == ob.id && nb.lines == ob.lines && nb.version == ob.version && nb.wf()
                }),
        decreases bufs_now.len() - k,
        {
            let ghost nc_before = self.lsp_client_manager.clients@[ci as int];
            let buffer = &self.buffers[k];
            let client = &mut self.lsp_client_manager.clients[ci];
            client.notify_did_open(buffer);
            let ghost nc_mid = *client;
            if client.can_allocate_id() {
                client.request_semantic_tokens_full(buffer);
            }
            proof {
                let nc_after = self.lsp_client_manager.clients@[ci as int];
                assert(bufs_now[k as int].id.path@ == obufs[k as int].id.path@);
                assert(bufs_now[k as int].version == obufs[k as int].version);
                assert(bufs_now[k as int].lines == obufs[k as int].lines);
                assert(announce_fold(nc_before.send_bytes(), nc_before.next_id(), obufs, k as int)
                    == announce_fold(nc_after.send_bytes(), nc_after.next_id(), obufs, k + 1));
                assert forall|t: int| oc.ongoing().len() <= t < nc_after.ongoing().len() implies (
                #[trigger] nc_after.ongoing()[t]).1 is SemanticTokensFull by {
                    if t < nc_mid.ongoing().len() {
                        assert(nc_after.ongoing()[t] == nc_mid.ongoing()[t]);
                        assert(nc_mid.ongoing()[t] == nc_before.ongoing()[t]);
                    } else {
                        assert(nc_after.ongoing()[t] == nc_after.ongoing().last());
                    }
                }
                assert(nc_after.ongoing().take(oc.ongoing().len() as int) =~= oc.ongoing());
                assert forall|a: int, b: int| 0 <= a < b
                    < self.lsp_client_manager.clients@.len() implies (
                #[trigger] self.lsp_client_manager.clients@[a]).name_view() != (
                #[trigger] self.lsp_client_manager.clients@[b]).name_view() by {
                    if a != ci {
                        assert(self.lsp_client_manager.clients@[a] == old(
                            self,
                        ).lsp_client_manager.clients@[a]);
                    }
                    if b != ci {
                        assert(self.lsp_client_manager.clients@[b] == old(
                            self,
                        ).lsp_client_manager.clients@[b]);
                    }
                }
                assert forall|a: int| 0 <= a < self.lsp_client_manager.clients@.len() implies (
                #[trigger] self.lsp_client_manager.clients@[a]).wf() by {
                    if a != ci {
                        assert(self.lsp_client_manager.clients@[a] == old(
                            self,
                        ).lsp_client_manager.clients@[a]);
                    }
                }
            }
            k = k + 1;
        }
        proof {
            let nc = self.lsp_client_manager.clients@[ci as int];
            assert(announce_fold(nc.send_bytes(), nc.next_id(), obufs, obufs.len() as int)
                == (nc.send_bytes(), nc.next_id()));
        }
    }
}


/// Whether one key press relates `pre` to `post` as the key handler does:
/// a release changes nothing; a press with no focused buffer changes
/// nothing; otherwise arrows move the cursor, a printable character is
/// inserted, enter splits the line, backspace deletes leftwards, and any
/// other key feeds the chord mapper, whose bound request is then handled;
/// every handled press asks for a redraw.
pub open spec fn key_transition(pre: Editor, post: Editor, k: KeyEvent, r: EditorOutcome) -> bool {
    if !k.press {
        post == pre && r is Done
    } else {
        match pre.current_buffer_index_spec() {
            None => post == pre && r is Done,
            Some(i) => {
                let ob = pre.buffers@[i as int];
                let direct = post.needs_redraw && post.exit == pre.exit
                    && post.current_buffer_id == pre.current_buffer_id && post.terminal_size
                    == pre.terminal_size && post.key_mapper == pre.key_mapper && post.clipboard
                    == pre.clipboard && post.lsp_client_manager == pre.lsp_client_manager
                    && post.buffers@.len() == pre.buffers@.len() && (forall|j: int|
                    0 <= j < pre.buffers@.len() && j != i
                        ==> (#[trigger] post.buffers@[j]) == pre.buffers@[j]) && r is Done;
                match k.code {
                    KeyCode::Up => direct && cursor_moved(ob, post.buffers@[i as int], 0, -1, pre.terminal_size),
                    KeyCode::Down => direct && cursor_moved(ob, post.buffers@[i as int], 0, 1, pre.terminal_size),
                    KeyCode::Left => direct && cursor_moved(ob, post.buffers@[i as int], -1, 0, pre.terminal_size),
                    KeyCode::Right => direct && cursor_moved(ob, post.buffers@[i as int], 1, 0, pre.terminal_size),
                    KeyCode::Char(c) => if !is_control_char(c) && !k.alt && !k.ctrl {
                        direct && crate::buffer::insert_char_rel(ob, post.buffers@[i as int], c)
                    } else {
                        mapped_key_transition(pre, post)
                    },
                    KeyCode::Enter => direct && (if ob.lines@.len() < usize::MAX {
                        crate::buffer::insert_newline_rel(ob, post.buffers@[i as int])
                    } else {
                        post.buffers@[i as int] == ob
                    }),
                    KeyCode::Backspace => direct && crate::buffer::backspace_rel(
                        ob,
                        post.buffers@[i as int],
                    ),
                    _ => mapped_key_transition(pre, post),
                }
            },
        }
    }
}

/// What is pinned down after a key went to the chord mapper: the editor
/// stays well-formed and asks for a redraw.  Which transition ran depends
/// on the chord table's run-time contents; the transition of each
/// possible bound request is the contract of the handler it dispatches
/// to.
pub open spec fn mapped_key_transition(pre: Editor, post: Editor) -> bool {
    post.wf() && post.needs_redraw
}

/// A control character: one the C0 or C1 ranges of the character table.
pub open spec fn is_control_char(c: char) -> bool {
    (c as u32) < 32 || (127 <= (c as u32) && (c as u32) <= 159)
}

fn is_control_exec(c: char) -> (r: bool)
    ensures
        r == is_control_char(c),
{
    let u = c as u32;
    u < 32 || (127 <= u && u <= 159)
}

/// How a handled request relates the editor after to the editor before,
/// and what it asks of the caller.
pub open spec fn requested_transition(
    pre: Editor,
    post: Editor,
    req: crate::rpc::Request,
    r: EditorOutcome,
) -> bool {
    match req {
        crate::rpc::Request::NotifyTerminalEvent { params } => match params.event {
            TerminalEvent::Key(k) => key_transition(pre, post, k, r),
            _ => false,
        },
        crate::rpc::Request::Open { params } => post == pre && (r matches EditorOutcome::NeedsOpen {
            path,
        } && path@ == params.path@),
        crate::rpc::Request::Save { params } => post == pre && (match pre.current_buffer_index_spec() {
            None => r is Done,
            Some(i) => r matches EditorOutcome::NeedsSave { path, text } && path@
                == pre.buffers@[i as int].id.path@ && text@ == crate::buffer::joined_text(
                pre.buffers@[i as int].lines.deep_view(),
            ),
        }),
        crate::rpc::Request::Mark => r is Done && post.same_frame(&pre) && post.needs_redraw
            == pre.needs_redraw && (match pre.current_buffer_index_spec() {
            None => post.buffers == pre.buffers,
            Some(i) => {
                let ob = pre.buffers@[i as int];
                post.buffers_same_except(&pre, i as int) && post.buffers@[i as int] == (Buffer {
                    mark_origin: Some(
                        crate::buffer::BufferPosition { row: ob.cursor.line, col: ob.cursor.column },
                    ),
                    ..ob
                })
            },
        }),
        crate::rpc::Request::Cancel => r is Done && post.same_frame(&pre) && post.needs_redraw
            == pre.needs_redraw && (match pre.current_buffer_index_spec() {
            None => post.buffers == pre.buffers,
            Some(i) => {
                let ob = pre.buffers@[i as int];
                post.buffers_same_except(&pre, i as int) && post.buffers@[i as int] == (Buffer {
                    mark_origin: None,
                    ..ob
                })
            },
        }),
        crate::rpc::Request::Copy => r is Done && post.exit == pre.exit && post.current_buffer_id
            == pre.current_buffer_id && post.terminal_size == pre.terminal_size && post.key_mapper
            == pre.key_mapper && post.lsp_client_manager == pre.lsp_client_manager
            && post.needs_redraw == pre.needs_redraw && (match pre.current_buffer_index_spec() {
            None => post.buffers == pre.buffers && post.clipboard == pre.clipboard,
            Some(i) => {
                let b = pre.buffers@[i as int];
                let region = crate::buffer::marked_region_of(b);
                post.buffers_same_except(&pre, i as int) && post.buffers@[i as int] == (Buffer {
                    mark_origin: None,
                    ..b
                }) && (if b.mark_origin is Some && crate::buffer::region_valid(
                    b.lines.deep_view(),
                    region,
                ) {
                    post.clipboard matches Some(clip) && clip.deep_view()
                        == crate::buffer::region_lines(b.lines.deep_view(), region)
                } else {
                    post.clipboard is None
                })
            },
        }),
        crate::rpc::Request::Cut => r is Done && post.exit == pre.exit && post.current_buffer_id
            == pre.current_buffer_id && post.terminal_size == pre.terminal_size && post.key_mapper
            == pre.key_mapper && post.lsp_client_manager == pre.lsp_client_manager
            && post.needs_redraw == pre.needs_redraw && (match pre.current_buffer_index_spec() {
            None => post.buffers == pre.buffers && post.clipboard == pre.clipboard,
            Some(i) => {
                let b = pre.buffers@[i as int];
                let region = crate::buffer::marked_region_of(b);
                let usable = b.mark_origin is Some && crate::buffer::region_valid(
                    b.lines.deep_view(),
                    region,
                );
                post.buffers_same_except(&pre, i as int) && (if usable {
                    (post.clipboard matches Some(clip) && clip.deep_view()
                        == crate::buffer::region_lines(b.lines.deep_view(), region))
                        && post.buffers@[i as int].lines.deep_view()
                        == crate::buffer::region_removed(b.lines.deep_view(), region)
                        && post.buffers@[i as int].cursor == (Cursor {
                        line: region.start.row,
                        column: region.start.col,
                    })
                } else {
                    post.clipboard is None && post.buffers@[i as int].lines == b.lines
                        && post.buffers@[i as int].cursor == b.cursor
                }) && post.buffers@[i as int].mark_origin is None && post.buffers@[i as int].id
                    == b.id
            },
        }),
        crate::rpc::Request::Paste => r is Done && post.same_frame(&pre) && post.needs_redraw
            == pre.needs_redraw && (match pre.current_buffer_index_spec() {
            None => post.buffers == pre.buffers,
            Some(i) => post.buffers_same_except(&pre, i as int),
        }),
        crate::rpc::Request::Exit => r is Exit && post.exit && post.buffers == pre.buffers
            && post.current_buffer_id == pre.current_buffer_id && post.needs_redraw
            == pre.needs_redraw && post.terminal_size == pre.terminal_size && post.key_mapper
            == pre.key_mapper && post.clipboard == pre.clipboard && post.lsp_client_manager
            == pre.lsp_client_manager,
        crate::rpc::Request::StartLsp { params } => post == pre && ({
            let conflict = crate::lsp::client_name_index(
                pre.lsp_client_manager.clients@,
                params.name@,
            ) >= 0;
            if conflict {
                r matches EditorOutcome::Fail { error } && error is Other
            } else {
                r is NeedsSpawn
            }
        }),
        crate::rpc::Request::MoveTo { params } => r is Done && post.same_frame(&pre) && (match pre.current_buffer_index_spec() {
            None => post.buffers == pre.buffers && post.needs_redraw == pre.needs_redraw,
            Some(i) => {
                let ob = pre.buffers@[i as int];
                let nb = post.buffers@[i as int];
                post.buffers_same_except(&pre, i as int) && post.needs_redraw && nb.lines
                    == ob.lines && nb.id == ob.id && nb.mark_origin == ob.mark_origin && (
                nb.cursor.line as int,
                nb.cursor.column as int,
                nb.start_line as int,
                ) == crate::buffer::set_cursor_result(ob, params.row, params.col, pre.terminal_size)
            },
        }),
        crate::rpc::Request::MoveDelta { params } => r is Done && post.same_frame(&pre) && (match pre.current_buffer_index_spec() {
            None => post.buffers == pre.buffers && post.needs_redraw == pre.needs_redraw,
            Some(i) => {
                let ob = pre.buffers@[i as int];
                let nb = post.buffers@[i as int];
                post.buffers_same_except(&pre, i as int) && post.needs_redraw && nb.lines
                    == ob.lines && nb.id == ob.id && nb.mark_origin == ob.mark_origin && (
                nb.cursor.line as int,
                nb.cursor.column as int,
                nb.start_line as int,
                ) == crate::buffer::move_cursor_result(
                    ob,
                    CursorDelta { x: params.col as isize, y: params.row as isize },
                    pre.terminal_size,
                )
            },
        }),
        crate::rpc::Request::NotifyLspStarted { params } => r is Done && lsp_started_transition(
            pre,
            post,
            params.name@,
        ),
        crate::rpc::Request::NotifySemanticTokens { params } => r is Done && post.same_frame(&pre)
            && ({
            let bi = buffer_id_index(pre.buffers@, params.buffer_id.name@, params.buffer_id.path@);
            if bi >= 0 {
                let ob = pre.buffers@[bi];
                let nb = post.buffers@[bi];
                post.buffers_same_except(&pre, bi) && nb == (Buffer {
                    semantic_tokens: nb.semantic_tokens,
                    ..ob
                }) && nb.semantic_tokens@ == params.tokens@ && post.needs_redraw
            } else {
                post.buffers == pre.buffers && post.needs_redraw == pre.needs_redraw
            }
        }),
        crate::rpc::Request::Command { params } => post == pre && (r matches
            EditorOutcome::NeedsCommand { path, args } && path@ == params.path@ && args@
            == params.args@),
    }
}

/// How reacting to `NotifyLspStarted` relates the editor after to the
/// editor before: every buffer is associated with the named server, and
/// the named client (when it exists) has the announcements folded into
/// its outbound state.
pub open spec fn lsp_started_transition(pre: Editor, post: Editor, name: Seq<char>) -> bool {
    &&& post.exit == pre.exit
    &&& post.current_buffer_id == pre.current_buffer_id
    &&& post.needs_redraw == pre.needs_redraw
    &&& post.terminal_size == pre.terminal_size
    &&& post.key_mapper == pre.key_mapper
    &&& post.clipboard == pre.clipboard
    &&& post.buffers@.len() == pre.buffers@.len()
    &&& (forall|i: int| 0 <= i < pre.buffers@.len()
        ==> ((#[trigger] post.buffers@[i]).lsp_server_name matches Some(n) && n@ == name))
    &&& (forall|i: int| 0 <= i < pre.buffers@.len() ==> ({
        let nb = #[trigger] post.buffers@[i];
        let ob = pre.buffers@[i];
        nb.id == ob.id && nb.lines == ob.lines && nb.cursor == ob.cursor && nb.start_line
            == ob.start_line && nb.version == ob.version && nb.semantic_tokens
            == ob.semantic_tokens && nb.mark_origin == ob.mark_origin
    }))
    &&& post.lsp_client_manager.clients@.len() == pre.lsp_client_manager.clients@.len()
    &&& ({
        let ci = crate::lsp::client_name_index(pre.lsp_client_manager.clients@, name);
        if ci >= 0 {
            let oc = pre.lsp_client_manager.clients@[ci];
            let nc = post.lsp_client_manager.clients@[ci];
            &&& (forall|j: int| 0 <= j < pre.lsp_client_manager.clients@.len() && j != ci
                ==> (#[trigger] post.lsp_client_manager.clients@[j])
                == pre.lsp_client_manager.clients@[j])
            &&& nc.same_identity(&oc)
            &&& (nc.send_bytes(), nc.next_id()) == announce_fold(
                oc.send_bytes(),
                oc.next_id(),
                pre.buffers@,
                0,
            )
            &&& nc.ongoing().take(oc.ongoing().len() as int) == oc.ongoing()
            &&& (forall|k: int| oc.ongoing().len() <= k < nc.ongoing().len()
                ==> (#[trigger] nc.ongoing()[k]).1 is SemanticTokensFull)
        } else {
            post.lsp_client_manager.clients@ == pre.lsp_client_manager.clients@
        }
    })
}

/// One buffer's cursor moved by a delta, everything else untouched.
pub open spec fn cursor_moved(ob: Buffer, nb: Buffer, dx: int, dy: int, ts: TerminalSize) -> bool {
    &&& nb.lines == ob.lines
    &&& nb.id == ob.id
    &&& nb.mark_origin == ob.mark_origin
    &&& nb.version == ob.version
    &&& nb.semantic_tokens == ob.semantic_tokens
    &&& nb.lsp_server_name == ob.lsp_server_name
    &&& (nb.cursor.line as int, nb.cursor.column as int, nb.start_line as int)
        == crate::buffer::move_cursor_result(ob, CursorDelta { x: dx as isize, y: dy as isize }, ts)
}

impl Editor {
    /// Hands back an external command for the caller to run detached.
    pub fn handle_command(&mut self, params: &crate::rpc::CommandParams) -> (r: EditorOutcome)
        requires
            old(self).wf(),
        ensures
            final(self).wf(),
            *final(self) == *old(self),
            r matches EditorOutcome::NeedsCommand { path, args } && path@ == params.path@ && args@
                == params.args@,
    {
        EditorOutcome::NeedsCommand {
            path: params.path.clone(),
            args: crate::rpc::clone_strings(&params.args),
        }
    }

    /// Reacts to one key press on the focused buffer: arrows move the
    /// cursor, a printable character is inserted, enter splits the line,
    /// backspace deletes leftwards, and any other key goes to the chord
    /// mapper, whose bound request (terminal events excepted) is handled
    /// in place.  A release, or a press with no focused buffer, does
    /// nothing.
    pub fn handle_key_event(&mut self, key: &KeyEvent) -> (r: EditorOutcome)
        requires
            old(self).wf(),
        ensures
            final(self).wf(),
            key_transition(*old(self), *final(self), *key, r),
    {
        if !key.press {
            return EditorOutcome::Done;
        }
        let i = match self.current_buffer_index() {
            None => {
                return EditorOutcome::Done;
            },
            Some(i) => i,
        };
        let ts = self.terminal_size;
        match key.code {
            KeyCode::Up => {
                let b = &mut self.buffers[i];
                b.move_cursor(CursorDelta { x: 0, y: -1 }, ts);
                proof {
                    self.lemma_buffer_update_wf(old(self), i as int);
                }
            },
            KeyCode::Down => {
                let b = &mut self.buffers[i];
                b.move_cursor(CursorDelta { x: 0, y: 1 }, ts);
                proof {
                    self.lemma_buffer_update_wf(old(self), i as int);
                }
            },
            KeyCode::Left => {
                let b = &mut self.buffers[i];
                b.move_cursor(CursorDelta { x: -1, y: 0 }, ts);
                proof {
                    self.lemma_buffer_update_wf(old(self), i as int);
                }
            },
            KeyCode::Right => {
                let b = &mut self.buffers[i];
                b.move_cursor(CursorDelta { x: 1, y: 0 }, ts);
                proof {
                    self.lemma_buffer_update_wf(old(self), i as int);
                }
            },
            KeyCode::Char(c) => {
                if !is_control_exec(c) && !key.alt && !key.ctrl {
                    let b = &mut self.buffers[i];
                    b.insert_char(c);
                    proof {
                        self.lemma_buffer_update_wf(old(self), i as int);
                    }
                } else {
                    let r = self.handle_mapped_key(key);
                    self.needs_redraw = true;
                    return r;
                }
            },
            KeyCode::Enter => {
                if self.buffers[i].len_lines() < usize::MAX {
                    let b = &mut self.buffers[i];
                    b.insert_newline();
                    proof {
                        self.lemma_buffer_update_wf(old(self), i as int);
                    }
                }
            },
            KeyCode::Backspace => {
                let b = &mut self.buffers[i];
                b.backspace_char();
                proof {
                    self.lemma_buffer_update_wf(old(self), i as int);
                }
            },
            _ => {
                let r = self.handle_mapped_key(key);
                self.needs_redraw = true;
                return r;
            },
        }
        self.needs_redraw = true;
        EditorOutcome::Done
    }

    /// Feeds a key to the chord mapper and handles the request it fires,
    /// if any; a fired terminal-event request is dropped rather than
    /// nested.
    fn handle_mapped_key(&mut self, key: &KeyEvent) -> (r: EditorOutcome)
        requires
            old(self).wf(),
        ensures
            final(self).wf(),
    {
        match self.key_mapper.handle_input(key) {
            None => EditorOutcome::Done,
            Some(req) => self.dispatch_request(&req),
        }
    }

    /// Handles every request except terminal events, which only the key
    /// path may raise and which do not nest.
    fn dispatch_request(&mut self, req: &crate::rpc::Request) -> (r: EditorOutcome)
        requires
            old(self).wf(),
        ensures
            final(self).wf(),
            !(*req is NotifyTerminalEvent) ==> requested_transition(
                *old(self),
                *final(self),
                *req,
                r,
            ),
            *req is NotifyTerminalEvent ==> *final(self) == *old(self) && r is Done,
    {
        match req {
            crate::rpc::Request::NotifyTerminalEvent { params } => EditorOutcome::Done,
            crate::rpc::Request::Open { params } => EditorOutcome::NeedsOpen {
                path: params.path.clone(),
            },
            crate::rpc::Request::Save { params } => match self.handle_save() {
                None => EditorOutcome::Done,
                Some((path, text)) => EditorOutcome::NeedsSave { path, text },
            },
            crate::rpc::Request::Mark => {
                self.handle_mark();
                EditorOutcome::Done
            },
            crate::rpc::Request::Cancel => {
                self.handle_cancel();
                EditorOutcome::Done
            },
            crate::rpc::Request::Copy => {
                self.handle_copy();
                EditorOutcome::Done
            },
            crate::rpc::Request::Cut => {
                self.handle_cut();
                EditorOutcome::Done
            },
            crate::rpc::Request::Paste => {
                self.handle_paste();
                EditorOutcome::Done
            },
            crate::rpc::Request::Exit => {
                self.exit = true;
                EditorOutcome::Exit
            },
            crate::rpc::Request::StartLsp { params } => match self.handle_start_lsp(params) {
                Ok(()) => EditorOutcome::NeedsSpawn,
                Err(error) => EditorOutcome::Fail { error },
            },
            crate::rpc::Request::MoveTo { params } => {
                self.handle_move_to(params);
                EditorOutcome::Done
            },
            crate::rpc::Request::MoveDelta { params } => {
                self.handle_move_delta(params);
                EditorOutcome::Done
            },
            crate::rpc::Request::NotifyLspStarted { params } => {
                self.handle_notify_lsp_started(params.name.as_str());
                EditorOutcome::Done
            },
            crate::rpc::Request::NotifySemanticTokens { params } => {
                self.handle_notify_semantic_tokens(params);
                EditorOutcome::Done
            },
            crate::rpc::Request::Command { params } => self.handle_command(params),
        }
    }

    /// Handles one decoded request from the RPC channel: the dispatch
    /// step of every event-loop iteration.  A terminal event must carry a
    /// key; the caller screens out the other terminal events.
    pub fn handle_request(&mut self, req: &crate::rpc::Request) -> (r: EditorOutcome)
        requires
            old(self).wf(),
            *req matches crate::rpc::Request::NotifyTerminalEvent { params }
                ==> params.event is Key,
        ensures
            final(self).wf(),
            requested_transition(*old(self), *final(self), *req, r),
    {
        match req {
            crate::rpc::Request::NotifyTerminalEvent { params } => match params.event {
                TerminalEvent::Key(k) => self.handle_key_event(&k),
                _ => EditorOutcome::Done,
            },
            _ => self.dispatch_request(req),
        }
    }
}

} // verus!
