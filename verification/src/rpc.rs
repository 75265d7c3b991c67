//! The editor's control protocol: the request union that local clients
//! send over the loopback RPC channel, the parameter and return types of
//! each request, and the structured errors handed back to callers.
use vstd::prelude::*;

use crate::buffer::BufferId;
use crate::key_mapper::TerminalEvent;
use crate::lsp::SemanticTokenType;
use crate::vec_map::VecMap;

verus! {

/// Parameters of a terminal-input notification relayed by the input thread.
pub struct NotifyTerminalEventParams {
    /// The terminal event, already decoded to plain values.
    pub event: TerminalEvent,
}

/// Parameters of an `Open` request.
pub struct OpenParams {
    /// Path of the file to open.
    pub path: String,
}

/// Parameters of a `Save` request.
pub struct SaveParams {}

/// Return value of a `Save` request.
pub struct SaveReturnValue {}

/// Parameters of a `MoveTo` request: absolute cursor coordinates, each
/// optional.
pub struct MoveToParams {
    /// Target row, unchanged when absent.
    pub row: Option<u32>,
    /// Target column, unchanged when absent.
    pub col: Option<u32>,
}

/// Return value of a `MoveTo` request.
pub struct MoveToReturnValue {}

/// Parameters of a `MoveDelta` request: a relative cursor move.
pub struct MoveDeltaParams {
    /// Rows to move by, downward when positive.
    pub row: i16,
    /// Columns to move by, rightward when positive.
    pub col: i16,
}

/// Return value of a `MoveDelta` request.
pub struct MoveDeltaReturnValue {}

/// Return value of an `Open` request.
pub struct OpenReturnValue {
    /// Whether the file did not exist yet.
    pub new: bool,
}

/// Parameters of a `StartLsp` request.
pub struct StartLspParams {
    /// Unique human-assigned name for the client.
    pub name: String,
    /// Root directory handed to the server in `initialize`.
    pub root_dir: String,
    /// Executable to spawn.
    pub command: String,
    /// Arguments for the executable.
    pub args: Vec<String>,
    /// Environment variables for the spawned process.
    pub env: VecMap<String, String>,
}

/// Return value of a `StartLsp` request.
pub struct StartLspReturnValue {}

/// Parameters of the internal notification that an LSP server finished
/// initializing.
pub struct NotifyLspStartedParams {
    /// The client's name.
    pub name: String,
}

/// Parameters of the internal notification carrying decoded semantic
/// tokens for one buffer.
pub struct NotifySemanticTokensParams {
    /// The buffer the tokens were computed for.
    pub buffer_id: BufferId,
    /// The decoded absolute tokens.
    pub tokens: Vec<SemanticToken>,
}

/// One decoded semantic token: an absolute position, a length, and the
/// category it was tagged with.
#[derive(Clone, Copy)]
pub struct SemanticToken {
    /// Zero-based line.
    pub line: usize,
    /// Zero-based starting column within the line.
    pub column: usize,
    /// Number of covered characters.
    pub token_len: usize,
    /// The category out of the server's legend.
    pub token_type: SemanticTokenType,
}

/// Parameters of a `Command` request: an external command to run
/// fire-and-forget.
pub struct CommandParams {
    /// Executable to run.
    pub path: String,
    /// Its arguments.
    pub args: Vec<String>,
}

/// Errors surfaced to RPC callers.
#[derive(Debug)]
pub enum RpcError {
    /// A file could not be read or written.
    FileError {
        /// The file concerned.
        path: String,
        /// The operating system's description of the failure.
        reason: String,
    },
    /// Some other I/O operation failed.
    IoError {
        /// The operating system's description of the failure.
        reason: String,
    },
    /// Any other failure, described in words.
    Other {
        /// The description.
        message: String,
    },
}

impl RpcError {
    /// Wraps a plain message.
    pub fn other(message: &str) -> (r: Self)
        ensures
            match r {
                RpcError::Other { message: m } => m@ == message@,
                _ => false,
            },
    {
        RpcError::Other { message: message.to_owned() }
    }

    /// Wraps a file operation failure.
    pub fn file_error(path: String, reason: String) -> (r: Self)
        ensures
            r == (RpcError::FileError { path, reason }),
    {
        RpcError::FileError { path, reason }
    }
}

/// A result that surfaces a structured error to the RPC caller.
pub type RpcResult<T> = Result<T, RpcError>;

/// The tagged union of editor commands and internal notifications.
pub enum Request {
    /// Terminal input relayed from the input thread.
    NotifyTerminalEvent {
        /// The event.
        params: NotifyTerminalEventParams,
    },
    /// Open a file in a new buffer and focus it.
    Open {
        /// Which file.
        params: OpenParams,
    },
    /// Write the focused buffer back to its file.
    Save {
        /// Nothing yet.
        params: SaveParams,
    },
    /// Set the mark at the cursor.
    Mark,
    /// Cut the marked region to the clipboard.
    Cut,
    /// Copy the marked region to the clipboard.
    Copy,
    /// Insert the clipboard at the cursor.
    Paste,
    /// Drop the mark.
    Cancel,
    /// Leave the event loop.
    Exit,
    /// Spawn and supervise an LSP server.
    StartLsp {
        /// How to start it.
        params: StartLspParams,
    },
    /// Move the cursor to absolute coordinates.
    MoveTo {
        /// Where to.
        params: MoveToParams,
    },
    /// Move the cursor by a relative amount.
    MoveDelta {
        /// By how much.
        params: MoveDeltaParams,
    },
    /// Internal: an LSP server finished initializing.
    NotifyLspStarted {
        /// Which one.
        params: NotifyLspStartedParams,
    },
    /// Internal: semantic tokens arrived for a buffer.
    NotifySemanticTokens {
        /// The tokens and their buffer.
        params: NotifySemanticTokensParams,
    },
    /// Run an external command without waiting for it.
    Command {
        /// What to run.
        params: CommandParams,
    },
}

impl Request {
    /// A `Save` request.
    pub fn save() -> (r: Self)
        ensures
            r == (Request::Save { params: SaveParams {} }),
    {
        Request::Save { params: SaveParams {} }
    }

    /// A `Mark` request.
    pub fn mark() -> (r: Self)
        ensures
            r == Request::Mark,
    {
        Request::Mark
    }

    /// A `Copy` request.
    pub fn copy() -> (r: Self)
        ensures
            r == Request::Copy,
    {
        Request::Copy
    }

    /// A `Cut` request.
    pub fn cut() -> (r: Self)
        ensures
            r == Request::Cut,
    {
        Request::Cut
    }

    /// A `Paste` request.
    pub fn paste() -> (r: Self)
        ensures
            r == Request::Paste,
    {
        Request::Paste
    }

    /// A `MoveTo` request.
    pub fn move_to(row: Option<u32>, col: Option<u32>) -> (r: Self)
        ensures
            r == (Request::MoveTo { params: MoveToParams { row, col } }),
    {
        Request::MoveTo { params: MoveToParams { row, col } }
    }

    /// A `MoveDelta` request.
    pub fn move_delta(row: i16, col: i16) -> (r: Self)
        ensures
            r == (Request::MoveDelta { params: MoveDeltaParams { row, col } }),
    {
        Request::MoveDelta { params: MoveDeltaParams { row, col } }
    }

    /// A `Cancel` request.
    pub fn cancel() -> (r: Self)
        ensures
            r == Request::Cancel,
    {
        Request::Cancel
    }

    /// An `Exit` request.
    pub fn exit() -> (r: Self)
        ensures
            r == Request::Exit,
    {
        Request::Exit
    }
}

/// Whether two requests carry the same command and the same values.
pub open spec fn req_eq(a: Request, b: Request) -> bool {
    match (a, b) {
        (
            Request::NotifyTerminalEvent { params: x },
            Request::NotifyTerminalEvent { params: y },
        ) => x.event == y.event,
        (Request::Open { params: x }, Request::Open { params: y }) => x.path@ == y.path@,
        (Request::Save { params: x }, Request::Save { params: y }) => true,
        (Request::Mark, Request::Mark) => true,
        (Request::Cut, Request::Cut) => true,
        (Request::Copy, Request::Copy) => true,
        (Request::Paste, Request::Paste) => true,
        (Request::Cancel, Request::Cancel) => true,
        (Request::Exit, Request::Exit) => true,
        (Request::StartLsp { params: x }, Request::StartLsp { params: y }) => x.name@ == y.name@
            && x.root_dir@ == y.root_dir@ && x.command@ == y.command@ && x.args@ == y.args@
            && x.env.entries() == y.env.entries(),
        (Request::MoveTo { params: x }, Request::MoveTo { params: y }) => x.row == y.row && x.col
            == y.col,
        (Request::MoveDelta { params: x }, Request::MoveDelta { params: y }) => x.row == y.row
            && x.col == y.col,
        (Request::NotifyLspStarted { params: x }, Request::NotifyLspStarted { params: y }) => x.name@
            == y.name@,
        (
            Request::NotifySemanticTokens { params: x },
            Request::NotifySemanticTokens { params: y },
        ) => x.buffer_id.name@ == y.buffer_id.name@ && x.buffer_id.path@ == y.buffer_id.path@
            && x.tokens@ == y.tokens@,
        (Request::Command { params: x }, Request::Command { params: y }) => x.path@ == y.path@
            && x.args@ == y.args@,
        _ => false,
    }
}

/// A copy of a vector of strings, string for string.
pub fn clone_strings(v: &Vec<String>) -> (r: Vec<String>)
    ensures
        r@ == v@,
{
    let mut r: Vec<String> = Vec::new();
    let mut i: usize = 0;
    while i < v.len()
        invariant
            i <= v@.len(),
            r@ == v@.take(i as int),
    decreases v@.len() - i,
    {
        r.push(v[i].clone());
        assert(r@ =~= v@.take(i + 1));
        i = i + 1;
    }
    assert(r@ =~= v@);
    r
}

/// A copy of a request, value for value.
pub fn clone_request(r: &Request) -> (c: Request)
    ensures
        req_eq(c, *r),
{
    match r {
        Request::NotifyTerminalEvent { params } => Request::NotifyTerminalEvent {
            params: NotifyTerminalEventParams { event: params.event },
        },
        Request::Open { params } => Request::Open {
            params: OpenParams { path: params.path.clone() },
        },
        Request::Save { params } => Request::Save { params: SaveParams {} },
        Request::Mark => Request::Mark,
        Request::Cut => Request::Cut,
        Request::Copy => Request::Copy,
        Request::Paste => Request::Paste,
        Request::Cancel => Request::Cancel,
        Request::Exit => Request::Exit,
        Request::StartLsp { params } => Request::StartLsp {
            params: StartLspParams {
                name: params.name.clone(),
                root_dir: params.root_dir.clone(),
                command: params.command.clone(),
                args: clone_strings(&params.args),
                env: params.env.clone(),
            },
        },
        Request::MoveTo { params } => Request::MoveTo {
            params: MoveToParams { row: params.row, col: params.col },
        },
        Request::MoveDelta { params } => Request::MoveDelta {
            params: MoveDeltaParams { row: params.row, col: params.col },
        },
        Request::NotifyLspStarted { params } => Request::NotifyLspStarted {
            params: NotifyLspStartedParams { name: params.name.clone() },
        },
        Request::NotifySemanticTokens { params } => Request::NotifySemanticTokens {
            params: NotifySemanticTokensParams {
                buffer_id: params.buffer_id.clone(),
                tokens: clone_tokens(&params.tokens),
            },
        },
        Request::Command { params } => Request::Command {
            params: CommandParams {
                path: params.path.clone(),
                args: clone_strings(&params.args),
            },
        },
    }
}

/// A copy of a vector of tokens.
pub fn clone_tokens(v: &Vec<SemanticToken>) -> (r: Vec<SemanticToken>)
    ensures
        r@ == v@,
{
    let mut r: Vec<SemanticToken> = Vec::new();
    let mut i: usize = 0;
    while i < v.len()
        invariant
            i <= v@.len(),
            r@ == v@.take(i as int),
    decreases v@.len() - i,
    {
        r.push(v[i]);
        assert(r@ =~= v@.take(i + 1));
        i = i + 1;
    }
    assert(r@ =~= v@);
    r
}

} // verus!
