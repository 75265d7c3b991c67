//! The LSP client layer: the wire-name table of semantic token
//! categories, the delta decoder for semantic tokens, the client state
//! machine, and the manager that owns the clients.
use vstd::prelude::*;
use vstd::string::StringExecFns;

use crate::buffer::{Buffer, BufferId};
use crate::codec::{frame_bytes, json_envelope, parse_frames, plain_method, try_parse_frames, ParseResult};
use crate::rpc::SemanticToken;
use crate::SEND_BUF_SIZE_LIMIT;

verus! {

/// A semantic token category from the LSP specification's registry.
#[derive(Clone, Copy, PartialEq, Eq, Structural)]
pub enum SemanticTokenType {
    /// `namespace` on the wire.
    Namespace,
    /// `type` on the wire.
    Type,
    /// `class` on the wire.
    Class,
    /// `enum` on the wire.
    Enum,
    /// `interface` on the wire.
    Interface,
    /// `struct` on the wire.
    Struct,
    /// `typeParameter` on the wire.
    TypeParameter,
    /// `parameter` on the wire.
    Parameter,
    /// `variable` on the wire.
    Variable,
    /// `property` on the wire.
    Property,
    /// `enumMember` on the wire.
    EnumMember,
    /// `event` on the wire.
    Event,
    /// `function` on the wire.
    Function,
    /// `method` on the wire.
    Method,
    /// `macro` on the wire.
    Macro,
    /// `keyword` on the wire.
    Keyword,
    /// `modifier` on the wire.
    Modifier,
    /// `comment` on the wire.
    Comment,
    /// `string` on the wire.
    String,
    /// `number` on the wire.
    Number,
    /// `regexp` on the wire.
    Regexp,
    /// `operator` on the wire.
    Operator,
    /// `decorator` on the wire.
    Decorator,
}

impl View for SemanticTokenType {
    type V = SemanticTokenType;

    /// A category is its own view.
    open spec fn view(&self) -> SemanticTokenType {
        *self
    }
}

impl DeepView for SemanticTokenType {
    type V = SemanticTokenType;

    /// A category is its own view.
    open spec fn deep_view(&self) -> SemanticTokenType {
        *self
    }
}

/// The wire name of a category, as the legend of an `initialize` reply
/// spells it.
pub open spec fn token_type_wire_name(t: SemanticTokenType) -> Seq<char> {
    match t {
        SemanticTokenType::Namespace => seq!['n', 'a', 'm', 'e', 's', 'p', 'a', 'c', 'e'],
        SemanticTokenType::Type => seq!['t', 'y', 'p', 'e'],
        SemanticTokenType::Class => seq!['c', 'l', 'a', 's', 's'],
        SemanticTokenType::Enum => seq!['e', 'n', 'u', 'm'],
        SemanticTokenType::Interface => seq!['i', 'n', 't', 'e', 'r', 'f', 'a', 'c', 'e'],
        SemanticTokenType::Struct => seq!['s', 't', 'r', 'u', 'c', 't'],
        SemanticTokenType::TypeParameter => seq!['t', 'y', 'p', 'e', 'P', 'a', 'r', 'a', 'm', 'e', 't', 'e', 'r'],
        SemanticTokenType::Parameter => seq!['p', 'a', 'r', 'a', 'm', 'e', 't', 'e', 'r'],
        SemanticTokenType::Variable => seq!['v', 'a', 'r', 'i', 'a', 'b', 'l', 'e'],
        SemanticTokenType::Property => seq!['p', 'r', 'o', 'p', 'e', 'r', 't', 'y'],
        SemanticTokenType::EnumMember => seq!['e', 'n', 'u', 'm', 'M', 'e', 'm', 'b', 'e', 'r'],
        SemanticTokenType::Event => seq!['e', 'v', 'e', 'n', 't'],
        SemanticTokenType::Function => seq!['f', 'u', 'n', 'c', 't', 'i', 'o', 'n'],
        SemanticTokenType::Method => seq!['m', 'e', 't', 'h', 'o', 'd'],
        SemanticTokenType::Macro => seq!['m', 'a', 'c', 'r', 'o'],
        SemanticTokenType::Keyword => seq!['k', 'e', 'y', 'w', 'o', 'r', 'd'],
        SemanticTokenType::Modifier => seq!['m', 'o', 'd', 'i', 'f', 'i', 'e', 'r'],
        SemanticTokenType::Comment => seq!['c', 'o', 'm', 'm', 'e', 'n', 't'],
        SemanticTokenType::String => seq!['s', 't', 'r', 'i', 'n', 'g'],
        SemanticTokenType::Number => seq!['n', 'u', 'm', 'b', 'e', 'r'],
        SemanticTokenType::Regexp => seq!['r', 'e', 'g', 'e', 'x', 'p'],
        SemanticTokenType::Operator => seq!['o', 'p', 'e', 'r', 'a', 't', 'o', 'r'],
        SemanticTokenType::Decorator => seq!['d', 'e', 'c', 'o', 'r', 'a', 't', 'o', 'r'],
    }
}

/// The category a wire name denotes, if any.
pub open spec fn spec_token_type_of(s: Seq<char>) -> Option<SemanticTokenType> {
    if s == token_type_wire_name(SemanticTokenType::Namespace) {
        Some(SemanticTokenType::Namespace)
    } else if s == token_type_wire_name(SemanticTokenType::Type) {
        Some(SemanticTokenType::Type)
    } else if s == token_type_wire_name(SemanticTokenType::Class) {
        Some(SemanticTokenType::Class)
    } else if s == token_type_wire_name(SemanticTokenType::Enum) {
        Some(SemanticTokenType::Enum)
    } else if s == token_type_wire_name(SemanticTokenType::Interface) {
        Some(SemanticTokenType::Interface)
    } else if s == token_type_wire_name(SemanticTokenType::Struct) {
        Some(SemanticTokenType::Struct)
    } else if s == token_type_wire_name(SemanticTokenType::TypeParameter) {
        Some(SemanticTokenType::TypeParameter)
    } else if s == token_type_wire_name(SemanticTokenType::Parameter) {
        Some(SemanticTokenType::Parameter)
    } else if s == token_type_wire_name(SemanticTokenType::Variable) {
        Some(SemanticTokenType::Variable)
    } else if s == token_type_wire_name(SemanticTokenType::Property) {
        Some(SemanticTokenType::Property)
    } else if s == token_type_wire_name(SemanticTokenType::EnumMember) {
        Some(SemanticTokenType::EnumMember)
    } else if s == token_type_wire_name(SemanticTokenType::Event) {
        Some(SemanticTokenType::Event)
    } else if s == token_type_wire_name(SemanticTokenType::Function) {
        Some(SemanticTokenType::Function)
    } else if s == token_type_wire_name(SemanticTokenType::Method) {
        Some(SemanticTokenType::Method)
    } else if s == token_type_wire_name(SemanticTokenType::Macro) {
        Some(SemanticTokenType::Macro)
    } else if s == token_type_wire_name(SemanticTokenType::Keyword) {
        Some(SemanticTokenType::Keyword)
    } else if s == token_type_wire_name(SemanticTokenType::Modifier) {
        Some(SemanticTokenType::Modifier)
    } else if s == token_type_wire_name(SemanticTokenType::Comment) {
        Some(SemanticTokenType::Comment)
    } else if s == token_type_wire_name(SemanticTokenType::String) {
        Some(SemanticTokenType::String)
    } else if s == token_type_wire_name(SemanticTokenType::Number) {
        Some(SemanticTokenType::Number)
    } else if s == token_type_wire_name(SemanticTokenType::Regexp) {
        Some(SemanticTokenType::Regexp)
    } else if s == token_type_wire_name(SemanticTokenType::Operator) {
        Some(SemanticTokenType::Operator)
    } else if s == token_type_wire_name(SemanticTokenType::Decorator) {
        Some(SemanticTokenType::Decorator)
    } else {
        None
    }
}

fn str_eq(a: &str, b: &str) -> (r: bool)
    ensures
        r == (a@ == b@),
{
    let x: String = a.to_owned();
    let y: String = b.to_owned();
    x == y
}

impl SemanticTokenType {
    /// Decodes a wire name from a server's legend.
    pub fn from_wire_name(s: &str) -> (r: Option<Self>)
        ensures
            r == spec_token_type_of(s@),
    {
        if str_eq(s, "namespace") {
            proof {
                reveal_strlit("namespace");
                assert("namespace"@ =~= token_type_wire_name(SemanticTokenType::Namespace));
            }
            return Some(SemanticTokenType::Namespace);
        }
        proof {
            reveal_strlit("namespace");
            assert("namespace"@ =~= token_type_wire_name(SemanticTokenType::Namespace));
        }
        if str_eq(s, "type") {
            proof {
                reveal_strlit("type");
                assert("type"@ =~= token_type_wire_name(SemanticTokenType::Type));
            }
            return Some(SemanticTokenType::Type);
        }
        proof {
            reveal_strlit("type");
            assert("type"@ =~= token_type_wire_name(SemanticTokenType::Type));
        }
        if str_eq(s, "class") {
            proof {
                reveal_strlit("class");
                assert("class"@ =~= token_type_wire_name(SemanticTokenType::Class));
            }
            return Some(SemanticTokenType::Class);
        }
        proof {
            reveal_strlit("class");
            assert("class"@ =~= token_type_wire_name(SemanticTokenType::Class));
        }
        if str_eq(s, "enum") {
            proof {
                reveal_strlit("enum");
                assert("enum"@ =~= token_type_wire_name(SemanticTokenType::Enum));
            }
            return Some(SemanticTokenType::Enum);
        }
        proof {
            reveal_strlit("enum");
            assert("enum"@ =~= token_type_wire_name(SemanticTokenType::Enum));
        }
        if str_eq(s, "interface") {
            proof {
                reveal_strlit("interface");
                assert("interface"@ =~= token_type_wire_name(SemanticTokenType::Interface));
            }
            return Some(SemanticTokenType::Interface);
        }
        proof {
            reveal_strlit("interface");
            assert("interface"@ =~= token_type_wire_name(SemanticTokenType::Interface));
        }
        if str_eq(s, "struct") {
            proof {
                reveal_strlit("struct");
                assert("struct"@ =~= token_type_wire_name(SemanticTokenType::Struct));
            }
            return Some(SemanticTokenType::Struct);
        }
        proof {
            reveal_strlit("struct");
            assert("struct"@ =~= token_type_wire_name(SemanticTokenType::Struct));
        }
        if str_eq(s, "typeParameter") {
            proof {
                reveal_strlit("typeParameter");
                assert("typeParameter"@ =~= token_type_wire_name(SemanticTokenType::TypeParameter));
            }
            return Some(SemanticTokenType::TypeParameter);
        }
        proof {
            reveal_strlit("typeParameter");
            assert("typeParameter"@ =~= token_type_wire_name(SemanticTokenType::TypeParameter));
        }
        if str_eq(s, "parameter") {
            proof {
                reveal_strlit("parameter");
                assert("parameter"@ =~= token_type_wire_name(SemanticTokenType::Parameter));
            }
            return Some(SemanticTokenType::Parameter);
        }
        proof {
            reveal_strlit("parameter");
            assert("parameter"@ =~= token_type_wire_name(SemanticTokenType::Parameter));
        }
        if str_eq(s, "variable") {
            proof {
                reveal_strlit("variable");
                assert("variable"@ =~= token_type_wire_name(SemanticTokenType::Variable));
            }
            return Some(SemanticTokenType::Variable);
        }
        proof {
            reveal_strlit("variable");
            assert("variable"@ =~= token_type_wire_name(SemanticTokenType::Variable));
        }
        if str_eq(s, "property") {
            proof {
                reveal_strlit("property");
                assert("property"@ =~= token_type_wire_name(SemanticTokenType::Property));
            }
            return Some(SemanticTokenType::Property);
        }
        proof {
            reveal_strlit("property");
            assert("property"@ =~= token_type_wire_name(SemanticTokenType::Property));
        }
        if str_eq(s, "enumMember") {
            proof {
                reveal_strlit("enumMember");
                assert("enumMember"@ =~= token_type_wire_name(SemanticTokenType::EnumMember));
            }
            return Some(SemanticTokenType::EnumMember);
        }
        proof {
            reveal_strlit("enumMember");
            assert("enumMember"@ =~= token_type_wire_name(SemanticTokenType::EnumMember));
        }
        if str_eq(s, "event") {
            proof {
                reveal_strlit("event");
                assert("event"@ =~= token_type_wire_name(SemanticTokenType::Event));
            }
            return Some(SemanticTokenType::Event);
        }
        proof {
            reveal_strlit("event");
            assert("event"@ =~= token_type_wire_name(SemanticTokenType::Event));
        }
        if str_eq(s, "function") {
            proof {
                reveal_strlit("function");
                assert("function"@ =~= token_type_wire_name(SemanticTokenType::Function));
            }
            return Some(SemanticTokenType::Function);
        }
        proof {
            reveal_strlit("function");
            assert("function"@ =~= token_type_wire_name(SemanticTokenType::Function));
        }
        if str_eq(s, "method") {
            proof {
                reveal_strlit("method");
                assert("method"@ =~= token_type_wire_name(SemanticTokenType::Method));
            }
            return Some(SemanticTokenType::Method);
        }
        proof {
            reveal_strlit("method");
            assert("method"@ =~= token_type_wire_name(SemanticTokenType::Method));
        }
        if str_eq(s, "macro") {
            proof {
                reveal_strlit("macro");
                assert("macro"@ =~= token_type_wire_name(SemanticTokenType::Macro));
            }
            return Some(SemanticTokenType::Macro);
        }
        proof {
            reveal_strlit("macro");
            assert("macro"@ =~= token_type_wire_name(SemanticTokenType::Macro));
        }
        if str_eq(s, "keyword") {
            proof {
                reveal_strlit("keyword");
                assert("keyword"@ =~= token_type_wire_name(SemanticTokenType::Keyword));
            }
            return Some(SemanticTokenType::Keyword);
        }
        proof {
            reveal_strlit("keyword");
            assert("keyword"@ =~= token_type_wire_name(SemanticTokenType::Keyword));
        }
        if str_eq(s, "modifier") {
            proof {
                reveal_strlit("modifier");
                assert("modifier"@ =~= token_type_wire_name(SemanticTokenType::Modifier));
            }
            return Some(SemanticTokenType::Modifier);
        }
        proof {
            reveal_strlit("modifier");
            assert("modifier"@ =~= token_type_wire_name(SemanticTokenType::Modifier));
        }
        if str_eq(s, "comment") {
            proof {
                reveal_strlit("comment");
                assert("comment"@ =~= token_type_wire_name(SemanticTokenType::Comment));
            }
            return Some(SemanticTokenType::Comment);
        }
        proof {
            reveal_strlit("comment");
            assert("comment"@ =~= token_type_wire_name(SemanticTokenType::Comment));
        }
        if str_eq(s, "string") {
            proof {
                reveal_strlit("string");
                assert("string"@ =~= token_type_wire_name(SemanticTokenType::String));
            }
            return Some(SemanticTokenType::String);
        }
        proof {
            reveal_strlit("string");
            assert("string"@ =~= token_type_wire_name(SemanticTokenType::String));
        }
        if str_eq(s, "number") {
            proof {
                reveal_strlit("number");
                assert("number"@ =~= token_type_wire_name(SemanticTokenType::Number));
            }
            return Some(SemanticTokenType::Number);
        }
        proof {
            reveal_strlit("number");
            assert("number"@ =~= token_type_wire_name(SemanticTokenType::Number));
        }
        if str_eq(s, "regexp") {
            proof {
                reveal_strlit("regexp");
                assert("regexp"@ =~= token_type_wire_name(SemanticTokenType::Regexp));
            }
            return Some(SemanticTokenType::Regexp);
        }
        proof {
            reveal_strlit("regexp");
            assert("regexp"@ =~= token_type_wire_name(SemanticTokenType::Regexp));
        }
        if str_eq(s, "operator") {
            proof {
                reveal_strlit("operator");
                assert("operator"@ =~= token_type_wire_name(SemanticTokenType::Operator));
            }
            return Some(SemanticTokenType::Operator);
        }
        proof {
            reveal_strlit("operator");
            assert("operator"@ =~= token_type_wire_name(SemanticTokenType::Operator));
        }
        if str_eq(s, "decorator") {
            proof {
                reveal_strlit("decorator");
                assert("decorator"@ =~= token_type_wire_name(SemanticTokenType::Decorator));
            }
            return Some(SemanticTokenType::Decorator);
        }
        proof {
            reveal_strlit("decorator");
            assert("decorator"@ =~= token_type_wire_name(SemanticTokenType::Decorator));
        }
        None
    }
}

/// Absolute line of chunk `i`: the running sum of the line deltas.
pub open spec fn dec_line(d: Seq<u64>, i: int) -> int
    decreases i + 1,
    when i >= -1
{
    if i < 0 {
        0
    } else {
        dec_line(d, i - 1) + d[5 * i]
    }
}

/// Absolute column of chunk `i`: carried from the previous chunk when the
/// line delta is zero, reset otherwise, then advanced by the start delta.
pub open spec fn dec_col(d: Seq<u64>, i: int) -> int
    decreases i + 1,
    when i >= -1
{
    if i < 0 {
        0
    } else {
        (if d[5 * i] == 0 {
            dec_col(d, i - 1)
        } else {
            0
        }) + d[5 * i + 1]
    }
}

/// Chunk `i` decodes to a representable token: its category index is in
/// the legend and its absolute coordinates and length fit in memory.
pub open spec fn chunk_ok(d: Seq<u64>, legend_len: int, i: int) -> bool {
    &&& d[5 * i + 3] < legend_len
    &&& dec_line(d, i) <= usize::MAX
    &&& dec_col(d, i) <= usize::MAX
    &&& d[5 * i + 2] <= usize::MAX
}

/// The token chunk `i` decodes to.
pub open spec fn decoded_token(d: Seq<u64>, legend: Seq<SemanticTokenType>, i: int) -> SemanticToken {
    SemanticToken {
        line: dec_line(d, i) as usize,
        column: dec_col(d, i) as usize,
        token_len: d[5 * i + 2] as usize,
        token_type: legend[d[5 * i + 3] as int],
    }
}

proof fn lemma_dec_nonneg(d: Seq<u64>, i: int)
    requires
        i >= -1,
    ensures
        dec_line(d, i) >= 0,
        dec_col(d, i) >= 0,
    decreases i + 1,
{
    if i >= 0 {
        lemma_dec_nonneg(d, i - 1);
    }
}

/// Decodes a flat array of five-value chunks `(deltaLine, deltaStartChar,
/// length, tokenTypeIndex, tokenModifiers)` into absolute tokens, looking
/// the category up in the legend; modifiers are ignored, as is a trailing
/// partial chunk.  `None` exactly when some chunk names a category outside
/// the legend or a coordinate overflows.
pub fn decode_semantic_tokens(data: &Vec<u64>, legend: &Vec<SemanticTokenType>) -> (r: Option<
    Vec<SemanticToken>,
>)
    ensures
        ({
            let n = data@.len() as int / 5;
            match r {
                Some(toks) => (forall|i: int| 0 <= i < n ==> chunk_ok(data@, legend@.len() as int, i))
                    && toks@.len() == n && (forall|i: int|
                    0 <= i < n ==> toks@[i] == decoded_token(data@, legend@, i)),
                None => !(forall|i: int| 0 <= i < n ==> chunk_ok(data@, legend@.len() as int, i)),
            }
        }),
{
    let ghost d = data@;
    let ghost ll = legend@.len() as int;
    let n = data.len() / 5;
    proof {
        vstd::arithmetic::div_mod::lemma_fundamental_div_mod(d.len() as int, 5);
    }
    let mut toks: Vec<SemanticToken> = Vec::new();
    let mut line: usize = 0;
    let mut col: usize = 0;
    let mut i: usize = 0;
    while i < n
        invariant
            0 <= i <= n,
            n == d.len() as int / 5,
            5 * n <= d.len(),
            d.len() <= usize::MAX,
            d == data@,
            ll == legend@.len() as int,
            line as int == dec_line(d, i - 1),
            col as int == dec_col(d, i - 1),
            toks@.len() == i,
            forall|j: int| 0 <= j < i ==> chunk_ok(d, ll, j),
            forall|j: int| 0 <= j < i ==> toks@[j] == decoded_token(d, legend@, j),
        decreases n - i,
    {
        let dl = data[5 * i];
        let ds = data[5 * i + 1];
        let ln = data[5 * i + 2];
        let ti = data[5 * i + 3];
        proof {
            lemma_dec_nonneg(d, i as int);
            assert(dec_line(d, i as int) == line + dl);
        }
        if dl > usize::MAX as u64 || (dl as usize) > usize::MAX - line {
            proof {
                witness_bad_chunk(d, ll, i as int, n as int);
            }
            return None;
        }
        let new_line: usize = line + (dl as usize);
        let base: usize = if dl == 0 {
            col
        } else {
            0
        };
        proof {
            assert(dec_col(d, i as int) == base + ds);
        }
        if ds > usize::MAX as u64 || (ds as usize) > usize::MAX - base {
            proof {
                witness_bad_chunk(d, ll, i as int, n as int);
            }
            return None;
        }
        let new_col: usize = base + (ds as usize);
        if ln > usize::MAX as u64 {
            proof {
                witness_bad_chunk(d, ll, i as int, n as int);
            }
            return None;
        }
        if ti >= legend.len() as u64 {
            proof {
                witness_bad_chunk(d, ll, i as int, n as int);
            }
            return None;
        }
        let tok = SemanticToken {
            line: new_line,
            column: new_col,
            token_len: ln as usize,
            token_type: legend[ti as usize],
        };
        toks.push(tok);
        line = new_line;
        col = new_col;
        proof {
            assert(chunk_ok(d, ll, i as int));
            assert(toks@[i as int] == decoded_token(d, legend@, i as int));
        }
        i = i + 1;
    }
    Some(toks)
}

proof fn witness_bad_chunk(d: Seq<u64>, ll: int, i: int, n: int)
    requires
        0 <= i < n,
        !chunk_ok(d, ll, i),
    ensures
        !(forall|j: int| 0 <= j < n ==> chunk_ok(d, ll, j)),
{
    if forall|j: int| 0 <= j < n ==> chunk_ok(d, ll, j) {
        assert(chunk_ok(d, ll, i));
    }
}

// --- literal pieces of the serialized JSON params ---

/// The bytes of `{"rootUri":`.
pub open spec fn lit_rooturi_open() -> Seq<u8> {
    seq![123u8, 34u8, 114u8, 111u8, 111u8, 116u8, 85u8, 114u8, 105u8, 34u8, 58u8]
}

#[verifier::rlimit(50)]
fn push_rooturi_open(v: &mut Vec<u8>)
    ensures
        final(v)@ == old(v)@ + lit_rooturi_open(),
{
    v.push(123);
    v.push(34);
    v.push(114);
    v.push(111);
    v.push(111);
    v.push(116);
    v.push(85);
    v.push(114);
    v.push(105);
    v.push(34);
    v.push(58);
    assert(v@ =~= old(v)@ + lit_rooturi_open());
}

/// The bytes of `null`.
pub open spec fn lit_null_value() -> Seq<u8> {
    seq![110u8, 117u8, 108u8, 108u8]
}

#[verifier::rlimit(50)]
fn push_null_value(v: &mut Vec<u8>)
    ensures
        final(v)@ == old(v)@ + lit_null_value(),
{
    v.push(110);
    v.push(117);
    v.push(108);
    v.push(108);
    assert(v@ =~= old(v)@ + lit_null_value());
}

/// The bytes of `,"clientInfo":null`.
pub open spec fn lit_clientinfo_null() -> Seq<u8> {
    seq![44u8, 34u8, 99u8, 108u8, 105u8, 101u8, 110u8, 116u8, 73u8, 110u8, 102u8, 111u8, 34u8, 58u8, 110u8, 117u8, 108u8, 108u8]
}

#[verifier::rlimit(50)]
fn push_clientinfo_null(v: &mut Vec<u8>)
    ensures
        final(v)@ == old(v)@ + lit_clientinfo_null(),
{
    v.push(44);
    v.push(34);
    v.push(99);
    v.push(108);
    v.push(105);
    v.push(101);
    v.push(110);
    v.push(116);
    v.push(73);
    v.push(110);
    v.push(102);
    v.push(111);
    v.push(34);
    v.push(58);
    v.push(110);
    v.push(117);
    v.push(108);
    v.push(108);
    assert(v@ =~= old(v)@ + lit_clientinfo_null());
}

/// The bytes of `,"clientInfo":{"name":`.
pub open spec fn lit_clientinfo_open() -> Seq<u8> {
    seq![44u8, 34u8, 99u8, 108u8, 105u8, 101u8, 110u8, 116u8, 73u8, 110u8, 102u8, 111u8, 34u8, 58u8, 123u8, 34u8, 110u8, 97u8, 109u8, 101u8, 34u8, 58u8]
}

#[verifier::rlimit(50)]
fn push_clientinfo_open(v: &mut Vec<u8>)
    ensures
        final(v)@ == old(v)@ + lit_clientinfo_open(),
{
    v.push(44);
    v.push(34);
    v.push(99);
    v.push(108);
    v.push(105);
    v.push(101);
    v.push(110);
    v.push(116);
    v.push(73);
    v.push(110);
    v.push(102);
    v.push(111);
    v.push(34);
    v.push(58);
    v.push(123);
    v.push(34);
    v.push(110);
    v.push(97);
    v.push(109);
    v.push(101);
    v.push(34);
    v.push(58);
    assert(v@ =~= old(v)@ + lit_clientinfo_open());
}

/// The bytes of `,"version":`.
pub open spec fn lit_version_sep() -> Seq<u8> {
    seq![44u8, 34u8, 118u8, 101u8, 114u8, 115u8, 105u8, 111u8, 110u8, 34u8, 58u8]
}

#[verifier::rlimit(50)]
fn push_version_sep(v: &mut Vec<u8>)
    ensures
        final(v)@ == old(v)@ + lit_version_sep(),
{
    v.push(44);
    v.push(34);
    v.push(118);
    v.push(101);
    v.push(114);
    v.push(115);
    v.push(105);
    v.push(111);
    v.push(110);
    v.push(34);
    v.push(58);
    assert(v@ =~= old(v)@ + lit_version_sep());
}

/// The bytes of `}`.
pub open spec fn lit_rbrace() -> Seq<u8> {
    seq![125u8]
}

#[verifier::rlimit(50)]
fn push_rbrace(v: &mut Vec<u8>)
    ensures
        final(v)@ == old(v)@ + lit_rbrace(),
{
    v.push(125);
    assert(v@ =~= old(v)@ + lit_rbrace());
}

/// The bytes of `,"capabilities":{"workspace":{"workspaceEdit":{"documentChanges":`.
pub open spec fn lit_caps_open() -> Seq<u8> {
    seq![44u8, 34u8, 99u8, 97u8, 112u8, 97u8, 98u8, 105u8, 108u8, 105u8, 116u8, 105u8, 101u8, 115u8, 34u8, 58u8, 123u8, 34u8, 119u8, 111u8, 114u8, 107u8, 115u8, 112u8, 97u8, 99u8, 101u8, 34u8, 58u8, 123u8, 34u8, 119u8, 111u8, 114u8, 107u8, 115u8, 112u8, 97u8, 99u8, 101u8, 69u8, 100u8, 105u8, 116u8, 34u8, 58u8, 123u8, 34u8, 100u8, 111u8, 99u8, 117u8, 109u8, 101u8, 110u8, 116u8, 67u8, 104u8, 97u8, 110u8, 103u8, 101u8, 115u8, 34u8, 58u8]
}

#[verifier::rlimit(50)]
fn push_caps_open(v: &mut Vec<u8>)
    ensures
        final(v)@ == old(v)@ + lit_caps_open(),
{
    v.push(44);
    v.push(34);
    v.push(99);
    v.push(97);
    v.push(112);
    v.push(97);
    v.push(98);
    v.push(105);
    v.push(108);
    v.push(105);
    v.push(116);
    v.push(105);
    v.push(101);
    v.push(115);
    v.push(34);
    v.push(58);
    v.push(123);
    v.push(34);
    v.push(119);
    v.push(111);
    v.push(114);
    v.push(107);
    v.push(115);
    v.push(112);
    v.push(97);
    v.push(99);
    v.push(101);
    v.push(34);
    v.push(58);
    v.push(123);
    v.push(34);
    v.push(119);
    v.push(111);
    v.push(114);
    v.push(107);
    v.push(115);
    v.push(112);
    v.push(97);
    v.push(99);
    v.push(101);
    v.push(69);
    v.push(100);
    v.push(105);
    v.push(116);
    v.push(34);
    v.push(58);
    v.push(123);
    v.push(34);
    v.push(100);
    v.push(111);
    v.push(99);
    v.push(117);
    v.push(109);
    v.push(101);
    v.push(110);
    v.push(116);
    v.push(67);
    v.push(104);
    v.push(97);
    v.push(110);
    v.push(103);
    v.push(101);
    v.push(115);
    v.push(34);
    v.push(58);
    assert(v@ =~= old(v)@ + lit_caps_open());
}

/// The bytes of `true`.
pub open spec fn lit_true_value() -> Seq<u8> {
    seq![116u8, 114u8, 117u8, 101u8]
}

#[verifier::rlimit(50)]
fn push_true_value(v: &mut Vec<u8>)
    ensures
        final(v)@ == old(v)@ + lit_true_value(),
{
    v.push(116);
    v.push(114);
    v.push(117);
    v.push(101);
    assert(v@ =~= old(v)@ + lit_true_value());
}

/// The bytes of `false`.
pub open spec fn lit_false_value() -> Seq<u8> {
    seq![102u8, 97u8, 108u8, 115u8, 101u8]
}

#[verifier::rlimit(50)]
fn push_false_value(v: &mut Vec<u8>)
    ensures
        final(v)@ == old(v)@ + lit_false_value(),
{
    v.push(102);
    v.push(97);
    v.push(108);
    v.push(115);
    v.push(101);
    assert(v@ =~= old(v)@ + lit_false_value());
}

/// The bytes of `}},"general":{"positionEncodings":[`.
pub open spec fn lit_general_open() -> Seq<u8> {
    seq![125u8, 125u8, 44u8, 34u8, 103u8, 101u8, 110u8, 101u8, 114u8, 97u8, 108u8, 34u8, 58u8, 123u8, 34u8, 112u8, 111u8, 115u8, 105u8, 116u8, 105u8, 111u8, 110u8, 69u8, 110u8, 99u8, 111u8, 100u8, 105u8, 110u8, 103u8, 115u8, 34u8, 58u8, 91u8]
}

#[verifier::rlimit(50)]
fn push_general_open(v: &mut Vec<u8>)
    ensures
        final(v)@ == old(v)@ + lit_general_open(),
{
    v.push(125);
    v.push(125);
    v.push(44);
    v.push(34);
    v.push(103);
    v.push(101);
    v.push(110);
    v.push(101);
    v.push(114);
    v.push(97);
    v.push(108);
    v.push(34);
    v.push(58);
    v.push(123);
    v.push(34);
    v.push(112);
    v.push(111);
    v.push(115);
    v.push(105);
    v.push(116);
    v.push(105);
    v.push(111);
    v.push(110);
    v.push(69);
    v.push(110);
    v.push(99);
    v.push(111);
    v.push(100);
    v.push(105);
    v.push(110);
    v.push(103);
    v.push(115);
    v.push(34);
    v.push(58);
    v.push(91);
    assert(v@ =~= old(v)@ + lit_general_open());
}

/// The bytes of `"utf-8"`.
pub open spec fn lit_enc_utf8() -> Seq<u8> {
    seq![34u8, 117u8, 116u8, 102u8, 45u8, 56u8, 34u8]
}

#[verifier::rlimit(50)]
fn push_enc_utf8(v: &mut Vec<u8>)
    ensures
        final(v)@ == old(v)@ + lit_enc_utf8(),
{
    v.push(34);
    v.push(117);
    v.push(116);
    v.push(102);
    v.push(45);
    v.push(56);
    v.push(34);
    assert(v@ =~= old(v)@ + lit_enc_utf8());
}

/// The bytes of `"utf-16"`.
pub open spec fn lit_enc_utf16() -> Seq<u8> {
    seq![34u8, 117u8, 116u8, 102u8, 45u8, 49u8, 54u8, 34u8]
}

#[verifier::rlimit(50)]
fn push_enc_utf16(v: &mut Vec<u8>)
    ensures
        final(v)@ == old(v)@ + lit_enc_utf16(),
{
    v.push(34);
    v.push(117);
    v.push(116);
    v.push(102);
    v.push(45);
    v.push(49);
    v.push(54);
    v.push(34);
    assert(v@ =~= old(v)@ + lit_enc_utf16());
}

/// The bytes of `"utf-32"`.
pub open spec fn lit_enc_utf32() -> Seq<u8> {
    seq![34u8, 117u8, 116u8, 102u8, 45u8, 51u8, 50u8, 34u8]
}

#[verifier::rlimit(50)]
fn push_enc_utf32(v: &mut Vec<u8>)
    ensures
        final(v)@ == old(v)@ + lit_enc_utf32(),
{
    v.push(34);
    v.push(117);
    v.push(116);
    v.push(102);
    v.push(45);
    v.push(51);
    v.push(50);
    v.push(34);
    assert(v@ =~= old(v)@ + lit_enc_utf32());
}

/// The bytes of `]}},"workspaceFolders":[`.
pub open spec fn lit_folders_open() -> Seq<u8> {
    seq![93u8, 125u8, 125u8, 44u8, 34u8, 119u8, 111u8, 114u8, 107u8, 115u8, 112u8, 97u8, 99u8, 101u8, 70u8, 111u8, 108u8, 100u8, 101u8, 114u8, 115u8, 34u8, 58u8, 91u8]
}

#[verifier::rlimit(50)]
fn push_folders_open(v: &mut Vec<u8>)
    ensures
        final(v)@ == old(v)@ + lit_folders_open(),
{
    v.push(93);
    v.push(125);
    v.push(125);
    v.push(44);
    v.push(34);
    v.push(119);
    v.push(111);
    v.push(114);
    v.push(107);
    v.push(115);
    v.push(112);
    v.push(97);
    v.push(99);
    v.push(101);
    v.push(70);
    v.push(111);
    v.push(108);
    v.push(100);
    v.push(101);
    v.push(114);
    v.push(115);
    v.push(34);
    v.push(58);
    v.push(91);
    assert(v@ =~= old(v)@ + lit_folders_open());
}

/// The bytes of `{"uri":`.
pub open spec fn lit_folder_open() -> Seq<u8> {
    seq![123u8, 34u8, 117u8, 114u8, 105u8, 34u8, 58u8]
}

#[verifier::rlimit(50)]
fn push_folder_open(v: &mut Vec<u8>)
    ensures
        final(v)@ == old(v)@ + lit_folder_open(),
{
    v.push(123);
    v.push(34);
    v.push(117);
    v.push(114);
    v.push(105);
    v.push(34);
    v.push(58);
    assert(v@ =~= old(v)@ + lit_folder_open());
}

/// The bytes of `,"name":`.
pub open spec fn lit_name_sep() -> Seq<u8> {
    seq![44u8, 34u8, 110u8, 97u8, 109u8, 101u8, 34u8, 58u8]
}

#[verifier::rlimit(50)]
fn push_name_sep(v: &mut Vec<u8>)
    ensures
        final(v)@ == old(v)@ + lit_name_sep(),
{
    v.push(44);
    v.push(34);
    v.push(110);
    v.push(97);
    v.push(109);
    v.push(101);
    v.push(34);
    v.push(58);
    assert(v@ =~= old(v)@ + lit_name_sep());
}

/// The bytes of `]}`.
pub open spec fn lit_params_end() -> Seq<u8> {
    seq![93u8, 125u8]
}

#[verifier::rlimit(50)]
fn push_params_end(v: &mut Vec<u8>)
    ensures
        final(v)@ == old(v)@ + lit_params_end(),
{
    v.push(93);
    v.push(125);
    assert(v@ =~= old(v)@ + lit_params_end());
}

/// The bytes of `{"textDocument":{"uri":`.
pub open spec fn lit_td_open() -> Seq<u8> {
    seq![123u8, 34u8, 116u8, 101u8, 120u8, 116u8, 68u8, 111u8, 99u8, 117u8, 109u8, 101u8, 110u8, 116u8, 34u8, 58u8, 123u8, 34u8, 117u8, 114u8, 105u8, 34u8, 58u8]
}

#[verifier::rlimit(50)]
fn push_td_open(v: &mut Vec<u8>)
    ensures
        final(v)@ == old(v)@ + lit_td_open(),
{
    v.push(123);
    v.push(34);
    v.push(116);
    v.push(101);
    v.push(120);
    v.push(116);
    v.push(68);
    v.push(111);
    v.push(99);
    v.push(117);
    v.push(109);
    v.push(101);
    v.push(110);
    v.push(116);
    v.push(34);
    v.push(58);
    v.push(123);
    v.push(34);
    v.push(117);
    v.push(114);
    v.push(105);
    v.push(34);
    v.push(58);
    assert(v@ =~= old(v)@ + lit_td_open());
}

/// The bytes of `,"languageId":"erlang","version":`.
pub open spec fn lit_lang_version() -> Seq<u8> {
    seq![44u8, 34u8, 108u8, 97u8, 110u8, 103u8, 117u8, 97u8, 103u8, 101u8, 73u8, 100u8, 34u8, 58u8, 34u8, 101u8, 114u8, 108u8, 97u8, 110u8, 103u8, 34u8, 44u8, 34u8, 118u8, 101u8, 114u8, 115u8, 105u8, 111u8, 110u8, 34u8, 58u8]
}

#[verifier::rlimit(50)]
fn push_lang_version(v: &mut Vec<u8>)
    ensures
        final(v)@ == old(v)@ + lit_lang_version(),
{
    v.push(44);
    v.push(34);
    v.push(108);
    v.push(97);
    v.push(110);
    v.push(103);
    v.push(117);
    v.push(97);
    v.push(103);
    v.push(101);
    v.push(73);
    v.push(100);
    v.push(34);
    v.push(58);
    v.push(34);
    v.push(101);
    v.push(114);
    v.push(108);
    v.push(97);
    v.push(110);
    v.push(103);
    v.push(34);
    v.push(44);
    v.push(34);
    v.push(118);
    v.push(101);
    v.push(114);
    v.push(115);
    v.push(105);
    v.push(111);
    v.push(110);
    v.push(34);
    v.push(58);
    assert(v@ =~= old(v)@ + lit_lang_version());
}

/// The bytes of `,"text":`.
pub open spec fn lit_text_sep() -> Seq<u8> {
    seq![44u8, 34u8, 116u8, 101u8, 120u8, 116u8, 34u8, 58u8]
}

#[verifier::rlimit(50)]
fn push_text_sep(v: &mut Vec<u8>)
    ensures
        final(v)@ == old(v)@ + lit_text_sep(),
{
    v.push(44);
    v.push(34);
    v.push(116);
    v.push(101);
    v.push(120);
    v.push(116);
    v.push(34);
    v.push(58);
    assert(v@ =~= old(v)@ + lit_text_sep());
}

/// The bytes of `}}`.
pub open spec fn lit_two_braces() -> Seq<u8> {
    seq![125u8, 125u8]
}

#[verifier::rlimit(50)]
fn push_two_braces(v: &mut Vec<u8>)
    ensures
        final(v)@ == old(v)@ + lit_two_braces(),
{
    v.push(125);
    v.push(125);
    assert(v@ =~= old(v)@ + lit_two_braces());
}

/// The bytes of the `initialize` method name.
pub open spec fn method_initialize() -> Seq<u8> {
    seq![105u8, 110u8, 105u8, 116u8, 105u8, 97u8, 108u8, 105u8, 122u8, 101u8]
}

#[verifier::rlimit(50)]
fn method_initialize_bytes() -> (r: Vec<u8>)
    ensures
        r@ == method_initialize(),
        crate::codec::plain_method(r@),
{
    let mut v: Vec<u8> = Vec::new();
    v.push(105);
    v.push(110);
    v.push(105);
    v.push(116);
    v.push(105);
    v.push(97);
    v.push(108);
    v.push(105);
    v.push(122);
    v.push(101);
    assert(v@ =~= method_initialize());
    assert forall|i: int| 0 <= i < v@.len() implies 32 <= (#[trigger] v@[i]) < 127
        && v@[i] != 34 && v@[i] != 92 by {}
    v
}

/// The bytes of the `initialized` method name.
pub open spec fn method_initialized() -> Seq<u8> {
    seq![105u8, 110u8, 105u8, 116u8, 105u8, 97u8, 108u8, 105u8, 122u8, 101u8, 100u8]
}

#[verifier::rlimit(50)]
fn method_initialized_bytes() -> (r: Vec<u8>)
    ensures
        r@ == method_initialized(),
        crate::codec::plain_method(r@),
{
    let mut v: Vec<u8> = Vec::new();
    v.push(105);
    v.push(110);
    v.push(105);
    v.push(116);
    v.push(105);
    v.push(97);
    v.push(108);
    v.push(105);
    v.push(122);
    v.push(101);
    v.push(100);
    assert(v@ =~= method_initialized());
    assert forall|i: int| 0 <= i < v@.len() implies 32 <= (#[trigger] v@[i]) < 127
        && v@[i] != 34 && v@[i] != 92 by {}
    v
}

/// The bytes of the `textDocument/didOpen` method name.
pub open spec fn method_did_open() -> Seq<u8> {
    seq![116u8, 101u8, 120u8, 116u8, 68u8, 111u8, 99u8, 117u8, 109u8, 101u8, 110u8, 116u8, 47u8, 100u8, 105u8, 100u8, 79u8, 112u8, 101u8, 110u8]
}

#[verifier::rlimit(50)]
fn method_did_open_bytes() -> (r: Vec<u8>)
    ensures
        r@ == method_did_open(),
        crate::codec::plain_method(r@),
{
    let mut v: Vec<u8> = Vec::new();
    v.push(116);
    v.push(101);
    v.push(120);
    v.push(116);
    v.push(68);
    v.push(111);
    v.push(99);
    v.push(117);
    v.push(109);
    v.push(101);
    v.push(110);
    v.push(116);
    v.push(47);
    v.push(100);
    v.push(105);
    v.push(100);
    v.push(79);
    v.push(112);
    v.push(101);
    v.push(110);
    assert(v@ =~= method_did_open());
    assert forall|i: int| 0 <= i < v@.len() implies 32 <= (#[trigger] v@[i]) < 127
        && v@[i] != 34 && v@[i] != 92 by {}
    v
}

/// The bytes of the `textDocument/semanticTokens/full` method name.
pub open spec fn method_semantic_tokens_full() -> Seq<u8> {
    seq![116u8, 101u8, 120u8, 116u8, 68u8, 111u8, 99u8, 117u8, 109u8, 101u8, 110u8, 116u8, 47u8, 115u8, 101u8, 109u8, 97u8, 110u8, 116u8, 105u8, 99u8, 84u8, 111u8, 107u8, 101u8, 110u8, 115u8, 47u8, 102u8, 117u8, 108u8, 108u8]
}

#[verifier::rlimit(50)]
fn method_semantic_tokens_full_bytes() -> (r: Vec<u8>)
    ensures
        r@ == method_semantic_tokens_full(),
        crate::codec::plain_method(r@),
{
    let mut v: Vec<u8> = Vec::new();
    v.push(116);
    v.push(101);
    v.push(120);
    v.push(116);
    v.push(68);
    v.push(111);
    v.push(99);
    v.push(117);
    v.push(109);
    v.push(101);
    v.push(110);
    v.push(116);
    v.push(47);
    v.push(115);
    v.push(101);
    v.push(109);
    v.push(97);
    v.push(110);
    v.push(116);
    v.push(105);
    v.push(99);
    v.push(84);
    v.push(111);
    v.push(107);
    v.push(101);
    v.push(110);
    v.push(115);
    v.push(47);
    v.push(102);
    v.push(117);
    v.push(108);
    v.push(108);
    assert(v@ =~= method_semantic_tokens_full());
    assert forall|i: int| 0 <= i < v@.len() implies 32 <= (#[trigger] v@[i]) < 127
        && v@[i] != 34 && v@[i] != 92 by {}
    v
}

// --- what the outside JSON library is trusted for ---

/// The JSON text of a string value: quoted and escaped.  A function of the
/// characters alone.
pub uninterp spec fn json_quoted(s: Seq<char>) -> Seq<u8>;

/// Relies on `serde_json::to_vec` on a string slice: its JSON text, the
/// quoted and escaped form of the characters.
#[verifier::external_body]
fn json_string_bytes(s: &str) -> (r: Vec<u8>)
    ensures
        r@ == json_quoted(s@),
{
    serde_json::to_vec(s).unwrap_or_default()
}

/// How a JSON-RPC response body reads: `None` when the bytes are not a
/// JSON-RPC response object, else its numeric id (if any) and whether it
/// carries a `result` member.  A function of the bytes alone.
pub uninterp spec fn rpc_response_kind(body: Seq<u8>) -> Option<(Option<i64>, bool)>;

/// Relies on `serde_json::from_slice` and `Value::get`/`as_i64`: reads a
/// message body as a JSON-RPC response.  `None` when the bytes do not form
/// a JSON object with `jsonrpc` and either `result` (with an id) or
/// `error`; else the numeric id, if one is present, and whether the
/// response succeeded.
#[verifier::external_body]
fn parse_response_kind(body: &Vec<u8>) -> (r: Option<(Option<i64>, bool)>)
    ensures
        r == rpc_response_kind(body@),
{
    let v: serde_json::Value = match serde_json::from_slice(body.as_slice()) {
        Ok(v) => v,
        Err(_) => return None,
    };
    if v.get("jsonrpc").is_none() {
        return None;
    }
    let ok = v.get("result").is_some();
    if !ok && v.get("error").is_none() {
        return None;
    }
    if ok && v.get("id").is_none() {
        return None;
    }
    Some((v.get("id").and_then(serde_json::Value::as_i64), ok))
}

/// The semantic-token legend announced in an `initialize` result: the
/// strings under `result.capabilities.semanticTokensProvider.legend.
/// tokenTypes`, or `None` when that path is missing or mistyped.  A
/// function of the bytes alone.
pub uninterp spec fn init_legend_names(body: Seq<u8>) -> Option<Seq<Seq<char>>>;

/// Relies on `serde_json::from_slice`, `Value::get`, `as_array` and
/// `as_str`: extracts the legend's token-type names from an `initialize`
/// result.
#[verifier::external_body]
fn parse_initialize_legend(body: &Vec<u8>) -> (r: Option<Vec<String>>)
    ensures
        r.deep_view() == init_legend_names(body@),
{
    let v: serde_json::Value = serde_json::from_slice(body.as_slice()).ok()?;
    let arr = v.get("result")?.get("capabilities")?.get("semanticTokensProvider")?.get("legend")?
        .get("tokenTypes")?.as_array()?;
    arr.iter().map(|x| x.as_str().map(str::to_owned)).collect()
}

/// The flat token data of a `textDocument/semanticTokens/full` result: the
/// numbers under `result.data`, or `None` when that path is missing or
/// mistyped.  A function of the bytes alone.
pub uninterp spec fn semantic_data_values(body: Seq<u8>) -> Option<Seq<u64>>;

/// Relies on `serde_json::from_slice`, `Value::get`, `as_array` and
/// `as_u64`: extracts the flat token data from a semantic-tokens result.
#[verifier::external_body]
fn parse_semantic_data(body: &Vec<u8>) -> (r: Option<Vec<u64>>)
    ensures
        r.deep_view() == semantic_data_values(body@),
{
    let v: serde_json::Value = serde_json::from_slice(body.as_slice()).ok()?;
    let arr = v.get("result")?.get("data")?.as_array()?;
    arr.iter().map(|x| x.as_u64()).collect()
}

// --- the initialize request's parameters ---

/// How the client asks the server to encode positions.
#[derive(Clone, Copy, PartialEq, Eq, Structural)]
pub enum PositionEncodingKind {
    /// Byte offsets.
    Utf8,
    /// UTF-16 code-unit offsets, the protocol default.
    Utf16,
    /// Code-point offsets.
    Utf32,
}

/// The JSON text of one position encoding.
pub open spec fn encoding_json(e: PositionEncodingKind) -> Seq<u8> {
    match e {
        PositionEncodingKind::Utf8 => lit_enc_utf8(),
        PositionEncodingKind::Utf16 => lit_enc_utf16(),
        PositionEncodingKind::Utf32 => lit_enc_utf32(),
    }
}

/// Identification the client may send about itself.
pub struct ClientInfo {
    /// Client name.
    pub name: String,
    /// Client version.
    pub version: String,
}

/// Workspace-edit support advertised to the server.
pub struct WorkspaceEditClientCapabilities {
    /// Whether document-change edits are supported.
    pub document_changes: bool,
}

/// Workspace capabilities advertised to the server.
pub struct WorkspaceCapabilitylies {
    /// Workspace-edit support.
    pub workspace_edit: WorkspaceEditClientCapabilities,
}

/// General capabilities advertised to the server.
pub struct GeneralClientCapabilities {
    /// Position encodings the client accepts, in order of preference.
    pub position_encodings: Vec<PositionEncodingKind>,
}

/// Everything the client advertises in `initialize`.
pub struct ClientCapabilities {
    /// Workspace capabilities.
    pub workspace: WorkspaceCapabilitylies,
    /// General capabilities.
    pub general: GeneralClientCapabilities,
}

/// One workspace folder announced to the server.
pub struct WorkspaceFolder {
    /// The folder's URI.
    pub uri: String,
    /// Its display name.
    pub name: String,
}

/// Parameters of the `initialize` request.
pub struct InitializeParams {
    /// The workspace root, if any.
    pub root_uri: Option<String>,
    /// Client identification, if any.
    pub client_info: Option<ClientInfo>,
    /// Advertised capabilities.
    pub capabilities: ClientCapabilities,
    /// Announced workspace folders.
    pub workspace_folders: Vec<WorkspaceFolder>,
}

/// Byte sequences joined by commas.
pub open spec fn comma_joined(items: Seq<Seq<u8>>) -> Seq<u8>
    decreases items.len(),
{
    if items.len() == 0 {
        Seq::empty()
    } else if items.len() == 1 {
        items[0]
    } else {
        comma_joined(items.drop_last()) + seq![44u8] + items.last()
    }
}

/// The JSON text of one workspace folder.
pub open spec fn folder_json(uri: Seq<char>, name: Seq<char>) -> Seq<u8> {
    lit_folder_open() + json_quoted(uri) + lit_name_sep() + json_quoted(name) + lit_rbrace()
}

/// The JSON text of a boolean.
pub open spec fn bool_json(b: bool) -> Seq<u8> {
    if b {
        lit_true_value()
    } else {
        lit_false_value()
    }
}

/// The serialized form of the `initialize` parameters.
pub open spec fn init_params_json(p: InitializeParams) -> Seq<u8> {
    lit_rooturi_open() + (match p.root_uri {
        Some(u) => json_quoted(u@),
        None => lit_null_value(),
    }) + (match p.client_info {
        Some(ci) => lit_clientinfo_open() + json_quoted(ci.name@) + lit_version_sep() + json_quoted(
            ci.version@,
        ) + lit_rbrace(),
        None => lit_clientinfo_null(),
    }) + lit_caps_open() + bool_json(p.capabilities.workspace.workspace_edit.document_changes)
        + lit_general_open() + comma_joined(
        p.capabilities.general.position_encodings@.map_values(|e: PositionEncodingKind| encoding_json(e)),
    ) + lit_folders_open() + comma_joined(
        p.workspace_folders@.map_values(|f: WorkspaceFolder| folder_json(f.uri@, f.name@)),
    ) + lit_params_end()
}

impl InitializeParams {
    /// The parameters the client sends on startup: workspace edits with
    /// document changes, UTF-16 positions, the given root, no client info
    /// and no folders.
    pub fn new(root_dir: &str) -> (r: Self)
        ensures
            ({
                &&& r.root_uri matches Some(u) && u@ == root_dir@
                &&& r.client_info is None
                &&& r.capabilities.workspace.workspace_edit.document_changes == true
                &&& r.capabilities.general.position_encodings@ == seq![PositionEncodingKind::Utf16]
                &&& r.workspace_folders@.len() == 0
            }),
    {
        let mut encodings: Vec<PositionEncodingKind> = Vec::new();
        encodings.push(PositionEncodingKind::Utf16);
        assert(encodings@ =~= seq![PositionEncodingKind::Utf16]);
        InitializeParams {
            root_uri: Some(root_dir.to_owned()),
            client_info: None,
            capabilities: ClientCapabilities {
                workspace: WorkspaceCapabilitylies {
                    workspace_edit: WorkspaceEditClientCapabilities { document_changes: true },
                },
                general: GeneralClientCapabilities { position_encodings: encodings },
            },
            workspace_folders: Vec::new(),
        }
    }

    /// Serializes the parameters.
    #[verifier::rlimit(100)]
    pub fn to_json_bytes(&self) -> (r: Vec<u8>)
        ensures
            r@ == init_params_json(*self),
    {
        let mut v: Vec<u8> = Vec::new();
        push_rooturi_open(&mut v);
        match &self.root_uri {
            Some(u) => {
                let mut q = json_string_bytes(u.as_str());
                v.append(&mut q);
            },
            None => {
                push_null_value(&mut v);
            },
        }
        match &self.client_info {
            Some(ci) => {
                push_clientinfo_open(&mut v);
                let mut q = json_string_bytes(ci.name.as_str());
                v.append(&mut q);
                push_version_sep(&mut v);
                let mut q2 = json_string_bytes(ci.version.as_str());
                v.append(&mut q2);
                push_rbrace(&mut v);
            },
            None => {
                push_clientinfo_null(&mut v);
            },
        }
        push_caps_open(&mut v);
        if self.capabilities.workspace.workspace_edit.document_changes {
            push_true_value(&mut v);
        } else {
            push_false_value(&mut v);
        }
        push_general_open(&mut v);
        let ghost encs = self.capabilities.general.position_encodings@.map_values(
            |e: PositionEncodingKind| encoding_json(e),
        );
        let ghost enc_base = v@;
        let mut i: usize = 0;
        while i < self.capabilities.general.position_encodings.len()
            invariant
                i <= self.capabilities.general.position_encodings@.len(),
                encs == self.capabilities.general.position_encodings@.map_values(
                    |e: PositionEncodingKind| encoding_json(e),
                ),
                encs.len() == self.capabilities.general.position_encodings@.len(),
                v@ == enc_base + comma_joined(encs.take(i as int)),
        decreases self.capabilities.general.position_encodings@.len() - i,
        {
            if i > 0 {
                v.push(44);
            }
            match self.capabilities.general.position_encodings[i] {
                PositionEncodingKind::Utf8 => {
                    push_enc_utf8(&mut v);
                },
                PositionEncodingKind::Utf16 => {
                    push_enc_utf16(&mut v);
                },
                PositionEncodingKind::Utf32 => {
                    push_enc_utf32(&mut v);
                },
            }
            proof {
                assert(encs[i as int] == encoding_json(
                    self.capabilities.general.position_encodings@[i as int],
                ));
                assert(encs.take(i + 1).drop_last() =~= encs.take(i as int));
                if i == 0 {
                    assert(v@ =~= enc_base + comma_joined(encs.take(1)));
                } else {
                    assert(v@ =~= enc_base + (comma_joined(encs.take(i as int)) + seq![44u8]
                        + encs[i as int]));
                }
            }
            i = i + 1;
        }
        proof {
            assert(encs.take(encs.len() as int) =~= encs);
        }
        push_folders_open(&mut v);
        let ghost folders = self.workspace_folders@.map_values(
            |f: WorkspaceFolder| folder_json(f.uri@, f.name@),
        );
        let ghost folder_base = v@;
        let mut k: usize = 0;
        while k < self.workspace_folders.len()
            invariant
                k <= self.workspace_folders@.len(),
                folders == self.workspace_folders@.map_values(
                    |f: WorkspaceFolder| folder_json(f.uri@, f.name@),
                ),
                folders.len() == self.workspace_folders@.len(),
                v@ == folder_base + comma_joined(folders.take(k as int)),
        decreases self.workspace_folders@.len() - k,
        {
            if k > 0 {
                v.push(44);
            }
            let ghost before = v@;
            let f = &self.workspace_folders[k];
            push_folder_open(&mut v);
            let mut q = json_string_bytes(f.uri.as_str());
            v.append(&mut q);
            push_name_sep(&mut v);
            let mut q2 = json_string_bytes(f.name.as_str());
            v.append(&mut q2);
            push_rbrace(&mut v);
            proof {
                assert(v@ =~= before + folder_json(f.uri@, f.name@));
                assert(folders[k as int] == folder_json(
                    self.workspace_folders@[k as int].uri@,
                    self.workspace_folders@[k as int].name@,
                ));
                assert(folders.take(k + 1).drop_last() =~= folders.take(k as int));
                if k == 0 {
                    assert(v@ =~= folder_base + comma_joined(folders.take(1)));
                } else {
                    assert(v@ =~= folder_base + (comma_joined(folders.take(k as int)) + seq![44u8]
                        + folders[k as int]));
                }
            }
            k = k + 1;
        }
        proof {
            assert(folders.take(folders.len() as int) =~= folders);
        }
        push_params_end(&mut v);
        assert(v@ =~= init_params_json(*self));
        v
    }
}

/// The `file:///` form of a path.
pub open spec fn file_uri(path: Seq<char>) -> Seq<char> {
    seq!['f', 'i', 'l', 'e', ':', '/', '/', '/'] + path
}

fn make_file_uri(path: &str) -> (r: String)
    ensures
        r@ == file_uri(path@),
{
    let mut u: String = String::from_str("file:///");
    proof {
        reveal_strlit("file:///");
        assert("file:///"@ =~= seq!['f', 'i', 'l', 'e', ':', '/', '/', '/']);
    }
    u.append(path);
    u
}

/// The serialized parameters of `textDocument/didOpen`.
pub open spec fn did_open_params_json(path: Seq<char>, version: int, text: Seq<char>) -> Seq<u8> {
    lit_td_open() + json_quoted(file_uri(path)) + lit_lang_version() + crate::codec::dec_digits_of(
        version,
    ) + lit_text_sep() + json_quoted(text) + lit_two_braces()
}

/// The serialized parameters of `textDocument/semanticTokens/full`.
pub open spec fn semantic_tokens_params_json(path: Seq<char>) -> Seq<u8> {
    lit_td_open() + json_quoted(file_uri(path)) + lit_two_braces()
}


/// The serialized `initialize` parameters the client sends on startup.
pub open spec fn initialize_params_json_for(root: Seq<char>) -> Seq<u8> {
    lit_rooturi_open() + json_quoted(root) + lit_clientinfo_null() + lit_caps_open() + bool_json(
        true,
    ) + lit_general_open() + comma_joined(seq![encoding_json(PositionEncodingKind::Utf16)])
        + lit_folders_open() + comma_joined(Seq::<Seq<u8>>::empty()) + lit_params_end()
}

// --- the client state machine ---

/// What an outstanding request was for, so that its response can be
/// routed.
pub enum OngoingRequest {
    /// The startup `initialize` request.
    Initialize,
    /// A `textDocument/semanticTokens/full` request for one buffer.
    SemanticTokensFull {
        /// The buffer the tokens were requested for.
        buffer_id: BufferId,
    },
}

/// Index of the first outstanding request with this id, or `-1`.
pub open spec fn ongoing_index(s: Seq<(u64, OngoingRequest)>, id: u64) -> int
    decreases s.len(),
{
    if s.len() == 0 {
        -1
    } else if s[0].0 == id {
        0
    } else {
        let r = ongoing_index(s.drop_first(), id);
        if r < 0 {
            -1
        } else {
            r + 1
        }
    }
}

proof fn lemma_ongoing_index_props(s: Seq<(u64, OngoingRequest)>, id: u64)
    ensures
        ({
            let r = ongoing_index(s, id);
            if r >= 0 {
                r < s.len() && s[r].0 == id && (forall|j: int|
                    0 <= j < r ==> (#[trigger] s[j]).0 != id)
            } else {
                forall|j: int| 0 <= j < s.len() ==> (#[trigger] s[j]).0 != id
            }
        }),
    decreases s.len(),
{
    if s.len() == 0 {
    } else if s[0].0 == id {
    } else {
        let s1 = s.drop_first();
        lemma_ongoing_index_props(s1, id);
        let r1 = ongoing_index(s1, id);
        if r1 >= 0 {
            assert(s[r1 + 1] == s1[r1]);
            assert forall|j: int| 0 <= j < r1 + 1 implies (#[trigger] s[j]).0 != id by {
                if j > 0 {
                    assert(s[j] == s1[j - 1]);
                }
            }
        } else {
            assert forall|j: int| 0 <= j < s.len() implies (#[trigger] s[j]).0 != id by {
                if j > 0 {
                    assert(s[j] == s1[j - 1]);
                }
            }
        }
    }
}

/// The outbound buffer after trying to enqueue a frame: under the
/// backpressure cap the frame is appended; over it the frame is dropped
/// whole.
pub open spec fn appended_if_fits(buf: Seq<u8>, frame: Seq<u8>) -> Seq<u8> {
    if buf.len() > SEND_BUF_SIZE_LIMIT {
        buf
    } else {
        buf + frame
    }
}

/// Every name in a legend is a known token category.
pub open spec fn legend_names_ok(names: Seq<Seq<char>>) -> bool {
    forall|i: int| 0 <= i < names.len() ==> (#[trigger] spec_token_type_of(names[i])) is Some
}

/// The categories a legend's names denote.
pub open spec fn legend_of_names(names: Seq<Seq<char>>) -> Seq<SemanticTokenType> {
    names.map_values(|n: Seq<char>| spec_token_type_of(n)->0)
}

/// One LSP client: the state machine around one supervised server
/// process.  It owns three multiplexer tokens, buffers outbound frames
/// with a flush offset, buffers inbound bytes until frames complete, and
/// correlates responses with outstanding requests by id.  All I/O is the
/// caller's: the state machine only ever turns plain values into plain
/// values.
pub struct LspClient {
    name: String,
    stdin_token: usize,
    stdout_token: usize,
    stderr_token: usize,
    send_buf: Vec<u8>,
    send_buf_offset: usize,
    recv_buf: Vec<u8>,
    next_request_id: u64,
    ongoing_requests: Vec<(u64, OngoingRequest)>,
    legend: Vec<SemanticTokenType>,
}

impl LspClient {
    /// The client's name.
    pub closed spec fn name_view(&self) -> Seq<char> {
        self.name@
    }

    /// The three multiplexer tokens: stdin, stdout, stderr.
    pub closed spec fn tokens(&self) -> (usize, usize, usize) {
        (self.stdin_token, self.stdout_token, self.stderr_token)
    }

    /// The buffered outbound bytes.
    pub closed spec fn send_bytes(&self) -> Seq<u8> {
        self.send_buf@
    }

    /// How many of the outbound bytes were already written.
    pub closed spec fn sent_offset(&self) -> int {
        self.send_buf_offset as int
    }

    /// The buffered inbound bytes not yet framed.
    pub closed spec fn recv_bytes(&self) -> Seq<u8> {
        self.recv_buf@
    }

    /// The id the next request will take.
    pub closed spec fn next_id(&self) -> u64 {
        self.next_request_id
    }

    /// The outstanding requests, in send order.
    pub closed spec fn ongoing(&self) -> Seq<(u64, OngoingRequest)> {
        self.ongoing_requests@
    }

    /// The server's semantic-token legend, once `initialize` answered.
    pub closed spec fn legend_view(&self) -> Seq<SemanticTokenType> {
        self.legend@
    }

    /// Whether the client owns the token.
    pub open spec fn owns_token(&self, t: usize) -> bool {
        t == self.tokens().0 || t == self.tokens().1 || t == self.tokens().2
    }

    /// The flush offset stays inside the buffer, and outstanding ids are
    /// distinct and below the id counter.
    pub open spec fn wf(&self) -> bool {
        &&& self.sent_offset() <= self.send_bytes().len()
        &&& (forall|i: int, j: int| 0 <= i < j < self.ongoing().len()
            ==> (#[trigger] self.ongoing()[i]).0 != (#[trigger] self.ongoing()[j]).0)
        &&& (forall|i: int| 0 <= i < self.ongoing().len()
            ==> (#[trigger] self.ongoing()[i]).0 < self.next_id())
    }

    /// Everything but the outbound buffer and the request bookkeeping.
    pub open spec fn same_identity(&self, other: &Self) -> bool {
        &&& self.name_view() == other.name_view()
        &&& self.tokens() == other.tokens()
    }

    /// A fresh client around a just-spawned server: nothing buffered, and
    /// the `initialize` request (id 0, tagged as such) already framed in
    /// the outbound buffer.
    pub fn new(
        name: String,
        stdin_token: usize,
        stdout_token: usize,
        stderr_token: usize,
        root_dir: &str,
    ) -> (r: Self)
        ensures
            r.wf(),
            r.name_view() == name@,
            r.tokens() == (stdin_token, stdout_token, stderr_token),
            r.sent_offset() == 0,
            r.recv_bytes().len() == 0,
            r.legend_view().len() == 0,
            r.next_id() == 1,
            r.ongoing() == seq![(0u64, OngoingRequest::Initialize)],
            r.send_bytes() == frame_bytes(
                json_envelope(method_initialize(), Some(0), initialize_params_json_for(root_dir@)),
            ),
    {
        let params = InitializeParams::new(root_dir);
        let pbytes = params.to_json_bytes();
        proof {
            let encs = params.capabilities.general.position_encodings@.map_values(
                |e: PositionEncodingKind| encoding_json(e),
            );
            assert(encs =~= seq![encoding_json(PositionEncodingKind::Utf16)]);
            let folders = params.workspace_folders@.map_values(
                |f: WorkspaceFolder| folder_json(f.uri@, f.name@),
            );
            assert(folders =~= Seq::<Seq<u8>>::empty());
            assert(pbytes@ =~= initialize_params_json_for(root_dir@));
        }
        let method = method_initialize_bytes();
        let mut c = LspClient {
            name,
            stdin_token,
            stdout_token,
            stderr_token,
            send_buf: Vec::new(),
            send_buf_offset: 0,
            recv_buf: Vec::new(),
            next_request_id: 0,
            ongoing_requests: Vec::new(),
            legend: Vec::new(),
        };
        let dropped = c.send_request(&method, OngoingRequest::Initialize, &pbytes);
        proof {
            assert(!dropped);
            assert(c.ongoing() =~= seq![(0u64, OngoingRequest::Initialize)]);
            assert(c.send_bytes() =~= frame_bytes(
                json_envelope(method_initialize(), Some(0), initialize_params_json_for(root_dir@)),
            ));
        }
        c
    }

    /// Enqueues a request frame and records the outstanding id, unless the
    /// outbound buffer already exceeds the backpressure cap, in which case
    /// the whole message is dropped and nothing changes.
    pub fn send_request(&mut self, method: &Vec<u8>, tag: OngoingRequest, params: &Vec<u8>) -> (dropped:
        bool)
        requires
            old(self).wf(),
            plain_method(method@),
            old(self).next_id() < u64::MAX,
        ensures
            final(self).wf(),
            final(self).same_identity(old(self)),
            final(self).recv_bytes() == old(self).recv_bytes(),
            final(self).sent_offset() == old(self).sent_offset(),
            final(self).legend_view() == old(self).legend_view(),
            dropped == (old(self).send_bytes().len() > SEND_BUF_SIZE_LIMIT),
            final(self).send_bytes() == appended_if_fits(
                old(self).send_bytes(),
                frame_bytes(json_envelope(method@, Some(old(self).next_id() as int), params@)),
            ),
            dropped ==> final(self).ongoing() == old(self).ongoing() && final(self).next_id()
                == old(self).next_id(),
            !dropped ==> final(self).ongoing() == old(self).ongoing().push(
                (old(self).next_id(), tag),
            ) && final(self).next_id() == old(self).next_id() + 1,
    {
        if self.send_buf.len() > SEND_BUF_SIZE_LIMIT {
            return true;
        }
        let id = self.next_request_id;
        self.ongoing_requests.push((id, tag));
        self.next_request_id = id + 1;
        let mut frame = crate::codec::encode_message(method, Some(id), params);
        self.send_buf.append(&mut frame);
        proof {
            assert forall|i: int, j: int| 0 <= i < j < self.ongoing().len() implies (
            #[trigger] self.ongoing()[i]).0 != (#[trigger] self.ongoing()[j]).0 by {
                assert(self.ongoing()[i] == old(self).ongoing()[i]);
                if j < self.ongoing().len() - 1 {
                    assert(self.ongoing()[j] == old(self).ongoing()[j]);
                } else {
                    assert(self.ongoing()[j].0 == old(self).next_id());
                    assert(old(self).ongoing()[i].0 < old(self).next_id());
                }
            }
            assert(forall|i: int| 0 <= i < self.ongoing().len()
                ==> (#[trigger] self.ongoing()[i]).0 < self.next_id());
        }
        false
    }

    /// Enqueues a notification frame under the same backpressure rule; a
    /// notification has no id and is never answered.
    pub fn send_notification(&mut self, method: &Vec<u8>, params: &Vec<u8>) -> (dropped: bool)
        requires
            old(self).wf(),
            plain_method(method@),
        ensures
            final(self).wf(),
            final(self).same_identity(old(self)),
            final(self).recv_bytes() == old(self).recv_bytes(),
            final(self).sent_offset() == old(self).sent_offset(),
            final(self).legend_view() == old(self).legend_view(),
            final(self).ongoing() == old(self).ongoing(),
            final(self).next_id() == old(self).next_id(),
            dropped == (old(self).send_bytes().len() > SEND_BUF_SIZE_LIMIT),
            final(self).send_bytes() == appended_if_fits(
                old(self).send_bytes(),
                frame_bytes(json_envelope(method@, None, params@)),
            ),
    {
        if self.send_buf.len() > SEND_BUF_SIZE_LIMIT {
            return true;
        }
        let mut frame = crate::codec::encode_message(method, None, params);
        self.send_buf.append(&mut frame);
        proof {
            assert(self.ongoing() == old(self).ongoing());
            assert(forall|i: int, j: int| 0 <= i < j < self.ongoing().len()
                ==> (#[trigger] self.ongoing()[i]).0 != (#[trigger] self.ongoing()[j]).0);
            assert(forall|i: int| 0 <= i < self.ongoing().len()
                ==> (#[trigger] self.ongoing()[i]).0 < self.next_id());
        }
        false
    }

    /// The bytes that still wait to be written to the server's stdin.
    pub fn unsent_bytes(&self) -> (r: Vec<u8>)
        requires
            self.wf(),
        ensures
            r@ == self.send_bytes().skip(self.sent_offset()),
    {
        let r = crate::codec::copy_range(&self.send_buf, self.send_buf_offset, self.send_buf.len());
        proof {
            assert(self.send_bytes().subrange(self.sent_offset(), self.send_bytes().len() as int)
                =~= self.send_bytes().skip(self.sent_offset()));
        }
        r
    }

    /// Whether any outbound bytes wait to be written.
    pub fn has_pending_output(&self) -> (r: bool)
        requires
            self.wf(),
        ensures
            r == (self.sent_offset() < self.send_bytes().len()),
    {
        self.send_buf_offset < self.send_buf.len()
    }

    /// Whether the outbound buffer is entirely empty.  A caller uses this
    /// before enqueueing to decide whether a would-block on the first
    /// flush must register write interest.
    pub fn send_buf_is_empty(&self) -> (r: bool)
        ensures
            r == (self.send_bytes().len() == 0),
    {
        self.send_buf.len() == 0
    }

    /// Records that `n` more outbound bytes reached the pipe.  Once all
    /// buffered bytes are out, the buffer and its offset reset to empty.
    pub fn on_bytes_written(&mut self, n: usize)
        requires
            old(self).wf(),
            old(self).sent_offset() + n <= old(self).send_bytes().len(),
        ensures
            final(self).wf(),
            final(self).same_identity(old(self)),
            final(self).recv_bytes() == old(self).recv_bytes(),
            final(self).legend_view() == old(self).legend_view(),
            final(self).ongoing() == old(self).ongoing(),
            final(self).next_id() == old(self).next_id(),
            ({
                if old(self).sent_offset() + n == old(self).send_bytes().len() {
                    final(self).send_bytes().len() == 0 && final(self).sent_offset() == 0
                } else {
                    final(self).send_bytes() == old(self).send_bytes() && final(self).sent_offset()
                        == old(self).sent_offset() + n
                }
            }),
    {
        let total = self.send_buf.len();
        self.send_buf_offset = self.send_buf_offset + n;
        if self.send_buf_offset == total {
            self.send_buf.clear();
            self.send_buf_offset = 0;
        }
        proof {
            assert(self.ongoing() == old(self).ongoing());
            assert(forall|i: int, j: int| 0 <= i < j < self.ongoing().len()
                ==> (#[trigger] self.ongoing()[i]).0 != (#[trigger] self.ongoing()[j]).0);
            assert(forall|i: int| 0 <= i < self.ongoing().len()
                ==> (#[trigger] self.ongoing()[i]).0 < self.next_id());
        }
    }

    /// Takes bytes read from the server's stdout, parses every complete
    /// frame, and keeps the unconsumed trailer buffered.  `None` means the
    /// stream is malformed and the client must be torn down.
    pub fn on_stdout_data(&mut self, data: &Vec<u8>) -> (r: Option<Vec<Vec<u8>>>)
        requires
            old(self).wf(),
        ensures
            final(self).wf(),
            final(self).same_identity(old(self)),
            final(self).send_bytes() == old(self).send_bytes(),
            final(self).sent_offset() == old(self).sent_offset(),
            final(self).legend_view() == old(self).legend_view(),
            final(self).ongoing() == old(self).ongoing(),
            final(self).next_id() == old(self).next_id(),
            match parse_frames(old(self).recv_bytes() + data@) {
                ParseResult::Malformed => r is None && final(self).recv_bytes().len() == 0,
                ParseResult::Frames { frames, consumed } => r matches Some(bs) && bs.deep_view()
                    == frames && final(self).recv_bytes() == (old(self).recv_bytes() + data@).skip(
                    consumed,
                ),
            },
    {
        self.recv_buf.extend_from_slice(data.as_slice());
        let ghost whole = self.recv_buf@;
        proof {
            assert(whole == old(self).recv_bytes() + data@);
        }
        match try_parse_frames(&self.recv_buf) {
            None => {
                self.recv_buf.clear();
                proof {
                    assert(self.ongoing() == old(self).ongoing());
                    assert(forall|i: int, j: int| 0 <= i < j < self.ongoing().len()
                        ==> (#[trigger] self.ongoing()[i]).0 != (#[trigger] self.ongoing()[j]).0);
                    assert(forall|i: int| 0 <= i < self.ongoing().len()
                        ==> (#[trigger] self.ongoing()[i]).0 < self.next_id());
                }
                None
            },
            Some(batch) => {
                let rest = crate::codec::copy_range(
                    &self.recv_buf,
                    batch.consumed,
                    self.recv_buf.len(),
                );
                proof {
                    assert(self.recv_buf@.subrange(
                        batch.consumed as int,
                        self.recv_buf@.len() as int,
                    ) =~= self.recv_buf@.skip(batch.consumed as int));
                }
                self.recv_buf = rest;
                proof {
                    assert(self.ongoing() == old(self).ongoing());
                    assert(forall|i: int, j: int| 0 <= i < j < self.ongoing().len()
                        ==> (#[trigger] self.ongoing()[i]).0 != (#[trigger] self.ongoing()[j]).0);
                    assert(forall|i: int| 0 <= i < self.ongoing().len()
                        ==> (#[trigger] self.ongoing()[i]).0 < self.next_id());
                }
                Some(batch.frames)
            },
        }
    }

    /// Resolves a response id against the outstanding requests, removing
    /// and returning its tag.  `None` means the id is unknown: a protocol
    /// violation that tears the client down.
    pub fn begin_response(&mut self, id: u64) -> (r: Option<OngoingRequest>)
        requires
            old(self).wf(),
        ensures
            final(self).wf(),
            final(self).same_identity(old(self)),
            final(self).send_bytes() == old(self).send_bytes(),
            final(self).sent_offset() == old(self).sent_offset(),
            final(self).recv_bytes() == old(self).recv_bytes(),
            final(self).legend_view() == old(self).legend_view(),
            final(self).next_id() == old(self).next_id(),
            ({
                let oi = ongoing_index(old(self).ongoing(), id);
                match r {
                    None => oi < 0 && final(self).ongoing() == old(self).ongoing(),
                    Some(tag) => oi >= 0 && tag == old(self).ongoing()[oi].1 && final(self).ongoing()
                        == old(self).ongoing().remove(oi),
                }
            }),
    {
        let ghost s = self.ongoing_requests@;
        let mut i: usize = 0;
        while i < self.ongoing_requests.len()
            invariant
                i <= s.len(),
                s == self.ongoing_requests@,
                *self == *old(self),
                old(self).wf(),
                forall|j: int| 0 <= j < i ==> (#[trigger] s[j]).0 != id,
        decreases s.len() - i,
        {
            if self.ongoing_requests[i].0 == id {
                proof {
                    lemma_ongoing_index_props(s, id);
                    let oi = ongoing_index(s, id);
                    if oi < 0 {
                        assert(s[i as int].0 != id);
                        assert(false);
                    }
                    if oi < i {
                        assert(s[oi].0 != id);
                        assert(false);
                    }
                    if oi > i {
                        assert(s[i as int].0 != id);
                        assert(false);
                    }
                }
                let pair = self.ongoing_requests.remove(i);
                proof {
                    assert(self.ongoing() == s.remove(i as int));
                    let new = self.ongoing_requests@;
                    assert forall|a: int, b: int| 0 <= a < b < new.len() implies (
                    #[trigger] new[a]).0 != (#[trigger] new[b]).0 by {
                        let a0: int = if a < i { a } else { a + 1 };
                        let b0: int = if b < i { b } else { b + 1 };
                        assert(new[a] == s[a0]);
                        assert(new[b] == s[b0]);
                    }
                    assert forall|a: int| 0 <= a < new.len() implies (#[trigger] new[a]).0
                        < self.next_request_id by {
                        let a0: int = if a < i { a } else { a + 1 };
                        assert(new[a] == s[a0]);
                    }
                }
                return Some(pair.1);
            }
            i = i + 1;
        }
        proof {
            lemma_ongoing_index_props(s, id);
            let oi = ongoing_index(s, id);
            if oi >= 0 {
                assert(s[oi].0 != id);
                assert(false);
            }
        }
        None
    }

    /// Takes the legend names announced by the server's `initialize`
    /// result.  When every name is known, stores the legend and enqueues
    /// the `initialized` notification (under the backpressure rule);
    /// returns `false` when some name is unknown, leaving the client
    /// unchanged, which tears it down.
    pub fn on_initialize_result(&mut self, legend_names: &Vec<String>) -> (r: bool)
        requires
            old(self).wf(),
        ensures
            final(self).wf(),
            final(self).same_identity(old(self)),
            final(self).recv_bytes() == old(self).recv_bytes(),
            final(self).sent_offset() == old(self).sent_offset(),
            final(self).ongoing() == old(self).ongoing(),
            final(self).next_id() == old(self).next_id(),
            r == legend_names_ok(legend_names.deep_view()),
            r ==> final(self).legend_view() == legend_of_names(legend_names.deep_view())
                && final(self).send_bytes() == appended_if_fits(
                old(self).send_bytes(),
                frame_bytes(json_envelope(method_initialized(), None, lit_null_value())),
            ),
            !r ==> final(self).legend_view() == old(self).legend_view() && final(self).send_bytes()
                == old(self).send_bytes(),
    {
        let ghost names = legend_names.deep_view();
        let mut mapped: Vec<SemanticTokenType> = Vec::new();
        let mut i: usize = 0;
        while i < legend_names.len()
            invariant
                i <= names.len(),
                *self == *old(self),
                old(self).wf(),
                names == legend_names.deep_view(),
                names.len() == legend_names@.len(),
                mapped@.len() == i,
                forall|j: int| 0 <= j < i ==> (#[trigger] spec_token_type_of(names[j])) is Some,
                forall|j: int| 0 <= j < i ==> (#[trigger] mapped@[j]) == spec_token_type_of(
                    names[j],
                )->0,
        decreases names.len() - i,
        {
            proof {
                assert(legend_names@[i as int]@ == names[i as int]);
            }
            match SemanticTokenType::from_wire_name(legend_names[i].as_str()) {
                Some(t) => {
                    mapped.push(t);
                },
                None => {
                    proof {
                        if legend_names_ok(names) {
                            assert(spec_token_type_of(names[i as int]) is Some);
                        }
                    }
                    return false;
                },
            }
            i = i + 1;
        }
        proof {
            assert(mapped@ =~= legend_of_names(names));
        }
        self.legend = mapped;
        proof {
            assert(self.ongoing() == old(self).ongoing());
            assert(forall|i: int, j: int| 0 <= i < j < self.ongoing().len()
                ==> (#[trigger] self.ongoing()[i]).0 != (#[trigger] self.ongoing()[j]).0);
            assert(forall|i: int| 0 <= i < self.ongoing().len()
                ==> (#[trigger] self.ongoing()[i]).0 < self.next_id());
        }
        let method = method_initialized_bytes();
        let mut null_params: Vec<u8> = Vec::new();
        push_null_value(&mut null_params);
        proof {
            assert(null_params@ =~= lit_null_value());
        }
        self.send_notification(&method, &null_params);
        proof {
            assert(self.ongoing() == old(self).ongoing());
            assert(forall|i: int, j: int| 0 <= i < j < self.ongoing().len()
                ==> (#[trigger] self.ongoing()[i]).0 != (#[trigger] self.ongoing()[j]).0);
            assert(forall|i: int| 0 <= i < self.ongoing().len()
                ==> (#[trigger] self.ongoing()[i]).0 < self.next_id());
        }
        true
    }

    /// Whether another request id can still be handed out.
    pub fn can_allocate_id(&self) -> (r: bool)
        ensures
            r == (self.next_id() < u64::MAX),
    {
        self.next_request_id < u64::MAX
    }

    /// The legend stored from the `initialize` result.
    pub fn legend(&self) -> (r: &Vec<SemanticTokenType>)
        ensures
            r@ == self.legend_view(),
    {
        &self.legend
    }

    /// The client's name.
    pub fn name(&self) -> (r: &str)
        ensures
            r@ == self.name_view(),
    {
        self.name.as_str()
    }

    /// The token registered for the server's stdin pipe.
    pub fn stdin_token(&self) -> (r: usize)
        ensures
            r == self.tokens().0,
    {
        self.stdin_token
    }

    /// The token registered for the server's stdout pipe.
    pub fn stdout_token(&self) -> (r: usize)
        ensures
            r == self.tokens().1,
    {
        self.stdout_token
    }

    /// The token registered for the server's stderr pipe.
    pub fn stderr_token(&self) -> (r: usize)
        ensures
            r == self.tokens().2,
    {
        self.stderr_token
    }

    /// Announces a buffer to the server: `textDocument/didOpen` with the
    /// buffer's URI, language, version, and full text, under the
    /// backpressure rule.
    pub fn notify_did_open(&mut self, buffer: &Buffer) -> (dropped: bool)
        requires
            old(self).wf(),
        ensures
            final(self).wf(),
            final(self).same_identity(old(self)),
            final(self).recv_bytes() == old(self).recv_bytes(),
            final(self).sent_offset() == old(self).sent_offset(),
            final(self).legend_view() == old(self).legend_view(),
            final(self).ongoing() == old(self).ongoing(),
            final(self).next_id() == old(self).next_id(),
            dropped == (old(self).send_bytes().len() > SEND_BUF_SIZE_LIMIT),
            final(self).send_bytes() == appended_if_fits(
                old(self).send_bytes(),
                frame_bytes(json_envelope(
                    method_did_open(),
                    None,
                    did_open_params_json(
                        buffer.id.path@,
                        buffer.version as int,
                        crate::buffer::joined_text(buffer.lines.deep_view()),
                    ),
                )),
            ),
    {
        let uri = make_file_uri(buffer.id.path.as_str());
        let text = buffer.text();
        let mut params: Vec<u8> = Vec::new();
        push_td_open(&mut params);
        let mut q = json_string_bytes(uri.as_str());
        params.append(&mut q);
        push_lang_version(&mut params);
        let mut digits = crate::codec::dec_digits_u64(buffer.version);
        params.append(&mut digits);
        push_text_sep(&mut params);
        let mut qt = json_string_bytes(text.as_str());
        params.append(&mut qt);
        push_two_braces(&mut params);
        proof {
            assert(params@ =~= did_open_params_json(
                buffer.id.path@,
                buffer.version as int,
                crate::buffer::joined_text(buffer.lines.deep_view()),
            ));
        }
        let method = method_did_open_bytes();
        self.send_notification(&method, &params)
    }

    /// Asks the server for the buffer's full semantic tokens, recording
    /// the outstanding request against the buffer, under the backpressure
    /// rule.
    pub fn request_semantic_tokens_full(&mut self, buffer: &Buffer) -> (dropped: bool)
        requires
            old(self).wf(),
            old(self).next_id() < u64::MAX,
        ensures
            final(self).wf(),
            final(self).same_identity(old(self)),
            final(self).recv_bytes() == old(self).recv_bytes(),
            final(self).sent_offset() == old(self).sent_offset(),
            final(self).legend_view() == old(self).legend_view(),
            dropped == (old(self).send_bytes().len() > SEND_BUF_SIZE_LIMIT),
            final(self).send_bytes() == appended_if_fits(
                old(self).send_bytes(),
                frame_bytes(json_envelope(
                    method_semantic_tokens_full(),
                    Some(old(self).next_id() as int),
                    semantic_tokens_params_json(buffer.id.path@),
                )),
            ),
            dropped ==> final(self).ongoing() == old(self).ongoing() && final(self).next_id()
                == old(self).next_id(),
            !dropped ==> final(self).next_id() == old(self).next_id() + 1
                && final(self).ongoing().len() == old(self).ongoing().len() + 1
                && final(self).ongoing().drop_last() == old(self).ongoing() && ({
                let last = final(self).ongoing().last();
                &&& last.0 == old(self).next_id()
                &&& last.1 matches OngoingRequest::SemanticTokensFull { buffer_id }
                    && buffer_id.name@ == buffer.id.name@ && buffer_id.path@ == buffer.id.path@
            }),
    {
        let uri = make_file_uri(buffer.id.path.as_str());
        let mut params: Vec<u8> = Vec::new();
        push_td_open(&mut params);
        let mut q = json_string_bytes(uri.as_str());
        params.append(&mut q);
        push_two_braces(&mut params);
        proof {
            assert(params@ =~= semantic_tokens_params_json(buffer.id.path@));
        }
        let method = method_semantic_tokens_full_bytes();
        let tag = OngoingRequest::SemanticTokensFull { buffer_id: buffer.id.clone() };
        let dropped = self.send_request(&method, tag, &params);
        proof {
            if !dropped {
                assert(self.ongoing().drop_last() =~= old(self).ongoing());
            }
        }
        dropped
    }
}


// --- the manager ---

/// One step of the token cursor: the token handed out, and the cursor
/// advanced by one, wrapping from `max` back to `min`.
pub open spec fn alloc_one(next: int, min: int, max: int) -> (int, int) {
    (next, if next + 1 == max {
        min
    } else {
        next + 1
    })
}

/// Three tokens for one client: the cursor advances three times.
pub open spec fn alloc_three(next: int, min: int, max: int) -> (int, int, int, int) {
    let (t0, n1) = alloc_one(next, min, max);
    let (t1, n2) = alloc_one(n1, min, max);
    let (t2, n3) = alloc_one(n2, min, max);
    (t0, t1, t2, n3)
}

/// Token isolation: whenever the reserved range holds at least six
/// tokens, the triples handed to two clients started one after the other
/// are disjoint, and each triple consists of three distinct tokens.
pub proof fn lemma_token_isolation(min: int, max: int, next: int)
    requires
        min + 6 <= max,
        min <= next < max,
    ensures
        ({
            let (a0, a1, a2, n1) = alloc_three(next, min, max);
            let (b0, b1, b2, n2) = alloc_three(n1, min, max);
            a0 != a1 && a0 != a2 && a1 != a2 && b0 != b1 && b0 != b2 && b1 != b2 && a0 != b0 && a0
                != b1 && a0 != b2 && a1 != b0 && a1 != b1 && a1 != b2 && a2 != b0 && a2 != b1 && a2
                != b2
        }),
{
}

/// Index of the first client with this name, or `-1`.
pub open spec fn client_name_index(cs: Seq<LspClient>, name: Seq<char>) -> int
    decreases cs.len(),
{
    if cs.len() == 0 {
        -1
    } else if cs[0].name_view() == name {
        0
    } else {
        let r = client_name_index(cs.drop_first(), name);
        if r < 0 {
            -1
        } else {
            r + 1
        }
    }
}

/// What a `client_name_index` answer means, for callers outside this
/// module: a non-negative answer points at the first client with the
/// name; `-1` means no client carries it.
pub proof fn lemma_client_name_index_pub(cs: Seq<LspClient>, name: Seq<char>)
    ensures
        ({
            let r = client_name_index(cs, name);
            if r >= 0 {
                r < cs.len() && cs[r].name_view() == name && (forall|j: int|
                    0 <= j < r ==> (#[trigger] cs[j]).name_view() != name)
            } else {
                forall|j: int| 0 <= j < cs.len() ==> (#[trigger] cs[j]).name_view() != name
            }
        }),
{
    lemma_client_name_index_props(cs, name);
}

proof fn lemma_client_name_index_props(cs: Seq<LspClient>, name: Seq<char>)
    ensures
        ({
            let r = client_name_index(cs, name);
            if r >= 0 {
                r < cs.len() && cs[r].name_view() == name && (forall|j: int|
                    0 <= j < r ==> (#[trigger] cs[j]).name_view() != name)
            } else {
                forall|j: int| 0 <= j < cs.len() ==> (#[trigger] cs[j]).name_view() != name
            }
        }),
    decreases cs.len(),
{
    if cs.len() == 0 {
    } else if cs[0].name_view() == name {
    } else {
        let c1 = cs.drop_first();
        lemma_client_name_index_props(c1, name);
        let r1 = client_name_index(c1, name);
        if r1 >= 0 {
            assert(cs[r1 + 1] == c1[r1]);
            assert forall|j: int| 0 <= j < r1 + 1 implies (#[trigger] cs[j]).name_view() != name by {
                if j > 0 {
                    assert(cs[j] == c1[j - 1]);
                }
            }
        } else {
            assert forall|j: int| 0 <= j < cs.len() implies (#[trigger] cs[j]).name_view() != name by {
                if j > 0 {
                    assert(cs[j] == c1[j - 1]);
                }
            }
        }
    }
}

/// Owns the name-keyed collection of LSP clients, hands each new client
/// three multiplexer tokens out of the reserved range, and routes
/// readiness events to the client owning the event's token.  Each client
/// carries exactly its own three tokens, so an event routed to one client
/// never touches another: routing scans the clients' token triples and
/// work is handed to the single owner found.
pub struct LspClientManager {
    /// First token of the reserved range.
    pub min_token: usize,
    /// First token past the reserved range.
    pub max_token: usize,
    /// The token the cursor will hand out next.
    pub next_token: usize,
    /// The live clients, in start order.
    pub clients: Vec<LspClient>,
}

impl LspClientManager {
    /// First token of the reserved range.
    pub open spec fn min_view(&self) -> int {
        self.min_token as int
    }

    /// First token past the reserved range.
    pub open spec fn max_view(&self) -> int {
        self.max_token as int
    }

    /// The token the cursor will hand out next.
    pub open spec fn next_view(&self) -> int {
        self.next_token as int
    }

    /// The token range holds at least one triple, the cursor stays inside
    /// it, every client is well-formed, and client names are unique.
    pub open spec fn wf(&self) -> bool {
        &&& self.min_view() + 3 <= self.max_view()
        &&& self.min_view() <= self.next_view() < self.max_view()
        &&& (forall|i: int| 0 <= i < self.clients@.len() ==> (#[trigger] self.clients@[i]).wf())
        &&& (forall|i: int, j: int| 0 <= i < j < self.clients@.len()
            ==> (#[trigger] self.clients@[i]).name_view() != (#[trigger] self.clients@[j]).name_view())
    }

    /// An empty manager over the token range `[min_token, max_token)`,
    /// which must hold at least one triple.
    pub fn new(min_token: usize, max_token: usize) -> (r: Self)
        requires
            min_token + 3 <= max_token,
        ensures
            r.wf(),
            r.min_view() == min_token,
            r.max_view() == max_token,
            r.next_view() == min_token,
            r.clients@.len() == 0,
    {
        LspClientManager { min_token, max_token, next_token: min_token, clients: Vec::new() }
    }

    /// Index of the live client with this name, if any.
    pub fn find_client(&self, name: &str) -> (r: Option<usize>)
        ensures
            ({
                let ci = client_name_index(self.clients@, name@);
                match r {
                    Some(i) => ci >= 0 && i == ci,
                    None => ci < 0,
                }
            }),
    {
        let ghost cs = self.clients@;
        let mut i: usize = 0;
        while i < self.clients.len()
            invariant
                i <= cs.len(),
                cs == self.clients@,
                forall|j: int| 0 <= j < i ==> (#[trigger] cs[j]).name_view() != name@,
        decreases cs.len() - i,
        {
            let x: String = self.clients[i].name().to_owned();
            let y: String = name.to_owned();
            if x == y {
                proof {
                    lemma_client_name_index_props(cs, name@);
                    let ci = client_name_index(cs, name@);
                    if ci < 0 {
                        assert(cs[i as int].name_view() != name@);
                        assert(false);
                    }
                    if ci < i {
                        assert(cs[ci].name_view() != name@);
                        assert(false);
                    }
                    if ci > i {
                        assert(cs[i as int].name_view() != name@);
                        assert(false);
                    }
                }
                return Some(i);
            }
            i = i + 1;
        }
        proof {
            lemma_client_name_index_props(cs, name@);
            let ci = client_name_index(cs, name@);
            if ci >= 0 {
                assert(cs[ci].name_view() != name@);
                assert(false);
            }
        }
        None
    }

    fn alloc_token(&mut self) -> (t: usize)
        requires
            old(self).wf(),
        ensures
            final(self).wf(),
            final(self).clients == old(self).clients,
            final(self).min_view() == old(self).min_view(),
            final(self).max_view() == old(self).max_view(),
            (t as int, final(self).next_view()) == alloc_one(
                old(self).next_view(),
                old(self).min_view(),
                old(self).max_view(),
            ),
    {
        let t = self.next_token;
        if self.next_token + 1 == self.max_token {
            self.next_token = self.min_token;
        } else {
            self.next_token = self.next_token + 1;
        }
        t
    }

    /// Starts a client for a just-spawned server: rejects a name that is
    /// already live, otherwise allocates the next three tokens, stores the
    /// client with its `initialize` request framed, and hands the tokens
    /// back for registration.
    pub fn start(&mut self, params: &crate::rpc::StartLspParams) -> (r: Result<
        (usize, usize, usize),
        crate::rpc::RpcError,
    >)
        requires
            old(self).wf(),
        ensures
            final(self).wf(),
            final(self).min_view() == old(self).min_view(),
            final(self).max_view() == old(self).max_view(),
            ({
                let conflict = client_name_index(old(self).clients@, params.name@) >= 0;
                match r {
                    Err(e) => conflict && *final(self) == *old(self) && (e matches
                        crate::rpc::RpcError::Other { message }),
                    Ok((t0, t1, t2)) => {
                        let (a0, a1, a2, n3) = alloc_three(
                            old(self).next_view(),
                            old(self).min_view(),
                            old(self).max_view(),
                        );
                        &&& !conflict
                        &&& t0 == a0 && t1 == a1 && t2 == a2
                        &&& final(self).next_view() == n3
                        &&& final(self).clients@.len() == old(self).clients@.len() + 1
                        &&& final(self).clients@.drop_last() == old(self).clients@
                        &&& ({
                            let c = final(self).clients@.last();
                            &&& c.wf()
                            &&& c.name_view() == params.name@
                            &&& c.tokens() == (t0, t1, t2)
                            &&& c.sent_offset() == 0
                            &&& c.recv_bytes().len() == 0
                            &&& c.legend_view().len() == 0
                            &&& c.next_id() == 1
                            &&& c.ongoing() == seq![(0u64, OngoingRequest::Initialize)]
                            &&& c.send_bytes() == frame_bytes(json_envelope(
                                method_initialize(),
                                Some(0),
                                initialize_params_json_for(params.root_dir@),
                            ))
                        })
                    },
                }
            }),
    {
        match self.find_client(params.name.as_str()) {
            Some(_) => Err(crate::rpc::RpcError::other("LSP server name conflicts")),
            None => {
                let t0 = self.alloc_token();
                let t1 = self.alloc_token();
                let t2 = self.alloc_token();
                let client = LspClient::new(
                    params.name.clone(),
                    t0,
                    t1,
                    t2,
                    params.root_dir.as_str(),
                );
                self.clients.push(client);
                proof {
                    lemma_client_name_index_props(old(self).clients@, params.name@);
                    assert(self.clients@.drop_last() =~= old(self).clients@);
                    assert forall|i: int, j: int| 0 <= i < j < self.clients@.len() implies (
                    #[trigger] self.clients@[i]).name_view() != (
                    #[trigger] self.clients@[j]).name_view() by {
                        assert(self.clients@[i] == old(self).clients@[i]);
                        if j < self.clients@.len() - 1 {
                            assert(self.clients@[j] == old(self).clients@[j]);
                        } else {
                            assert(self.clients@[j].name_view() == params.name@);
                            assert(old(self).clients@[i].name_view() != params.name@);
                        }
                    }
                    assert forall|i: int| 0 <= i < self.clients@.len() implies (
                    #[trigger] self.clients@[i]).wf() by {
                        if i < self.clients@.len() - 1 {
                            assert(self.clients@[i] == old(self).clients@[i]);
                        }
                    }
                }
                Ok((t0, t1, t2))
            },
        }
    }

    /// Index of the client owning this token, if any: the readiness event
    /// carrying the token belongs to that client and to no other state.
    pub fn owner_of_token(&self, token: usize) -> (r: Option<usize>)
        ensures
            match r {
                Some(i) => i < self.clients@.len() && self.clients@[i as int].owns_token(token)
                    && (forall|j: int| 0 <= j < i ==> !(#[trigger] self.clients@[j]).owns_token(
                    token,
                )),
                None => forall|j: int| 0 <= j < self.clients@.len()
                    ==> !(#[trigger] self.clients@[j]).owns_token(token),
            },
    {
        let mut i: usize = 0;
        while i < self.clients.len()
            invariant
                i <= self.clients@.len(),
                forall|j: int| 0 <= j < i ==> !(#[trigger] self.clients@[j]).owns_token(token),
        decreases self.clients@.len() - i,
        {
            let c = &self.clients[i];
            if c.stdin_token() == token || c.stdout_token() == token || c.stderr_token() == token {
                return Some(i);
            }
            i = i + 1;
        }
        None
    }

    /// Removes a client whose process exited or failed, dropping its
    /// tokens with it; every other client is untouched.
    pub fn remove_client(&mut self, i: usize)
        requires
            old(self).wf(),
            i < old(self).clients@.len(),
        ensures
            final(self).wf(),
            final(self).min_view() == old(self).min_view(),
            final(self).max_view() == old(self).max_view(),
            final(self).next_view() == old(self).next_view(),
            final(self).clients@ == old(self).clients@.remove(i as int),
    {
        self.clients.remove(i);
        proof {
            let s = old(self).clients@;
            let new = self.clients@;
            assert forall|a: int, b: int| 0 <= a < b < new.len() implies (
            #[trigger] new[a]).name_view() != (#[trigger] new[b]).name_view() by {
                let a0: int = if a < i { a } else { a + 1 };
                let b0: int = if b < i { b } else { b + 1 };
                assert(new[a] == s[a0]);
                assert(new[b] == s[b0]);
            }
            assert forall|a: int| 0 <= a < new.len() implies (#[trigger] new[a]).wf() by {
                let a0: int = if a < i { a } else { a + 1 };
                assert(new[a] == s[a0]);
            }
        }
    }
}

// --- the backpressure law ---

/// The frames of a burst, concatenated.
pub open spec fn concat_frames(frames: Seq<Seq<u8>>) -> Seq<u8>
    decreases frames.len(),
{
    if frames.len() == 0 {
        Seq::empty()
    } else {
        frames[0] + concat_frames(frames.drop_first())
    }
}

/// An outbound buffer after a burst of enqueues with no flush between
/// them.
pub open spec fn enqueue_all(buf: Seq<u8>, frames: Seq<Seq<u8>>) -> Seq<u8>
    decreases frames.len(),
{
    if frames.len() == 0 {
        buf
    } else {
        enqueue_all(appended_if_fits(buf, frames[0]), frames.drop_first())
    }
}

proof fn lemma_drop_all(buf: Seq<u8>, frames: Seq<Seq<u8>>)
    requires
        buf.len() > SEND_BUF_SIZE_LIMIT,
    ensures
        enqueue_all(buf, frames) == buf,
    decreases frames.len(),
{
    if frames.len() > 0 {
        lemma_drop_all(buf, frames.drop_first());
    }
}

/// Backpressure: enqueueing a burst of messages onto `buf` without a
/// flush keeps exactly the longest prefix of the burst each of whose
/// messages still found the buffer at or under the cap; every message
/// after that prefix is dropped whole, and nothing is reordered or
/// truncated.
pub proof fn lemma_backpressure_burst(buf: Seq<u8>, frames: Seq<Seq<u8>>) -> (k: int)
    ensures
        0 <= k <= frames.len(),
        enqueue_all(buf, frames) == buf + concat_frames(frames.take(k)),
        forall|j: int| 0 <= j < k ==> (buf + concat_frames(frames.take(j))).len()
            <= SEND_BUF_SIZE_LIMIT,
        k < frames.len() ==> (buf + concat_frames(frames.take(k))).len() > SEND_BUF_SIZE_LIMIT,
    decreases frames.len(),
{
    if frames.len() == 0 {
        assert(frames.take(0) =~= Seq::<Seq<u8>>::empty());
        assert(buf + concat_frames(frames.take(0)) =~= buf);
        0
    } else if buf.len() > SEND_BUF_SIZE_LIMIT {
        lemma_drop_all(buf, frames);
        assert(frames.take(0) =~= Seq::<Seq<u8>>::empty());
        assert(buf + concat_frames(frames.take(0)) =~= buf);
        0
    } else {
        let buf1 = buf + frames[0];
        let rest = frames.drop_first();
        let k1 = lemma_backpressure_burst(buf1, rest);
        let k = k1 + 1;
        assert(enqueue_all(buf, frames) == enqueue_all(buf1, rest));
        assert forall|j: int| 0 <= j <= k1 implies buf + concat_frames(#[trigger] frames.take(j + 1))
            =~= buf1 + concat_frames(rest.take(j)) by {
            let t = frames.take(j + 1);
            assert(t[0] == frames[0]);
            assert(t.drop_first() =~= rest.take(j));
            assert(concat_frames(t) == frames[0] + concat_frames(rest.take(j)));
        }
        assert(enqueue_all(buf, frames) == buf + concat_frames(frames.take(k)));
        assert forall|j: int| 0 <= j < k implies (buf + concat_frames(
            #[trigger] frames.take(j),
        )).len() <= SEND_BUF_SIZE_LIMIT by {
            if j == 0 {
                assert(frames.take(0) =~= Seq::<Seq<u8>>::empty());
            } else {
                let j1 = j - 1;
                assert(buf + concat_frames(frames.take(j1 + 1)) =~= buf1 + concat_frames(
                    rest.take(j1),
                ));
                assert((buf1 + concat_frames(rest.take(j1))).len() <= SEND_BUF_SIZE_LIMIT);
                assert(frames.take(j1 + 1) == frames.take(j));
            }
        }
        k
    }
}


/// What one message body from the server amounts to, and what the event
/// loop must do about it.
pub enum ResponseStep {
    /// Not a JSON-RPC response: a server-initiated request or
    /// notification, logged and dropped.
    Ignored,
    /// A protocol violation or unusable payload: the client must be torn
    /// down.
    Fatal,
    /// The `initialize` exchange finished: the `initialized` notification
    /// is framed, and the caller announces the server to the editor.
    Initialized,
    /// A semantic-tokens response decoded: the caller forwards the tokens
    /// to the editor.
    Tokens {
        /// The buffer the tokens were requested for.
        buffer_id: BufferId,
        /// The decoded absolute tokens.
        tokens: Vec<SemanticToken>,
    },
}

impl LspClient {
    /// Takes one complete message body from the server and walks it
    /// through classification, correlation and decoding: a non-response is
    /// dropped; a response must carry a known non-negative numeric id,
    /// carry a `result`, and decode against its request, else the client
    /// is beyond repair.  A resolved id is consumed either way.
    pub fn on_response_body(&mut self, body: &Vec<u8>) -> (r: ResponseStep)
        requires
            old(self).wf(),
        ensures
            final(self).wf(),
            final(self).same_identity(old(self)),
            final(self).recv_bytes() == old(self).recv_bytes(),
            final(self).sent_offset() == old(self).sent_offset(),
            final(self).next_id() == old(self).next_id(),
            ({
                match rpc_response_kind(body@) {
                    None => r is Ignored && *final(self) == *old(self),
                    Some((id_opt, ok)) => {
                        let bad_id = id_opt is None || id_opt->0 < 0;
                        if bad_id {
                            r is Fatal && *final(self) == *old(self)
                        } else {
                            let oi = ongoing_index(old(self).ongoing(), id_opt->0 as u64);
                            if oi < 0 {
                                r is Fatal && final(self).ongoing() == old(self).ongoing()
                                    && final(self).send_bytes() == old(self).send_bytes()
                                    && final(self).legend_view() == old(self).legend_view()
                            } else {
                                let tag = old(self).ongoing()[oi].1;
                                &&& final(self).ongoing() == old(self).ongoing().remove(oi)
                                &&& (!ok ==> r is Fatal && final(self).send_bytes() == old(
                                    self,
                                ).send_bytes() && final(self).legend_view() == old(
                                    self,
                                ).legend_view())
                                &&& (ok ==> match tag {
                                    OngoingRequest::Initialize => match init_legend_names(body@) {
                                        None => r is Fatal && final(self).send_bytes() == old(
                                            self,
                                        ).send_bytes() && final(self).legend_view() == old(
                                            self,
                                        ).legend_view(),
                                        Some(names) => if legend_names_ok(names) {
                                            r is Initialized && final(self).legend_view()
                                                == legend_of_names(names) && final(self).send_bytes()
                                                == appended_if_fits(
                                                old(self).send_bytes(),
                                                frame_bytes(json_envelope(
                                                    method_initialized(),
                                                    None,
                                                    lit_null_value(),
                                                )),
                                            )
                                        } else {
                                            r is Fatal && final(self).send_bytes() == old(
                                                self,
                                            ).send_bytes() && final(self).legend_view() == old(
                                                self,
                                            ).legend_view()
                                        },
                                    },
                                    OngoingRequest::SemanticTokensFull { buffer_id } => ({
                                        &&& final(self).send_bytes() == old(self).send_bytes()
                                        &&& final(self).legend_view() == old(self).legend_view()
                                        &&& (match semantic_data_values(body@) {
                                            None => r is Fatal,
                                            Some(data) => {
                                                let n = data.len() as int / 5;
                                                if forall|i: int|
                                                    0 <= i < n ==> chunk_ok(
                                                        data,
                                                        old(self).legend_view().len() as int,
                                                        i,
                                                    ) {
                                                    r matches ResponseStep::Tokens {
                                                        buffer_id: b,
                                                        tokens,
                                                    } && b.name@ == buffer_id.name@ && b.path@
                                                        == buffer_id.path@ && tokens@.len() == n
                                                        && (forall|i: int|
                                                        0 <= i < n ==> tokens@[i] == decoded_token(
                                                            data,
                                                            old(self).legend_view(),
                                                            i,
                                                        ))
                                                } else {
                                                    r is Fatal
                                                }
                                            },
                                        })
                                    }),
                                })
                            }
                        }
                    },
                }
            }),
    {
        let kind = parse_response_kind(body);
        let (id_opt, ok) = match kind {
            None => {
                return ResponseStep::Ignored;
            },
            Some(k) => k,
        };
        let id = match id_opt {
            None => {
                return ResponseStep::Fatal;
            },
            Some(id) => id,
        };
        if id < 0 {
            return ResponseStep::Fatal;
        }
        let tag = match self.begin_response(id as u64) {
            None => {
                return ResponseStep::Fatal;
            },
            Some(tag) => tag,
        };
        if !ok {
            return ResponseStep::Fatal;
        }
        match tag {
            OngoingRequest::Initialize => {
                let names = match parse_initialize_legend(body) {
                    None => {
                        return ResponseStep::Fatal;
                    },
                    Some(names) => names,
                };
                if self.on_initialize_result(&names) {
                    ResponseStep::Initialized
                } else {
                    ResponseStep::Fatal
                }
            },
            OngoingRequest::SemanticTokensFull { buffer_id } => {
                let data = match parse_semantic_data(body) {
                    None => {
                        return ResponseStep::Fatal;
                    },
                    Some(data) => data,
                };
                proof {
                    assert(data.deep_view() =~= data@);
                }
                match decode_semantic_tokens(&data, &self.legend) {
                    None => ResponseStep::Fatal,
                    Some(tokens) => ResponseStep::Tokens { buffer_id, tokens },
                }
            },
        }
    }
}

} // verus!
