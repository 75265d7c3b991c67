//! Framed message codec for the LSP base protocol.
//!
//! A frame on the wire is `Content-Length: <N>\r\n\r\n<N bytes of body>`.
//! The parser scans header lines terminated by `\r\n`; the header key is
//! matched case-insensitively; the header block ends at an empty line; the
//! body is then sliced by the announced byte count.  Partial trailing data
//! is left unconsumed so that the parser can be called again as more bytes
//! arrive.
use vstd::prelude::*;

verus! {

/// Carriage return.
pub const CR: u8 = 13;

/// Line feed.
pub const LF: u8 = 10;

/// True for ASCII decimal digits.
pub open spec fn is_digit(b: u8) -> bool {
    48 <= b <= 57
}

/// ASCII lower-casing of one byte.
pub open spec fn to_lower(b: u8) -> u8 {
    if 65 <= b <= 90 {
        (b + 32) as u8
    } else {
        b
    }
}

/// ASCII lower-casing of a byte sequence.
pub open spec fn lower_seq(s: Seq<u8>) -> Seq<u8> {
    s.map_values(|b: u8| to_lower(b))
}

/// The bytes of `content-length:` in lower case.
pub open spec fn content_length_key() -> Seq<u8> {
    seq![99u8, 111u8, 110u8, 116u8, 101u8, 110u8, 116u8, 45u8, 108u8, 101u8, 110u8, 103u8, 116u8, 104u8, 58u8]
}

/// Space or horizontal tab: the padding accepted around a header value.
pub open spec fn is_ws(b: u8) -> bool {
    b == 32 || b == 9
}

/// Value of a decimal digit string, most significant digit first.
pub open spec fn dec_val(s: Seq<u8>) -> int
    decreases s.len(),
{
    if s.len() == 0 {
        0
    } else {
        dec_val(s.drop_last()) * 10 + (s.last() - 48)
    }
}

/// All bytes are ASCII decimal digits.
pub open spec fn all_digits(s: Seq<u8>) -> bool {
    forall|i: int| 0 <= i < s.len() ==> is_digit(s[i])
}

/// Position of the first `\r\n` pair at or after `off`, if any.
pub open spec fn find_crlf_from(s: Seq<u8>, off: int) -> Option<int>
    decreases s.len() - off,
    when 0 <= off <= s.len()
{
    if off + 2 > s.len() {
        None
    } else if s[off] == CR && s[off + 1] == LF {
        Some(off)
    } else {
        find_crlf_from(s, off + 1)
    }
}

/// What a `find_crlf_from` answer means: the returned position carries a
/// `\r\n` pair, nothing earlier does, and a `None` answer rules the pair out
/// everywhere at or after `off`.
pub proof fn lemma_find_crlf_from_props(s: Seq<u8>, off: int)
    requires
        0 <= off <= s.len(),
    ensures
        match find_crlf_from(s, off) {
            Some(j) => off <= j && j + 2 <= s.len() && s[j] == CR && s[j + 1] == LF
                && (forall|i: int| off <= i < j ==> !((#[trigger] s[i]) == CR && s[i + 1] == LF)),
            None => forall|i: int| off <= i && i + 2 <= s.len() ==> !((#[trigger] s[i]) == CR && s[i + 1] == LF),
        },
    decreases s.len() - off,
{
    if off + 2 > s.len() {
    } else if s[off] == CR && s[off + 1] == LF {
    } else {
        lemma_find_crlf_from_props(s, off + 1);
    }
}

/// Appending bytes does not move a `\r\n` pair that was already found.
pub proof fn lemma_find_crlf_from_extend(s: Seq<u8>, t: Seq<u8>, off: int)
    requires
        0 <= off <= s.len(),
        find_crlf_from(s, off) is Some,
    ensures
        find_crlf_from(s + t, off) == find_crlf_from(s, off),
    decreases s.len() - off,
{
    assert(off <= (s + t).len());
    if off + 2 > s.len() {
        assert(false);
    } else if s[off] == CR && s[off + 1] == LF {
        assert((s + t)[off] == s[off]);
        assert((s + t)[off + 1] == s[off + 1]);
    } else {
        assert((s + t)[off] == s[off]);
        assert((s + t)[off + 1] == s[off + 1]);
        lemma_find_crlf_from_extend(s, t, off + 1);
    }
}

/// Finds the first `\r\n` at or after `from`.
fn find_crlf_exec(buf: &Vec<u8>, from: usize) -> (r: Option<usize>)
    requires
        from <= buf@.len(),
    ensures
        match r {
            Some(j) => find_crlf_from(buf@, from as int) == Some(j as int),
            None => find_crlf_from(buf@, from as int) is None,
        },
{
    let mut i: usize = from;
    loop
        invariant
            from <= i <= buf@.len(),
            find_crlf_from(buf@, from as int) == find_crlf_from(buf@, i as int),
        decreases buf@.len() - i,
    {
        if buf.len() < 2 || i > buf.len() - 2 {
            return None;
        }
        if buf[i] == CR && buf[i + 1] == LF {
            return Some(i);
        }
        i = i + 1;
    }
}

/// Leading padding removed.
pub open spec fn trim_front(s: Seq<u8>) -> Seq<u8>
    decreases s.len(),
{
    if s.len() > 0 && is_ws(s[0]) {
        trim_front(s.drop_first())
    } else {
        s
    }
}

/// Trailing padding removed.
pub open spec fn trim_back(s: Seq<u8>) -> Seq<u8>
    decreases s.len(),
{
    if s.len() > 0 && is_ws(s.last()) {
        trim_back(s.drop_last())
    } else {
        s
    }
}

/// Padding removed on both sides.
pub open spec fn trim(s: Seq<u8>) -> Seq<u8> {
    trim_back(trim_front(s))
}

proof fn lemma_trim_front_skip(s: Seq<u8>, a: int)
    requires
        0 <= a <= s.len(),
        forall|i: int| 0 <= i < a ==> is_ws(#[trigger] s[i]),
        a == s.len() || !is_ws(s[a]),
    ensures
        trim_front(s) == s.skip(a),
    decreases a,
{
    if a == 0 {
        assert(s.skip(0) =~= s);
        if s.len() > 0 && is_ws(s[0]) {
            assert(false);
        }
    } else {
        assert(is_ws(s[0]));
        let s1 = s.drop_first();
        assert(forall|i: int| 0 <= i < a - 1 ==> is_ws(#[trigger] s1[i]) == is_ws(s[i + 1]));
        lemma_trim_front_skip(s1, a - 1);
        assert(s1.skip(a - 1) =~= s.skip(a));
    }
}

proof fn lemma_trim_back_take(s: Seq<u8>, b: int)
    requires
        0 <= b <= s.len(),
        forall|i: int| b <= i < s.len() ==> is_ws(#[trigger] s[i]),
        b == 0 || !is_ws(s[b - 1]),
    ensures
        trim_back(s) == s.take(b),
    decreases s.len() - b,
{
    if b == s.len() {
        assert(s.take(b) =~= s);
        if s.len() > 0 && is_ws(s.last()) {
            assert(false);
        }
    } else {
        assert(is_ws(s.last()));
        let s1 = s.drop_last();
        lemma_trim_back_take(s1, b);
        assert(s1.take(b) =~= s.take(b));
    }
}

/// The trimmed form of a sequence whose padding stops at `a` from the left
/// and at `b` from the right is exactly the middle part.
pub proof fn lemma_trim_range(s: Seq<u8>, a: int, b: int)
    requires
        0 <= a <= b <= s.len(),
        forall|i: int| 0 <= i < a ==> is_ws(#[trigger] s[i]),
        forall|i: int| b <= i < s.len() ==> is_ws(#[trigger] s[i]),
        a == b || (!is_ws(s[a]) && !is_ws(s[b - 1])),
    ensures
        trim(s) == s.subrange(a, b),
    decreases s.len(),
{
    if a == b {
        // everything is padding
        lemma_trim_front_skip(s, s.len() as int);
        assert(s.skip(s.len() as int).len() == 0);
        assert(trim(s) =~= s.subrange(a, b));
    } else {
        lemma_trim_front_skip(s, a);
        let m = s.skip(a);
        assert(forall|i: int| b - a <= i < m.len() ==> is_ws(#[trigger] m[i]) == is_ws(s[i + a]));
        lemma_trim_back_take(m, b - a);
        assert(m.take(b - a) =~= s.subrange(a, b));
    }
}

/// A line whose first bytes spell `content-length:` in any case, followed
/// by at least one more byte.
pub open spec fn line_is_length_header(line: Seq<u8>) -> bool {
    line.len() > 15 && lower_seq(line.take(15)) == content_length_key()
}

/// All bytes of the line are ASCII.
pub open spec fn line_is_ascii(line: Seq<u8>) -> bool {
    forall|i: int| 0 <= i < line.len() ==> (#[trigger] line[i]) < 128
}

/// The value part of a length header line, with padding removed.
pub open spec fn line_value(line: Seq<u8>) -> Seq<u8> {
    trim(line.skip(15))
}

/// The value part denotes a usable length: nonempty, all digits, and small
/// enough for an in-memory buffer.
pub open spec fn line_value_ok(line: Seq<u8>) -> bool {
    let v = line_value(line);
    v.len() > 0 && all_digits(v) && dec_val(v) <= usize::MAX
}

/// One step of the header scan.
pub enum FrameStep {
    /// More bytes are needed before anything can be decided.
    Incomplete,
    /// The header block is malformed: a non-ASCII header byte, a length
    /// value that is not a plain decimal number that fits in memory, or an
    /// empty line before any length header.
    Malformed,
    /// A complete frame: the body spans `start .. start + len`.
    Frame { start: int, len: int },
}

/// Scans header lines from `off`, carrying the last announced length, and
/// reports the first complete frame.
pub open spec fn scan_from(s: Seq<u8>, off: int, len: Option<int>) -> FrameStep
    decreases s.len() - off,
    when 0 <= off <= s.len()
    via scan_from_decreases
{
    match find_crlf_from(s, off) {
        None => FrameStep::Incomplete,
        Some(j) => {
            if j == off {
                match len {
                    None => FrameStep::Malformed,
                    Some(n) => {
                        if j + 2 + n <= s.len() {
                            FrameStep::Frame { start: j + 2, len: n }
                        } else {
                            FrameStep::Incomplete
                        }
                    },
                }
            } else {
                let line = s.subrange(off, j);
                if !line_is_ascii(line) {
                    FrameStep::Malformed
                } else if line_is_length_header(line) {
                    if line_value_ok(line) {
                        scan_from(s, j + 2, Some(dec_val(line_value(line))))
                    } else {
                        FrameStep::Malformed
                    }
                } else {
                    scan_from(s, j + 2, len)
                }
            }
        },
    }
}

#[via_fn]
proof fn scan_from_decreases(s: Seq<u8>, off: int, len: Option<int>) {
    lemma_find_crlf_from_props(s, off);
}

/// A reported frame lies inside the scanned bytes, past its header block.
pub proof fn lemma_scan_from_props(s: Seq<u8>, off: int, len: Option<int>)
    requires
        0 <= off <= s.len(),
        len is Some ==> len->0 >= 0,
    ensures
        match scan_from(s, off, len) {
            FrameStep::Frame { start, len: n } => off + 2 <= start && n >= 0 && start + n <= s.len(),
            _ => true,
        },
    decreases s.len() - off,
{
    lemma_find_crlf_from_props(s, off);
    match find_crlf_from(s, off) {
        None => {},
        Some(j) => {
            if j == off {
            } else {
                let line = s.subrange(off, j);
                if line_is_ascii(line) && line_is_length_header(line) && line_value_ok(line) {
                    lemma_dec_val_nonneg(line_value(line));
                    lemma_scan_from_props(s, j + 2, Some(dec_val(line_value(line))));
                } else if line_is_ascii(line) && !line_is_length_header(line) {
                    lemma_scan_from_props(s, j + 2, len);
                }
            }
        },
    }
}

/// The value of a digit string is never negative.
pub proof fn lemma_dec_val_nonneg(s: Seq<u8>)
    requires
        all_digits(s),
    ensures
        dec_val(s) >= 0,
    decreases s.len(),
{
    if s.len() > 0 {
        let s1 = s.drop_last();
        assert(forall|i: int| 0 <= i < s1.len() ==> is_digit(#[trigger] s1[i]) == is_digit(s[i]));
        lemma_dec_val_nonneg(s1);
    }
}

/// Appending bytes changes neither a frame already found nor a malformed
/// verdict already reached.
pub proof fn lemma_scan_from_extend(s: Seq<u8>, t: Seq<u8>, off: int, len: Option<int>)
    requires
        0 <= off <= s.len(),
        !(scan_from(s, off, len) is Incomplete),
    ensures
        scan_from(s + t, off, len) == scan_from(s, off, len),
    decreases s.len() - off,
{
    lemma_find_crlf_from_props(s, off);
    match find_crlf_from(s, off) {
        None => {
            assert(false);
        },
        Some(j) => {
            lemma_find_crlf_from_extend(s, t, off);
            if j == off {
                match len {
                    None => {},
                    Some(n) => {
                        assert(j + 2 + n <= s.len() <= (s + t).len());
                    },
                }
            } else {
                let line = s.subrange(off, j);
                let line2 = (s + t).subrange(off, j);
                assert(line2 =~= line);
                if !line_is_ascii(line) {
                } else if line_is_length_header(line) {
                    if line_value_ok(line) {
                        lemma_scan_from_extend(s, t, j + 2, Some(dec_val(line_value(line))));
                    }
                } else {
                    lemma_scan_from_extend(s, t, j + 2, len);
                }
            }
        },
    }
}

/// Dropping `k` already-consumed bytes shifts every reported position by
/// `k` and changes nothing else.
pub proof fn lemma_scan_from_shift(s: Seq<u8>, k: int, off: int, len: Option<int>)
    requires
        0 <= k <= off <= s.len(),
    ensures
        scan_from(s.skip(k), off - k, len) == match scan_from(s, off, len) {
            FrameStep::Frame { start, len: n } => FrameStep::Frame { start: start - k, len: n },
            r => r,
        },
    decreases s.len() - off,
{
    let sk = s.skip(k);
    lemma_find_crlf_from_props(s, off);
    lemma_find_crlf_from_props(sk, off - k);
    assert(forall|i: int| 0 <= i < sk.len() ==> #[trigger] sk[i] == s[i + k]);
    match find_crlf_from(s, off) {
        None => {
            if find_crlf_from(sk, off - k) is Some {
                let j2 = find_crlf_from(sk, off - k)->0;
                assert(s[j2 + k] == CR && s[j2 + k + 1] == LF);
                assert(false);
            }
        },
        Some(j) => {
            if find_crlf_from(sk, off - k) is None {
                assert(sk[j - k] == CR && sk[j - k + 1] == LF);
                assert(false);
            }
            let j2 = find_crlf_from(sk, off - k)->0;
            // the two answers name the same position
            if j2 + k < j {
                assert(s[j2 + k] == CR && s[j2 + k + 1] == LF);
                assert(false);
            }
            if j - k < j2 {
                assert(sk[j - k] == CR && sk[j - k + 1] == LF);
                assert(false);
            }
            assert(j2 == j - k);
            if j == off {
            } else {
                let line = s.subrange(off, j);
                let line2 = sk.subrange(off - k, j - k);
                assert(line2 =~= line);
                if !line_is_ascii(line) {
                } else if line_is_length_header(line) {
                    if line_value_ok(line) {
                        lemma_scan_from_shift(s, k, j + 2, Some(dec_val(line_value(line))));
                    }
                } else {
                    lemma_scan_from_shift(s, k, j + 2, len);
                }
            }
        },
    }
}

/// What a whole buffer parses to.
pub enum ParseResult {
    /// The header block of some frame is malformed; the connection is
    /// beyond repair.
    Malformed,
    /// Every complete frame, in order, and how many bytes they cover.
    /// Bytes past `consumed` are an incomplete trailer to be kept.
    Frames { frames: Seq<Seq<u8>>, consumed: int },
}

/// All complete frames at the front of `s`, greedily.
pub open spec fn parse_frames(s: Seq<u8>) -> ParseResult
    decreases s.len(),
    via parse_frames_decreases
{
    match scan_from(s, 0, None) {
        FrameStep::Incomplete => ParseResult::Frames { frames: seq![], consumed: 0 },
        FrameStep::Malformed => ParseResult::Malformed,
        FrameStep::Frame { start, len } => {
            let body = s.subrange(start, start + len);
            match parse_frames(s.skip(start + len)) {
                ParseResult::Malformed => ParseResult::Malformed,
                ParseResult::Frames { frames, consumed } => ParseResult::Frames {
                    frames: seq![body] + frames,
                    consumed: start + len + consumed,
                },
            }
        },
    }
}

#[via_fn]
proof fn parse_frames_decreases(s: Seq<u8>) {
    lemma_scan_from_props(s, 0, None);
}

/// Parsing consumes between none and all of the bytes.
pub proof fn lemma_parse_frames_props(s: Seq<u8>)
    ensures
        match parse_frames(s) {
            ParseResult::Frames { frames, consumed } => 0 <= consumed <= s.len(),
            ParseResult::Malformed => true,
        },
    decreases s.len(),
{
    lemma_scan_from_props(s, 0, None);
    match scan_from(s, 0, None) {
        FrameStep::Incomplete => {},
        FrameStep::Malformed => {},
        FrameStep::Frame { start, len } => {
            lemma_parse_frames_props(s.skip(start + len));
        },
    }
}

/// Parsing commutes with the arrival of further bytes: what was parsed
/// stays parsed, and the leftover plus the new bytes parse to the rest.
pub proof fn lemma_parse_frames_extend(s: Seq<u8>, t: Seq<u8>)
    ensures
        match parse_frames(s) {
            ParseResult::Malformed => parse_frames(s + t) is Malformed,
            ParseResult::Frames { frames, consumed } => match parse_frames(s.skip(consumed) + t) {
                ParseResult::Malformed => parse_frames(s + t) is Malformed,
                ParseResult::Frames { frames: f2, consumed: c2 } => parse_frames(s + t)
                    == (ParseResult::Frames { frames: frames + f2, consumed: consumed + c2 }),
            },
        },
    decreases s.len(),
{
    lemma_scan_from_props(s, 0, None);
    lemma_parse_frames_props(s);
    match scan_from(s, 0, None) {
        FrameStep::Incomplete => {
            assert(s.skip(0) + t =~= s + t);
            match parse_frames(s + t) {
                ParseResult::Malformed => {},
                ParseResult::Frames { frames: f2, consumed: c2 } => {
                    assert(seq![] + f2 =~= f2);
                    assert(parse_frames(s + t) == (ParseResult::Frames { frames: seq![] + f2, consumed: 0 + c2 }));
                },
            }
        },
        FrameStep::Malformed => {
            lemma_scan_from_extend(s, t, 0, None);
        },
        FrameStep::Frame { start, len } => {
            lemma_scan_from_extend(s, t, 0, None);
            let end = start + len;
            let body = s.subrange(start, end);
            assert((s + t).subrange(start, end) =~= body);
            assert((s + t).skip(end) =~= s.skip(end) + t);
            lemma_parse_frames_props(s.skip(end));
            lemma_parse_frames_extend(s.skip(end), t);
            match parse_frames(s.skip(end)) {
                ParseResult::Malformed => {},
                ParseResult::Frames { frames: fr, consumed: cr } => {
                    assert(s.skip(end).skip(cr) =~= s.skip(end + cr));
                    match parse_frames(s.skip(end + cr) + t) {
                        ParseResult::Malformed => {},
                        ParseResult::Frames { frames: f2, consumed: c2 } => {
                            assert(seq![body] + (fr + f2) =~= (seq![body] + fr) + f2);
                        },
                    }
                },
            }
        },
    }
}

/// Partial-delivery idempotence: however an incoming byte stream is split,
/// feeding the first part, keeping its unconsumed trailer, and then feeding
/// the rest yields exactly the frames of the whole stream, with no frame
/// lost, duplicated, or reordered.
pub proof fn lemma_partial_delivery(s: Seq<u8>, i: int)
    requires
        0 <= i <= s.len(),
    ensures
        match parse_frames(s.take(i)) {
            ParseResult::Malformed => parse_frames(s) is Malformed,
            ParseResult::Frames { frames: f1, consumed: c1 } => match parse_frames(
                s.take(i).skip(c1) + s.skip(i),
            ) {
                ParseResult::Malformed => parse_frames(s) is Malformed,
                ParseResult::Frames { frames: f2, consumed: c2 } => parse_frames(s)
                    == (ParseResult::Frames { frames: f1 + f2, consumed: c1 + c2 }),
            },
        },
{
    let p = s.take(i);
    let t = s.skip(i);
    assert(p + t =~= s);
    lemma_parse_frames_extend(p, t);
}

/// The bytes of `Content-Length:` as the encoder writes them.
pub open spec fn content_length_key_upper() -> Seq<u8> {
    seq![67u8, 111u8, 110u8, 116u8, 101u8, 110u8, 116u8, 45u8, 76u8, 101u8, 110u8, 103u8, 116u8, 104u8, 58u8]
}

proof fn lemma_upper_key_lowers()
    ensures
        content_length_key_upper().len() == 15,
        lower_seq(content_length_key_upper()) == content_length_key(),
{
    let u = content_length_key_upper();
    let l = content_length_key();
    assert forall|i: int| 0 <= i < 15 implies lower_seq(u)[i] == l[i] by {
        assert(lower_seq(u)[i] == to_lower(u[i]));
    }
    assert(lower_seq(u) =~= l);
}

/// Decimal digits of `n`, most significant first.
pub open spec fn dec_digits_of(n: int) -> Seq<u8>
    decreases n,
    when n >= 0
{
    if n < 10 {
        seq![(48 + n) as u8]
    } else {
        dec_digits_of(n / 10).push((48 + n % 10) as u8)
    }
}

/// The digits of `n` form a nonempty digit string that reads back as `n`.
pub proof fn lemma_dec_digits_of_props(n: int)
    requires
        n >= 0,
    ensures
        all_digits(dec_digits_of(n)),
        dec_digits_of(n).len() >= 1,
        dec_val(dec_digits_of(n)) == n,
    decreases n,
{
    if n < 10 {
        let d = dec_digits_of(n);
        assert(d == seq![(48 + n) as u8]);
        assert(d.drop_last() =~= Seq::<u8>::empty());
        assert(dec_val(Seq::<u8>::empty()) == 0);
        assert(dec_val(d) == dec_val(d.drop_last()) * 10 + (d.last() - 48));
        assert(dec_val(d) == n);
    } else {
        lemma_dec_digits_of_props(n / 10);
        let d = dec_digits_of(n / 10);
        let full = d.push((48 + n % 10) as u8);
        assert(full.drop_last() =~= d);
        assert(dec_val(full) == dec_val(d) * 10 + n % 10);
        vstd::arithmetic::div_mod::lemma_fundamental_div_mod(n, 10);
        assert(forall|i: int| 0 <= i < full.len() ==> is_digit(#[trigger] full[i]));
    }
}

/// One encoded frame: canonical key, decimal length, blank line, body.
pub open spec fn frame_bytes(body: Seq<u8>) -> Seq<u8> {
    content_length_key_upper() + dec_digits_of(body.len() as int) + seq![CR, LF, CR, LF] + body
}

/// Case-insensitive framing: a frame whose header key spells
/// `content-length:` in any mixture of cases, with any correct digit
/// string, parses to exactly its body with nothing left over.
pub proof fn lemma_frame_parse(key: Seq<u8>, digits: Seq<u8>, body: Seq<u8>)
    requires
        key.len() == 15,
        lower_seq(key) == content_length_key(),
        all_digits(digits),
        digits.len() >= 1,
        dec_val(digits) == body.len(),
        body.len() <= usize::MAX,
    ensures
        parse_frames(key + digits + seq![CR, LF, CR, LF] + body) == (ParseResult::Frames {
            frames: seq![body],
            consumed: 19 + digits.len() as int + body.len() as int,
        }),
{
    let d = digits.len() as int;
    let line = key + digits;
    let ln = 15 + d;
    let s = key + digits + seq![CR, LF, CR, LF] + body;
    let n = body.len() as int;
    assert(s.len() == ln + 4 + n);

    // byte layout
    assert forall|i: int| 0 <= i < 15 implies s[i] == key[i] by {}
    assert forall|i: int| 15 <= i < ln implies s[i] == digits[i - 15] by {}
    assert(s[ln] == CR);
    assert(s[ln + 1] == LF);
    assert(s[ln + 2] == CR);
    assert(s[ln + 3] == LF);
    assert forall|i: int| ln + 4 <= i < s.len() implies s[i] == body[i - ln - 4] by {}

    // key and digit bytes are ASCII and are never part of a CRLF pair
    assert forall|i: int| 0 <= i < 15 implies key[i] < 128 && key[i] != CR && key[i] != LF by {
        assert(lower_seq(key)[i] == to_lower(key[i]));
        assert(lower_seq(key)[i] == content_length_key()[i]);
    }
    assert forall|i: int| 0 <= i < d implies digits[i] != CR && digits[i] != LF by {
        assert(is_digit(digits[i]));
    }

    // the first CRLF pair sits right after the header line
    lemma_find_crlf_from_props(s, 0);
    match find_crlf_from(s, 0) {
        None => {
            assert(s[ln] == CR && s[ln + 1] == LF && ln + 2 <= s.len());
            assert(false);
        },
        Some(j) => {
            if j < ln {
                if j < 15 {
                    assert(s[j] == key[j]);
                } else {
                    assert(s[j] == digits[j - 15]);
                }
                assert(false);
            }
            if j > ln {
                assert(s[ln] == CR && s[ln + 1] == LF);
                assert(false);
            }
            assert(j == ln);
        },
    }
    let line2 = s.subrange(0, ln);
    assert(line2 =~= line);

    // the line is an acceptable length header announcing body.len()
    assert(line_is_ascii(line));
    assert(line.take(15) =~= key);
    assert(line_is_length_header(line));
    assert(line.skip(15) =~= digits);
    assert forall|i: int| 0 <= i < d implies !is_ws(digits[i]) by {
        assert(is_digit(digits[i]));
    }
    lemma_trim_range(digits, 0, d);
    assert(digits.subrange(0, d) =~= digits);
    assert(line_value(line) == digits);
    assert(line_value_ok(line));

    // the empty line follows at once, and the body is fully present
    lemma_find_crlf_from_props(s, ln + 2);
    match find_crlf_from(s, ln + 2) {
        None => {
            assert(s[ln + 2] == CR && s[ln + 3] == LF);
            assert(false);
        },
        Some(j2) => {
            if j2 > ln + 2 {
                assert(s[ln + 2] == CR && s[ln + 3] == LF);
                assert(false);
            }
            assert(j2 == ln + 2);
        },
    }
    assert(scan_from(s, ln + 2, Some(n)) == (FrameStep::Frame { start: ln + 4, len: n }));
    assert(scan_from(s, 0, None) == (FrameStep::Frame { start: ln + 4, len: n }));

    // the body comes out unchanged and nothing trails it
    assert(s.subrange(ln + 4, ln + 4 + n) =~= body);
    let rest = s.skip(ln + 4 + n);
    assert(rest =~= Seq::<u8>::empty());
    assert(find_crlf_from(rest, 0) is None);
    assert(scan_from(rest, 0, None) is Incomplete);
    assert(parse_frames(rest) == (ParseResult::Frames { frames: seq![], consumed: 0 }));
    assert(seq![body] + seq![] =~= seq![body]);
}

/// Framing round-trip: an encoded frame parses back to exactly its body,
/// with every byte consumed.
pub proof fn lemma_encode_round_trip(body: Seq<u8>)
    requires
        body.len() <= usize::MAX,
    ensures
        parse_frames(frame_bytes(body)) == (ParseResult::Frames {
            frames: seq![body],
            consumed: frame_bytes(body).len() as int,
        }),
{
    lemma_upper_key_lowers();
    lemma_dec_digits_of_props(body.len() as int);
    lemma_frame_parse(content_length_key_upper(), dec_digits_of(body.len() as int), body);
}

/// Writes the decimal digits of `n`.
pub fn dec_digits(n: usize) -> (r: Vec<u8>)
    ensures
        r@ == dec_digits_of(n as int),
    decreases n,
{
    if n < 10 {
        let mut v: Vec<u8> = Vec::new();
        v.push((48 + n) as u8);
        assert(v@ =~= dec_digits_of(n as int));
        v
    } else {
        let mut v = dec_digits(n / 10);
        v.push((48 + (n % 10)) as u8);
        assert(v@ =~= dec_digits_of(n as int));
        v
    }
}

/// Frames a message body with its `Content-Length` header.
pub fn encode_frame(body: &Vec<u8>) -> (r: Vec<u8>)
    ensures
        r@ == frame_bytes(body@),
        parse_frames(r@) == (ParseResult::Frames {
            frames: seq![body@],
            consumed: r@.len() as int,
        }),
{
    let mut r: Vec<u8> = Vec::new();
    r.push(67);
    r.push(111);
    r.push(110);
    r.push(116);
    r.push(101);
    r.push(110);
    r.push(116);
    r.push(45);
    r.push(76);
    r.push(101);
    r.push(110);
    r.push(103);
    r.push(116);
    r.push(104);
    r.push(58);
    assert(r@ =~= content_length_key_upper());
    let mut digits = dec_digits(body.len());
    r.append(&mut digits);
    r.push(CR);
    r.push(LF);
    r.push(CR);
    r.push(LF);
    r.extend_from_slice(body.as_slice());
    assert(r@ =~= frame_bytes(body@));
    proof {
        lemma_encode_round_trip(body@);
    }
    r
}

fn to_lower_exec(b: u8) -> (r: u8)
    ensures
        r == to_lower(b),
{
    if 65 <= b && b <= 90 {
        b + 32
    } else {
        b
    }
}

fn is_ws_exec(b: u8) -> (r: bool)
    ensures
        r == is_ws(b),
{
    b == 32 || b == 9
}

pub(crate) fn copy_range(buf: &Vec<u8>, lo: usize, hi: usize) -> (r: Vec<u8>)
    requires
        lo <= hi <= buf@.len(),
    ensures
        r@ == buf@.subrange(lo as int, hi as int),
{
    let mut r: Vec<u8> = Vec::new();
    let mut k: usize = lo;
    while k < hi
        invariant
            lo <= k <= hi <= buf@.len(),
            r@ == buf@.subrange(lo as int, k as int),
        decreases hi - k,
    {
        r.push(buf[k]);
        assert(r@ =~= buf@.subrange(lo as int, k + 1));
        k = k + 1;
    }
    r
}

/// The value of a digit string only grows as digits are appended.
proof fn lemma_dec_val_prefix_mono(s: Seq<u8>, k: int)
    requires
        all_digits(s),
        0 <= k <= s.len(),
    ensures
        dec_val(s) >= dec_val(s.take(k)) >= 0,
    decreases s.len() - k,
{
    assert(forall|i: int| 0 <= i < k ==> is_digit(#[trigger] s.take(k)[i]));
    lemma_dec_val_nonneg(s.take(k));
    if k == s.len() {
        assert(s.take(k) =~= s);
    } else {
        lemma_dec_val_prefix_mono(s, k + 1);
        let p = s.take(k + 1);
        assert(p.drop_last() =~= s.take(k));
        assert(dec_val(p) == dec_val(s.take(k)) * 10 + (s[k] - 48));
    }
}

/// Reads the header value bytes in `lo .. hi` as a decimal number:
/// `Some` exactly when they are nonempty, all digits, and denote a value
/// that fits in `usize`.
fn parse_decimal(buf: &Vec<u8>, lo: usize, hi: usize) -> (r: Option<usize>)
    requires
        lo <= hi <= buf@.len(),
    ensures
        ({
            let v = buf@.subrange(lo as int, hi as int);
            match r {
                Some(n) => v.len() > 0 && all_digits(v) && dec_val(v) == n,
                None => !(v.len() > 0 && all_digits(v) && dec_val(v) <= usize::MAX),
            }
        }),
{
    let ghost v = buf@.subrange(lo as int, hi as int);
    if lo == hi {
        return None;
    }
    let mut acc: usize = 0;
    let mut k: usize = lo;
    while k < hi
        invariant
            lo <= k <= hi <= buf@.len(),
            v == buf@.subrange(lo as int, hi as int),
            all_digits(v.take(k - lo)),
            acc == dec_val(v.take(k - lo)),
        decreases hi - k,
    {
        let b = buf[k];
        if !(48 <= b && b <= 57) {
            assert(!is_digit(v[k - lo]));
            return None;
        }
        let d = (b - 48) as usize;
        let ghost p = v.take(k + 1 - lo);
        proof {
            assert(p.drop_last() =~= v.take(k - lo));
            assert(p.last() == v[k - lo]);
            assert(forall|i: int| 0 <= i < p.len() ==> is_digit(#[trigger] p[i]));
        }
        let Some(m) = acc.checked_mul(10) else {
            proof {
                assert(dec_val(p) == acc * 10 + d);
                if all_digits(v) {
                    lemma_dec_val_prefix_mono(v, k + 1 - lo);
                    assert(v.take(v.len() as int) =~= v);
                    assert(dec_val(v) >= dec_val(p) > usize::MAX);
                }
            }
            return None;
        };
        let Some(m2) = m.checked_add(d) else {
            proof {
                assert(dec_val(p) == acc * 10 + d);
                if all_digits(v) {
                    lemma_dec_val_prefix_mono(v, k + 1 - lo);
                    assert(v.take(v.len() as int) =~= v);
                    assert(dec_val(v) >= dec_val(p) > usize::MAX);
                }
            }
            return None;
        };
        acc = m2;
        k = k + 1;
        assert(acc == dec_val(v.take(k - lo)));
    }
    assert(v.take(hi - lo) =~= v);
    Some(acc)
}

fn is_length_header_exec(buf: &Vec<u8>, lo: usize, hi: usize) -> (r: bool)
    requires
        lo <= hi <= buf@.len(),
    ensures
        r == line_is_length_header(buf@.subrange(lo as int, hi as int)),
{
    let ghost line = buf@.subrange(lo as int, hi as int);
    if hi - lo <= 15 {
        return false;
    }
    let mut key: Vec<u8> = Vec::new();
    key.push(99);
    key.push(111);
    key.push(110);
    key.push(116);
    key.push(101);
    key.push(110);
    key.push(116);
    key.push(45);
    key.push(108);
    key.push(101);
    key.push(110);
    key.push(103);
    key.push(116);
    key.push(104);
    key.push(58);
    assert(key@ =~= content_length_key());
    let mut k: usize = 0;
    while k < 15
        invariant
            0 <= k <= 15,
            lo + 15 < hi <= buf@.len(),
            line == buf@.subrange(lo as int, hi as int),
            key@ == content_length_key(),
            forall|i: int| 0 <= i < k ==> lower_seq(line.take(15))[i] == content_length_key()[i],
        decreases 15 - k,
    {
        let got = to_lower_exec(buf[lo + k]);
        if got != key[k] {
            assert(lower_seq(line.take(15))[k as int] == to_lower(line[k as int]));
            assert(line[k as int] == buf@[lo + k]);
            return false;
        }
        assert(lower_seq(line.take(15))[k as int] == to_lower(line[k as int]));
        k = k + 1;
    }
    assert(lower_seq(line.take(15)) =~= content_length_key());
    true
}

fn line_is_ascii_exec(buf: &Vec<u8>, lo: usize, hi: usize) -> (r: bool)
    requires
        lo <= hi <= buf@.len(),
    ensures
        r == line_is_ascii(buf@.subrange(lo as int, hi as int)),
{
    let ghost line = buf@.subrange(lo as int, hi as int);
    let mut k: usize = lo;
    while k < hi
        invariant
            lo <= k <= hi <= buf@.len(),
            line == buf@.subrange(lo as int, hi as int),
            forall|i: int| 0 <= i < k - lo ==> (#[trigger] line[i]) < 128,
        decreases hi - k,
    {
        if buf[k] >= 128 {
            assert(line[k - lo] == buf@[k as int]);
            return false;
        }
        assert(line[k - lo] == buf@[k as int]);
        k = k + 1;
    }
    true
}

/// Reads the length-header value of the line `lo .. hi`, stripping
/// padding: `Some` exactly when the trimmed value is an acceptable length.
fn line_value_exec(buf: &Vec<u8>, lo: usize, hi: usize) -> (r: Option<usize>)
    requires
        lo <= hi <= buf@.len(),
        hi - lo > 15,
    ensures
        ({
            let line = buf@.subrange(lo as int, hi as int);
            match r {
                Some(n) => line_value_ok(line) && dec_val(line_value(line)) == n,
                None => !line_value_ok(line),
            }
        }),
{
    let ghost line = buf@.subrange(lo as int, hi as int);
    let ghost v0 = line.skip(15);
    let vstart = lo + 15;
    assert(forall|i: int| 0 <= i < v0.len() ==> #[trigger] v0[i] == buf@[vstart + i]);
    let mut a: usize = vstart;
    while a < hi && is_ws_exec(buf[a])
        invariant
            vstart <= a <= hi <= buf@.len(),
            forall|i: int| vstart <= i < a ==> is_ws(#[trigger] buf@[i]),
        decreases hi - a,
    {
        a = a + 1;
    }
    let mut b: usize = hi;
    while b > a && is_ws_exec(buf[b - 1])
        invariant
            a <= b <= hi <= buf@.len(),
            forall|i: int| b <= i < hi ==> is_ws(#[trigger] buf@[i]),
        decreases b,
    {
        b = b - 1;
    }
    proof {
        assert(forall|i: int| 0 <= i < a - vstart ==> is_ws(#[trigger] v0[i]));
        assert(forall|i: int| b - vstart <= i < v0.len() ==> is_ws(#[trigger] v0[i]));
        if a != b {
            assert(!is_ws(v0[a - vstart]));
            assert(!is_ws(v0[b - vstart - 1]));
        }
        lemma_trim_range(v0, a - vstart, b - vstart);
        assert(v0.subrange(a - vstart, b - vstart) =~= buf@.subrange(a as int, b as int));
        assert(line_value(line) == buf@.subrange(a as int, b as int));
    }
    parse_decimal(buf, a, b)
}

/// The frames recovered from one parser run.
pub struct FrameBatch {
    /// Each complete frame body, in arrival order.
    pub frames: Vec<Vec<u8>>,
    /// How many leading bytes the frames covered; the caller drops them
    /// and keeps the rest for the next run.
    pub consumed: usize,
}

spec fn opt_int(o: Option<usize>) -> Option<int> {
    match o {
        None => None,
        Some(n) => Some(n as int),
    }
}

/// Parses every complete frame at the front of `buf`.  `None` means the
/// header block is malformed and the connection must be dropped.
pub fn try_parse_frames(buf: &Vec<u8>) -> (r: Option<FrameBatch>)
    ensures
        match r {
            None => parse_frames(buf@) is Malformed,
            Some(b) => parse_frames(buf@) == (ParseResult::Frames {
                frames: b.frames.deep_view(),
                consumed: b.consumed as int,
            }) && b.consumed <= buf@.len(),
        },
{
    let mut frames: Vec<Vec<u8>> = Vec::new();
    let mut consumed: usize = 0;
    let mut pos: usize = 0;
    let mut cur: Option<usize> = None;
    proof {
        assert(buf@.skip(0) =~= buf@);
        assert(frames.deep_view() =~= Seq::<Seq<u8>>::empty());
        match parse_frames(buf@) {
            ParseResult::Malformed => {},
            ParseResult::Frames { frames: f2, consumed: c2 } => {
                assert(frames.deep_view() + f2 =~= f2);
            },
        }
    }
    loop
        invariant
            0 <= consumed <= pos <= buf@.len(),
            match parse_frames(buf@.skip(consumed as int)) {
                ParseResult::Malformed => parse_frames(buf@) is Malformed,
                ParseResult::Frames { frames: f2, consumed: c2 } => parse_frames(buf@)
                    == (ParseResult::Frames {
                    frames: frames.deep_view() + f2,
                    consumed: consumed + c2,
                }),
            },
            scan_from(buf@, pos as int, opt_int(cur)) == scan_from(buf@, consumed as int, None),
        decreases buf@.len() - pos,
    {
        let ghost rest = buf@.skip(consumed as int);
        let buf_len: usize = buf.len();
        proof {
            lemma_scan_from_shift(buf@, consumed as int, consumed as int, None);
            assert(rest.len() == buf@.len() - consumed);
            assert(buf@.len() == buf_len as int);
        }
        match find_crlf_exec(buf, pos) {
            None => {
                proof {
                    assert(scan_from(buf@, consumed as int, None) is Incomplete);
                    assert(scan_from(rest, 0, None) is Incomplete);
                    assert(parse_frames(rest) == (ParseResult::Frames {
                        frames: Seq::<Seq<u8>>::empty(),
                        consumed: 0,
                    }));
                    assert(frames.deep_view() + Seq::<Seq<u8>>::empty() =~= frames.deep_view());
                }
                return Some(FrameBatch { frames, consumed });
            },
            Some(j) => {
                proof {
                    lemma_find_crlf_from_props(buf@, pos as int);
                }
                if j == pos {
                    // empty line: end of the header block
                    match cur {
                        None => {
                            proof {
                                assert(scan_from(buf@, consumed as int, None) is Malformed);
                                assert(scan_from(rest, 0, None) is Malformed);
                            }
                            return None;
                        },
                        Some(n) => {
                            if n <= buf.len() - (j + 2) {
                                let start = j + 2;
                                let body = copy_range(buf, start, start + n);
                                let ghost oldframes = frames.deep_view();
                                frames.push(body);
                                proof {
                                    assert(scan_from(buf@, consumed as int, None)
                                        == (FrameStep::Frame { start: start as int, len: n as int }));
                                    assert(scan_from(rest, 0, None) == (FrameStep::Frame {
                                        start: start - consumed,
                                        len: n as int,
                                    }));
                                    assert(rest.subrange(start - consumed, start - consumed + n)
                                        =~= buf@.subrange(start as int, start + n));
                                    assert(rest.skip(start - consumed + n) =~= buf@.skip(start + n));
                                    assert(body.deep_view() =~= body@);
                                    assert(frames.deep_view() =~= oldframes.push(body@));
                                    match parse_frames(buf@.skip(start + n)) {
                                        ParseResult::Malformed => {},
                                        ParseResult::Frames { frames: fr, consumed: cr } => {
                                            assert(parse_frames(rest) == (ParseResult::Frames {
                                                frames: seq![body@] + fr,
                                                consumed: (start - consumed) + n + cr,
                                            }));
                                            assert(oldframes + (seq![body@] + fr)
                                                =~= oldframes.push(body@) + fr);
                                        },
                                    }
                                }
                                consumed = start + n;
                                pos = consumed;
                                cur = None;
                            } else {
                                proof {
                                    assert(scan_from(buf@, consumed as int, None) is Incomplete);
                                    assert(scan_from(rest, 0, None) is Incomplete);
                                    assert(parse_frames(rest) == (ParseResult::Frames {
                                        frames: Seq::<Seq<u8>>::empty(),
                                        consumed: 0,
                                    }));
                                    assert(frames.deep_view() + Seq::<Seq<u8>>::empty()
                                        =~= frames.deep_view());
                                }
                                return Some(FrameBatch { frames, consumed });
                            }
                        },
                    }
                } else {
                    // a header line
                    let ghost line = buf@.subrange(pos as int, j as int);
                    if !line_is_ascii_exec(buf, pos, j) {
                        proof {
                            assert(scan_from(buf@, consumed as int, None) is Malformed);
                            assert(scan_from(rest, 0, None) is Malformed);
                        }
                        return None;
                    }
                    if is_length_header_exec(buf, pos, j) {
                        assert(j - pos > 15);
                        match line_value_exec(buf, pos, j) {
                            Some(n) => {
                                proof {
                                    assert(line_is_ascii(line) && line_is_length_header(line)
                                        && line_value_ok(line));
                                    assert(dec_val(line_value(line)) == n as int);
                                    assert(scan_from(buf@, j + 2, Some(n as int))
                                        == scan_from(buf@, pos as int, opt_int(cur)));
                                }
                                pos = j + 2;
                                cur = Some(n);
                            },
                            None => {
                                proof {
                                    assert(scan_from(buf@, consumed as int, None) is Malformed);
                                    assert(scan_from(rest, 0, None) is Malformed);
                                }
                                return None;
                            },
                        }
                    } else {
                        proof {
                            assert(line_is_ascii(line) && !line_is_length_header(line));
                            assert(scan_from(buf@, j + 2, opt_int(cur))
                                == scan_from(buf@, pos as int, opt_int(cur)));
                        }
                        pos = j + 2;
                    }
                }
            },
        }
    }
}

/// `{"jsonrpc":"2.0","method":"` — the opening of every message object.
pub open spec fn envelope_head() -> Seq<u8> {
    seq![123u8, 34u8, 106u8, 115u8, 111u8, 110u8, 114u8, 112u8, 99u8, 34u8, 58u8, 34u8, 50u8, 46u8, 48u8, 34u8, 44u8, 34u8, 109u8, 101u8, 116u8, 104u8, 111u8, 100u8, 34u8, 58u8, 34u8]
}

/// `","id":` — closes the method string and opens the id member.
pub open spec fn id_sep() -> Seq<u8> {
    seq![34u8, 44u8, 34u8, 105u8, 100u8, 34u8, 58u8]
}

/// `,"params":` — opens the params member after a numeric id.
pub open spec fn params_sep() -> Seq<u8> {
    seq![44u8, 34u8, 112u8, 97u8, 114u8, 97u8, 109u8, 115u8, 34u8, 58u8]
}

/// `","params":` — closes the method string and opens the params member
/// when the message carries no id.
pub open spec fn params_sep_no_id() -> Seq<u8> {
    seq![34u8, 44u8, 34u8, 112u8, 97u8, 114u8, 97u8, 109u8, 115u8, 34u8, 58u8]
}

/// A method name that can stand inside a JSON string as it is: printable
/// ASCII with no quote and no backslash.
pub open spec fn plain_method(m: Seq<u8>) -> bool {
    forall|i: int| 0 <= i < m.len() ==> 32 <= (#[trigger] m[i]) < 127 && m[i] != 34 && m[i] != 92
}

/// The serialized JSON-RPC message object: version, method, the id for a
/// request and none for a notification, and the caller's params value.
pub open spec fn json_envelope(method: Seq<u8>, id: Option<int>, params: Seq<u8>) -> Seq<u8> {
    match id {
        Some(n) => envelope_head() + method + id_sep() + dec_digits_of(n) + params_sep() + params
            + seq![125u8],
        None => envelope_head() + method + params_sep_no_id() + params + seq![125u8],
    }
}

/// Serializes one JSON-RPC message and frames it.
pub fn encode_message(method: &Vec<u8>, id: Option<u64>, params: &Vec<u8>) -> (r: Vec<u8>)
    requires
        plain_method(method@),
    ensures
        r@ == frame_bytes(json_envelope(method@, match id {
            Some(n) => Some(n as int),
            None => None,
        }, params@)),
{
    let mut body: Vec<u8> = Vec::new();
    body.push(123);
    body.push(34);
    body.push(106);
    body.push(115);
    body.push(111);
    body.push(110);
    body.push(114);
    body.push(112);
    body.push(99);
    body.push(34);
    body.push(58);
    body.push(34);
    body.push(50);
    body.push(46);
    body.push(48);
    body.push(34);
    body.push(44);
    body.push(34);
    body.push(109);
    body.push(101);
    body.push(116);
    body.push(104);
    body.push(111);
    body.push(100);
    body.push(34);
    body.push(58);
    body.push(34);
    assert(body@ =~= envelope_head());
    body.extend_from_slice(method.as_slice());
    match id {
        Some(n) => {
            let ghost mid = body@;
            body.push(34);
            body.push(44);
            body.push(34);
            body.push(105);
            body.push(100);
            body.push(34);
            body.push(58);
            assert(body@ =~= mid + id_sep());
            let mut digits = dec_digits_u64(n);
            body.append(&mut digits);
            let ghost mid2 = body@;
            body.push(44);
            body.push(34);
            body.push(112);
            body.push(97);
            body.push(114);
            body.push(97);
            body.push(109);
            body.push(115);
            body.push(34);
            body.push(58);
            assert(body@ =~= mid2 + params_sep());
        },
        None => {
            let ghost mid = body@;
            body.push(34);
            body.push(44);
            body.push(34);
            body.push(112);
            body.push(97);
            body.push(114);
            body.push(97);
            body.push(109);
            body.push(115);
            body.push(34);
            body.push(58);
            assert(body@ =~= mid + params_sep_no_id());
        },
    }
    body.extend_from_slice(params.as_slice());
    body.push(125);
    assert(body@ =~= json_envelope(method@, match id {
        Some(n) => Some(n as int),
        None => None,
    }, params@));
    encode_frame(&body)
}

/// Writes the decimal digits of `n`.
pub(crate) fn dec_digits_u64(n: u64) -> (r: Vec<u8>)
    ensures
        r@ == dec_digits_of(n as int),
    decreases n,
{
    if n < 10 {
        let mut v: Vec<u8> = Vec::new();
        v.push((48 + n) as u8);
        assert(v@ =~= dec_digits_of(n as int));
        v
    } else {
        let mut v = dec_digits_u64(n / 10);
        v.push((48 + (n % 10)) as u8);
        assert(v@ =~= dec_digits_of(n as int));
        v
    }
}

} // verus!
