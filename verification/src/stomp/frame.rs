//! STOMP 1.2 frames: commands, header escaping, and the wire format.
use vstd::prelude::*;
use vstd::utf8::*;

use crate::text::{
    is_whitespace, lemma_encode_utf8_ascii_absent, lemma_encode_utf8_ascii_char,
    lemma_encode_utf8_concat, lemma_first_index_at, trim_end, trim_start, chars_of, find_byte, find_char, first_index, lemma_first_index, parse_usize, parse_usize_spec, push_char,
    push_str, str_eq, str_from_utf8, string_from_chars, trim, trim_bounds, decimal,
};

verus! {

broadcast use vstd::seq_lib::group_seq_properties;

/// The commands a STOMP frame may carry.
#[derive(Debug, Clone, Copy, PartialEq, Eq, Structural)]
pub enum StompCommand {
    Connect,
    Stomp,
    Send,
    Subscribe,
    Unsubscribe,
    Ack,
    Nack,
    Begin,
    Commit,
    Abort,
    Disconnect,
    Connected,
    Message,
    Receipt,
    Error,
}

/// The name of a command on the wire.
pub open spec fn command_name(c: StompCommand) -> Seq<char> {
    match c {
        StompCommand::Connect => "CONNECT"@,
        StompCommand::Stomp => "STOMP"@,
        StompCommand::Send => "SEND"@,
        StompCommand::Subscribe => "SUBSCRIBE"@,
        StompCommand::Unsubscribe => "UNSUBSCRIBE"@,
        StompCommand::Ack => "ACK"@,
        StompCommand::Nack => "NACK"@,
        StompCommand::Begin => "BEGIN"@,
        StompCommand::Commit => "COMMIT"@,
        StompCommand::Abort => "ABORT"@,
        StompCommand::Disconnect => "DISCONNECT"@,
        StompCommand::Connected => "CONNECTED"@,
        StompCommand::Message => "MESSAGE"@,
        StompCommand::Receipt => "RECEIPT"@,
        StompCommand::Error => "ERROR"@,
    }
}

/// The commands a client may send (the ones a server reads back).
pub open spec fn is_client_command(c: StompCommand) -> bool {
    !(c is Connected || c is Message || c is Receipt || c is Error)
}

/// The client command with the given name, if any.
pub open spec fn command_from_name(s: Seq<char>) -> Option<StompCommand> {
    if s == "CONNECT"@ {
        Some(StompCommand::Connect)
    } else if s == "STOMP"@ {
        Some(StompCommand::Stomp)
    } else if s == "SEND"@ {
        Some(StompCommand::Send)
    } else if s == "SUBSCRIBE"@ {
        Some(StompCommand::Subscribe)
    } else if s == "UNSUBSCRIBE"@ {
        Some(StompCommand::Unsubscribe)
    } else if s == "ACK"@ {
        Some(StompCommand::Ack)
    } else if s == "NACK"@ {
        Some(StompCommand::Nack)
    } else if s == "BEGIN"@ {
        Some(StompCommand::Begin)
    } else if s == "COMMIT"@ {
        Some(StompCommand::Commit)
    } else if s == "ABORT"@ {
        Some(StompCommand::Abort)
    } else if s == "DISCONNECT"@ {
        Some(StompCommand::Disconnect)
    } else {
        None
    }
}

impl StompCommand {
    /// The command's name on the wire.
    pub fn as_str(self) -> (r: &'static str)
        ensures
            r@ == command_name(self),
    {
        match self {
            StompCommand::Connect => "CONNECT",
            StompCommand::Stomp => "STOMP",
            StompCommand::Send => "SEND",
            StompCommand::Subscribe => "SUBSCRIBE",
            StompCommand::Unsubscribe => "UNSUBSCRIBE",
            StompCommand::Ack => "ACK",
            StompCommand::Nack => "NACK",
            StompCommand::Begin => "BEGIN",
            StompCommand::Commit => "COMMIT",
            StompCommand::Abort => "ABORT",
            StompCommand::Disconnect => "DISCONNECT",
            StompCommand::Connected => "CONNECTED",
            StompCommand::Message => "MESSAGE",
            StompCommand::Receipt => "RECEIPT",
            StompCommand::Error => "ERROR",
        }
    }

    /// The client command named `s`; server-only commands and unknown
    /// names give `None`.
    pub fn parse(s: &str) -> (r: Option<Self>)
        ensures
            r == command_from_name(s@),
    {
        if str_eq(s, "CONNECT") {
            Some(StompCommand::Connect)
        } else if str_eq(s, "STOMP") {
            Some(StompCommand::Stomp)
        } else if str_eq(s, "SEND") {
            Some(StompCommand::Send)
        } else if str_eq(s, "SUBSCRIBE") {
            Some(StompCommand::Subscribe)
        } else if str_eq(s, "UNSUBSCRIBE") {
            Some(StompCommand::Unsubscribe)
        } else if str_eq(s, "ACK") {
            Some(StompCommand::Ack)
        } else if str_eq(s, "NACK") {
            Some(StompCommand::Nack)
        } else if str_eq(s, "BEGIN") {
            Some(StompCommand::Begin)
        } else if str_eq(s, "COMMIT") {
            Some(StompCommand::Commit)
        } else if str_eq(s, "ABORT") {
            Some(StompCommand::Abort)
        } else if str_eq(s, "DISCONNECT") {
            Some(StompCommand::Disconnect)
        } else {
            None
        }
    }
}

// ---------------------------------------------------------------------------
// Header escaping (STOMP 1.2: `\\`, `\r`, `\n` and `:` are escaped)

/// The escaped form of one character.
pub open spec fn escape_char(c: char) -> Seq<char> {
    if c == '\\' {
        seq!['\\', '\\']
    } else if c == '\r' {
        seq!['\\', 'r']
    } else if c == '\n' {
        seq!['\\', 'n']
    } else if c == ':' {
        seq!['\\', 'c']
    } else {
        seq![c]
    }
}

/// The escaped form of a header name or value.
pub open spec fn encode_header_spec(s: Seq<char>) -> Seq<char>
    decreases s.len(),
{
    if s.len() == 0 {
        seq![]
    } else {
        encode_header_spec(s.drop_last()) + escape_char(s.last())
    }
}

/// What follows a backslash decodes to.
pub open spec fn unescape_char(c: char) -> Seq<char> {
    if c == 'n' {
        seq!['\n']
    } else if c == 'r' {
        seq!['\r']
    } else if c == 'c' {
        seq![':']
    } else if c == '\\' {
        seq!['\\']
    } else {
        seq!['\\', c]
    }
}

/// The decoded form of an escaped header name or value. Unknown escapes
/// and a trailing lone backslash are kept as they are.
pub open spec fn decode_header_spec(s: Seq<char>) -> Seq<char>
    decreases s.len(),
{
    if s.len() == 0 {
        seq![]
    } else if s[0] == '\\' {
        if s.len() == 1 {
            seq!['\\']
        } else {
            unescape_char(s[1]) + decode_header_spec(s.skip(2))
        }
    } else {
        seq![s[0]] + decode_header_spec(s.drop_first())
    }
}

fn escape_into(out: &mut String, c: char)
    ensures
        final(out)@ == old(out)@ + escape_char(c),
{
    if c == '\\' {
        push_char(out, '\\');
        push_char(out, '\\');
    } else if c == '\r' {
        push_char(out, '\\');
        push_char(out, 'r');
    } else if c == '\n' {
        push_char(out, '\\');
        push_char(out, 'n');
    } else if c == ':' {
        push_char(out, '\\');
        push_char(out, 'c');
    } else {
        push_char(out, c);
    }
    assert(final(out)@ =~= old(out)@ + escape_char(c));
}

/// Escapes a header name or value for the wire.
pub fn encode_header(s: &str) -> (r: String)
    ensures
        r@ == encode_header_spec(s@),
{
    let cs = chars_of(s);
    let mut out = String::new();
    let mut i: usize = 0;
    while i < cs.len()
        invariant
            cs@ == s@,
            i <= cs@.len(),
            out@ == encode_header_spec(cs@.take(i as int)),
        decreases cs.len() - i,
    {
        proof {
            let t = cs@.take(i + 1);
            assert(t.drop_last() =~= cs@.take(i as int));
            assert(t.last() == cs@[i as int]);
        }
        escape_into(&mut out, cs[i]);
        i += 1;
    }
    assert(cs@.take(cs@.len() as int) =~= s@);
    out
}

fn unescape_into(out: &mut String, c: char)
    ensures
        final(out)@ == old(out)@ + unescape_char(c),
{
    if c == 'n' {
        push_char(out, '\n');
    } else if c == 'r' {
        push_char(out, '\r');
    } else if c == 'c' {
        push_char(out, ':');
    } else if c == '\\' {
        push_char(out, '\\');
    } else {
        push_char(out, '\\');
        push_char(out, c);
    }
    assert(final(out)@ =~= old(out)@ + unescape_char(c));
}

/// Decodes escaped header text: `\n`, `\r`, `\c` and `\\` stand for a
/// newline, a carriage return, a colon and a backslash; any other backslash
/// is kept as it is.
pub fn decode_header(s: &str) -> (r: String)
    ensures
        r@ == decode_header_spec(s@),
{
    let cs = chars_of(s);
    assert(cs@.subrange(0, cs@.len() as int) =~= s@);
    decode_header_range(&cs, 0, cs.len())
}

/// Decodes the escaped header text `cs[from..to]`.
fn decode_header_range(cs: &[char], from: usize, to: usize) -> (r: String)
    requires
        from <= to <= cs@.len(),
    ensures
        r@ == decode_header_spec(cs@.subrange(from as int, to as int)),
{
    let ghost s = cs@.subrange(from as int, to as int);
    let mut out = String::new();
    let mut i = from;
    while i < to
        invariant
            from <= i <= to <= cs@.len(),
            s == cs@.subrange(from as int, to as int),
            decode_header_spec(s) == out@ + decode_header_spec(cs@.subrange(i as int, to as int)),
        decreases to - i,
    {
        let ghost rest = cs@.subrange(i as int, to as int);
        let c = cs[i];
        if c == '\\' {
            if i + 1 < to {
                let ghost tail = cs@.subrange(i + 2, to as int);
                assert(rest.skip(2) =~= tail);
                unescape_into(&mut out, cs[i + 1]);
                i += 2;
            } else {
                push_char(&mut out, '\\');
                i += 1;
                assert(cs@.subrange(i as int, to as int) =~= Seq::<char>::empty());
            }
        } else {
            assert(rest.drop_first() =~= cs@.subrange(i + 1, to as int));
            push_char(&mut out, c);
            i += 1;
        }
    }
    assert(cs@.subrange(i as int, to as int) =~= Seq::<char>::empty());
    assert(out@ + Seq::<char>::empty() =~= out@);
    out
}

// ---------------------------------------------------------------------------
// Frames

/// A STOMP frame: a command, an ordered list of headers, and a body.
#[derive(Debug, Clone)]
pub struct StompFrame {
    pub command: StompCommand,
    pub headers: Vec<(String, String)>,
    pub body: Vec<u8>,
}

/// The mathematical content of a frame.
pub struct FrameView {
    pub command: StompCommand,
    pub headers: Seq<(Seq<char>, Seq<char>)>,
    pub body: Seq<u8>,
}

pub open spec fn headers_view(hs: Seq<(String, String)>) -> Seq<(Seq<char>, Seq<char>)> {
    hs.map_values(|h: (String, String)| (h.0@, h.1@))
}

impl View for StompFrame {
    type V = FrameView;

    open spec fn view(&self) -> FrameView {
        FrameView { command: self.command, headers: headers_view(self.headers@), body: self.body@ }
    }
}

/// The value of the first header named `key`.
pub open spec fn find_header(hs: Seq<(Seq<char>, Seq<char>)>, key: Seq<char>) -> Option<Seq<char>>
    decreases hs.len(),
{
    if hs.len() == 0 {
        None
    } else if hs[0].0 == key {
        Some(hs[0].1)
    } else {
        find_header(hs.drop_first(), key)
    }
}

proof fn lemma_find_header_at(hs: Seq<(Seq<char>, Seq<char>)>, key: Seq<char>, i: int)
    requires
        0 <= i <= hs.len(),
        forall|j: int| 0 <= j < i ==> hs[j].0 != key,
        i < hs.len() ==> hs[i].0 == key,
    ensures
        find_header(hs, key) == if i < hs.len() { Some(hs[i].1) } else { None::<Seq<char>> },
    decreases i,
{
    if i > 0 {
        assert forall|j: int| 0 <= j < i - 1 implies hs.drop_first()[j].0 != key by {
            assert(hs.drop_first()[j] == hs[j + 1]);
        }
        lemma_find_header_at(hs.drop_first(), key, i - 1);
    }
}

/// A frame's error: a human-readable description of what was wrong.
#[derive(Debug)]
pub struct FrameParseError(pub String);

/// What a connection's outgoing channel carries: a full frame, or a bare
/// heartbeat (a lone end-of-line, which is not a frame at all).
pub enum OutgoingItem {
    Frame(StompFrame),
    Heartbeat,
}

// ---------------------------------------------------------------------------
// The wire format

/// The bytes of one header line: `name:value` escaped, then an end-of-line.
pub open spec fn header_line_bytes(h: (Seq<char>, Seq<char>)) -> Seq<u8> {
    encode_utf8(encode_header_spec(h.0)) + seq![58u8] + encode_utf8(encode_header_spec(h.1))
        + seq![10u8]
}

/// The bytes of a header block, one line per header in order.
pub open spec fn headers_bytes(hs: Seq<(Seq<char>, Seq<char>)>) -> Seq<u8>
    decreases hs.len(),
{
    if hs.len() == 0 {
        seq![]
    } else {
        headers_bytes(hs.drop_last()) + header_line_bytes(hs.last())
    }
}

/// A frame on the wire: command line, header lines, blank line, body, NUL.
pub open spec fn serialize_spec(f: FrameView) -> Seq<u8> {
    encode_utf8(command_name(f.command)) + seq![10u8] + headers_bytes(f.headers) + seq![10u8]
        + f.body + seq![0u8]
}

/// How many end-of-line bytes `raw` starts with.
pub open spec fn leading_eol_count(raw: Seq<u8>) -> nat
    decreases raw.len(),
{
    if raw.len() > 0 && (raw[0] == 10 || raw[0] == 13) {
        1 + leading_eol_count(raw.drop_first())
    } else {
        0
    }
}

/// The name and value of a header line: the text around its first `:`.
pub open spec fn split_header_line(line: Seq<char>) -> Option<(Seq<char>, Seq<char>)> {
    match first_index(line, ':') {
        Some(i) => Some((line.take(i), line.skip(i + 1))),
        None => None,
    }
}

/// The headers contributed by one header line (lines without `:` contribute none).
pub open spec fn line_headers(line: Seq<char>) -> Seq<(Seq<char>, Seq<char>)> {
    match split_header_line(line) {
        Some((k, v)) => seq![(decode_header_spec(k), decode_header_spec(v))],
        None => seq![],
    }
}

/// Where a line's content ends: before its `\n`, and before a `\r` preceding it.
pub open spec fn content_end(rest: Seq<u8>, line_end: int) -> int {
    if line_end > 0 && rest[line_end - 1] == 13 {
        line_end - 1
    } else {
        line_end
    }
}

/// Reads header lines up to the blank line: the headers, and the bytes after
/// the blank line; or the description of the first problem.
pub open spec fn parse_header_lines(rest: Seq<u8>) -> Result<
    (Seq<(Seq<char>, Seq<char>)>, Seq<u8>),
    Seq<char>,
>
    decreases rest.len(),
{
    match first_index(rest, 10u8) {
        None => Err("missing header/body separator"@),
        Some(le) => {
            proof { lemma_first_index(rest, 10u8); }
            let ce = content_end(rest, le);
            if ce == 0 {
                Ok((seq![], rest.skip(le + 1)))
            } else if !valid_utf8(rest.take(ce)) {
                Err("non-utf8 header"@)
            } else {
                match parse_header_lines(rest.skip(le + 1)) {
                    Err(e) => Err(e),
                    Ok((hs, body)) => Ok((line_headers(decode_utf8(rest.take(ce))) + hs, body)),
                }
            }
        },
    }
}

/// The body length a header block announces, if any.
pub open spec fn content_length(hs: Seq<(Seq<char>, Seq<char>)>) -> Option<usize> {
    match find_header(hs, "content-length"@) {
        Some(v) => parse_usize_spec(v),
        None => None,
    }
}

/// The body read from the bytes after the blank line: as many bytes as
/// announced when that many are there, else everything up to the first NUL.
pub open spec fn body_of(hs: Seq<(Seq<char>, Seq<char>)>, rest: Seq<u8>) -> Seq<u8> {
    match content_length(hs) {
        Some(len) if len <= rest.len() => rest.take(len as int),
        _ => match first_index(rest, 0u8) {
            Some(n) => rest.take(n),
            None => rest,
        },
    }
}

/// Reads the command line: the command, and where the header lines start;
/// or the description of the problem.
pub open spec fn command_line_spec(raw: Seq<u8>) -> Result<(StompCommand, int), Seq<char>> {
    let start = leading_eol_count(raw) as int;
    let r = raw.skip(start);
    match first_index(r, 10u8) {
        None => Err("missing command line"@),
        Some(nl) => {
            if !valid_utf8(r.take(nl)) {
                Err("non-utf8 command"@)
            } else {
                let name = trim(decode_utf8(r.take(nl)));
                match command_from_name(name) {
                    None => Err("unknown command '"@ + name + "'"@),
                    Some(command) => Ok((command, start + nl + 1)),
                }
            }
        },
    }
}

/// How a frame's bytes (without the trailing NUL) are read.
pub open spec fn parse_spec(raw: Seq<u8>) -> Result<FrameView, Seq<char>> {
    match command_line_spec(raw) {
        Err(e) => Err(e),
        Ok((command, h)) => match parse_header_lines(raw.skip(h)) {
            Err(e) => Err(e),
            Ok((headers, rest)) => Ok(FrameView { command, headers, body: body_of(headers, rest) }),
        },
    }
}

/// The view of a parse outcome.
pub open spec fn parse_result_view(r: Result<StompFrame, FrameParseError>) -> Result<
    FrameView,
    Seq<char>,
> {
    match r {
        Ok(f) => Ok(f@),
        Err(e) => Err(e.0@),
    }
}

fn error_of(msg: &str) -> (r: FrameParseError)
    ensures
        r.0@ == msg@,
{
    FrameParseError(msg.to_owned())
}

/// The header a line's characters hold, if it has a `:`.
fn read_header_line(lc: &Vec<char>) -> (r: Option<(String, String)>)
    ensures
        line_headers(lc@) == match r {
            Some(h) => seq![(h.0@, h.1@)],
            None => Seq::<(Seq<char>, Seq<char>)>::empty(),
        },
{
    assert(lc@.subrange(0, lc@.len() as int) =~= lc@);
    match find_char(lc, 0, lc.len(), ':') {
        Some(colon) => {
            assert(lc@.subrange(0, colon as int) =~= lc@.take(colon as int));
            assert(lc@.subrange(colon + 1, lc@.len() as int) =~= lc@.skip(colon + 1));
            let k = decode_header_range(lc, 0, colon);
            let v = decode_header_range(lc, colon + 1, lc.len());
            assert(split_header_line(lc@) == Some((lc@.take(colon as int), lc@.skip(colon + 1))));
            assert(line_headers(lc@) =~= seq![(k@, v@)]);
            Some((k, v))
        },
        None => None,
    }
}

impl StompFrame {
    /// A frame with the given command, no headers and an empty body.
    pub fn new(command: StompCommand) -> (r: Self)
        ensures
            r@.command == command,
            r@.headers == Seq::<(Seq<char>, Seq<char>)>::empty(),
            r@.body == Seq::<u8>::empty(),
    {
        let r = StompFrame { command, headers: Vec::new(), body: Vec::new() };
        assert(r@.headers =~= Seq::<(Seq<char>, Seq<char>)>::empty());
        r
    }

    /// The frame with one more header, `k:v`, at the end.
    pub fn header(self, k: &str, v: &str) -> (r: Self)
        ensures
            r@.command == self@.command,
            r@.headers == self@.headers.push((k@, v@)),
            r@.body == self@.body,
    {
        let mut f = self;
        let ghost before = f.headers@;
        f.headers.push((k.to_owned(), v.to_owned()));
        assert(headers_view(f.headers@) =~= headers_view(before).push((k@, v@)));
        f
    }

    /// The value of the first header named `key`.
    pub fn get(&self, key: &str) -> (r: Option<&str>)
        ensures
            match find_header(self@.headers, key@) {
                Some(v) => r matches Some(s) && s@ == v,
                None => r is None,
            },
    {
        let mut i: usize = 0;
        while i < self.headers.len()
            invariant
                i <= self.headers@.len(),
                forall|j: int| 0 <= j < i ==> headers_view(self.headers@)[j].0 != key@,
            decreases self.headers.len() - i,
        {
            if str_eq(self.headers[i].0.as_str(), key) {
                proof { lemma_find_header_at(self@.headers, key@, i as int); }
                return Some(self.headers[i].1.as_str());
            }
            i += 1;
        }
        proof { lemma_find_header_at(self@.headers, key@, self@.headers.len() as int); }
        None
    }

    /// The frame on the wire, including the trailing NUL.
    pub fn serialize(&self) -> (r: Vec<u8>)
        ensures
            r@ == serialize_spec(self@),
    {
        let mut out: Vec<u8> = Vec::new();
        out.extend_from_slice(self.command.as_str().as_bytes());
        out.push(10u8);
        let ghost prefix = out@;
        let mut i: usize = 0;
        while i < self.headers.len()
            invariant
                i <= self.headers@.len(),
                out@ == prefix + headers_bytes(self@.headers.take(i as int)),
            decreases self.headers.len() - i,
        {
            let ghost before = out@;
            let k = encode_header(self.headers[i].0.as_str());
            let v = encode_header(self.headers[i].1.as_str());
            out.extend_from_slice(k.as_str().as_bytes());
            out.push(58u8);
            out.extend_from_slice(v.as_str().as_bytes());
            out.push(10u8);
            proof {
                let t = self@.headers.take(i + 1);
                assert(t.drop_last() =~= self@.headers.take(i as int));
                assert(t.last() == self@.headers[i as int]);
                assert(out@ =~= before + header_line_bytes(self@.headers[i as int]));
            }
            i += 1;
        }
        assert(self@.headers.take(self@.headers.len() as int) =~= self@.headers);
        out.push(10u8);
        out.extend_from_slice(self.body.as_slice());
        out.push(0u8);
        assert(out@ =~= serialize_spec(self@));
        out
    }

    /// Reads one frame from its bytes (without the trailing NUL). Leading
    /// end-of-line bytes are skipped; lines may end in `\n` or `\r\n`.
    pub fn parse(raw: &[u8]) -> (r: Result<Self, FrameParseError>)
        ensures
            parse_result_view(r) == parse_spec(raw@),
            r matches Ok(f) ==> is_client_command(f.command),
    {
        let (command, idx0) = match read_command_line(raw) {
            Ok(p) => p,
            Err(e) => {
                return Err(e);
            },
        };
        let (headers, idx) = match read_header_lines(raw, idx0) {
            Ok(p) => p,
            Err(e) => {
                return Err(e);
            },
        };
        let len = read_content_length(&headers);
        let ghost rest = raw@.skip(idx as int);
        assert(raw@.subrange(idx as int, raw@.len() as int) =~= rest);
        let body_end = match len {
            Some(n) if n <= raw.len() - idx => idx + n,
            _ => match find_byte(raw, idx, raw.len(), 0u8) {
                Some(p) => idx + p,
                None => raw.len(),
            },
        };
        let body = vstd::slice::slice_to_vec(vstd::slice::slice_subrange(raw, idx, body_end));
        let frame = StompFrame { command, headers, body };
        assert(frame@.body =~= body_of(frame@.headers, rest));
        Ok(frame)
    }
}

/// `raw` without the end-of-line bytes it starts with.
fn trim_leading_eol(raw: &[u8]) -> (r: &[u8])
    ensures
        leading_eol_count(raw@) <= raw@.len(),
        r@ == raw@.skip(leading_eol_count(raw@) as int),
        leading_eol_count(r@) == 0,
{
    let mut i: usize = 0;
    while i < raw.len() && (raw[i] == 10u8 || raw[i] == 13u8)
        invariant
            i <= raw@.len(),
            leading_eol_count(raw@) == i + leading_eol_count(raw@.skip(i as int)),
        decreases raw.len() - i,
    {
        assert(raw@.skip(i as int).drop_first() =~= raw@.skip(i + 1));
        i += 1;
    }
    assert(raw@.subrange(i as int, raw@.len() as int) =~= raw@.skip(i as int));
    vstd::slice::slice_subrange(raw, i, raw.len())
}

/// Reads the command line of `raw`.
fn read_command_line(raw: &[u8]) -> (r: Result<(StompCommand, usize), FrameParseError>)
    ensures
        match command_line_spec(raw@) {
            Ok((c, h)) => r matches Ok((c2, h2)) && c2 == c && h2 == h && h <= raw@.len(),
            Err(e) => r matches Err(e2) && e2.0@ == e,
        },
{
    let trimmed = trim_leading_eol(raw);
    let start = raw.len() - trimmed.len();
    let ghost r = raw@.skip(start as int);
    assert(raw@.subrange(start as int, raw@.len() as int) =~= r);
    let nl = match find_byte(raw, start, raw.len(), 10u8) {
        Some(nl) => nl,
        None => {
            return Err(error_of("missing command line"));
        },
    };
    assert(raw@.subrange(start as int, start + nl) =~= r.take(nl as int));
    let command_text = match str_from_utf8(vstd::slice::slice_subrange(raw, start, start + nl)) {
        Some(t) => t,
        None => {
            return Err(error_of("non-utf8 command"));
        },
    };
    let cs = chars_of(command_text);
    let (a, b) = trim_bounds(&cs, 0, cs.len());
    assert(cs@.subrange(0, cs@.len() as int) =~= cs@);
    let name = string_from_chars(&cs, a, b);
    match StompCommand::parse(name.as_str()) {
        Some(c) => Ok((c, start + nl + 1)),
        None => {
            let mut msg = String::new();
            push_str(&mut msg, "unknown command '");
            push_str(&mut msg, name.as_str());
            push_str(&mut msg, "'");
            assert(msg@ =~= "unknown command '"@ + name@ + "'"@);
            Err(FrameParseError(msg))
        },
    }
}

/// Reads the header lines of `raw` that start at `idx`.
#[verifier::rlimit(60)]
#[verifier::spinoff_prover]
fn read_header_lines(raw: &[u8], idx0: usize) -> (r: Result<(Vec<(String, String)>, usize), FrameParseError>)
    requires
        idx0 <= raw@.len(),
    ensures
        match parse_header_lines(raw@.skip(idx0 as int)) {
            Ok((hs, rest)) => r matches Ok((hs2, i)) && headers_view(hs2@) == hs && i <= raw@.len()
                && rest == raw@.skip(i as int),
            Err(e) => r matches Err(e2) && e2.0@ == e,
        },
{
    let ghost header_start = raw@.skip(idx0 as int);
    let mut idx = idx0;
    let mut headers: Vec<(String, String)> = Vec::new();
    loop
        invariant_except_break
            idx0 <= idx <= raw@.len(),
            header_start == raw@.skip(idx0 as int),
            parse_header_lines(header_start) == match parse_header_lines(raw@.skip(idx as int)) {
                Err(e) => Err(e),
                Ok((hs, body)) => Ok((headers_view(headers@) + hs, body)),
            },
        ensures
            idx <= raw@.len(),
            parse_header_lines(header_start) == Ok::<_, Seq<char>>(
                (headers_view(headers@), raw@.skip(idx as int)),
            ),
        decreases raw.len() - idx,
    {
        let ghost rest = raw@.skip(idx as int);
        assert(raw@.subrange(idx as int, raw@.len() as int) =~= rest);
        let line_end = match find_byte(raw, idx, raw.len(), 10u8) {
            Some(le) => le,
            None => {
                return Err(error_of("missing header/body separator"));
            },
        };
        let mut ce = line_end;
        if ce > 0 && raw[idx + ce - 1] == 13u8 {
            ce -= 1;
        }
        assert(ce == content_end(rest, line_end as int));
        if ce == 0 {
            idx += line_end + 1;
            assert(raw@.skip(idx as int) =~= rest.skip(line_end + 1));
            assert(headers_view(headers@) + Seq::<(Seq<char>, Seq<char>)>::empty() =~= headers_view(
                headers@,
            ));
            break;
        }
        assert(raw@.subrange(idx as int, idx + ce) =~= rest.take(ce as int));
        let line = match str_from_utf8(vstd::slice::slice_subrange(raw, idx, idx + ce)) {
            Some(t) => t,
            None => {
                return Err(error_of("non-utf8 header"));
            },
        };
        let lc = chars_of(line);
        let ghost before = headers@;
        match read_header_line(&lc) {
            Some(h) => {
                headers.push(h);
            },
            None => {},
        }
        assert(headers_view(headers@) =~= headers_view(before) + line_headers(lc@));
        idx += line_end + 1;
        assert(raw@.skip(idx as int) =~= rest.skip(line_end + 1));
        proof {
            let hv = headers_view(before);
            let lh = line_headers(lc@);
            match parse_header_lines(raw@.skip(idx as int)) {
                Err(e) => {},
                Ok((hs, body)) => {
                    assert(hv + (lh + hs) =~= (hv + lh) + hs);
                },
            }
        }
    }
    Ok((headers, idx))
}

/// The body length the headers announce.
fn read_content_length(headers: &Vec<(String, String)>) -> (r: Option<usize>)
    ensures
        r == content_length(headers_view(headers@)),
{
    let mut i: usize = 0;
    while i < headers.len()
        invariant
            i <= headers@.len(),
            forall|j: int| 0 <= j < i ==> headers_view(headers@)[j].0 != "content-length"@,
        decreases headers.len() - i,
    {
        if str_eq(headers[i].0.as_str(), "content-length") {
            proof { lemma_find_header_at(headers_view(headers@), "content-length"@, i as int); }
            let vc = chars_of(headers[i].1.as_str());
            assert(vc@.subrange(0, vc@.len() as int) =~= vc@);
            return parse_usize(&vc, 0, vc.len());
        }
        i += 1;
    }
    proof { lemma_find_header_at(headers_view(headers@), "content-length"@, i as int); }
    None
}

// ---------------------------------------------------------------------------
// Reading back what was written

/// Facts about the command names: non-empty, upper-case ASCII letters, and
/// each client command is read back from its own name.
pub proof fn lemma_command_name(c: StompCommand)
    ensures
        command_name(c).len() > 0,
        forall|i: int| 0 <= i < command_name(c).len() ==> 'A' <= #[trigger] command_name(c)[i] <= 'Z',
        is_client_command(c) ==> command_from_name(command_name(c)) == Some(c),
{
    reveal_strlit("CONNECT");
    reveal_strlit("STOMP");
    reveal_strlit("SEND");
    reveal_strlit("SUBSCRIBE");
    reveal_strlit("UNSUBSCRIBE");
    reveal_strlit("ACK");
    reveal_strlit("NACK");
    reveal_strlit("BEGIN");
    reveal_strlit("COMMIT");
    reveal_strlit("ABORT");
    reveal_strlit("DISCONNECT");
    reveal_strlit("CONNECTED");
    reveal_strlit("MESSAGE");
    reveal_strlit("RECEIPT");
    reveal_strlit("ERROR");
    match c {
        StompCommand::Connect => {

        },
        StompCommand::Stomp => {
            assert("STOMP"@.len() != "CONNECT"@.len());
        },
        StompCommand::Send => {
            assert("SEND"@.len() != "CONNECT"@.len());
            assert("SEND"@.len() != "STOMP"@.len());
        },
        StompCommand::Subscribe => {
            assert("SUBSCRIBE"@.len() != "CONNECT"@.len());
            assert("SUBSCRIBE"@.len() != "STOMP"@.len());
            assert("SUBSCRIBE"@.len() != "SEND"@.len());
        },
        StompCommand::Unsubscribe => {
            assert("UNSUBSCRIBE"@.len() != "CONNECT"@.len());
            assert("UNSUBSCRIBE"@.len() != "STOMP"@.len());
            assert("UNSUBSCRIBE"@.len() != "SEND"@.len());
            assert("UNSUBSCRIBE"@.len() != "SUBSCRIBE"@.len());
        },
        StompCommand::Ack => {
            assert("ACK"@.len() != "CONNECT"@.len());
            assert("ACK"@.len() != "STOMP"@.len());
            assert("ACK"@.len() != "SEND"@.len());
            assert("ACK"@.len() != "SUBSCRIBE"@.len());
            assert("ACK"@.len() != "UNSUBSCRIBE"@.len());
        },
        StompCommand::Nack => {
            assert("NACK"@.len() != "CONNECT"@.len());
            assert("NACK"@.len() != "STOMP"@.len());
            assert("NACK"@[0] != "SEND"@[0]);
            assert("NACK"@.len() != "SUBSCRIBE"@.len());
            assert("NACK"@.len() != "UNSUBSCRIBE"@.len());
            assert("NACK"@.len() != "ACK"@.len());
        },
        StompCommand::Begin => {
            assert("BEGIN"@.len() != "CONNECT"@.len());
            assert("BEGIN"@[0] != "STOMP"@[0]);
            assert("BEGIN"@.len() != "SEND"@.len());
            assert("BEGIN"@.len() != "SUBSCRIBE"@.len());
            assert("BEGIN"@.len() != "UNSUBSCRIBE"@.len());
            assert("BEGIN"@.len() != "ACK"@.len());
            assert("BEGIN"@.len() != "NACK"@.len());
        },
        StompCommand::Commit => {
            assert("COMMIT"@.len() != "CONNECT"@.len());
            assert("COMMIT"@.len() != "STOMP"@.len());
            assert("COMMIT"@.len() != "SEND"@.len());
            assert("COMMIT"@.len() != "SUBSCRIBE"@.len());
            assert("COMMIT"@.len() != "UNSUBSCRIBE"@.len());
            assert("COMMIT"@.len() != "ACK"@.len());
            assert("COMMIT"@.len() != "NACK"@.len());
            assert("COMMIT"@.len() != "BEGIN"@.len());
        },
        StompCommand::Abort => {
            assert("ABORT"@.len() != "CONNECT"@.len());
            assert("ABORT"@[0] != "STOMP"@[0]);
            assert("ABORT"@.len() != "SEND"@.len());
            assert("ABORT"@.len() != "SUBSCRIBE"@.len());
            assert("ABORT"@.len() != "UNSUBSCRIBE"@.len());
            assert("ABORT"@.len() != "ACK"@.len());
            assert("ABORT"@.len() != "NACK"@.len());
            assert("ABORT"@[0] != "BEGIN"@[0]);
            assert("ABORT"@.len() != "COMMIT"@.len());
        },
        StompCommand::Disconnect => {
            assert("DISCONNECT"@.len() != "CONNECT"@.len());
            assert("DISCONNECT"@.len() != "STOMP"@.len());
            assert("DISCONNECT"@.len() != "SEND"@.len());
            assert("DISCONNECT"@.len() != "SUBSCRIBE"@.len());
            assert("DISCONNECT"@.len() != "UNSUBSCRIBE"@.len());
            assert("DISCONNECT"@.len() != "ACK"@.len());
            assert("DISCONNECT"@.len() != "NACK"@.len());
            assert("DISCONNECT"@.len() != "BEGIN"@.len());
            assert("DISCONNECT"@.len() != "COMMIT"@.len());
            assert("DISCONNECT"@.len() != "ABORT"@.len());
        },
        _ => {},
    }
}

/// Escaping composes over concatenation.
pub proof fn lemma_encode_header_concat(a: Seq<char>, b: Seq<char>)
    ensures
        encode_header_spec(a + b) == encode_header_spec(a) + encode_header_spec(b),
    decreases b.len(),
{
    if b.len() == 0 {
        assert(a + b =~= a);
        assert(encode_header_spec(a) + encode_header_spec(b) =~= encode_header_spec(a));
    } else {
        assert((a + b).drop_last() =~= a + b.drop_last());
        assert((a + b).last() == b.last());
        lemma_encode_header_concat(a, b.drop_last());
        assert(encode_header_spec(a + b) =~= encode_header_spec(a) + (encode_header_spec(
            b.drop_last(),
        ) + escape_char(b.last())));
    }
}

/// Escaped text holds no end-of-line characters and no `:`.
pub proof fn lemma_encode_header_plain(s: Seq<char>)
    ensures
        forall|i: int|
            0 <= i < encode_header_spec(s).len() ==> {
                let c = #[trigger] encode_header_spec(s)[i];
                c != '\n' && c != '\r' && c != ':'
            },
    decreases s.len(),
{
    if s.len() > 0 {
        lemma_encode_header_plain(s.drop_last());
        let p = encode_header_spec(s.drop_last());
        let e = escape_char(s.last());
        assert forall|i: int| 0 <= i < encode_header_spec(s).len() implies {
            let c = #[trigger] encode_header_spec(s)[i];
            c != '\n' && c != '\r' && c != ':'
        } by {
            if i < p.len() {
                assert(encode_header_spec(s)[i] == p[i]);
            } else {
                assert(encode_header_spec(s)[i] == e[i - p.len()]);
            }
        }
    }
}

/// Decoding undoes escaping.
pub proof fn lemma_decode_encode_header(s: Seq<char>)
    ensures
        decode_header_spec(encode_header_spec(s)) == s,
    decreases s.len(),
{
    if s.len() == 0 {
        assert(encode_header_spec(s) =~= Seq::<char>::empty());
    } else {
        let c = s[0];
        let rest = s.drop_first();
        assert(s =~= seq![c] + rest);
        lemma_encode_header_concat(seq![c], rest);
        assert(seq![c].drop_last() =~= Seq::<char>::empty());
        assert(seq![c].last() == c);
        assert(encode_header_spec(seq![c].drop_last()) =~= Seq::<char>::empty());
        assert(encode_header_spec(seq![c]) =~= escape_char(c));
        let e = encode_header_spec(s);
        let er = encode_header_spec(rest);
        assert(e == escape_char(c) + er);
        lemma_decode_encode_header(rest);
        if c == '\\' || c == '\r' || c == '\n' || c == ':' {
            assert(e.skip(2) =~= er);
            assert(unescape_char(e[1]) =~= seq![c]);
        } else {
            assert(e.drop_first() =~= er);
        }
        assert(decode_header_spec(e) =~= seq![c] + rest);
    }
}

/// Header lines can also be taken from the front.
proof fn lemma_headers_bytes_front(hs: Seq<(Seq<char>, Seq<char>)>)
    requires
        hs.len() > 0,
    ensures
        headers_bytes(hs) == header_line_bytes(hs[0]) + headers_bytes(hs.drop_first()),
    decreases hs.len(),
{
    if hs.len() == 1 {
        assert(hs.drop_last() =~= Seq::<(Seq<char>, Seq<char>)>::empty());
        assert(hs.drop_first() =~= Seq::<(Seq<char>, Seq<char>)>::empty());
        assert(headers_bytes(hs.drop_last()) =~= Seq::<u8>::empty());
        assert(hs.last() == hs[0]);
        assert(headers_bytes(hs) =~= header_line_bytes(hs[0]));
        assert(header_line_bytes(hs[0]) + headers_bytes(hs.drop_first()) =~= header_line_bytes(
            hs[0],
        ));
    } else {
        lemma_headers_bytes_front(hs.drop_last());
        assert(hs.drop_last()[0] == hs[0]);
        assert(hs.drop_last().drop_first() =~= hs.drop_first().drop_last());
        assert(hs.drop_first().last() == hs.last());
        assert(headers_bytes(hs) =~= header_line_bytes(hs[0]) + headers_bytes(hs.drop_first()));
    }
}

/// The content of one header line: its bytes without the end-of-line.
pub open spec fn header_line_content(h: (Seq<char>, Seq<char>)) -> Seq<char> {
    encode_header_spec(h.0) + seq![':'] + encode_header_spec(h.1)
}

proof fn lemma_header_line(h: (Seq<char>, Seq<char>))
    ensures
        header_line_bytes(h) == encode_utf8(header_line_content(h)) + seq![10u8],
        forall|j: int|
            0 <= j < encode_utf8(header_line_content(h)).len() ==> {
                let b = #[trigger] encode_utf8(header_line_content(h))[j];
                b != 10u8 && b != 13u8
            },
        encode_utf8(header_line_content(h)).len() > 0,
        line_headers(header_line_content(h)) == seq![h],
{
    let k = encode_header_spec(h.0);
    let v = encode_header_spec(h.1);
    let line = header_line_content(h);
    lemma_encode_utf8_concat(k, seq![':']);
    lemma_encode_utf8_concat(k + seq![':'], v);
    lemma_encode_utf8_ascii_char(':');
    assert(header_line_bytes(h) =~= encode_utf8(line) + seq![10u8]);
    lemma_encode_header_plain(h.0);
    lemma_encode_header_plain(h.1);
    assert forall|j: int| 0 <= j < line.len() implies line[j] != '\n' && line[j] != '\r' by {
        if j < k.len() {
            assert(line[j] == k[j]);
        } else if j > k.len() {
            assert(line[j] == v[j - k.len() - 1]);
        } else {
            assert(line[j] == ':');
        }
    }
    lemma_encode_utf8_ascii_absent(line, '\n');
    lemma_encode_utf8_ascii_absent(line, '\r');
    assert(('\n' as u32) as u8 == 10u8);
    assert(('\r' as u32) as u8 == 13u8);
    assert(encode_utf8(line).len() >= 1);
    // the first ':' is the one after the name
    assert forall|j: int| 0 <= j < k.len() implies line[j] != ':' by {
        assert(line[j] == k[j]);
    }
    lemma_first_index_at(line, ':', k.len() as int);
    assert(line.take(k.len() as int) =~= k);
    assert(line.skip(k.len() as int + 1) =~= v);
    lemma_decode_encode_header(h.0);
    lemma_decode_encode_header(h.1);
    assert(line_headers(line) =~= seq![h]);
}

/// A header block followed by the blank line reads back as its headers.
proof fn lemma_parse_header_lines(hs: Seq<(Seq<char>, Seq<char>)>, body: Seq<u8>)
    ensures
        parse_header_lines(headers_bytes(hs) + seq![10u8] + body) == Ok::<_, Seq<char>>((hs, body)),
    decreases hs.len(),
{
    let rest = headers_bytes(hs) + seq![10u8] + body;
    if hs.len() == 0 {
        assert(rest =~= seq![10u8] + body);
        lemma_first_index_at(rest, 10u8, 0);
        assert(rest.skip(1) =~= body);
    } else {
        lemma_headers_bytes_front(hs);
        let h = hs[0];
        let m = encode_utf8(header_line_content(h));
        let tail = headers_bytes(hs.drop_first()) + seq![10u8] + body;
        lemma_header_line(h);
        assert(rest =~= m + (seq![10u8] + tail));
        assert forall|j: int| 0 <= j < m.len() implies rest[j] != 10u8 by {
            assert(rest[j] == m[j]);
        }
        assert(rest[m.len() as int] == 10u8);
        lemma_first_index_at(rest, 10u8, m.len() as int);
        assert(rest[m.len() - 1] == m[m.len() - 1]);
        assert(content_end(rest, m.len() as int) == m.len());
        assert(rest.take(m.len() as int) =~= m);
        vstd::utf8::encode_utf8_valid_utf8(header_line_content(h));
        vstd::utf8::encode_utf8_decode_utf8(header_line_content(h));
        assert(rest.skip(m.len() as int + 1) =~= tail);
        lemma_parse_header_lines(hs.drop_first(), body);
        assert(seq![h] + hs.drop_first() =~= hs);
    }
}

/// A frame's body is read back exactly when the announced length, if it is
/// usable, matches it, or else the body holds no NUL byte.
pub open spec fn body_recoverable(f: FrameView) -> bool {
    match content_length(f.headers) {
        Some(len) if len <= f.body.len() => len == f.body.len(),
        _ => forall|i: int| 0 <= i < f.body.len() ==> f.body[i] != 0u8,
    }
}

/// The command line of a written frame reads back as its command.
#[verifier::spinoff_prover]
#[verifier::rlimit(60)]
proof fn lemma_command_line(command: StompCommand, hb: Seq<u8>)
    requires
        is_client_command(command),
    ensures
        command_line_spec(encode_utf8(command_name(command)) + (seq![10u8] + hb)) == Ok::<
            _,
            Seq<char>,
        >((command, encode_utf8(command_name(command)).len() as int + 1)),
{
    let name = command_name(command);
    let c = encode_utf8(name);
    let raw = c + (seq![10u8] + hb);
    lemma_command_name(command);
    assert(vstd::utf8::is_ascii_chars(name));
    vstd::utf8::is_ascii_chars_encode_utf8(name);
    // no leading end-of-line
    assert(raw[0] == c[0]);
    assert(raw.skip(0) =~= raw);
    assert(leading_eol_count(raw) == 0);
    assert forall|j: int| 0 <= j < c.len() implies raw[j] != 10u8 by {
        assert(raw[j] == c[j]);
        assert(c[j] == name[j] as u8);
        assert('A' <= name[j] <= 'Z');
    }
    lemma_first_index_at(raw, 10u8, c.len() as int);
    assert(raw.take(c.len() as int) =~= c);
    vstd::utf8::encode_utf8_valid_utf8(name);
    vstd::utf8::encode_utf8_decode_utf8(name);
    assert(!is_whitespace(name[0]));
    assert(!is_whitespace(name.last()));
    assert(trim_start(name) == name);
    assert(trim_end(name) == name);
}

/// Reading a written frame gives the frame back: for a client command whose
/// body is recoverable (see `body_recoverable`), parsing the serialized bytes
/// without their trailing NUL yields the same command, headers and body.
#[verifier::spinoff_prover]
#[verifier::rlimit(60)]
pub proof fn lemma_parse_serialize_roundtrip(f: FrameView)
    requires
        is_client_command(f.command),
        body_recoverable(f),
    ensures
        parse_spec(serialize_spec(f).drop_last()) == Ok::<_, Seq<char>>(f),
{
    let name = command_name(f.command);
    let c = encode_utf8(name);
    let raw = serialize_spec(f).drop_last();
    let hb = headers_bytes(f.headers) + seq![10u8] + f.body;
    assert(raw =~= c + (seq![10u8] + hb));
    lemma_command_line(f.command, hb);
    // the headers
    assert(raw.skip(c.len() as int + 1) =~= hb);
    lemma_parse_header_lines(f.headers, f.body);
    // the body
    match first_index(f.body, 0u8) {
        Some(n) => {
            crate::text::lemma_first_index(f.body, 0u8);
        },
        None => {},
    }
    assert(f.body.take(f.body.len() as int) =~= f.body);
    assert(body_of(f.headers, f.body) == f.body);
}

/// The round trip for frames as clients write them: a client command, and
/// a body that either contains no NUL and is not announced, or is announced
/// by a `content-length` header giving its exact length. Parsing the
/// serialized bytes without their trailing NUL gives the frame back, every
/// header (escapes and all) in order.
pub proof fn lemma_parse_serialize_roundtrip_announced(f: FrameView)
    requires
        is_client_command(f.command),
        f.body.len() <= usize::MAX,
        (find_header(f.headers, "content-length"@) is None && forall|i: int|
            0 <= i < f.body.len() ==> f.body[i] != 0u8) || find_header(f.headers, "content-length"@)
            == Some(decimal(f.body.len())),
    ensures
        parse_spec(serialize_spec(f).drop_last()) == Ok::<_, Seq<char>>(f),
{
    if find_header(f.headers, "content-length"@) == Some(decimal(f.body.len())) {
        crate::text::lemma_parse_usize_decimal(f.body.len() as usize);
        assert(content_length(f.headers) == Some(f.body.len() as usize));
    }
    lemma_parse_serialize_roundtrip(f);
}

} // verus!
