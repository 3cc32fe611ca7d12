//! The agent's wire format and command line.
//!
//! Every stream between a client and an agent starts with one byte that says
//! what is wanted, then the request, and then the response on the same stream.
//! Numbers are little-endian, texts are UTF-8 behind their length. File content
//! has no length: it goes on until its stream is finished.

use vstd::prelude::*;
use vstd::utf8::*;

use crate::numbers;
use crate::text::{from_chars, joined_text, owned, same_text, to_chars};

verus! {

/// Bumped whenever the wire format changes.
pub const PROTOCOL_VERSION: u32 = 2;

/// How much of a file either side holds in memory at a time.
pub const CHUNK_SIZE: usize = 262144;

pub const OP_HELLO: u8 = 0;

pub const OP_READ_FILE: u8 = 1;

pub const OP_WRITE_FILE: u8 = 2;

/// The bytes of a number, the lowest first.
pub open spec fn u32_bytes(v: u32) -> Seq<u8> {
    seq![
        (v % 256) as u8,
        (v / 256 % 256) as u8,
        (v / 65536 % 256) as u8,
        (v / 16777216) as u8,
    ]
}

/// The number that four bytes stand for, the lowest first.
pub open spec fn u32_of(b: Seq<u8>) -> u32 {
    (b[0] + 256 * b[1] + 65536 * b[2] + 16777216 * b[3]) as u32
}

proof fn lemma_u32_round_trip(v: u32)
    ensures
        u32_bytes(v).len() == 4,
        u32_of(u32_bytes(v)) == v,
{
    assert(v / 256 / 256 == v / 65536);
    assert(v / 65536 / 256 == v / 16777216);
}

fn push_u32(out: &mut Vec<u8>, v: u32)
    ensures
        final(out)@ == old(out)@ + u32_bytes(v),
{
    out.push((v % 256) as u8);
    out.push((v / 256 % 256) as u8);
    out.push((v / 65536 % 256) as u8);
    out.push((v / 16777216) as u8);
    proof {
        assert(out@ =~= old(out)@ + u32_bytes(v));
    }
}

fn u32_at(bytes: &Vec<u8>, i: usize) -> (r: u32)
    requires
        i + 4 <= bytes@.len(),
    ensures
        r == u32_of(bytes@.subrange(i as int, i + 4)),
{
    let len: usize = bytes.len();
    proof {
        assert(i + 4 <= len);
    }
    bytes[i] as u32 + 256 * bytes[i + 1] as u32 + 65536 * bytes[i + 2] as u32 + 16777216 * bytes[i
        + 3] as u32
}

/// A text on the wire: the length of its UTF-8 form and that form.
pub open spec fn text_bytes(s: Seq<char>) -> Seq<u8> {
    u32_bytes(encode_utf8(s).len() as u32) + encode_utf8(s)
}

fn push_text(out: &mut Vec<u8>, s: &str)
    requires
        encode_utf8(s@).len() <= u32::MAX,
    ensures
        final(out)@ == old(out)@ + text_bytes(s@),
{
    let bytes: &[u8] = s.as_bytes();
    push_u32(out, bytes.len() as u32);
    let ghost head = out@;
    let mut i: usize = 0;
    proof {
        assert(out@ =~= head + bytes@.take(0));
    }
    while i < bytes.len()
        invariant
            i <= bytes@.len(),
            out@ == head + bytes@.take(i as int),
        decreases bytes.len() - i,
    {
        out.push(bytes[i]);
        proof {
            assert(out@ =~= head + bytes@.take(i + 1));
        }
        i += 1;
    }
    proof {
        assert(bytes@.take(i as int) =~= encode_utf8(s@));
        assert(out@ =~= old(out)@ + text_bytes(s@));
    }
}

/// `String::from_utf8` of `std`: the text whose UTF-8 form the bytes are, if
/// they are the UTF-8 form of a text.
#[verifier::external_body]
fn text_from_utf8(bytes: Vec<u8>) -> (r: Option<String>)
    ensures
        r is Some <==> valid_utf8(bytes@),
        r matches Some(s) ==> encode_utf8(s@) == bytes@,
{
    String::from_utf8(bytes).ok()
}

/// What a client asks of an agent.
#[derive(Debug)]
pub enum Request {
    Hello { client_version: u32 },
    ReadFile { path: String },
    /// The content follows.
    WriteFile { path: String, mode: Option<u32> },
}

/// A request with its path as plain text.
pub ghost enum RequestFacts {
    Hello(u32),
    ReadFile(Seq<char>),
    WriteFile(Seq<char>, Option<u32>),
}

impl Request {
    /// What is asked.
    pub open spec fn facts(self) -> RequestFacts {
        match self {
            Request::Hello { client_version } => RequestFacts::Hello(client_version),
            Request::ReadFile { path } => RequestFacts::ReadFile(path@),
            Request::WriteFile { path, mode } => RequestFacts::WriteFile(path@, mode),
        }
    }
}

impl RequestFacts {
    /// Whether a path in it is short enough for the wire.
    pub open spec fn fits(self) -> bool {
        match self {
            RequestFacts::Hello(_) => true,
            RequestFacts::ReadFile(p) => encode_utf8(p).len() <= u32::MAX,
            RequestFacts::WriteFile(p, _) => encode_utf8(p).len() <= u32::MAX,
        }
    }

    /// The request on the wire.
    pub open spec fn bytes(self) -> Seq<u8> {
        match self {
            RequestFacts::Hello(v) => seq![OP_HELLO] + u32_bytes(v),
            RequestFacts::ReadFile(p) => seq![OP_READ_FILE] + text_bytes(p),
            RequestFacts::WriteFile(p, None) => seq![OP_WRITE_FILE] + text_bytes(p) + seq![0u8],
            RequestFacts::WriteFile(p, Some(m)) => seq![OP_WRITE_FILE] + text_bytes(p) + seq![1u8]
                + u32_bytes(m),
        }
    }
}

/// What a beginning of a stream is, read as a request.
pub ghost enum Reading {
    /// There is more to come.
    Incomplete,
    /// No request begins like this.
    Malformed,
    /// A request, and how many bytes it takes.
    Complete(RequestFacts, nat),
}

/// The text at `i` on the wire: `None` if it is not all there, else its bytes
/// and where it ends.
pub open spec fn text_at(b: Seq<u8>, i: int) -> Option<(Seq<u8>, int)> {
    if b.len() < i + 4 || b.len() < i + 4 + u32_of(b.subrange(i, i + 4)) {
        None
    } else {
        let n = u32_of(b.subrange(i, i + 4)) as int;
        Some((b.subrange(i + 4, i + 4 + n), i + 4 + n))
    }
}

/// What a beginning of a stream is, read as a request.
pub open spec fn read_request(b: Seq<u8>) -> Reading {
    if b.len() == 0 {
        Reading::Incomplete
    } else if b[0] == OP_HELLO {
        if b.len() < 5 {
            Reading::Incomplete
        } else {
            Reading::Complete(RequestFacts::Hello(u32_of(b.subrange(1, 5))), 5)
        }
    } else if b[0] == OP_READ_FILE {
        match text_at(b, 1) {
            None => Reading::Incomplete,
            Some((p, end)) => if valid_utf8(p) {
                Reading::Complete(RequestFacts::ReadFile(decode_utf8(p)), end as nat)
            } else {
                Reading::Malformed
            },
        }
    } else if b[0] == OP_WRITE_FILE {
        match text_at(b, 1) {
            None => Reading::Incomplete,
            Some((p, end)) => if !valid_utf8(p) {
                Reading::Malformed
            } else if b.len() < end + 1 {
                Reading::Incomplete
            } else if b[end] == 0 {
                Reading::Complete(RequestFacts::WriteFile(decode_utf8(p), None), (end + 1) as nat)
            } else if b.len() < end + 5 {
                Reading::Incomplete
            } else {
                Reading::Complete(
                    RequestFacts::WriteFile(
                        decode_utf8(p),
                        Some(u32_of(b.subrange(end + 1, end + 5))),
                    ),
                    (end + 5) as nat,
                )
            },
        }
    } else {
        Reading::Malformed
    }
}

/// What came of reading a request.
#[derive(Debug)]
pub enum Decoded {
    Incomplete,
    Malformed,
    Complete { request: Request, used: usize },
}

impl Decoded {
    /// The reading itself.
    pub open spec fn reading(self) -> Reading {
        match self {
            Decoded::Incomplete => Reading::Incomplete,
            Decoded::Malformed => Reading::Malformed,
            Decoded::Complete { request, used } => Reading::Complete(request.facts(), used as nat),
        }
    }
}

enum TextPart {
    Incomplete,
    Malformed,
    Text { text: String, end: usize },
}

fn decode_text(bytes: &Vec<u8>, i: usize) -> (r: TextPart)
    requires
        i <= 1,
    ensures
        match r {
            TextPart::Incomplete => text_at(bytes@, i as int) is None,
            TextPart::Malformed => text_at(bytes@, i as int) matches Some((p, _)) && !valid_utf8(p),
            TextPart::Text { text, end } => text_at(bytes@, i as int) matches Some((p, e))
                && valid_utf8(p) && decode_utf8(p) == text@ && e == end && end <= bytes@.len(),
        },
{
    if bytes.len() < i + 4 {
        return TextPart::Incomplete;
    }
    let n: u64 = u32_at(bytes, i) as u64;
    let left: u64 = (bytes.len() - (i + 4)) as u64;
    if left < n {
        return TextPart::Incomplete;
    }
    let end: usize = i + 4 + n as usize;
    let mut part: Vec<u8> = Vec::new();
    let mut k: usize = i + 4;
    while k < end
        invariant
            i + 4 <= k <= end <= bytes@.len(),
            i <= 1,
            part@ == bytes@.subrange(i + 4, k as int),
        decreases end - k,
    {
        part.push(bytes[k]);
        proof {
            assert(part@ =~= bytes@.subrange(i + 4, k + 1));
        }
        k += 1;
    }
    let ghost p = part@;
    match text_from_utf8(part) {
        Some(text) => {
            proof {
                encode_utf8_decode_utf8(text@);
            }
            TextPart::Text { text, end }
        },
        None => TextPart::Malformed,
    }
}

/// Reads a request from what has arrived of a stream so far.
pub fn decode_request(bytes: &Vec<u8>) -> (r: Decoded)
    ensures
        r.reading() == read_request(bytes@),
{
    if bytes.len() == 0 {
        return Decoded::Incomplete;
    }
    let op: u8 = bytes[0];
    if op == OP_HELLO {
        if bytes.len() < 5 {
            return Decoded::Incomplete;
        }
        return Decoded::Complete {
            request: Request::Hello { client_version: u32_at(bytes, 1) },
            used: 5,
        };
    }
    if op == OP_READ_FILE {
        return match decode_text(bytes, 1) {
            TextPart::Incomplete => Decoded::Incomplete,
            TextPart::Malformed => Decoded::Malformed,
            TextPart::Text { text, end } => Decoded::Complete {
                request: Request::ReadFile { path: text },
                used: end,
            },
        };
    }
    if op == OP_WRITE_FILE {
        return match decode_text(bytes, 1) {
            TextPart::Incomplete => Decoded::Incomplete,
            TextPart::Malformed => Decoded::Malformed,
            TextPart::Text { text, end } => if bytes.len() - end < 1 {
                Decoded::Incomplete
            } else if bytes[end] == 0 {
                Decoded::Complete {
                    request: Request::WriteFile { path: text, mode: None },
                    used: end + 1,
                }
            } else if bytes.len() - end < 5 {
                Decoded::Incomplete
            } else {
                Decoded::Complete {
                    request: Request::WriteFile { path: text, mode: Some(u32_at(bytes, end + 1)) },
                    used: end + 5,
                }
            },
        };
    }
    Decoded::Malformed
}

/// Writes a request for the wire.
pub fn encode_request(request: &Request) -> (r: Vec<u8>)
    requires
        request.facts().fits(),
    ensures
        r@ == request.facts().bytes(),
{
    let mut out: Vec<u8> = Vec::new();
    match request {
        Request::Hello { client_version } => {
            out.push(OP_HELLO);
            proof {
                assert(out@ =~= seq![OP_HELLO]);
            }
            push_u32(&mut out, *client_version);
        },
        Request::ReadFile { path } => {
            out.push(OP_READ_FILE);
            proof {
                assert(out@ =~= seq![OP_READ_FILE]);
            }
            push_text(&mut out, path.as_str());
        },
        Request::WriteFile { path, mode } => {
            out.push(OP_WRITE_FILE);
            proof {
                assert(out@ =~= seq![OP_WRITE_FILE]);
            }
            push_text(&mut out, path.as_str());
            match mode {
                None => {
                    out.push(0u8);
                },
                Some(m) => {
                    out.push(1u8);
                    push_u32(&mut out, *m);
                },
            }
        },
    }
    proof {
        assert(out@ =~= request.facts().bytes());
    }
    out
}

proof fn lemma_text_at(before: Seq<u8>, p: Seq<char>, after: Seq<u8>)
    requires
        encode_utf8(p).len() <= u32::MAX,
    ensures
        text_at(before + text_bytes(p) + after, before.len() as int) == Some(
            (encode_utf8(p), (before.len() + text_bytes(p).len()) as int),
        ),
        valid_utf8(encode_utf8(p)),
        decode_utf8(encode_utf8(p)) == p,
{
    let b = before + text_bytes(p) + after;
    let i = before.len() as int;
    let n = encode_utf8(p).len() as u32;
    lemma_u32_round_trip(n);
    assert(b.subrange(i, i + 4) =~= u32_bytes(n));
    assert(b.subrange(i + 4, i + 4 + n) =~= encode_utf8(p));
    encode_utf8_valid_utf8(p);
    encode_utf8_decode_utf8(p);
}

/// A request that was written reads back as itself, whatever follows it on the
/// stream, and takes exactly the bytes that were written.
pub proof fn law_request_reads_back(request: RequestFacts, rest: Seq<u8>)
    requires
        request.fits(),
    ensures
        read_request(request.bytes() + rest) == Reading::Complete(request, request.bytes().len()),
{
    let b = request.bytes() + rest;
    match request {
        RequestFacts::Hello(v) => {
            lemma_u32_round_trip(v);
            assert(b.subrange(1, 5) =~= u32_bytes(v));
        },
        RequestFacts::ReadFile(p) => {
            lemma_text_at(seq![OP_READ_FILE], p, rest);
            assert(b =~= seq![OP_READ_FILE] + text_bytes(p) + rest);
        },
        RequestFacts::WriteFile(p, None) => {
            lemma_text_at(seq![OP_WRITE_FILE], p, seq![0u8] + rest);
            assert(b =~= seq![OP_WRITE_FILE] + text_bytes(p) + (seq![0u8] + rest));
        },
        RequestFacts::WriteFile(p, Some(m)) => {
            lemma_u32_round_trip(m);
            let after = seq![1u8] + u32_bytes(m) + rest;
            lemma_text_at(seq![OP_WRITE_FILE], p, after);
            assert(b =~= seq![OP_WRITE_FILE] + text_bytes(p) + after);
            let end = 1 + text_bytes(p).len() as int;
            assert(b.subrange(end + 1, end + 5) =~= u32_bytes(m));
        },
    }
}

/// Whether a client of that version can talk to this agent.
pub open spec fn is_compatible(client_version: u32) -> bool {
    client_version == PROTOCOL_VERSION
}

/// The agent's answer to a hello: its own version, and whether the client's is
/// compatible.
pub fn encode_hello_reply(client_version: u32) -> (r: Vec<u8>)
    ensures
        r@ == hello_reply_bytes(client_version),
        r@ == u32_bytes(PROTOCOL_VERSION) + seq![
            if is_compatible(client_version) {
                1u8
            } else {
                0u8
            },
        ],
{
    let mut out: Vec<u8> = Vec::new();
    push_u32(&mut out, PROTOCOL_VERSION);
    out.push(
        if client_version == PROTOCOL_VERSION {
            1u8
        } else {
            0u8
        },
    );
    proof {
        assert(out@ =~= u32_bytes(PROTOCOL_VERSION) + seq![
            if is_compatible(client_version) {
                1u8
            } else {
                0u8
            },
        ]);
    }
    out
}

/// Reads an agent's answer to a hello: the agent's version and whether it is
/// compatible. Whatever follows these five bytes is left alone; fewer are no
/// answer yet.
pub fn decode_hello_reply(bytes: &Vec<u8>) -> (r: Option<(u32, bool)>)
    ensures
        r == read_hello_reply(bytes@),
        r == (if bytes@.len() >= 5 {
            Some((u32_of(bytes@.subrange(0, 4)), bytes@[4] != 0))
        } else {
            None
        }),
{
    if bytes.len() < 5 {
        return None;
    }
    Some((u32_at(bytes, 0), bytes[4] != 0))
}

/// The agent always tells its own version, and calls exactly its own version
/// compatible.
pub proof fn law_hello_reply_reads_back(client_version: u32)
    ensures
        ({
            let reply = u32_bytes(PROTOCOL_VERSION) + seq![
                if is_compatible(client_version) {
                    1u8
                } else {
                    0u8
                },
            ];
            &&& reply.len() == 5
            &&& u32_of(reply.subrange(0, 4)) == PROTOCOL_VERSION
            &&& (reply[4] != 0) == (client_version == PROTOCOL_VERSION)
        }),
{
    let reply = u32_bytes(PROTOCOL_VERSION) + seq![
        if is_compatible(client_version) {
            1u8
        } else {
            0u8
        },
    ];
    lemma_u32_round_trip(PROTOCOL_VERSION);
    assert(reply.subrange(0, 4) =~= u32_bytes(PROTOCOL_VERSION));
}

/// The beginning of the answer to a file request: one byte for success, or one
/// for failure and the reason.
pub fn encode_status(result: &Result<(), String>) -> (r: Vec<u8>)
    requires
        *result matches Err(why) ==> encode_utf8(why@).len() <= u32::MAX,
    ensures
        r@ == status_bytes(
            match *result {
                Ok(_) => None,
                Err(why) => Some(why@),
            },
        ),
        r@ == (match *result {
            Ok(_) => seq![1u8],
            Err(why) => seq![0u8] + text_bytes(why@),
        }),
{
    let mut out: Vec<u8> = Vec::new();
    match result {
        Ok(_) => {
            out.push(1u8);
            proof {
                assert(out@ =~= seq![1u8]);
            }
        },
        Err(why) => {
            out.push(0u8);
            proof {
                assert(out@ =~= seq![0u8]);
            }
            push_text(&mut out, why.as_str());
        },
    }
    out
}

/// What the beginning of an answer says.
#[derive(Debug)]
pub enum Status {
    Incomplete,
    Malformed,
    /// The request succeeded; what follows the byte is content, if any.
    Good,
    Bad { why: String },
}

/// Reads the beginning of the answer to a file request.
pub fn decode_status(bytes: &Vec<u8>) -> (r: Status)
    ensures
        says_status(r, bytes@),
        if bytes@.len() == 0 {
            r is Incomplete
        } else if bytes@[0] != 0 {
            r is Good
        } else {
            match text_at(bytes@, 1) {
                None => r is Incomplete,
                Some((p, _)) => if valid_utf8(p) {
                    r matches Status::Bad { why } && why@ == decode_utf8(p)
                } else {
                    r is Malformed
                },
            }
        },
{
    if bytes.len() == 0 {
        return Status::Incomplete;
    }
    if bytes[0] != 0 {
        return Status::Good;
    }
    match decode_text(bytes, 1) {
        TextPart::Incomplete => Status::Incomplete,
        TextPart::Malformed => Status::Malformed,
        TextPart::Text { text, end } => Status::Bad { why: text },
    }
}

/// The reason of a failure reads back as it was written, whatever follows.
pub proof fn law_failure_reads_back(why: Seq<char>, rest: Seq<u8>)
    requires
        encode_utf8(why).len() <= u32::MAX,
    ensures
        text_at(seq![0u8] + text_bytes(why) + rest, 1) == Some(
            (encode_utf8(why), (1 + text_bytes(why).len()) as int),
        ),
        valid_utf8(encode_utf8(why)),
        decode_utf8(encode_utf8(why)) == why,
{
    lemma_text_at(seq![0u8], why, rest);
}

/// The only argument: `--port` and a port. Without it the port is 4433, and 0
/// leaves the choice to the system.
pub fn parse_port_arg(args: &Vec<String>) -> (r: Result<u16, String>)
    ensures
        is_port_asked(args@, r),
        if args@.len() == 0 {
            r == Ok::<u16, String>(4433)
        } else if args@[0]@ != "--port"@ {
            r matches Err(why) && why@ == "unrecognized argument: "@ + args@[0]@
                + " (expected --port <N>)"@
        } else if args@.len() == 1 {
            r matches Err(why) && why@ == "--port requires a value"@
        } else {
            match numbers::parsed(args@[1]@, 10, 0xffff) {
                Some(port) => r matches Ok(p) && p as nat == port,
                None => r matches Err(why) && why@ == numbers::number_error(args@[1]@, 10, 0xffff),
            }
        },
{
    if args.len() == 0 {
        return Ok(4433);
    }
    if !same_text(args[0].as_str(), "--port") {
        let head: String = joined_text("unrecognized argument: ", args[0].as_str());
        return Err(joined_text(head.as_str(), " (expected --port <N>)"));
    }
    if args.len() == 1 {
        return Err(owned("--port requires a value"));
    }
    let value: Vec<char> = to_chars(args[1].as_str());
    match numbers::parse_number(&value, 10, 0xffff) {
        Some(port) => Ok(port as u16),
        None => Err(owned(numbers::explain_error(&value, 10, 0xffff))),
    }
}

/// The address to listen on: every address of both families where the host has
/// the newer one, else of the older.
pub fn listen_address(ipv6: bool, port: u16) -> (r: String)
    ensures
        r@ == (if ipv6 {
            "[::]:"@
        } else {
            "0.0.0.0:"@
        }) + numbers::decimal(port as nat),
{
    let number: String = from_chars(&numbers::decimal_chars(port as u64));
    if ipv6 {
        joined_text("[::]:", number.as_str())
    } else {
        joined_text("0.0.0.0:", number.as_str())
    }
}

/// Checks a presented certificate against the only one that is trusted, byte
/// for byte.
pub fn check_pinned_cert(presented: &Vec<u8>, expected: &Vec<u8>) -> (r: Result<(), String>)
    ensures
        match r {
            Ok(_) => presented@ == expected@,
            Err(why) => presented@ != expected@ && why@
                == "presented certificate does not match the pinned agent certificate"@,
        },
{
    let mut same: bool = presented.len() == expected.len();
    let mut i: usize = 0;
    while same && i < presented.len()
        invariant
            i <= presented@.len(),
            same ==> presented@.len() == expected@.len(),
            same ==> forall|k: int| 0 <= k < i ==> presented@[k] == expected@[k],
            !same ==> presented@ != expected@,
        decreases presented.len() - i,
    {
        if presented[i] != expected[i] {
            same = false;
        }
        i += 1;
    }
    if same {
        proof {
            assert(presented@ =~= expected@);
        }
        Ok(())
    } else {
        Err(owned("presented certificate does not match the pinned agent certificate"))
    }
}

/// Numbers go with their lowest byte first: a number 256 times as large has the same
/// bytes one place later.
pub proof fn law_lowest_byte_first(v: u32)
    ensures
        u32_bytes(v).len() == 4,
        u32_bytes(v)[0] as int == v as int % 256,
        v < 0x100_0000 ==> u32_bytes((v * 256) as u32) == seq![0u8] + u32_bytes(v).take(3),
        u32_of(u32_bytes(v)) == v,
{
    lemma_u32_round_trip(v);
    if v < 0x100_0000 {
        let w = (v * 256) as u32;
        assert(w / 256 == v);
        assert(w / 65536 == v / 256);
        assert(w / 16777216 == v / 65536);
        assert(v / 65536 < 256);
        assert(u32_bytes(w) =~= seq![0u8] + u32_bytes(v).take(3));
    }
}

/// As long as a request has not arrived as a whole it is waited for, never refused
/// and never taken for another.
pub proof fn law_part_of_a_request(request: RequestFacts, n: int)
    requires
        request.fits(),
        0 <= n < request.bytes().len(),
    ensures
        read_request(request.bytes().take(n)) is Incomplete,
{
    let all = request.bytes();
    let b = all.take(n);
    if n > 0 {
        assert(b[0] == all[0]);
        match request {
            RequestFacts::Hello(v) => {},
            RequestFacts::ReadFile(p) => {
                lemma_part_of_text(seq![OP_READ_FILE], p, Seq::empty(), n);
                assert(seq![OP_READ_FILE] + text_bytes(p) + Seq::<u8>::empty() =~= all);
            },
            RequestFacts::WriteFile(p, mode) => {
                let rest = match mode {
                    None => seq![0u8],
                    Some(m) => seq![1u8] + u32_bytes(m),
                };
                let end = 1 + text_bytes(p).len() as int;
                assert(seq![OP_WRITE_FILE] + text_bytes(p) + rest =~= all);
                if n < end {
                    lemma_part_of_text(seq![OP_WRITE_FILE], p, rest, n);
                } else {
                    lemma_text_at(seq![OP_WRITE_FILE], p, rest.take(n - end));
                    assert(seq![OP_WRITE_FILE] + text_bytes(p) + rest.take(n - end) =~= b);
                    if n > end {
                        assert(b[end] == rest[0]);
                    }
                }
            },
        }
    }
}

proof fn lemma_part_of_text(op: Seq<u8>, p: Seq<char>, rest: Seq<u8>, n: int)
    requires
        op.len() == 1,
        encode_utf8(p).len() <= u32::MAX,
        1 <= n < 1 + text_bytes(p).len(),
    ensures
        text_at((op + text_bytes(p) + rest).take(n), 1) is None,
{
    let all = op + text_bytes(p) + rest;
    let b = all.take(n);
    let len = encode_utf8(p).len() as u32;
    lemma_u32_round_trip(len);
    if n >= 5 {
        assert(b.subrange(1, 5) =~= u32_bytes(len));
    }
}

/// A stream that begins with none of the known operations is refused.
pub proof fn law_unknown_operation(b: Seq<u8>)
    requires
        b.len() > 0,
        b[0] > 2,
    ensures
        read_request(b) is Malformed,
{
}

/// The agent's answer to a hello on the wire.
pub open spec fn hello_reply_bytes(client_version: u32) -> Seq<u8> {
    u32_bytes(PROTOCOL_VERSION) + seq![
        if is_compatible(client_version) {
            1u8
        } else {
            0u8
        },
    ]
}

/// What the beginning of an answer to a hello says.
pub open spec fn read_hello_reply(bytes: Seq<u8>) -> Option<(u32, bool)> {
    if bytes.len() >= 5 {
        Some((u32_of(bytes.subrange(0, 4)), bytes[4] != 0))
    } else {
        None
    }
}

/// A client reads of the answer to its hello which version the agent has, and that
/// they get along exactly if that is its own; whatever follows, and not before all
/// of the answer is there.
pub proof fn law_hello(client_version: u32, rest: Seq<u8>, n: int)
    requires
        0 <= n < hello_reply_bytes(client_version).len(),
    ensures
        read_hello_reply(hello_reply_bytes(client_version) + rest) == Some(
            (PROTOCOL_VERSION, client_version == PROTOCOL_VERSION),
        ),
        read_hello_reply(hello_reply_bytes(client_version).take(n)) is None,
{
    law_hello_reply_reads_back(client_version);
    let reply = hello_reply_bytes(client_version);
    assert((reply + rest).subrange(0, 4) =~= reply.subrange(0, 4));
}

/// The beginning of the answer to a file request on the wire; `why` is the reason
/// of a failure.
pub open spec fn status_bytes(why: Option<Seq<char>>) -> Seq<u8> {
    match why {
        None => seq![1u8],
        Some(why) => seq![0u8] + text_bytes(why),
    }
}

/// Whether a status is what the beginning of an answer says.
pub open spec fn says_status(status: Status, bytes: Seq<u8>) -> bool {
    if bytes.len() == 0 {
        status is Incomplete
    } else if bytes[0] != 0 {
        status is Good
    } else {
        match text_at(bytes, 1) {
            None => status is Incomplete,
            Some((p, _)) => if valid_utf8(p) {
                status matches Status::Bad { why } && why@ == decode_utf8(p)
            } else {
                status is Malformed
            },
        }
    }
}

/// A client reads of an answer what the agent wrote: success as success, whatever
/// content follows, and a failure with its reason.
pub proof fn law_status_reads_back(why: Seq<char>, rest: Seq<u8>, good: Status, bad: Status)
    requires
        encode_utf8(why).len() <= u32::MAX,
        says_status(good, status_bytes(None) + rest),
        says_status(bad, status_bytes(Some(why)) + rest),
    ensures
        good is Good,
        bad matches Status::Bad { why: read } && read@ == why,
{
    law_failure_reads_back(why, rest);
    assert((status_bytes(Some(why)) + rest)[0] == 0);
    assert((status_bytes(None) + rest)[0] == 1);
}

/// Whether `r` is the port that the arguments ask for.
pub open spec fn is_port_asked(args: Seq<String>, r: Result<u16, String>) -> bool {
    if args.len() == 0 {
        r == Ok::<u16, String>(4433)
    } else if args[0]@ != "--port"@ || args.len() == 1 {
        r is Err
    } else {
        match numbers::parsed(args[1]@, 10, 0xffff) {
            Some(port) => r matches Ok(p) && p as nat == port,
            None => r is Err,
        }
    }
}

/// Every port can be asked for by its number, and nothing but a number up to the
/// largest port is taken for one.
pub proof fn law_port_argument(args: Seq<String>, port: u16, r: Result<u16, String>)
    requires
        is_port_asked(args, r),
        args.len() > 0,
    ensures
        args.len() >= 2 && args[0]@ == "--port"@ && args[1]@ == numbers::decimal(port as nat) ==> r
            == Ok::<u16, String>(port),
        args[0]@ != "--port"@ ==> r is Err,
        args.len() == 1 ==> r is Err,
        r is Ok ==> numbers::parsed(args[1]@, 10, 65535) == Some(r->Ok_0 as nat),
{
    numbers::lemma_decimal_reads_back(port as nat, 0xffff);
}

} // verus!
