//! The HTTP/1.1 protocol of the API: reading a request head line by line, checking
//! credentials, and the text of a response.
//!
//! Only what is needed, with everything else refused explicitly: a request line,
//! headers, and a body delimited by `Content-Length`. Every response closes its
//! connection; only a stream stays open. A token is taken from the `Authorization`
//! header alone: one in a query string would leak into logs.

use vstd::prelude::*;
use vstd::utf8::{encode_utf8, encode_utf8_decode_utf8};

use crate::adapters::interfaces::IfAddress;
use crate::json::{json_text, write_json};
use crate::text::{
    cat5, decimal, decimal_text, ends_path, first_word, lowercase, next_word, number_up_to,
    parse_up_to, path_of, position, same, same_letters, split_at_space, split_first, split_once,
    split_space, trim, trim_end, trim_right, trim_slashes, trimmed, without_slashes,
};

use super::routes::{error_of, handle, routed, Response, ResponseV, Routed, RoutedV};
use super::stream::{encoded, lagged_frame, lagged_frame_of, Batch, BatchV, FrameV};
use super::{Directory, DirectoryV, Mirror, MirrorV};

verus! {

/// Concurrent request connections served at once. Streams are not counted here.
pub const MAX_CONNECTIONS: usize = 16;

/// Concurrent streams, budgeted apart, so that open dashboards cannot starve requests.
pub const MAX_STREAMS: usize = 8;

/// Largest request body accepted, in bytes.
pub const MAX_BODY: usize = 65536;

/// Caps on the header section.
pub const MAX_HEADER_LINES: usize = 64;

pub const MAX_HEADER_BYTES: usize = 8192;

// ------------------------------------------------------------ the request head

/// A request head while it is being read.
#[derive(Debug)]
pub struct RequestHead {
    pub method: String,
    pub path: String,
    /// Header lines read so far, and their bytes.
    pub lines: usize,
    pub bytes: usize,
    pub length: Option<usize>,
    pub authorization: Option<String>,
}

/// [`RequestHead`] as a mathematical value.
pub struct HeadV {
    pub method: Seq<char>,
    pub path: Seq<char>,
    pub lines: nat,
    pub bytes: nat,
    pub length: Option<nat>,
    pub authorization: Option<Seq<char>>,
}

impl View for RequestHead {
    type V = HeadV;

    open spec fn view(&self) -> HeadV {
        HeadV {
            method: self.method@,
            path: self.path@,
            lines: self.lines as nat,
            bytes: self.bytes as nat,
            length: match self.length {
                Some(n) => Some(n as nat),
                None => None,
            },
            authorization: crate::compile::diagnostic::opt_text(self.authorization),
        }
    }
}

/// A complete request.
#[derive(Debug, PartialEq)]
pub struct Request {
    pub method: String,
    pub path: String,
    pub body: Vec<u8>,
    pub authorization: Option<String>,
}

/// [`Request`] as a mathematical value.
pub struct RequestV {
    pub method: Seq<char>,
    pub path: Seq<char>,
    pub body: Seq<u8>,
    pub authorization: Option<Seq<char>>,
}

impl View for Request {
    type V = RequestV;

    open spec fn view(&self) -> RequestV {
        RequestV {
            method: self.method@,
            path: self.path@,
            body: self.body@,
            authorization: crate::compile::diagnostic::opt_text(self.authorization),
        }
    }
}

pub open spec fn malformed_request(message: Seq<char>) -> ResponseV {
    error_of(400, "malformed_body"@, message)
}

fn bad_request(message: &str) -> (r: Response)
    ensures
        r@ == malformed_request(message@),
{
    Response::error(400, "malformed_body", message)
}

/// The head that a request line begins: `METHOD SP PATH SP VERSION`. A query string is
/// dropped. `None` stands for a line that could not be read.
pub open spec fn begun(line: Option<Seq<char>>) -> Result<HeadV, ResponseV> {
    match line {
        None => Err(malformed_request("empty request"@)),
        Some(l) => if l.len() == 0 {
            Err(malformed_request("empty request"@))
        } else {
            match first_word(l) {
                None => Err(malformed_request("malformed request line"@)),
                Some((method, rest)) => match first_word(rest) {
                    None => Err(malformed_request("malformed request line"@)),
                    Some((target, _)) => Ok(
                        HeadV {
                            method,
                            path: target.take(position(target, ends_path())),
                            lines: 0,
                            bytes: 0,
                            length: None,
                            authorization: None,
                        },
                    ),
                },
            }
        },
    }
}

/// Begin a request with its first line, as it was read.
pub fn begin(line: Option<&str>) -> (r: Result<RequestHead, Response>)
    ensures
        match (
            begun(
                match line {
                    Some(l) => Some(l@),
                    None => None,
                },
            ),
            r,
        ) {
            (Ok(h), Ok(x)) => x@ == h,
            (Err(e), Err(x)) => x@ == e,
            _ => false,
        },
{
    match line {
        None => Err(bad_request("empty request")),
        Some(l) => {
            if l.unicode_len() == 0 {
                return Err(bad_request("empty request"));
            }
            match next_word(l) {
                None => Err(bad_request("malformed request line")),
                Some((method, rest)) => match next_word(rest.as_str()) {
                    None => Err(bad_request("malformed request line")),
                    Some((target, _)) => Ok(
                        RequestHead {
                            method,
                            path: path_of(target.as_str()),
                            lines: 0,
                            bytes: 0,
                            length: None,
                            authorization: None,
                        },
                    ),
                },
            }
        },
    }
}

/// What a header line makes of the head.
pub open spec fn header_noted(h: HeadV, line: Seq<char>) -> Result<HeadV, ResponseV> {
    match split_first(line, ':') {
        None => Ok(h),
        Some((name, value)) => {
            let key = lowercase(trimmed(name));
            if key == lowercase("content-length"@) {
                match number_up_to(trimmed(value), usize::MAX as nat) {
                    Some(n) => Ok(HeadV { length: Some(n), ..h }),
                    None => Err(malformed_request("invalid Content-Length"@)),
                }
            } else if key == lowercase("authorization"@) {
                Ok(HeadV { authorization: Some(trimmed(value)), ..h })
            } else if key == lowercase("transfer-encoding"@) {
                Err(
                    error_of(
                        411,
                        "malformed_body"@,
                        "chunked transfer encoding is not supported; send Content-Length"@,
                    ),
                )
            } else {
                Ok(h)
            }
        },
    }
}

fn note_header(head: RequestHead, line: &str) -> (r: Result<RequestHead, Response>)
    ensures
        match (header_noted(head@, line@), r) {
            (Ok(h), Ok(x)) => x@ == h,
            (Err(e), Err(x)) => x@ == e,
            _ => false,
        },
{
    let mut head = head;
    if let Some((name, value)) = split_once(line, ':') {
        let key = trim(name.as_str());
        let text = trim(value.as_str());
        if same_letters(key.as_str(), "content-length") {
            match parse_up_to(text.as_str(), usize::MAX as u64) {
                Some(n) => {
                    head.length = Some(n as usize);
                },
                None => {
                    return Err(bad_request("invalid Content-Length"));
                },
            }
        } else if same_letters(key.as_str(), "authorization") {
            head.authorization = Some(text);
        } else if same_letters(key.as_str(), "transfer-encoding") {
            return Err(
                Response::error(
                    411,
                    "malformed_body",
                    "chunked transfer encoding is not supported; send Content-Length",
                ),
            );
        }
    }
    Ok(head)
}

/// What comes after a header line.
pub enum Step {
    /// Read another line.
    More(RequestHead),
    /// The head is complete; this many bytes of body follow.
    Body(RequestHead, usize),
    Refused(Response),
}

/// [`Step`] as a mathematical value.
pub enum StepV {
    More(HeadV),
    Body(HeadV, nat),
    Refused(ResponseV),
}

impl View for Step {
    type V = StepV;

    open spec fn view(&self) -> StepV {
        match *self {
            Step::More(h) => StepV::More(h@),
            Step::Body(h, n) => StepV::Body(h@, n as nat),
            Step::Refused(r) => StepV::Refused(r@),
        }
    }
}

pub open spec fn too_many_lines() -> ResponseV {
    error_of(431, "payload_too_large"@, "too many header lines"@)
}

/// What comes after a header line. `None` stands for a line that could not be read,
/// and an empty line without its line break for the end of the input.
pub open spec fn advanced(h: HeadV, line: Option<Seq<char>>) -> StepV {
    match line {
        None => StepV::Refused(malformed_request("malformed headers"@)),
        Some(l) => {
            let bytes = h.bytes + encode_utf8(l).len();
            let text = trim_end(l);
            let length = match h.length {
                Some(n) => n,
                None => 0,
            };
            if l.len() == 0 {
                StepV::Refused(too_many_lines())
            } else if bytes > MAX_HEADER_BYTES {
                StepV::Refused(
                    error_of(431, "payload_too_large"@, "header section too large"@),
                )
            } else if text.len() == 0 {
                if length > MAX_BODY {
                    StepV::Refused(
                        error_of(
                            413,
                            "payload_too_large"@,
                            "body of "@ + decimal(length) + " bytes exceeds the "@ + decimal(
                                65536,
                            ) + " byte limit"@,
                        ),
                    )
                } else {
                    StepV::Body(h, length)
                }
            } else {
                match header_noted(h, text) {
                    Err(e) => StepV::Refused(e),
                    Ok(next) => if h.lines + 1 >= MAX_HEADER_LINES {
                        StepV::Refused(too_many_lines())
                    } else {
                        StepV::More(HeadV { lines: h.lines + 1, bytes, ..next })
                    },
                }
            }
        },
    }
}

impl RequestHead {
    /// Take the next header line, as it was read.
    pub fn next(self, line: Option<&str>) -> (r: Step)
        ensures
            r@ == advanced(
                self@,
                match line {
                    Some(l) => Some(l@),
                    None => None,
                },
            ),
    {
        let l = match line {
            Some(l) => l,
            None => {
                return Step::Refused(bad_request("malformed headers"));
            },
        };
        if l.unicode_len() == 0 {
            return Step::Refused(
                Response::error(431, "payload_too_large", "too many header lines"),
            );
        }
        let n: usize = l.as_bytes().len();
        if n > MAX_HEADER_BYTES || self.bytes > MAX_HEADER_BYTES - n {
            return Step::Refused(
                Response::error(431, "payload_too_large", "header section too large"),
            );
        }
        let text = trim_right(l);
        if text.as_str().unicode_len() == 0 {
            let length: usize = match self.length {
                Some(n) => n,
                None => 0,
            };
            if length > MAX_BODY {
                let got = decimal_text(length as u64);
                let most = decimal_text(65536);
                let msg = cat5(
                    "body of ",
                    got.as_str(),
                    " bytes exceeds the ",
                    most.as_str(),
                    " byte limit",
                );
                return Step::Refused(Response::error(413, "payload_too_large", msg.as_str()));
            }
            return Step::Body(self, length);
        }
        let lines: usize = self.lines;
        let bytes: usize = self.bytes + n;
        match note_header(self, text.as_str()) {
            Err(e) => Step::Refused(e),
            Ok(next) => {
                if lines >= MAX_HEADER_LINES - 1 {
                    return Step::Refused(
                        Response::error(431, "payload_too_large", "too many header lines"),
                    );
                }
                let mut next = next;
                next.lines = lines + 1;
                next.bytes = bytes;
                Step::More(next)
            },
        }
    }

    /// The request, once its body was read; `None` stands for a body that ended early.
    pub fn finish(self, body: Option<Vec<u8>>) -> (r: Result<Request, Response>)
        ensures
            match (body, r) {
                (Some(b), Ok(x)) => x@ == (RequestV {
                    method: self@.method,
                    path: self@.path,
                    body: b@,
                    authorization: self@.authorization,
                }),
                (None, Err(x)) => x@ == malformed_request(
                    "request body was shorter than its Content-Length"@,
                ),
                _ => false,
            },
    {
        match body {
            Some(body) => Ok(
                Request {
                    method: self.method,
                    path: self.path,
                    body,
                    authorization: self.authorization,
                },
            ),
            None => Err(bad_request("request body was shorter than its Content-Length")),
        }
    }
}

// ------------------------------------------------------------ credentials

/// Why credentials are refused, if they are: `401` when the header is absent or no
/// bearer credential, `403` when it is one but the wrong one. The scheme is not
/// sensitive to case; the credential is.
pub open spec fn auth_refusal(expected: Seq<char>, provided: Option<Seq<char>>) -> Option<
    ResponseV,
> {
    match provided {
        None => Some(
            error_of(
                401,
                "unauthorized"@,
                "this API requires an 'Authorization: Bearer <token>' header"@,
            ),
        ),
        Some(header) => {
            let malformed = error_of(
                401,
                "unauthorized"@,
                "malformed Authorization header; expected 'Bearer <token>'"@,
            );
            match split_at_space(header) {
                None => Some(malformed),
                Some((scheme, rest)) => if lowercase(scheme) != lowercase("bearer"@) {
                    Some(malformed)
                } else if trimmed(rest) == expected {
                    None
                } else {
                    Some(error_of(403, "forbidden"@, "invalid token"@))
                },
            }
        },
    }
}

/// Validate the `Authorization` header against the configured token.
pub fn check_auth(expected: &str, provided: Option<&str>) -> (r: Result<(), Response>)
    ensures
        match (
            auth_refusal(
                expected@,
                match provided {
                    Some(p) => Some(p@),
                    None => None,
                },
            ),
            r,
        ) {
            (None, Ok(_)) => true,
            (Some(e), Err(x)) => x@ == e,
            _ => false,
        },
{
    let header = match provided {
        Some(h) => h,
        None => {
            return Err(
                Response::error(
                    401,
                    "unauthorized",
                    "this API requires an 'Authorization: Bearer <token>' header",
                ),
            );
        },
    };
    if let Some((scheme, rest)) = split_space(header) {
        if same_letters(scheme.as_str(), "bearer") {
            let candidate = trim(rest.as_str());
            proof {
                encode_utf8_decode_utf8(candidate@);
                encode_utf8_decode_utf8(expected@);
            }
            if constant_time_eq(candidate.as_str().as_bytes(), expected.as_bytes()) {
                return Ok(());
            }
            return Err(Response::error(403, "forbidden", "invalid token"));
        }
    }
    Err(
        Response::error(
            401,
            "unauthorized",
            "malformed Authorization header; expected 'Bearer <token>'",
        ),
    )
}

proof fn lemma_difference(d: u8, x: u8, y: u8)
    ensures
        (d | (x ^ y)) == 0 <==> d == 0 && x == y,
{
    assert((d | (x ^ y)) == 0 <==> d == 0 && x == y) by (bit_vector);
}

/// Compare two secrets over the whole of both, whatever they hold, so that the time it
/// takes does not tell where they differ. Their length is no secret.
pub fn constant_time_eq(a: &[u8], b: &[u8]) -> (r: bool)
    ensures
        r == (a@ == b@),
{
    if a.len() != b.len() {
        return false;
    }
    let mut diff: u8 = 0;
    let mut i: usize = 0;
    assert(a@.take(0) =~= b@.take(0));
    while i < a.len()
        invariant
            i <= a@.len() == b@.len(),
            diff == 0 <==> a@.take(i as int) == b@.take(i as int),
        decreases a@.len() - i,
    {
        proof {
            lemma_difference(diff, a@[i as int], b@[i as int]);
            assert(a@.take(i + 1) =~= a@.take(i as int).push(a@[i as int]));
            assert(b@.take(i + 1) =~= b@.take(i as int).push(b@[i as int]));
            if a@.take(i + 1) == b@.take(i + 1) {
                assert(a@.take(i as int) =~= a@.take(i + 1).drop_last());
                assert(b@.take(i as int) =~= b@.take(i + 1).drop_last());
                assert(a@.take(i + 1).last() == b@.take(i + 1).last());
            }
        }
        diff = diff | (a[i] ^ b[i]);
        i += 1;
    }
    assert(a@.take(i as int) =~= a@);
    assert(b@.take(i as int) =~= b@);
    diff == 0
}

// ------------------------------------------------------------ serving

/// What a complete request comes to.
#[derive(Debug, PartialEq)]
pub enum Served {
    /// Upgrade the connection to a stream of events.
    Stream,
    Routed(Routed),
}

/// [`Served`] as a mathematical value.
pub enum ServedV {
    Stream,
    Routed(RoutedV),
}

impl View for Served {
    type V = ServedV;

    open spec fn view(&self) -> ServedV {
        match *self {
            Served::Stream => ServedV::Stream,
            Served::Routed(r) => ServedV::Routed(r@),
        }
    }
}

/// The refusal of a request's credentials, where a token is configured.
pub open spec fn token_refusal(token: Option<Seq<char>>, q: RequestV) -> Option<ResponseV> {
    match token {
        Some(expected) => auth_refusal(expected, q.authorization),
        None => None,
    }
}

/// What a complete request comes to: credentials first, before any route.
pub open spec fn served(
    dir: DirectoryV,
    m: MirrorV,
    token: Option<Seq<char>>,
    q: RequestV,
) -> ServedV {
    match token_refusal(token, q) {
        Some(refusal) => ServedV::Routed(RoutedV::Reply(refusal)),
        None => if q.method == "GET"@ && without_slashes(q.path) == "/stream"@ {
            ServedV::Stream
        } else {
            ServedV::Routed(routed(dir, m, q.method, q.path, q.body))
        },
    }
}

/// Serve one request.
pub fn serve(
    directory: &Directory,
    mirror: &Mirror,
    token: &Option<String>,
    request: &Request,
) -> (r: Served)
    ensures
        r@ == served(
            directory@,
            mirror@,
            crate::compile::diagnostic::opt_text(*token),
            request@,
        ),
{
    if let Some(expected) = token {
        let provided = match &request.authorization {
            Some(h) => Some(h.as_str()),
            None => None,
        };
        if let Err(refusal) = check_auth(expected.as_str(), provided) {
            return Served::Routed(Routed::Reply(refusal));
        }
    }
    if same(request.method.as_str(), "GET") {
        let path = trim_slashes(request.path.as_str());
        if same(path.as_str(), "/stream") {
            return Served::Stream;
        }
    }
    Served::Routed(
        handle(
            directory,
            mirror,
            request.method.as_str(),
            request.path.as_str(),
            request.body.as_slice(),
        ),
    )
}

pub open spec fn too_many_connections() -> ResponseV {
    error_of(
        503,
        "too_many_connections"@,
        "too many concurrent connections; retry shortly"@,
    )
}

/// Whether one more connection is served beside `live` ones, or how it is answered.
pub fn admit_connection(live: usize) -> (r: Option<Response>)
    ensures
        match r {
            Some(x) => live >= MAX_CONNECTIONS && x@ == too_many_connections(),
            None => live < MAX_CONNECTIONS,
        },
{
    if live >= MAX_CONNECTIONS {
        Some(
            Response::error(
                503,
                "too_many_connections",
                "too many concurrent connections; retry shortly",
            ),
        )
    } else {
        None
    }
}

pub open spec fn too_many_streams() -> ResponseV {
    error_of(503, "too_many_streams"@, "too many concurrent streams; close one and retry"@)
}

/// Whether one more stream is served beside `live` ones, or how it is answered.
pub fn admit_stream(live: usize) -> (r: Option<Response>)
    ensures
        match r {
            Some(x) => live >= MAX_STREAMS && x@ == too_many_streams(),
            None => live < MAX_STREAMS,
        },
{
    if live >= MAX_STREAMS {
        Some(
            Response::error(
                503,
                "too_many_streams",
                "too many concurrent streams; close one and retry",
            ),
        )
    } else {
        None
    }
}

// ------------------------------------------------------------ on the wire

/// The words beside a status.
pub open spec fn reason_text(status: u16) -> Seq<char> {
    if status == 200 {
        "OK"@
    } else if status == 202 {
        "Accepted"@
    } else if status == 400 {
        "Bad Request"@
    } else if status == 404 {
        "Not Found"@
    } else if status == 405 {
        "Method Not Allowed"@
    } else if status == 411 {
        "Length Required"@
    } else if status == 413 {
        "Payload Too Large"@
    } else if status == 422 {
        "Unprocessable Entity"@
    } else if status == 431 {
        "Request Header Fields Too Large"@
    } else if status == 503 {
        "Service Unavailable"@
    } else {
        "OK"@
    }
}

pub fn reason_phrase(status: u16) -> (r: &'static str)
    ensures
        r@ == reason_text(status),
{
    match status {
        200 => "OK",
        202 => "Accepted",
        400 => "Bad Request",
        404 => "Not Found",
        405 => "Method Not Allowed",
        411 => "Length Required",
        413 => "Payload Too Large",
        422 => "Unprocessable Entity",
        431 => "Request Header Fields Too Large",
        503 => "Service Unavailable",
        _ => "OK",
    }
}

/// A response's status line and headers, for a body of some bytes. No headers for
/// other origins: a page elsewhere must not be able to drive someone's house.
pub open spec fn head_text(status: u16, length: nat) -> Seq<char> {
    "HTTP/1.1 "@ + decimal(status as nat) + " "@ + reason_text(status)
        + "\r\nContent-Type: application/json\r\nContent-Length: "@ + decimal(length)
        + "\r\nConnection: close\r\n\r\n"@
}

/// A whole response: its head, then its body.
pub open spec fn response_text(r: ResponseV) -> Seq<char> {
    head_text(r.status, encode_utf8(json_text(r.value)).len()) + json_text(r.value)
}

/// A whole response as it is written to the connection.
pub fn write_response(response: &Response) -> (r: String)
    ensures
        r@ == response_text(response@),
{
    let body = write_json(&response.value);
    let status = decimal_text(response.status as u64);
    let length = decimal_text(body.as_str().as_bytes().len() as u64);
    let mut out = cat5(
        "HTTP/1.1 ",
        status.as_str(),
        " ",
        reason_phrase(response.status),
        "\r\nContent-Type: application/json\r\nContent-Length: ",
    );
    out.append(length.as_str());
    out.append("\r\nConnection: close\r\n\r\n");
    out.append(body.as_str());
    out
}

/// The head of a stream: it has no length, for it has no end.
pub fn stream_head() -> (r: &'static str)
    ensures
        r@
            == "HTTP/1.1 200 OK\r\nContent-Type: text/event-stream\r\nCache-Control: no-cache\r\nConnection: keep-alive\r\n\r\n"@,
{
    "HTTP/1.1 200 OK\r\nContent-Type: text/event-stream\r\nCache-Control: no-cache\r\nConnection: keep-alive\r\n\r\n"
}

/// Frames one after another.
pub open spec fn frames_text(frames: Seq<FrameV>) -> Seq<char>
    decreases frames.len(),
{
    if frames.len() == 0 {
        Seq::empty()
    } else {
        frames_text(frames.drop_last()) + encoded(frames.last())
    }
}

/// What a batch puts on the wire: a lagged notice *before* the frames that followed
/// the gap; a comment when idle, so that a dead peer becomes a write error; nothing
/// more at the end.
pub open spec fn batch_text(b: BatchV) -> Option<Seq<char>> {
    match b {
        BatchV::Frames { frames, lagged } => Some(
            (if lagged {
                encoded(lagged_frame_of())
            } else {
                Seq::empty()
            }) + frames_text(frames),
        ),
        BatchV::Idle => Some(": keepalive\n\n"@),
        BatchV::Done => None,
    }
}

/// What to write for a batch, or `None` to end the stream.
pub fn write_batch(batch: &Batch) -> (r: Option<String>)
    ensures
        match r {
            Some(s) => batch_text(batch@) == Some(s@),
            None => batch_text(batch@) is None,
        },
{
    match batch {
        Batch::Done => None,
        Batch::Idle => Some(": keepalive\n\n".to_owned()),
        Batch::Frames { frames, lagged } => {
            let mut out = String::new();
            if *lagged {
                let notice = lagged_frame().encode();
                out.append(notice.as_str());
            }
            let ghost head = out@;
            let ghost all = super::stream::frame_views(frames@);
            proof {
                assert(head =~= (if *lagged {
                    encoded(lagged_frame_of())
                } else {
                    Seq::empty()
                }));
                assert(head + frames_text(all.take(0)) =~= head);
            }
            let mut i: usize = 0;
            while i < frames.len()
                invariant
                    i <= frames@.len(),
                    all == super::stream::frame_views(frames@),
                    out@ == head + frames_text(all.take(i as int)),
                decreases frames@.len() - i,
            {
                let text = frames[i].encode();
                let ghost before = out@;
                out.append(text.as_str());
                proof {
                    assert(all.take(i + 1).drop_last() =~= all.take(i as int));
                    assert(all.take(i + 1).last() == frames@[i as int]@);
                    assert(out@ =~= head + frames_text(all.take(i + 1)));
                }
                i += 1;
            }
            assert(all.take(i as int) =~= all);
            Some(out)
        },
    }
}

// ------------------------------------------------------------ where it listens

/// Whether an address is a loopback address.
pub open spec fn loopback(a: IfAddress) -> bool {
    match a {
        IfAddress::V4(ip) => ip / 0x100_0000 == 127,
        IfAddress::V6(ip) => ip == 1,
    }
}

/// Whether an address is the wildcard.
pub open spec fn unspecified(a: IfAddress) -> bool {
    match a {
        IfAddress::V4(ip) => ip == 0,
        IfAddress::V6(ip) => ip == 0,
    }
}

/// Whether a server bound to `addr` is reachable from this machine alone: by its
/// address, or because its host name resolves to loopback addresses only. A wildcard
/// is reachable from the network.
pub open spec fn stays_local(addr: IfAddress, resolved: Option<Seq<IfAddress>>) -> bool {
    if loopback(addr) {
        true
    } else if unspecified(addr) {
        false
    } else {
        resolved is Some && all_loopback(resolved->0)
    }
}

pub open spec fn all_loopback(all: Seq<IfAddress>) -> bool {
    forall|i: int| 0 <= i < all.len() ==> loopback(#[trigger] all[i])
}

fn loops_back(a: IfAddress) -> (r: bool)
    ensures
        r == loopback(a),
{
    match a {
        IfAddress::V4(ip) => ip / 0x100_0000 == 127,
        IfAddress::V6(ip) => ip == 1,
    }
}

fn all_loop_back(all: &Vec<IfAddress>) -> (r: bool)
    ensures
        r == all_loopback(all@),
{
    let mut i: usize = 0;
    while i < all.len()
        invariant
            i <= all@.len(),
            forall|j: int| 0 <= j < i ==> loopback(#[trigger] all@[j]),
        decreases all@.len() - i,
    {
        if !loops_back(all[i]) {
            assert(!loopback(all@[i as int]));
            return false;
        }
        i += 1;
    }
    true
}

/// Whether a server bound to `addr`, whose host name resolves to `resolved`, is
/// reachable from this machine alone.
pub fn is_loopback(addr: IfAddress, resolved: Option<&Vec<IfAddress>>) -> (r: bool)
    ensures
        r == stays_local(
            addr,
            match resolved {
                Some(all) => Some(all@),
                None => None,
            },
        ),
{
    if loops_back(addr) {
        return true;
    }
    let wildcard = match addr {
        IfAddress::V4(ip) => ip == 0,
        IfAddress::V6(ip) => ip == 0,
    };
    if wildcard {
        return false;
    }
    match resolved {
        None => false,
        Some(all) => all_loop_back(all),
    }
}

// ------------------------------------------------------------ laws

/// Once a token is configured, no route is reachable without it: whatever does not
/// carry it as a bearer credential is answered `401` or `403`, and asks nothing of
/// the engine.
pub proof fn token_guards_every_route(dir: DirectoryV, m: MirrorV, token: Seq<char>, q: RequestV)
    requires
        !(q.authorization matches Some(h) && split_at_space(h) matches Some((scheme, rest))
            && lowercase(scheme) == lowercase("bearer"@) && trimmed(rest) == token),
    ensures
        served(dir, m, Some(token), q) matches ServedV::Routed(RoutedV::Reply(r)) && (r.status
            == 401 || r.status == 403),
{
}

/// With the token, every route answers as it would with none configured.
pub proof fn token_opens_every_route(
    dir: DirectoryV,
    m: MirrorV,
    token: Seq<char>,
    q: RequestV,
    scheme: Seq<char>,
    rest: Seq<char>,
)
    requires
        q.authorization matches Some(h) && split_at_space(h) == Some((scheme, rest)),
        lowercase(scheme) == lowercase("bearer"@),
        trimmed(rest) == token,
    ensures
        served(dir, m, Some(token), q) == served(dir, m, None, q),
{
}

/// Whether a head is inside the caps of its section.
pub open spec fn capped(h: HeadV) -> bool {
    h.lines < MAX_HEADER_LINES && h.bytes <= MAX_HEADER_BYTES
}

/// The work before a body is bounded: a head never holds more lines or bytes than its
/// section may, and a body is never longer than the largest accepted.
pub proof fn heads_stay_capped(h: HeadV, line: Option<Seq<char>>)
    requires
        capped(h),
    ensures
        begun(line) matches Ok(first) ==> capped(first),
        match advanced(h, line) {
            StepV::More(next) => capped(next) && next.lines == h.lines + 1,
            StepV::Body(_, n) => n <= MAX_BODY,
            StepV::Refused(r) => r.status == 400 || r.status == 411 || r.status == 413 || r.status
                == 431,
        },
{
}

} // verus!
