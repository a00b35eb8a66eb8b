//! The HTTP gateway's protocol: how a request is framed line by line, where
//! it is routed, and how a response is headed. Sockets are the caller's.

use vstd::prelude::*;

use crate::text::{
    chars_of, decimal, decimal_text, decimal_value, find_char, first_index, is_blank,
    is_either_case, is_number, matches_either_case, parse_decimal, str_equal, strs, trim_str,
    trimmed, words, words_of,
};
use crate::{KvError, KvErrorView};

verus! {

/// The greatest request body, in bytes, that is read.
pub const MAX_BODY_BYTES: usize = 1_048_576;

/// The method of a request, as far as the gateway tells methods apart.
#[derive(Debug, Copy, Clone, PartialEq, Eq, Structural)]
pub enum Method {
    Get,
    Post,
    Other,
}

/// The method that a word of the request line names.
pub open spec fn method_named(word: Seq<char>) -> Method {
    if word == "GET"@ {
        Method::Get
    } else if word == "POST"@ {
        Method::Post
    } else {
        Method::Other
    }
}

/// The path of a request target: the target up to its first `?`.
pub open spec fn path_of(target: Seq<char>) -> Seq<char> {
    target.take(first_index(target, '?'))
}

/// The method and path of a request line: its first two words; none where
/// it has fewer.
pub open spec fn request_line(line: Seq<char>) -> Option<(Method, Seq<char>)> {
    let w = words(line);
    if w.len() < 2 {
        None
    } else {
        Some((method_named(w[0]), path_of(w[1])))
    }
}

/// Reads the method of a request from its name.
pub fn method_of(word: &str) -> (m: Method)
    ensures
        m == method_named(word@),
{
    if str_equal(word, "GET") {
        Method::Get
    } else if str_equal(word, "POST") {
        Method::Post
    } else {
        Method::Other
    }
}

/// Strips the query from a request target.
pub fn strip_query(target: &str) -> (path: String)
    ensures
        path@ == path_of(target@),
{
    let chars = chars_of(target);
    let at = find_char(&chars, '?');
    String::from_str(target.substring_char(0, at))
}

/// The error for a request that cannot be read.
pub open spec fn malformed(what: Seq<char>) -> KvErrorView {
    KvErrorView::InvalidInput(what)
}

/// Reads method and path from a request line.
pub fn parse_request_line(line: &str) -> (r: Result<(Method, String), KvError>)
    ensures
        match r {
            Ok(head) => request_line(line@) == Some((head.0, head.1@)),
            Err(err) => request_line(line@) is None && err@ == malformed("malformed request line"@),
        },
{
    let w = words_of(line);
    if w.len() < 2 {
        return Err(KvError::InvalidInput(String::from_str("malformed request line")));
    }
    assert(strs(w@)[0] == w@[0]@);
    assert(strs(w@)[1] == w@[1]@);
    Ok((method_of(w[0].as_str()), strip_query(w[1].as_str())))
}

/// What a line of the request head says.
pub enum HeaderLine {
    /// The blank line that ends the head.
    End,
    /// The `Content-Length` field with its value, if that is a number.
    Length(Option<nat>),
    /// Any other line.
    Other,
}

/// What a line after the request line says. A field's name ends at the
/// first colon; name and value are taken without the whitespace around
/// them, the name in either case.
pub open spec fn header_of(line: Seq<char>) -> HeaderLine {
    let colon = first_index(line, ':');
    if trimmed(line).len() == 0 {
        HeaderLine::End
    } else if colon < line.len() && matches_either_case(
        trimmed(line.take(colon)),
        "content-length"@,
        "CONTENT-LENGTH"@,
    ) {
        HeaderLine::Length(decimal_value(trimmed(line.skip(colon + 1))))
    } else {
        HeaderLine::Other
    }
}

/// How far the reading of a request head has come.
#[derive(Debug)]
pub enum Reader {
    /// The request line is awaited.
    RequestLine,
    /// The request line is read; header lines are awaited.
    Headers { method: Method, path: String, length: usize },
}

/// The head of a request, once it is read.
#[derive(Debug)]
pub struct RequestHead {
    pub method: Method,
    pub path: String,
    /// The bytes of the body that follow the head.
    pub body_len: usize,
}

/// What a line leaves: the reading goes on, or the head is complete.
#[derive(Debug)]
pub enum Progress {
    Continue(Reader),
    Complete(RequestHead),
}

/// The models of the reader's states.
pub enum ReaderView {
    RequestLine,
    Headers { method: Method, path: Seq<char>, length: nat },
}

/// The models of the steps of reading.
pub enum ProgressView {
    Continue(ReaderView),
    Complete { method: Method, path: Seq<char>, body_len: nat },
}

impl View for Reader {
    type V = ReaderView;

    open spec fn view(&self) -> ReaderView {
        match *self {
            Reader::RequestLine => ReaderView::RequestLine,
            Reader::Headers { method, path, length } => ReaderView::Headers {
                method,
                path: path@,
                length: length as nat,
            },
        }
    }
}

impl View for Progress {
    type V = ProgressView;

    open spec fn view(&self) -> ProgressView {
        match *self {
            Progress::Continue(reader) => ProgressView::Continue(reader@),
            Progress::Complete(head) => ProgressView::Complete {
                method: head.method,
                path: head.path@,
                body_len: head.body_len as nat,
            },
        }
    }
}

/// The size reported for a body that is over the limit: the announced
/// length, or the greatest `usize` where that is less.
pub open spec fn reported_size(announced: nat) -> nat {
    if announced > usize::MAX {
        usize::MAX as nat
    } else {
        announced
    }
}

/// What a line does to the reading of a request head. The request line
/// gives method and path. A `Content-Length` field gives the length of the
/// body: one that is no number fails the request, one over the limit fails
/// it as too large. The blank line completes the head.
pub open spec fn after_line(reader: ReaderView, line: Seq<char>) -> Result<ProgressView, KvErrorView> {
    match reader {
        ReaderView::RequestLine => match request_line(line) {
            Some((method, path)) => Ok(
                ProgressView::Continue(ReaderView::Headers { method, path, length: 0 }),
            ),
            None => Err(malformed("malformed request line"@)),
        },
        ReaderView::Headers { method, path, length } => match header_of(line) {
            HeaderLine::End => Ok(ProgressView::Complete { method, path, body_len: length }),
            HeaderLine::Other => Ok(ProgressView::Continue(reader)),
            HeaderLine::Length(None) => Err(malformed("invalid Content-Length"@)),
            HeaderLine::Length(Some(n)) => if n > MAX_BODY_BYTES {
                Err(KvErrorView::PayloadTooLarge(reported_size(n)))
            } else {
                Ok(ProgressView::Continue(ReaderView::Headers { method, path, length: n }))
            },
        },
    }
}

/// Takes the next line of a request head.
pub fn read_line(reader: Reader, line: &str) -> (r: Result<Progress, KvError>)
    ensures
        match (r, after_line(reader@, line@)) {
            (Ok(progress), Ok(expected)) => progress@ == expected,
            (Err(err), Err(expected)) => err@ == expected,
            _ => false,
        },
{
    match reader {
        Reader::RequestLine => {
            let (method, path) = parse_request_line(line)?;
            Ok(Progress::Continue(Reader::Headers { method, path, length: 0 }))
        },
        Reader::Headers { method, path, length } => {
            if is_blank(line) {
                return Ok(Progress::Complete(RequestHead { method, path, body_len: length }));
            }
            let chars = chars_of(line);
            let colon = find_char(&chars, ':');
            if colon == chars.len() {
                return Ok(Progress::Continue(Reader::Headers { method, path, length }));
            }
            let name = trim_str(line.substring_char(0, colon));
            proof {
                reveal_strlit("content-length");
                reveal_strlit("CONTENT-LENGTH");
                assert(line@.subrange(0, colon as int) =~= line@.take(colon as int));
                assert(line@.subrange(colon + 1, chars.len() as int) =~= line@.skip(colon + 1));
            }
            if !is_either_case(name, "content-length", "CONTENT-LENGTH") {
                return Ok(Progress::Continue(Reader::Headers { method, path, length }));
            }
            let value = trim_str(line.substring_char(colon + 1, chars.len()));
            match parse_decimal(value) {
                Some(n) => {
                    if n > MAX_BODY_BYTES {
                        Err(KvError::PayloadTooLarge(n))
                    } else {
                        Ok(Progress::Continue(Reader::Headers { method, path, length: n }))
                    }
                },
                None => {
                    if is_number(value) {
                        Err(KvError::PayloadTooLarge(usize::MAX))
                    } else {
                        Err(KvError::InvalidInput(String::from_str("invalid Content-Length")))
                    }
                },
            }
        },
    }
}

/// Where a request goes.
#[derive(Debug, Copy, Clone, PartialEq, Eq, Structural)]
pub enum Route {
    /// `GET /`: the viewer.
    Index,
    /// `GET /data`: all records.
    Data,
    /// `GET /health`.
    Health,
    /// `POST /api/records/upsert`.
    Upsert,
    /// `POST /api/records/delete`.
    Delete,
    /// `POST /api/records/tags/add`.
    TagAdd,
    /// `POST /api/records/tags/remove`.
    TagRemove,
    /// `POST /api/records/ttl/extend`.
    TtlExtend,
    /// `POST /api/tags/rename`.
    TagRename,
    /// `POST /api/tags/delete`.
    TagDelete,
    /// No handler.
    Unknown,
}

/// The routing table.
pub open spec fn route_of(method: Method, path: Seq<char>) -> Route {
    match method {
        Method::Get => if path == "/"@ {
            Route::Index
        } else if path == "/data"@ {
            Route::Data
        } else if path == "/health"@ {
            Route::Health
        } else {
            Route::Unknown
        },
        Method::Post => if path == "/api/records/upsert"@ {
            Route::Upsert
        } else if path == "/api/records/delete"@ {
            Route::Delete
        } else if path == "/api/records/tags/add"@ {
            Route::TagAdd
        } else if path == "/api/records/tags/remove"@ {
            Route::TagRemove
        } else if path == "/api/records/ttl/extend"@ {
            Route::TtlExtend
        } else if path == "/api/tags/rename"@ {
            Route::TagRename
        } else if path == "/api/tags/delete"@ {
            Route::TagDelete
        } else {
            Route::Unknown
        },
        Method::Other => Route::Unknown,
    }
}

/// Finds the handler of a request.
pub fn route(method: Method, path: &str) -> (r: Route)
    ensures
        r == route_of(method, path@),
{
    match method {
        Method::Get => if str_equal(path, "/") {
            Route::Index
        } else if str_equal(path, "/data") {
            Route::Data
        } else if str_equal(path, "/health") {
            Route::Health
        } else {
            Route::Unknown
        },
        Method::Post => if str_equal(path, "/api/records/upsert") {
            Route::Upsert
        } else if str_equal(path, "/api/records/delete") {
            Route::Delete
        } else if str_equal(path, "/api/records/tags/add") {
            Route::TagAdd
        } else if str_equal(path, "/api/records/tags/remove") {
            Route::TagRemove
        } else if str_equal(path, "/api/records/ttl/extend") {
            Route::TtlExtend
        } else if str_equal(path, "/api/tags/rename") {
            Route::TagRename
        } else if str_equal(path, "/api/tags/delete") {
            Route::TagDelete
        } else {
            Route::Unknown
        },
        Method::Other => Route::Unknown,
    }
}

/// The status that reports an error: 404 for what is not found, 413 for a
/// body over the limit, 400 for bad input and bad JSON, 500 for the rest.
pub open spec fn status_code(err: KvErrorView) -> u16 {
    match err {
        KvErrorView::NotFound(_) => 404,
        KvErrorView::PayloadTooLarge(_) => 413,
        KvErrorView::InvalidInput(_) => 400,
        KvErrorView::DataFormat(_) => 400,
        _ => 500,
    }
}

/// The status that reports an error.
pub fn status_of(err: &KvError) -> (status: u16)
    ensures
        status == status_code(err@),
{
    match err {
        KvError::NotFound(_) => 404,
        KvError::PayloadTooLarge(_) => 413,
        KvError::InvalidInput(_) => 400,
        KvError::DataFormat(_) => 400,
        _ => 500,
    }
}

/// The reason phrase of a status.
pub open spec fn reason_of(status: u16) -> Seq<char> {
    if status == 200 {
        "OK"@
    } else if status == 400 {
        "Bad Request"@
    } else if status == 404 {
        "Not Found"@
    } else if status == 413 {
        "Payload Too Large"@
    } else if status == 500 {
        "Internal Server Error"@
    } else {
        "Unknown"@
    }
}

/// The reason phrase of a status.
pub fn reason(status: u16) -> (phrase: &'static str)
    ensures
        phrase@ == reason_of(status),
{
    if status == 200 {
        "OK"
    } else if status == 400 {
        "Bad Request"
    } else if status == 404 {
        "Not Found"
    } else if status == 413 {
        "Payload Too Large"
    } else if status == 500 {
        "Internal Server Error"
    } else {
        "Unknown"
    }
}

/// The head of a response: the status line, the type and length of the
/// body, and the two fields that every response carries, which forbid
/// caching and close the connection.
pub open spec fn head_text(status: u16, content_type: Seq<char>, content_length: nat) -> Seq<char> {
    "HTTP/1.1 "@ + decimal(status as nat) + " "@ + reason_of(status) + "\r\nContent-Type: "@
        + content_type + "\r\nContent-Length: "@ + decimal(content_length)
        + "\r\nCache-Control: no-store\r\nConnection: close\r\n\r\n"@
}

/// Writes the head of a response.
pub fn response_head(status: u16, content_type: &str, content_length: usize) -> (head: String)
    ensures
        head@ == head_text(status, content_type@, content_length as nat),
{
    let mut head = String::from_str("HTTP/1.1 ");
    let code = decimal_text(status as u64);
    head.append(code.as_str());
    head.append(" ");
    head.append(reason(status));
    head.append("\r\nContent-Type: ");
    head.append(content_type);
    head.append("\r\nContent-Length: ");
    let length = decimal_text(content_length as u64);
    head.append(length.as_str());
    head.append("\r\nCache-Control: no-store\r\nConnection: close\r\n\r\n");
    assert(head@ =~= head_text(status, content_type@, content_length as nat));
    head
}

/// The number of bytes of a text in UTF-8, as a `usize` holds it.
pub open spec fn byte_len(s: Seq<char>) -> nat {
    (vstd::utf8::encode_utf8(s).len() as usize) as nat
}

/// A response: status, type of the body, and the body as text.
#[derive(Debug)]
pub struct Response {
    pub status: u16,
    pub content_type: String,
    pub body: String,
}

/// The type of a plain-text body.
pub const TEXT_PLAIN: &'static str = "text/plain; charset=utf-8";

/// The type of a JSON body.
pub const APPLICATION_JSON: &'static str = "application/json";

/// The type of an HTML body.
pub const TEXT_HTML: &'static str = "text/html; charset=utf-8";

impl Response {
    /// A plain-text response.
    pub fn text(status: u16, body: String) -> (r: Response)
        ensures
            r.status == status,
            r.content_type@ == TEXT_PLAIN@,
            r.body@ == body@,
    {
        Response { status, content_type: String::from_str(TEXT_PLAIN), body }
    }

    /// The response to a request that failed: the error's status, and its
    /// message as plain text.
    pub fn for_error(err: &KvError) -> (r: Response)
        ensures
            r.status == status_code(err@),
            r.content_type@ == TEXT_PLAIN@,
            r.body@ == err@.message(),
    {
        Response::text(status_of(err), err.message())
    }

    /// The response to a mutation: its confirmation, or its error.
    pub fn for_outcome(outcome: &Result<String, KvError>) -> (r: Response)
        ensures
            r.content_type@ == TEXT_PLAIN@,
            match *outcome {
                Ok(message) => r.status == 200 && r.body@ == message@,
                Err(err) => r.status == status_code(err@) && r.body@ == err@.message(),
            },
    {
        match outcome {
            Ok(message) => Response::text(200, message.clone()),
            Err(err) => Response::for_error(err),
        }
    }

    /// The response of `GET /health`.
    pub fn health() -> (r: Response)
        ensures
            r.status == 200,
            r.content_type@ == TEXT_PLAIN@,
            r.body@ == "ok\n"@,
    {
        Response::text(200, String::from_str("ok\n"))
    }

    /// The response to a request without a handler.
    pub fn not_found() -> (r: Response)
        ensures
            r.status == 404,
            r.content_type@ == TEXT_PLAIN@,
            r.body@ == "not found\n"@,
    {
        Response::text(404, String::from_str("not found\n"))
    }

    /// The head to send before the body.
    pub fn head(&self) -> (head: String)
        ensures
            head@ == head_text(self.status, self.content_type@, byte_len(self.body@)),
    {
        response_head(self.status, self.content_type.as_str(), self.body.as_str().len())
    }
}

} // verus!
