use kvstore::http::{
    method_of, parse_request_line, read_line, reason, response_head, route, status_of,
    strip_query, Method, Progress, Reader, Response, Route, MAX_BODY_BYTES,
};
use kvstore::KvError;

fn headers(method: Method, path: &str, length: usize) -> Reader {
    Reader::Headers { method, path: path.to_string(), length }
}

fn expect_headers(progress: Progress) -> (Method, String, usize) {
    match progress {
        Progress::Continue(Reader::Headers { method, path, length }) => (method, path, length),
        other => panic!("unexpected: {:?}", other),
    }
}

#[test]
fn method_of_knows_get_and_post() {
    assert_eq!(method_of("GET"), Method::Get);
    assert_eq!(method_of("POST"), Method::Post);
    assert_eq!(method_of("get"), Method::Other);
    assert_eq!(method_of("DELETE"), Method::Other);
    assert_eq!(method_of(""), Method::Other);
}

#[test]
fn strip_query_cuts_at_the_first_question_mark() {
    assert_eq!(strip_query("/data?x=1&y=2"), "/data");
    assert_eq!(strip_query("/data"), "/data");
    assert_eq!(strip_query("/a?b?c"), "/a");
    assert_eq!(strip_query("?x"), "");
    assert_eq!(strip_query(""), "");
}

#[test]
fn request_line_gives_method_and_path() {
    let (method, path) = parse_request_line("GET /data?poll=1 HTTP/1.1\r\n").unwrap();
    assert_eq!(method, Method::Get);
    assert_eq!(path, "/data");
    let (method, path) = parse_request_line("POST /api/records/upsert HTTP/1.1").unwrap();
    assert_eq!(method, Method::Post);
    assert_eq!(path, "/api/records/upsert");
    let (method, path) = parse_request_line("BREW /pot").unwrap();
    assert_eq!(method, Method::Other);
    assert_eq!(path, "/pot");
}

#[test]
fn request_line_with_fewer_than_two_words_is_malformed() {
    for line in ["", "\r\n", "GET", "  GET  \r\n"] {
        match parse_request_line(line) {
            Err(KvError::InvalidInput(message)) => assert_eq!(message, "malformed request line"),
            other => panic!("unexpected: {:?}", other),
        }
    }
}

#[test]
fn reading_starts_with_the_request_line() {
    let (method, path, length) = expect_headers(read_line(Reader::RequestLine, "GET /health HTTP/1.1\r\n").unwrap());
    assert_eq!(method, Method::Get);
    assert_eq!(path, "/health");
    assert_eq!(length, 0);
    assert!(matches!(read_line(Reader::RequestLine, "\r\n"), Err(KvError::InvalidInput(_))));
}

#[test]
fn content_length_is_taken_in_any_case() {
    for line in ["Content-Length: 12\r\n", "content-length:12", "CONTENT-LENGTH:   12   \r\n", " Content-length : 0012\r\n"] {
        let (_, path, length) = expect_headers(read_line(headers(Method::Post, "/p", 0), line).unwrap());
        assert_eq!(path, "/p");
        assert_eq!(length, 12);
    }
}

#[test]
fn other_header_lines_change_nothing() {
    for line in ["Host: localhost\r\n", "X-Content-Length: 5\r\n", "no colon here\r\n", "Content-Length 5\r\n"] {
        let (method, path, length) = expect_headers(read_line(headers(Method::Post, "/p", 7), line).unwrap());
        assert_eq!(method, Method::Post);
        assert_eq!(path, "/p");
        assert_eq!(length, 7);
    }
}

#[test]
fn blank_line_completes_the_head() {
    for line in ["\r\n", "\n", "", "  "] {
        match read_line(headers(Method::Post, "/p", 7), line).unwrap() {
            Progress::Complete(head) => {
                assert_eq!(head.method, Method::Post);
                assert_eq!(head.path, "/p");
                assert_eq!(head.body_len, 7);
            },
            other => panic!("unexpected: {:?}", other),
        }
    }
}

#[test]
fn content_length_that_is_no_number_fails_the_request() {
    for line in ["Content-Length: twelve\r\n", "Content-Length:\r\n", "Content-Length: -1\r\n", "Content-Length: 1 2\r\n"] {
        match read_line(headers(Method::Post, "/p", 0), line) {
            Err(KvError::InvalidInput(message)) => assert_eq!(message, "invalid Content-Length"),
            other => panic!("unexpected: {:?}", other),
        }
    }
}

#[test]
fn body_at_the_limit_is_read_and_over_it_is_too_large() {
    let at_limit = format!("Content-Length: {}\r\n", MAX_BODY_BYTES);
    let (_, _, length) = expect_headers(read_line(headers(Method::Post, "/p", 0), &at_limit).unwrap());
    assert_eq!(length, MAX_BODY_BYTES);
    let over = format!("Content-Length: {}\r\n", MAX_BODY_BYTES + 1);
    match read_line(headers(Method::Post, "/p", 0), &over) {
        Err(KvError::PayloadTooLarge(size)) => assert_eq!(size, MAX_BODY_BYTES + 1),
        other => panic!("unexpected: {:?}", other),
    }
    match read_line(headers(Method::Post, "/p", 0), "Content-Length: 99999999999999999999999999\r\n") {
        Err(KvError::PayloadTooLarge(size)) => assert_eq!(size, usize::MAX),
        other => panic!("unexpected: {:?}", other),
    }
}

#[test]
fn a_whole_head_is_read_line_by_line() {
    let mut reader = Reader::RequestLine;
    let lines = ["POST /api/records/delete?x HTTP/1.1\r\n", "Host: h\r\n", "Content-Length: 11\r\n", "Accept: */*\r\n"];
    for line in lines {
        reader = match read_line(reader, line).unwrap() {
            Progress::Continue(next) => next,
            other => panic!("unexpected: {:?}", other),
        };
    }
    match read_line(reader, "\r\n").unwrap() {
        Progress::Complete(head) => {
            assert_eq!(head.method, Method::Post);
            assert_eq!(head.path, "/api/records/delete");
            assert_eq!(head.body_len, 11);
            assert_eq!(route(head.method, &head.path), Route::Delete);
        },
        other => panic!("unexpected: {:?}", other),
    }
}

#[test]
fn routing_table() {
    assert_eq!(route(Method::Get, "/"), Route::Index);
    assert_eq!(route(Method::Get, "/data"), Route::Data);
    assert_eq!(route(Method::Get, "/health"), Route::Health);
    assert_eq!(route(Method::Post, "/api/records/upsert"), Route::Upsert);
    assert_eq!(route(Method::Post, "/api/records/delete"), Route::Delete);
    assert_eq!(route(Method::Post, "/api/records/tags/add"), Route::TagAdd);
    assert_eq!(route(Method::Post, "/api/records/tags/remove"), Route::TagRemove);
    assert_eq!(route(Method::Post, "/api/records/ttl/extend"), Route::TtlExtend);
    assert_eq!(route(Method::Post, "/api/tags/rename"), Route::TagRename);
    assert_eq!(route(Method::Post, "/api/tags/delete"), Route::TagDelete);
}

#[test]
fn unmatched_routes_are_unknown() {
    assert_eq!(route(Method::Post, "/"), Route::Unknown);
    assert_eq!(route(Method::Post, "/data"), Route::Unknown);
    assert_eq!(route(Method::Get, "/api/records/upsert"), Route::Unknown);
    assert_eq!(route(Method::Get, "/data/"), Route::Unknown);
    assert_eq!(route(Method::Get, ""), Route::Unknown);
    assert_eq!(route(Method::Other, "/"), Route::Unknown);
    assert_eq!(route(Method::Other, "/api/tags/delete"), Route::Unknown);
}

#[test]
fn every_error_has_its_status() {
    assert_eq!(status_of(&KvError::NotFound("k".to_string())), 404);
    assert_eq!(status_of(&KvError::PayloadTooLarge(5)), 413);
    assert_eq!(status_of(&KvError::InvalidInput("m".to_string())), 400);
    assert_eq!(status_of(&KvError::DataFormat("m".to_string())), 400);
    assert_eq!(status_of(&KvError::Io("m".to_string())), 500);
    assert_eq!(status_of(&KvError::Db("m".to_string())), 500);
    assert_eq!(status_of(&KvError::Schema(99)), 500);
    assert_eq!(status_of(&KvError::ConfigFormat("m".to_string())), 500);
    assert_eq!(status_of(&KvError::Time("m".to_string())), 500);
}

#[test]
fn reason_phrases() {
    assert_eq!(reason(200), "OK");
    assert_eq!(reason(400), "Bad Request");
    assert_eq!(reason(404), "Not Found");
    assert_eq!(reason(413), "Payload Too Large");
    assert_eq!(reason(500), "Internal Server Error");
    assert_eq!(reason(418), "Unknown");
}

#[test]
fn response_head_carries_no_store_and_close() {
    assert_eq!(
        response_head(200, "text/plain; charset=utf-8", 3),
        "HTTP/1.1 200 OK\r\nContent-Type: text/plain; charset=utf-8\r\nContent-Length: 3\r\nCache-Control: no-store\r\nConnection: close\r\n\r\n"
    );
    assert_eq!(
        response_head(404, "application/json", 0),
        "HTTP/1.1 404 Not Found\r\nContent-Type: application/json\r\nContent-Length: 0\r\nCache-Control: no-store\r\nConnection: close\r\n\r\n"
    );
}

#[test]
fn health_response() {
    let r = Response::health();
    assert_eq!(r.status, 200);
    assert_eq!(r.body, "ok\n");
    assert_eq!(r.content_type, "text/plain; charset=utf-8");
}

#[test]
fn error_response_is_the_message_as_plain_text() {
    let r = Response::for_error(&KvError::NotFound("x".to_string()));
    assert_eq!(r.status, 404);
    assert_eq!(r.body, "key not found: x");
    assert_eq!(r.content_type, "text/plain; charset=utf-8");
    let r = Response::for_error(&KvError::PayloadTooLarge(2_000_000));
    assert_eq!(r.status, 413);
    assert_eq!(r.body, "payload too large: 2000000");
}

#[test]
fn outcome_response() {
    let ok = Response::for_outcome(&Ok("Stored 'x'.".to_string()));
    assert_eq!(ok.status, 200);
    assert_eq!(ok.body, "Stored 'x'.");
    let bad = Response::for_outcome(&Err(KvError::InvalidInput("key must not be empty".to_string())));
    assert_eq!(bad.status, 400);
    assert_eq!(bad.body, "key must not be empty");
}

#[test]
fn head_counts_the_bytes_of_the_body() {
    let r = Response::text(200, "é世".to_string());
    assert!(r.head().contains("\r\nContent-Length: 5\r\n"));
    let missing = Response::not_found();
    assert_eq!(missing.status, 404);
    assert!(missing.head().starts_with("HTTP/1.1 404 Not Found\r\n"));
    assert!(missing.head().contains("\r\nContent-Length: 10\r\n"));
}
