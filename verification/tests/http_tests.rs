use dms_name_matching::http::{
    decimal_string, default_history_limit, find_bytes, history_limit, parse_request_text,
    parse_usize, reason_phrase, response_head, route_for, split_crlf, text_response, ReadStep,
    RequestError, RequestReader, Route, MAX_BODY, MAX_HEADER,
};

fn chars(s: &str) -> Vec<char> {
    s.chars().collect()
}

#[test]
fn finds_first_occurrence() {
    assert_eq!(find_bytes(b"GET / HTTP/1.1\r\n\r\nbody\r\n\r\n", b"\r\n\r\n"), Some(14));
    assert_eq!(find_bytes(b"abc", b"abcd"), None);
    assert_eq!(find_bytes(b"aaab", b"ab"), Some(2));
    assert_eq!(find_bytes(b"", b"a"), None);
}

#[test]
fn splits_on_crlf_like_str_split() {
    for text in ["a\r\nb\r\n\r\n", "", "no break", "\r\n", "x\ry\r\n\nz"] {
        let expected: Vec<Vec<char>> = text.split("\r\n").map(chars).collect();
        assert_eq!(split_crlf(&chars(text)), expected);
    }
}

#[test]
fn parses_unsigned_like_str_parse() {
    for text in ["0", "42", "+7", "", "+", "-1", "12a", "007", "18446744073709551615", "18446744073709551616", " 1", "++1"] {
        assert_eq!(parse_usize(&chars(text)), text.parse::<usize>().ok(), "input {text:?}");
    }
}

#[test]
fn reads_request_head() {
    let head = parse_request_text("POST /api/db/test?x=1 HTTP/1.1\r\nHost: a\r\ncontent-LENGTH : 12 \r\n\r\n");
    assert_eq!(head.method, "POST");
    assert_eq!(head.path, "/api/db/test");
    assert_eq!(head.content_length, 12);
    let bare = parse_request_text("\r\n\r\n");
    assert_eq!((bare.method.as_str(), bare.path.as_str(), bare.content_length), ("", "/", 0));
    let bad = parse_request_text("GET / HTTP/1.1\r\nContent-Length: 5\r\nContent-Length: x\r\n\r\n");
    assert_eq!(bad.content_length, 0);
    let last = parse_request_text("GET / HTTP/1.1\r\nContent-Length: x\r\nContent-Length: 9\r\n\r\n");
    assert_eq!(last.content_length, 9);
}

#[test]
fn reader_assembles_split_requests() {
    let mut r = RequestReader::new();
    assert!(matches!(r.feed(b"POST /api/history HTTP/1.1\r\nContent-"), ReadStep::ReadMore));
    assert!(matches!(r.feed(b"Length: 5\r\n\r\nab"), ReadStep::ReadMore));
    match r.feed(b"cdeEXTRA") {
        ReadStep::Done(req) => {
            assert_eq!(req.method, "POST");
            assert_eq!(req.path, "/api/history");
            assert_eq!(req.body, b"abcde".to_vec());
        }
        _ => panic!("request not complete"),
    }
}

#[test]
fn reader_completes_in_one_chunk() {
    let mut r = RequestReader::new();
    match r.feed(b"GET /app.js HTTP/1.1\r\n\r\n") {
        ReadStep::Done(req) => {
            assert_eq!(req.path, "/app.js");
            assert!(req.body.is_empty());
        }
        _ => panic!("request not complete"),
    }
}

#[test]
fn reader_failures() {
    let mut r = RequestReader::new();
    assert!(matches!(r.feed(b""), ReadStep::Failed(RequestError::ClosedBeforeHeaders)));
    let mut r = RequestReader::new();
    let big = vec![b'a'; MAX_HEADER + 1];
    assert!(matches!(r.feed(&big), ReadStep::Failed(RequestError::HeadersTooLarge)));
    let mut r = RequestReader::new();
    assert!(matches!(r.feed(b"GET / HTTP/1.1\r\nX: \xff\r\n\r\n"), ReadStep::Failed(RequestError::InvalidHeaderEncoding)));
    let mut r = RequestReader::new();
    let head = format!("POST / HTTP/1.1\r\nContent-Length: {}\r\n\r\n", MAX_BODY + 1);
    assert!(matches!(r.feed(head.as_bytes()), ReadStep::Failed(RequestError::BodyTooLarge)));
    let mut r = RequestReader::new();
    assert!(matches!(r.feed(b"POST / HTTP/1.1\r\nContent-Length: 4\r\n\r\nab"), ReadStep::ReadMore));
    assert!(matches!(r.feed(b""), ReadStep::Failed(RequestError::IncompleteBody)));
    assert_eq!(RequestError::IncompleteBody.message(), "Incomplete HTTP request body");
}

#[test]
fn routes_by_method_and_path() {
    assert_eq!(route_for("GET", "/"), Route::Index);
    assert_eq!(route_for("GET", "/index.html"), Route::Index);
    assert_eq!(route_for("POST", "/api/job/resume"), Route::JobResume);
    assert_eq!(route_for("GET", "/api/job/resume"), Route::NotFound);
    assert_eq!(route_for("POST", "/"), Route::NotFound);
    assert_eq!(route_for("GET", "/api/bootstrap"), Route::Bootstrap);
}

#[test]
fn writes_response_heads() {
    assert_eq!(decimal_string(0), "0");
    assert_eq!(decimal_string(1234567890), "1234567890");
    assert_eq!(decimal_string(u64::MAX), u64::MAX.to_string());
    assert_eq!(reason_phrase(404), "Not Found");
    assert_eq!(reason_phrase(302), "OK");
    assert_eq!(
        response_head(200, "text/css; charset=utf-8", 42),
        "HTTP/1.1 200 OK\r\nContent-Type: text/css; charset=utf-8\r\nContent-Length: 42\r\nCache-Control: no-store\r\nX-Content-Type-Options: nosniff\r\nConnection: close\r\n\r\n"
    );
    let r = text_response(200, "text/plain", "ñ");
    assert_eq!(r.body, "ñ".as_bytes().to_vec());
    assert_eq!((r.status, r.content_type), (200, "text/plain"));
}

#[test]
fn history_limits() {
    assert_eq!(default_history_limit(), 100);
    assert_eq!(history_limit(0), 1);
    assert_eq!(history_limit(50), 50);
    assert_eq!(history_limit(10_000), 500);
}
