use worker_pool::http::{response, route, Route};

#[test]
fn root_request_gets_home() {
    let r = route("GET / HTTP/1.1");
    assert_eq!(r, Route::Home);
    assert_eq!(r.status_line(), "HTTP/1.1 200 OK");
    assert_eq!(r.filename(), "index.html");
    assert!(!r.delays());
}

#[test]
fn sleep_request_gets_delayed_home() {
    let r = route("GET /sleep HTTP/1.1");
    assert_eq!(r, Route::SlowHome);
    assert_eq!(r.status_line(), "HTTP/1.1 200 OK");
    assert_eq!(r.filename(), "index.html");
    assert!(r.delays());
}

#[test]
fn other_requests_get_not_found() {
    for line in ["GET /other HTTP/1.1", "", "GET / HTTP/1.0", "get / HTTP/1.1", "GET / HTTP/1.1 "] {
        let r = route(line);
        assert_eq!(r, Route::Missing);
        assert_eq!(r.status_line(), "HTTP/1.1 404 NOT FOUND");
        assert_eq!(r.filename(), "error.html");
        assert!(!r.delays());
    }
}

#[test]
fn response_frames_body() {
    let r = response("HTTP/1.1 200 OK", "hello");
    assert_eq!(r, b"HTTP/1.1 200 OK\r\nContent-Length: 5\r\n\r\nhello".to_vec());
}

#[test]
fn response_counts_bytes_not_chars() {
    let r = response("HTTP/1.1 404 NOT FOUND", "<p>caf\u{e9} 404</p>");
    let mut expected = b"HTTP/1.1 404 NOT FOUND\r\nContent-Length: 16\r\n\r\n".to_vec();
    expected.extend_from_slice("<p>caf\u{e9} 404</p>".as_bytes());
    assert_eq!(r, expected);
}

#[test]
fn response_with_empty_body() {
    let r = response("HTTP/1.1 200 OK", "");
    assert_eq!(r, b"HTTP/1.1 200 OK\r\nContent-Length: 0\r\n\r\n".to_vec());
}
