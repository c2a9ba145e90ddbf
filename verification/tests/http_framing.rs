use myfirstclap::http::{check_request, fixed_response, RequestStatus};

fn status_of(bytes: &[u8]) -> RequestStatus {
    check_request(&bytes.to_vec())
}

#[test]
fn get_anything_is_one_complete_request() {
    let req = b"GET /anything HTTP/1.1\r\nhost: 127.0.0.1:3000\r\n\r\n";
    assert_eq!(
        status_of(req),
        RequestStatus::Complete { len: req.len(), keep_alive: true }
    );
}

#[test]
fn fixed_response_is_200_hello_world() {
    let resp = fixed_response();
    assert_eq!(resp, b"HTTP/1.1 200 OK\r\ncontent-length: 12\r\n\r\nHello World!".to_vec());
    assert!(resp.starts_with(b"HTTP/1.1 200 OK"));
    assert!(resp.ends_with(b"Hello World!"));
}

#[test]
fn short_head_is_incomplete() {
    assert_eq!(status_of(b""), RequestStatus::Incomplete);
    assert_eq!(status_of(b"GET / HT"), RequestStatus::Incomplete);
    assert_eq!(status_of(b"GET / HTTP/1.1\r\nhost: x"), RequestStatus::Incomplete);
}

#[test]
fn garbage_request_line_is_malformed() {
    assert_eq!(status_of(b"NOT A REQUEST\r\n\r\n"), RequestStatus::Malformed);
    assert_eq!(status_of(b"\x01\x02 garbage\r\n"), RequestStatus::Malformed);
    assert_eq!(status_of(b"nospaceshere\r\n\r\n"), RequestStatus::Malformed);
    assert_eq!(status_of(b"GET /x\r\n\r\n"), RequestStatus::Malformed);
}

#[test]
fn only_http11_is_accepted() {
    assert_eq!(status_of(b"GET / HTTP/1.0\r\n\r\n"), RequestStatus::Malformed);
    assert_eq!(status_of(b"GET / HTTP/2\r\n\r\n"), RequestStatus::Malformed);
    let ok = b"GET / HTTP/1.1\r\n\r\n";
    assert_eq!(
        status_of(ok),
        RequestStatus::Complete { len: ok.len(), keep_alive: true }
    );
}

#[test]
fn empty_method_or_target_is_malformed() {
    assert_eq!(status_of(b" / HTTP/1.1\r\n\r\n"), RequestStatus::Malformed);
    assert_eq!(status_of(b"GET  HTTP/1.1\r\n\r\n"), RequestStatus::Malformed);
}

#[test]
fn content_length_frames_the_body() {
    let req = b"POST /submit HTTP/1.1\r\ncontent-length: 5\r\n\r\nhello";
    assert_eq!(
        status_of(req),
        RequestStatus::Complete { len: req.len(), keep_alive: true }
    );
    // Body not all there yet.
    assert_eq!(
        status_of(b"POST /submit HTTP/1.1\r\ncontent-length: 5\r\n\r\nhel"),
        RequestStatus::Incomplete
    );
    // Extra bytes beyond the body stay outside the request.
    let two = b"POST /s HTTP/1.1\r\ncontent-length: 2\r\n\r\nokGET";
    assert_eq!(
        status_of(two),
        RequestStatus::Complete { len: two.len() - 3, keep_alive: true }
    );
}

#[test]
fn content_length_name_is_case_insensitive() {
    let req = b"POST /s HTTP/1.1\r\nContent-Length: 3\r\n\r\nabc";
    assert_eq!(
        status_of(req),
        RequestStatus::Complete { len: req.len(), keep_alive: true }
    );
    let req2 = b"POST /s HTTP/1.1\r\nCONTENT-LENGTH: 3\r\n\r\nabc";
    assert_eq!(
        status_of(req2),
        RequestStatus::Complete { len: req2.len(), keep_alive: true }
    );
}

#[test]
fn content_length_value_is_trimmed_and_may_lead_with_zeros() {
    let req = b"POST /s HTTP/1.1\r\ncontent-length:   007  \r\n\r\n1234567";
    assert_eq!(
        status_of(req),
        RequestStatus::Complete { len: req.len(), keep_alive: true }
    );
}

#[test]
fn bad_content_length_is_malformed() {
    assert_eq!(
        status_of(b"POST /s HTTP/1.1\r\ncontent-length: 5x\r\n\r\nhello"),
        RequestStatus::Malformed
    );
    assert_eq!(
        status_of(b"POST /s HTTP/1.1\r\ncontent-length: \r\n\r\nhello"),
        RequestStatus::Malformed
    );
    assert_eq!(
        status_of(b"POST /s HTTP/1.1\r\ncontent-length: 1 2\r\n\r\nhello"),
        RequestStatus::Malformed
    );
    assert_eq!(
        status_of(b"POST /s HTTP/1.1\r\ncontent-length: 99999999999999999999999999\r\n\r\n"),
        RequestStatus::Malformed
    );
}

#[test]
fn first_content_length_wins() {
    let req = b"POST /s HTTP/1.1\r\ncontent-length: 3\r\ncontent-length: 5\r\n\r\nabcde";
    assert_eq!(
        status_of(req),
        RequestStatus::Complete { len: req.len() - 2, keep_alive: true }
    );
}

#[test]
fn connection_close_ends_keep_alive() {
    let req = b"GET / HTTP/1.1\r\nconnection: close\r\n\r\n";
    assert_eq!(
        status_of(req),
        RequestStatus::Complete { len: req.len(), keep_alive: false }
    );
    let shout = b"GET / HTTP/1.1\r\nConnection:  CLOSE \r\n\r\n";
    assert_eq!(
        status_of(shout),
        RequestStatus::Complete { len: shout.len(), keep_alive: false }
    );
    let other = b"GET / HTTP/1.1\r\nconnection: keep-alive\r\n\r\n";
    assert_eq!(
        status_of(other),
        RequestStatus::Complete { len: other.len(), keep_alive: true }
    );
}

#[test]
fn endless_garbage_cannot_buffer_forever() {
    // One byte over the head cap, no line end in sight: give up as malformed.
    let big = vec![b'a'; 8193];
    assert_eq!(check_request(&big), RequestStatus::Malformed);
    // At the cap it is still (just) incomplete.
    let at_cap = vec![b'a'; 8192];
    assert_eq!(check_request(&at_cap), RequestStatus::Incomplete);
}

#[test]
fn overlong_head_with_valid_request_line_is_malformed() {
    let mut buf = b"GET / HTTP/1.1\r\n".to_vec();
    buf.extend_from_slice(&vec![b'h'; 9000]);
    assert_eq!(check_request(&buf), RequestStatus::Malformed);
}

#[test]
fn empty_request_line_is_malformed() {
    assert_eq!(status_of(b"\r\n\r\n"), RequestStatus::Malformed);
}

#[test]
fn body_bytes_never_end_the_head_early() {
    let req = b"POST /s HTTP/1.1\r\ncontent-length: 8\r\n\r\nab\r\n\r\ncd";
    assert_eq!(
        status_of(req),
        RequestStatus::Complete { len: req.len(), keep_alive: true }
    );
}

#[test]
fn header_lines_without_colon_are_passed_over() {
    let req = b"GET / HTTP/1.1\r\nweird line\r\n\r\n";
    assert_eq!(
        status_of(req),
        RequestStatus::Complete { len: req.len(), keep_alive: true }
    );
}
