use myfirstclap::handler::{Connection, HandlerStep};
use myfirstclap::http::fixed_response;

fn push(conn: &mut Connection, bytes: &[u8]) {
    conn.push_bytes(&bytes.to_vec());
}

#[test]
fn one_request_gets_the_fixed_response() {
    let mut conn = Connection::new();
    push(&mut conn, b"GET /anything HTTP/1.1\r\nhost: 127.0.0.1:3000\r\n\r\n");
    match conn.next_step() {
        HandlerStep::Respond { response, keep_alive } => {
            assert_eq!(response, fixed_response());
            assert!(keep_alive);
        }
        other => panic!("expected a response, got {:?}", other),
    }
    // Nothing pending afterwards: wait for the next request.
    assert_eq!(conn.next_step(), HandlerStep::NeedMore);
}

#[test]
fn response_never_depends_on_the_request() {
    let requests: [&[u8]; 4] = [
        b"GET / HTTP/1.1\r\n\r\n",
        b"GET /some/deep/path?q=1 HTTP/1.1\r\naccept: */*\r\n\r\n",
        b"DELETE /everything HTTP/1.1\r\nhost: nowhere\r\n\r\n",
        b"POST /data HTTP/1.1\r\ncontent-length: 4\r\n\r\nbody",
    ];
    for req in requests {
        let mut conn = Connection::new();
        push(&mut conn, req);
        match conn.next_step() {
            HandlerStep::Respond { response, .. } => assert_eq!(response, fixed_response()),
            other => panic!("expected a response, got {:?}", other),
        }
    }
}

#[test]
fn malformed_bytes_close_only_their_own_connection() {
    let mut bad = Connection::new();
    let mut good = Connection::new();
    push(&mut bad, b"\x00\x01\x02 not http at all\r\n");
    push(&mut good, b"GET /still/fine HTTP/1.1\r\n\r\n");
    assert_eq!(bad.next_step(), HandlerStep::CloseMalformed);
    match good.next_step() {
        HandlerStep::Respond { response, keep_alive } => {
            assert_eq!(response, fixed_response());
            assert!(keep_alive);
        }
        other => panic!("expected a response, got {:?}", other),
    }
}

#[test]
fn fifty_connections_all_get_the_identical_response() {
    let expected = fixed_response();
    let mut responses: Vec<Vec<u8>> = Vec::new();
    for _ in 0..50 {
        let mut conn = Connection::new();
        push(&mut conn, b"GET /load HTTP/1.1\r\n\r\n");
        match conn.next_step() {
            HandlerStep::Respond { response, .. } => responses.push(response),
            other => panic!("expected a response, got {:?}", other),
        }
    }
    assert_eq!(responses.len(), 50);
    for r in responses {
        assert_eq!(r, expected);
    }
}

#[test]
fn pipelined_requests_get_one_response_each() {
    let mut conn = Connection::new();
    push(&mut conn, b"GET /first HTTP/1.1\r\n\r\nGET /second HTTP/1.1\r\n\r\n");
    for _ in 0..2 {
        match conn.next_step() {
            HandlerStep::Respond { response, keep_alive } => {
                assert_eq!(response, fixed_response());
                assert!(keep_alive);
            }
            other => panic!("expected a response, got {:?}", other),
        }
    }
    assert_eq!(conn.next_step(), HandlerStep::NeedMore);
}

#[test]
fn partial_request_waits_then_serves() {
    let mut conn = Connection::new();
    push(&mut conn, b"GET /slow HTT");
    assert_eq!(conn.next_step(), HandlerStep::NeedMore);
    push(&mut conn, b"P/1.1\r\nhost: x\r\n\r\n");
    match conn.next_step() {
        HandlerStep::Respond { response, .. } => assert_eq!(response, fixed_response()),
        other => panic!("expected a response, got {:?}", other),
    }
}

#[test]
fn connection_close_request_is_served_then_closed() {
    let mut conn = Connection::new();
    push(&mut conn, b"GET /bye HTTP/1.1\r\nconnection: close\r\n\r\n");
    match conn.next_step() {
        HandlerStep::Respond { response, keep_alive } => {
            assert_eq!(response, fixed_response());
            assert!(!keep_alive);
        }
        other => panic!("expected a response, got {:?}", other),
    }
}
