use magnum_tcp::http::HttpSession;

fn answer(request: &[u8]) -> Option<Vec<u8>> {
    HttpSession::new().receive_at(request, 1_700_000_000)
}

fn ok(body: &str) -> Vec<u8> {
    format!(
        "HTTP/1.1 200 OK\r\nContent-Type: text/plain\r\nContent-Length: {}\r\nConnection: close\r\n\r\n{}",
        body.len(),
        body
    )
    .into_bytes()
}

#[test]
fn root_greets() {
    let expected = "HTTP/1.1 200 OK\r\nContent-Type: text/plain\r\nContent-Length: 24\r\nConnection: close\r\n\r\nHello from Magnum-TCP!\r\n";
    assert_eq!(answer(b"GET / HTTP/1.1\r\nHost: x\r\n\r\n").unwrap(), expected.as_bytes());
}

#[test]
fn echo_gives_the_request_headers_back() {
    let request = "GET /echo HTTP/1.1\r\nHost: 192.168.100.2\r\nX-Odd:  kept \r\n\r\n";
    assert_eq!(answer(request.as_bytes()).unwrap(), ok(request));
    let with_more = format!("{request}not a header\r\n\r\n");
    assert_eq!(answer(with_more.as_bytes()).unwrap(), ok(request));
}

#[test]
fn time_is_the_unix_timestamp() {
    assert_eq!(answer(b"GET /time HTTP/1.1\r\n\r\n").unwrap(), ok("1700000000\r\n"));
    let mut session = HttpSession::new();
    assert_eq!(session.receive_at(b"GET /time HTTP/1.0\r\n\r\n", 0).unwrap(), ok("0\r\n"));
}

#[test]
fn time_is_that_of_the_clock() {
    let reply = HttpSession::new().receive(b"GET /time HTTP/1.1\r\n\r\n").unwrap();
    let text = String::from_utf8(reply).unwrap();
    let stamp: u64 = text.rsplit("\r\n\r\n").next().unwrap().trim().parse().unwrap();
    assert!(stamp > 1_600_000_000);
}

#[test]
fn post_gives_the_body_back() {
    let request = b"POST / HTTP/1.1\r\nContent-Length: 25\r\n\r\nhello from the other side";
    assert_eq!(answer(request).unwrap(), ok("hello from the other side"));
    assert_eq!(answer(b"POST / HTTP/1.1\r\n\r\nabc").unwrap(), ok("abc"));
    assert_eq!(answer(b"POST / HTTP/1.1\r\ncontent-LENGTH:\t 2\r\n\r\nabc").unwrap(), ok("ab"));
}

#[test]
fn post_waits_for_its_whole_body() {
    let mut session = HttpSession::new();
    assert!(session.receive_at(b"POST / HTTP/1.1\r\nContent-Le", 1).is_none());
    assert!(session.receive_at(b"ngth: 6\r\n\r", 1).is_none());
    assert!(session.receive_at(b"\nabc", 1).is_none());
    assert_eq!(session.receive_at(b"def", 1).unwrap(), ok("abcdef"));
    assert!(session.receive_at(b"POST / HTTP/1.1\r\n\r\n", 1).is_none());
}

#[test]
fn strange_body_lengths() {
    assert_eq!(answer(b"POST / HTTP/1.1\r\nContent-Length: x\r\n\r\nabc").unwrap(), ok("abc"));
    assert!(answer(b"POST / HTTP/1.1\r\nContent-Length: 99999999999999999999999\r\n\r\nabc").is_none());
    assert!(answer(b"POST / HTTP/1.1\r\nContent-Length: 18446744073709551616\r\n\r\nabc").is_none());
    assert_eq!(answer(b"POST / HTTP/1.1\r\nContent-Length: 0001\r\n\r\nabc").unwrap(), ok("a"));
}

#[test]
fn anything_else_is_not_found() {
    let expected = "HTTP/1.1 404 Not Found\r\nContent-Type: text/plain\r\nContent-Length: 15\r\nConnection: close\r\n\r\n404 Not Found\r\n";
    for request in [
        &b"GET /doesnotexist HTTP/1.1\r\n\r\n"[..],
        b"GET /timer HTTP/1.1\r\n\r\n",
        b"POST /echo HTTP/1.1\r\n\r\n",
        b"HEAD / HTTP/1.1\r\n\r\n",
        b"PUT / HTTP/1.1\r\n\r\n",
        b"DELETE / HTTP/1.1\r\n\r\n",
    ] {
        assert_eq!(answer(request).unwrap(), expected.as_bytes());
    }
}

#[test]
fn headers_have_to_be_complete() {
    assert!(answer(b"GET / HTTP/1.1\r\nHost: x\r\n").is_none());
    assert!(answer(b"GET / HTTP/1.1\r\nHost: x\r\n\n").is_none());
}

#[test]
fn raw_data_comes_back_as_it_is() {
    assert_eq!(answer(b"raw data\n").unwrap(), b"raw data\n");
    assert_eq!(answer(&[0, 1, 2, 255]).unwrap(), &[0, 1, 2, 255]);
    assert!(answer(b"").is_none());
    let mut session = HttpSession::new();
    assert_eq!(session.receive_at(b"one", 0).unwrap(), b"one");
    assert_eq!(session.receive_at(b"two", 0).unwrap(), b"two");
    assert!(session.receive_at(b"", 0).is_none());
    assert_eq!(session.receive(b"three").unwrap(), b"three");
}

#[test]
fn raw_connection_stays_raw() {
    let mut session = HttpSession::new();
    assert!(session.receive_at(b"", 0).is_none());
    let mut echoed = Vec::new();
    for chunk in [&b"raw data\n"[..], b"GET / HTTP/1.1\r\n\r\n", b"", b"\0\xff", b"end"] {
        echoed.extend(session.receive_at(chunk, 0).unwrap_or_default());
    }
    assert_eq!(echoed, b"raw data\nGET / HTTP/1.1\r\n\r\n\0\xffend");
}

#[test]
fn request_is_answered_once() {
    let mut session = HttpSession::new();
    assert!(session.receive_at(b"GET / HTTP/1.1\r\n\r\n", 0).is_some());
    assert!(session.receive_at(b"GET / HTTP/1.1\r\n\r\n", 0).is_none());
    assert!(session.receive_at(b"raw data\n", 0).is_none());
    assert!(session.receive_at(b"", 0).is_none());
}

#[test]
fn cutting_a_request_into_bytes_does_not_matter() {
    let request = b"GET /echo HTTP/1.1\r\nA: b\r\n\r\n";
    let mut session = HttpSession::new();
    assert!(session.receive_at(&request[..4], 0).is_none());
    let mut last = None;
    for b in &request[4..] {
        assert!(last.is_none());
        last = session.receive_at(&[*b], 0);
    }
    assert_eq!(last.unwrap(), answer(request).unwrap());
}
