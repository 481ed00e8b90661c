use qmux_endpoint::h3::ClientAction;
use qmux_endpoint::h3::H3Downloads;
use qmux_endpoint::h3::H3Event;
use qmux_endpoint::h3::H3Poll;
use qmux_endpoint::h3::H3Requests;
use qmux_endpoint::h3::ServerAction;
use qmux_endpoint::header::format_headers;
use qmux_endpoint::header::request_headers;
use qmux_endpoint::header::request_path;
use qmux_endpoint::header::response_headers;
use qmux_endpoint::header::Header;

fn pairs(headers: &[Header]) -> Vec<(String, String)> {
    headers
        .iter()
        .map(|h| {
            (
                String::from_utf8(h.name.clone()).unwrap(),
                String::from_utf8(h.value.clone()).unwrap(),
            )
        })
        .collect()
}

fn event(stream_id: u64, event: H3Event) -> H3Poll {
    H3Poll::Event { stream_id, event }
}

fn headers_event(stream_id: u64, path: &str) -> H3Poll {
    event(
        stream_id,
        H3Event::Headers { list: request_headers("example.com", path), more_frames: false },
    )
}

#[test]
fn request_fields_in_order() {
    let expected: Vec<(String, String)> = [
        (":method", "GET"),
        (":scheme", "https"),
        (":authority", "example.com"),
        (":path", "/a"),
        ("user-agent", "lucas-qmux-break-rules-and-buy-me-sake/0.1"),
    ]
    .iter()
    .map(|(n, v)| (n.to_string(), v.to_string()))
    .collect();
    assert_eq!(pairs(&request_headers("example.com", "/a")), expected);
}

#[test]
fn response_fields_in_order() {
    let expected: Vec<(String, String)> =
        [(":status", "404"), ("server", "qmux-demo"), ("content-length", "12")]
            .iter()
            .map(|(n, v)| (n.to_string(), v.to_string()))
            .collect();
    assert_eq!(pairs(&response_headers(404, b"Not Found!\r\n")), expected);
    assert_eq!(response_headers(200, b"")[2].value, b"0".to_vec());
}

#[test]
fn path_of_a_request() {
    assert_eq!(request_path(&request_headers("h", "/some/path")), "/some/path");
    assert_eq!(request_path(&[]), "/");
    assert_eq!(request_path(&[Header::new(b":method", b"GET")]), "/");
    let twice = [Header::new(b":path", b"/first"), Header::new(b":path", b"/second")];
    assert_eq!(request_path(&twice), "/first");
    assert_eq!(request_path(&[Header::new(b":path", b"/\xff")]), "/\u{fffd}");
    assert_eq!(request_path(&[Header::new(b":Path", b"/x")]), "/");
}

#[test]
fn headers_as_text() {
    assert_eq!(format_headers(&[]), "");
    assert_eq!(format_headers(&[Header::new(b"a", b"b")]), "a=b");
    let three = [Header::new(b"a", b"b"), Header::new(b"c", b""), Header::new(b"\xff", b"d")];
    assert_eq!(format_headers(&three), "a=b, c=, \u{fffd}=d");
}

#[test]
fn server_answers_when_the_request_is_complete() {
    let mut requests = H3Requests::new();
    assert!(matches!(requests.on_poll(headers_event(0, "/a")), ServerAction::PollAgain));
    assert!(matches!(requests.on_poll(event(0, H3Event::Data)), ServerAction::DrainBody));
    assert!(matches!(requests.on_poll(headers_event(4, "/b")), ServerAction::PollAgain));
    match requests.on_poll(event(0, H3Event::Finished)) {
        ServerAction::Respond(headers) => assert_eq!(request_path(&headers), "/a"),
        other => panic!("{:?}", other),
    }
    match requests.on_poll(event(4, H3Event::Finished)) {
        ServerAction::Respond(headers) => assert_eq!(request_path(&headers), "/b"),
        other => panic!("{:?}", other),
    }
    assert!(matches!(requests.on_poll(event(4, H3Event::Finished)), ServerAction::PollAgain));
}

#[test]
fn server_forgets_a_request_that_is_reset() {
    let mut requests = H3Requests::new();
    requests.on_poll(headers_event(0, "/a"));
    assert!(matches!(requests.on_poll(event(0, H3Event::Reset(7))), ServerAction::PollAgain));
    assert!(matches!(requests.on_poll(event(0, H3Event::Finished)), ServerAction::PollAgain));
}

#[test]
fn server_polls_until_there_is_nothing() {
    let mut requests = H3Requests::new();
    assert!(matches!(requests.on_poll(event(0, H3Event::PriorityUpdate)), ServerAction::PollAgain));
    assert!(matches!(requests.on_poll(event(0, H3Event::GoAway)), ServerAction::StopPolling));
    assert!(matches!(requests.on_poll(H3Poll::Done), ServerAction::StopPolling));
    assert!(matches!(requests.on_poll(H3Poll::Failed), ServerAction::Fail));
}

#[test]
fn client_waits_for_its_streams() {
    let mut downloads = H3Downloads::new();
    assert!(downloads.is_done());
    downloads.on_request(0);
    downloads.on_request(4);
    assert_eq!(downloads.remaining(), 2);
    assert!(!downloads.is_done());
    match downloads.on_poll(headers_event(0, "/a")) {
        ClientAction::ShowHeaders(list) => assert_eq!(request_path(&list), "/a"),
        other => panic!("{:?}", other),
    }
    assert!(matches!(downloads.on_poll(event(0, H3Event::Data)), ClientAction::WriteBody));
    assert!(matches!(downloads.on_poll(event(0, H3Event::Finished)), ClientAction::CloseFile));
    assert_eq!(downloads.remaining(), 1);
    assert!(matches!(downloads.on_poll(event(0, H3Event::Data)), ClientAction::PollAgain));
    assert!(matches!(downloads.on_poll(headers_event(0, "/a")), ClientAction::PollAgain));
    assert!(matches!(downloads.on_poll(event(4, H3Event::Reset(1))), ClientAction::PollAgain));
    assert!(downloads.is_done());
    assert!(!downloads.is_complete());
}

#[test]
fn client_waits_for_nothing_once_the_server_goes_away() {
    let mut downloads = H3Downloads::new();
    downloads.on_request(0);
    downloads.on_request(4);
    assert!(matches!(downloads.on_poll(event(0, H3Event::PriorityUpdate)), ClientAction::PollAgain));
    assert!(!downloads.is_done());
    assert!(matches!(downloads.on_poll(event(0, H3Event::GoAway)), ClientAction::PollAgain));
    assert!(downloads.is_done());
    assert!(!downloads.is_complete());
    downloads.on_poll(event(0, H3Event::Finished));
    downloads.on_poll(event(4, H3Event::Finished));
    assert!(!downloads.is_complete());
    assert!(matches!(downloads.on_poll(H3Poll::Done), ClientAction::StopPolling));
    assert!(matches!(downloads.on_poll(H3Poll::Failed), ClientAction::Fail));
}

#[test]
fn client_has_everything_once_all_streams_are_finished() {
    let mut downloads = H3Downloads::new();
    assert!(downloads.is_complete());
    downloads.on_request(0);
    downloads.on_request(4);
    downloads.on_poll(event(4, H3Event::Finished));
    assert!(!downloads.is_complete());
    // A stream that nothing was asked on does not matter.
    downloads.on_poll(event(8, H3Event::Reset(1)));
    downloads.on_poll(event(0, H3Event::Finished));
    assert!(downloads.is_complete());
    // Nor does what comes after the end.
    downloads.on_poll(event(4, H3Event::Reset(1)));
    downloads.on_poll(event(0, H3Event::GoAway));
    assert!(downloads.is_complete());
}
