use qmux_endpoint::http09::path_of_text;
use qmux_endpoint::http09::request_bytes;
use qmux_endpoint::http09::request_path;
use qmux_endpoint::http09::Requests;
use qmux_endpoint::responder::FlushStep;
use qmux_endpoint::responder::Responder;
use qmux_endpoint::responder::WriteOutcome;

/// Writes with at most `window` bytes at a time until nothing can be written,
/// and gives back the pieces that were taken.
fn flush(responder: &mut Responder, window: usize) -> Vec<(u64, Vec<u8>, bool)> {
    let mut pieces = Vec::new();
    loop {
        responder.advance();
        let (piece, n) = match responder.due() {
            None => return pieces,
            Some(w) => {
                let n = if w.data.len() < window { w.data.len() } else { window };
                ((w.stream_id, w.data[..n].to_vec(), w.fin), n)
            },
        };
        pieces.push(piece);
        assert_eq!(responder.on_write(WriteOutcome::Accepted(n)), FlushStep::Continue);
    }
}

#[test]
fn request_line() {
    assert_eq!(request_bytes("/index.html"), b"GET /index.html\r\n".to_vec());
    assert_eq!(request_bytes("/"), b"GET /\r\n".to_vec());
}

#[test]
fn server_finds_the_path() {
    assert_eq!(request_path(b"GET /index.html\r\n"), "/index.html");
    assert_eq!(request_path(b"GET   /a b  \r\n"), "/a b");
    assert_eq!(request_path(b"GET /no-line-break"), "/no-line-break");
    assert_eq!(request_path(b"GET \r\n"), "");
    assert_eq!(request_path(&request_bytes("/a/b/c")), "/a/b/c");
}

#[test]
fn other_requests_ask_for_the_root() {
    assert_eq!(request_path(b""), "/");
    assert_eq!(request_path(b"GET"), "/");
    assert_eq!(request_path(b"get /x\r\n"), "/");
    assert_eq!(request_path(b"POST /x\r\n"), "/");
    assert_eq!(path_of_text("HEAD /x"), "/");
}

#[test]
fn bytes_that_are_not_text_are_replaced() {
    assert_eq!(request_path(b"GET /\xff\r\n"), "/\u{fffd}");
    assert_eq!(request_path("GET /\u{e9}\r\n".as_bytes()), "/\u{e9}");
}

#[test]
fn request_is_complete_at_a_line_break() {
    let mut requests = Requests::new();
    assert_eq!(requests.on_data(0, b"GET /a\r\n", false), Some(b"GET /a\r\n".to_vec()));
}

#[test]
fn request_is_complete_at_the_end_of_the_stream() {
    let mut requests = Requests::new();
    assert_eq!(requests.on_data(0, b"GET /a", false), None);
    assert_eq!(requests.on_data(0, b"", true), Some(b"GET /a".to_vec()));
    assert_eq!(requests.on_data(4, b"", true), Some(vec![]));
}

#[test]
fn pieces_make_a_request() {
    let mut requests = Requests::new();
    for piece in [&b"G"[..], &b"ET /so"[..], &b"me/file"[..], &b"\r"[..]] {
        assert_eq!(requests.on_data(8, piece, false), None);
    }
    assert_eq!(requests.on_data(8, b"\n", false), Some(b"GET /some/file\r\n".to_vec()));
}

#[test]
fn streams_do_not_mix() {
    let mut requests = Requests::new();
    assert_eq!(requests.on_data(0, b"GET /a", false), None);
    assert_eq!(requests.on_data(4, b"GET /b\r\n", true), Some(b"GET /b\r\n".to_vec()));
    assert_eq!(requests.on_data(0, b"\r\n", true), Some(b"GET /a\r\n".to_vec()));
}

#[test]
fn closing_after_a_request_is_no_request() {
    let mut requests = Requests::new();
    assert!(requests.on_data(0, b"GET /a\r\n", false).is_some());
    assert_eq!(requests.on_data(0, b"", true), None);
}

#[test]
fn another_line_on_a_stream_is_another_request() {
    let mut requests = Requests::new();
    assert_eq!(requests.on_data(0, b"GET /a\r\n", false), Some(b"GET /a\r\n".to_vec()));
    assert_eq!(requests.on_data(0, b"GET /b\r\n", true), Some(b"GET /b\r\n".to_vec()));
}

#[test]
fn response_is_written_then_finished() {
    let mut responder = Responder::new();
    responder.queue_response(0, b"hello world".to_vec());
    let pieces = flush(&mut responder, 4);
    assert_eq!(
        pieces,
        vec![
            (0, b"hell".to_vec(), false),
            (0, b"o wo".to_vec(), false),
            (0, b"rld".to_vec(), false),
            (0, vec![], true),
        ]
    );
    responder.advance();
    assert!(responder.due().is_none());
}

#[test]
fn empty_response_is_finished_at_once() {
    let mut responder = Responder::new();
    responder.queue_response(4, vec![]);
    assert_eq!(flush(&mut responder, 10), vec![(4, vec![], true)]);
}

#[test]
fn responses_are_written_one_after_the_other() {
    let mut responder = Responder::new();
    responder.queue_response(8, vec![1; 3]);
    responder.queue_response(0, vec![2; 2]);
    responder.queue_response(4, vec![3; 1]);
    let pieces = flush(&mut responder, 2);
    let order: Vec<(u64, usize, bool)> = pieces.iter().map(|p| (p.0, p.1.len(), p.2)).collect();
    assert_eq!(
        order,
        vec![
            (8, 2, false),
            (8, 1, false),
            (8, 0, true),
            (0, 2, false),
            (0, 0, true),
            (4, 1, false),
            (4, 0, true),
        ]
    );
}

#[test]
fn blocked_write_is_taken_up_again() {
    let mut responder = Responder::new();
    responder.queue_response(0, b"abcdef".to_vec());
    responder.queue_response(4, b"x".to_vec());
    responder.advance();
    assert_eq!(responder.on_write(WriteOutcome::Accepted(2)), FlushStep::Continue);
    responder.advance();
    assert_eq!(responder.on_write(WriteOutcome::Blocked), FlushStep::Stop);
    assert_eq!(responder.on_write(WriteOutcome::Accepted(0)), FlushStep::Stop);
    responder.advance();
    {
        let due = responder.due().unwrap();
        assert_eq!((due.stream_id, due.data, due.fin), (0, &b"cdef"[..], false));
    }
    assert_eq!(
        flush(&mut responder, 100),
        vec![
            (0, b"cdef".to_vec(), false),
            (0, vec![], true),
            (4, b"x".to_vec(), false),
            (4, vec![], true),
        ]
    );
}

#[test]
fn end_of_stream_can_be_blocked_too() {
    let mut responder = Responder::new();
    responder.queue_response(0, b"a".to_vec());
    responder.advance();
    assert_eq!(responder.on_write(WriteOutcome::Accepted(1)), FlushStep::Continue);
    assert!(responder.due().unwrap().fin);
    assert_eq!(responder.on_write(WriteOutcome::Blocked), FlushStep::Stop);
    responder.advance();
    assert!(responder.due().unwrap().fin);
    // The end of a stream is no byte.
    assert_eq!(responder.on_write(WriteOutcome::Accepted(0)), FlushStep::Continue);
    responder.advance();
    assert!(responder.due().is_none());
}

#[test]
fn failed_write_fails_the_flush() {
    let mut responder = Responder::new();
    assert_eq!(responder.on_write(WriteOutcome::Failed), FlushStep::Stop);
    responder.queue_response(0, b"a".to_vec());
    responder.advance();
    assert_eq!(responder.on_write(WriteOutcome::Failed), FlushStep::Fail);
    responder.on_write(WriteOutcome::Accepted(1));
    assert_eq!(responder.on_write(WriteOutcome::Failed), FlushStep::Fail);
}

#[test]
fn response_that_is_queued_meanwhile_waits() {
    let mut responder = Responder::new();
    responder.queue_response(0, b"abcd".to_vec());
    responder.advance();
    responder.on_write(WriteOutcome::Accepted(1));
    responder.queue_response(4, b"z".to_vec());
    responder.advance();
    assert_eq!(responder.due().unwrap().stream_id, 0);
    let pieces = flush(&mut responder, 100);
    assert_eq!(pieces[0], (0, b"bcd".to_vec(), false));
    assert_eq!(pieces[2], (4, b"z".to_vec(), false));
}

#[test]
fn second_response_for_a_stream_replaces_the_first() {
    let mut responder = Responder::new();
    responder.queue_response(0, b"first".to_vec());
    responder.queue_response(0, b"second".to_vec());
    assert_eq!(flush(&mut responder, 100), vec![(0, b"second".to_vec(), false), (0, vec![], true)]);
}

#[test]
fn stream_without_bytes_is_answered_once() {
    let mut requests = Requests::new();
    assert_eq!(requests.on_data(0, b"", false), None);
    assert_eq!(requests.on_data(0, b"", true), Some(vec![]));
    assert_eq!(request_path(&[]), "/");
    assert_eq!(requests.on_data(0, b"", true), None);
    assert_eq!(requests.on_data(0, b"GET /b\r\n", false), Some(b"GET /b\r\n".to_vec()));
}
