use qmux_endpoint::client::http09_stream_id;
use qmux_endpoint::client::Http09Downloads;
use qmux_endpoint::client::Target;
use qmux_endpoint::h3::H3Event;
use qmux_endpoint::h3::H3Poll;
use qmux_endpoint::h3::H3Requests;
use qmux_endpoint::h3::ServerAction;
use qmux_endpoint::header;
use qmux_endpoint::http09;
use qmux_endpoint::responder::FlushStep;
use qmux_endpoint::responder::Responder;
use qmux_endpoint::responder::WriteOutcome;
use qmux_endpoint::response::file_response;
use qmux_endpoint::response::route;
use qmux_endpoint::response::stream_bytes_response;
use qmux_endpoint::response::Route;
use qmux_endpoint::text::parse_usize;

const FILES: [(&str, &[u8]); 2] = [("/www/a.bin", b"first file"), ("/www/dir/b.bin", b"second")];

fn answer(path: &str) -> (u16, Vec<u8>) {
    match route(path, "/www") {
        Route::StreamBytes(n) => stream_bytes_response(n),
        Route::File(file) => file_response(
            FILES.iter().find(|(name, _)| *name == file).map(|(_, contents)| contents.to_vec()),
        ),
    }
}

#[test]
fn http09_exchange() {
    let urls = [
        "https://server4:443/a.bin",
        "https://server4:443/dir/b.bin",
        "https://server4:443/missing",
        "https://server4:443/stream-bytes/3",
    ];
    let mut downloads = Http09Downloads::new();
    let mut requests = http09::Requests::new();
    let mut responder = Responder::new();

    for (i, url) in urls.iter().enumerate() {
        let path = Target::parse(url).unwrap().request_path();
        let stream_id = http09_stream_id(i);
        downloads.on_request(stream_id);
        let mut answers = 0;
        // Every byte comes by itself, and the end of the stream too.
        for byte in http09::request_bytes(&path) {
            if let Some(request) = requests.on_data(stream_id, &[byte], false) {
                responder.queue_response(stream_id, answer(&http09::request_path(&request)).1);
                answers += 1;
            }
        }
        assert!(requests.on_data(stream_id, &[], true).is_none());
        assert_eq!(answers, 1);
    }

    let mut files: Vec<Vec<u8>> = vec![Vec::new(); urls.len()];
    loop {
        responder.advance();
        let n = match responder.due() {
            None => break,
            Some(w) => {
                let n = if w.data.len() < 4 { w.data.len() } else { 4 };
                let action = downloads.on_data(w.stream_id, w.fin);
                if action.write {
                    files[(w.stream_id / 4) as usize].extend_from_slice(&w.data[..n]);
                }
                n
            },
        };
        assert_eq!(responder.on_write(WriteOutcome::Accepted(n)), FlushStep::Continue);
    }
    assert!(downloads.is_done());
    assert_eq!(files[0], b"first file".to_vec());
    assert_eq!(files[1], b"second".to_vec());
    assert_eq!(files[2], b"Not Found!\r\n".to_vec());
    assert_eq!(files[3], b"WWW".to_vec());
}

#[test]
fn http3_exchange() {
    let mut requests = H3Requests::new();
    for (stream_id, path) in [(0, "/a.bin"), (4, "/dir/b.bin")] {
        let list = header::request_headers("server4", path);
        let event = H3Event::Headers { list, more_frames: true };
        requests.on_poll(H3Poll::Event { stream_id, event });
    }
    for (stream_id, expected) in [(4, &b"second"[..]), (0, &b"first file"[..])] {
        match requests.on_poll(H3Poll::Event { stream_id, event: H3Event::Finished }) {
            ServerAction::Respond(headers) => {
                let (status, body) = answer(&header::request_path(&headers));
                assert_eq!((status, body.as_slice()), (200, expected));
                let fields = header::response_headers(status, &body);
                let number = |i: usize| parse_usize(std::str::from_utf8(&fields[i].value).unwrap());
                assert_eq!(number(0), Some(200));
                assert_eq!(number(2), Some(expected.len()));
            },
            other => panic!("{:?}", other),
        }
    }
}
