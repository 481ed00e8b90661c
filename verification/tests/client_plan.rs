use qmux_endpoint::client::endpoint;
use qmux_endpoint::client::h3_targets;
use qmux_endpoint::client::http09_stream_id;
use qmux_endpoint::client::keep_waiting;
use qmux_endpoint::client::ClientError;
use qmux_endpoint::client::DataAction;
use qmux_endpoint::client::Http09Downloads;
use qmux_endpoint::client::Target;
use qmux_endpoint::protocol::create_config;
use qmux_endpoint::protocol::protocol_to_serve;
use qmux_endpoint::protocol::tls_write_limit;
use qmux_endpoint::protocol::Limits;
use qmux_endpoint::protocol::Protocol;
use qmux_endpoint::protocol::ServeError;

fn limits() -> Limits {
    Limits {
        max_data: 10_000_000,
        max_stream_data: 1_000_000,
        max_streams_bidi: 100,
        max_streams_uni: 101,
        idle_timeout: 30_000,
        max_record_size: 0,
        max_tls_write: 0,
    }
}

#[test]
fn url_is_taken_apart() {
    let t = Target::parse("https://server4:8443/a/b.bin?x=1#y").unwrap();
    assert_eq!(t.host.as_deref(), Some("server4"));
    assert_eq!(t.port, Some(8443));
    assert_eq!(t.path, "/a/b.bin");
    assert_eq!(t.request_path(), "/a/b.bin");
    let copy = t.clone();
    assert_eq!((copy.host, copy.port, copy.path), (t.host, t.port, t.path));
}

#[test]
fn default_port_is_none() {
    let t = Target::parse("https://example.com:443").unwrap();
    assert_eq!(t.port, None);
    assert_eq!(t.path, "/");
}

#[test]
fn bad_url_is_refused() {
    assert_eq!(Target::parse("/no/scheme").unwrap_err(), "relative URL without a base");
    assert_eq!(Target::parse("https://").unwrap_err(), "empty host");
}

#[test]
fn empty_path_is_the_root() {
    let t = Target::parse("qmux://host").unwrap();
    assert_eq!(t.path, "");
    assert_eq!(t.request_path(), "/");
}

#[test]
fn client_connects_to_the_host_of_the_first_url() {
    let targets = [
        Target::parse("https://one.example/a").unwrap(),
        Target::parse("https://two.example:99/b").unwrap(),
    ];
    let e = endpoint(&targets, None).unwrap();
    assert_eq!(e.host, "one.example");
    assert_eq!(e.address, "one.example:443");
    let e = endpoint(&targets[1..], None).unwrap();
    assert_eq!(e.address, "two.example:99");
    let e = endpoint(&targets, Some("127.0.0.1:4433".to_string())).unwrap();
    assert_eq!(e.host, "one.example");
    assert_eq!(e.address, "127.0.0.1:4433");
}

#[test]
fn client_needs_a_url_with_a_host() {
    let e = endpoint(&[], None).unwrap_err();
    assert_eq!(e, ClientError::NoUrl);
    assert_eq!(e.message(), "at least one URL is required");
    let e = endpoint(&[Target::parse("data:text/plain,Stuff").unwrap()], None).unwrap_err();
    assert_eq!(e, ClientError::MissingHost);
    assert_eq!(e.message(), "missing host");
    assert_eq!(ClientError::HandshakeClosed.message(), "connection closed during handshake");
    assert_eq!(ClientError::Incomplete.message(), "not all HTTP/0.9 responses completed");
    assert_eq!(ClientError::H3Incomplete.message(), "not all HTTP/3 responses completed");
}

#[test]
fn several_urls_or_one_repeated() {
    assert_eq!(h3_targets(3, 7), vec![0, 1, 2]);
    assert_eq!(h3_targets(1, 4), vec![0, 0, 0, 0]);
    assert_eq!(h3_targets(1, 1), vec![0]);
    assert_eq!(h3_targets(1, 0), vec![0]);
}

#[test]
fn http09_streams_are_every_fourth() {
    assert_eq!(http09_stream_id(0), 0);
    assert_eq!(http09_stream_id(1), 4);
    assert_eq!(http09_stream_id(25), 100);
}

#[test]
fn http09_responses_complete() {
    let mut downloads = Http09Downloads::new();
    assert!(downloads.is_done());
    downloads.on_request(0);
    downloads.on_request(4);
    assert!(downloads.is_requested(4));
    assert!(!downloads.is_requested(8));
    assert_eq!(downloads.on_data(0, false), DataAction { write: true, complete: false });
    assert_eq!(downloads.on_data(0, true), DataAction { write: true, complete: true });
    assert_eq!(downloads.on_data(0, false), DataAction { write: false, complete: false });
    assert!(!downloads.is_done());
    downloads.on_data(4, true);
    assert!(downloads.is_done());
}

#[test]
fn client_stops_when_the_peer_is_gone() {
    assert!(keep_waiting(Some(true), true));
    assert!(!keep_waiting(Some(false), false));
    assert!(keep_waiting(None, false));
    assert!(!keep_waiting(None, true));
}

#[test]
fn config_takes_the_limits() {
    let config = create_config(&limits(), false);
    assert_eq!(config.initial_max_data, 10_000_000);
    assert_eq!(config.initial_max_stream_data_bidi_local, 1_000_000);
    assert_eq!(config.initial_max_stream_data_bidi_remote, 1_000_000);
    assert_eq!(config.initial_max_stream_data_uni, 1_000_000);
    assert_eq!(config.initial_max_streams_bidi, 100);
    assert_eq!(config.initial_max_streams_uni, 101);
    assert_eq!(config.max_idle_timeout, 30_000);
    assert_eq!(config.qmux_max_record_size, None);
    assert_eq!(config.dgram_queues, None);
    assert_eq!(tls_write_limit(&limits()), None);
}

#[test]
fn config_with_record_size_and_datagrams() {
    let config =
        create_config(&Limits { max_record_size: 1200, max_tls_write: 77, ..limits() }, true);
    assert_eq!(config.qmux_max_record_size, Some(1200));
    assert_eq!(config.dgram_queues, Some((1000, 1000)));
    assert_eq!(tls_write_limit(&Limits { max_tls_write: 77, ..limits() }), Some(77));
}

#[test]
fn protocols_are_told_apart() {
    assert_eq!(Protocol::H3.alpn(), "h3-qmux");
    assert_eq!(Protocol::Http09.alpn(), "hq-qmux");
    assert_eq!(Protocol::default(), Protocol::H3);
    assert_eq!(protocol_to_serve(Some(Protocol::H3)), Ok(Protocol::H3));
    assert_eq!(protocol_to_serve(Some(Protocol::Http09)), Ok(Protocol::Http09));
    assert_eq!(protocol_to_serve(None), Err(ServeError::AlpnMismatch));
}
