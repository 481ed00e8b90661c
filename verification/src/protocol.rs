//! The application protocols and how a connection is set up for them.

use vstd::prelude::*;

verus! {

broadcast use vstd::string::group_string_axioms;

/// An application protocol over QMux.
#[derive(Clone, Copy, Debug, PartialEq, Eq, Structural)]
pub enum Protocol {
    /// HTTP/3.
    H3,
    /// HTTP/0.9.
    Http09,
}

/// Why a connection cannot be served.
#[derive(Clone, Copy, Debug, PartialEq, Eq, Structural)]
pub enum ServeError {
    /// No supported protocol was negotiated.
    AlpnMismatch,
    /// The peer went away before the connection was established.
    ConnectionClosed,
}

/// The token by which a protocol is negotiated.
pub open spec fn alpn_token(protocol: Protocol) -> Seq<char> {
    match protocol {
        Protocol::H3 => "h3-qmux"@,
        Protocol::Http09 => "hq-qmux"@,
    }
}

impl Protocol {
    /// The token by which the protocol is negotiated.
    pub fn alpn(&self) -> (r: &'static str)
        ensures
            r@ == alpn_token(*self),
    {
        match self {
            Protocol::H3 => "h3-qmux",
            Protocol::Http09 => "hq-qmux",
        }
    }
}

impl Default for Protocol {
    fn default() -> (r: Self)
        ensures
            r == Protocol::H3,
    {
        Protocol::H3
    }
}

/// The protocol that a connection is served with: the one that was
/// negotiated, and none other in its place.
pub fn protocol_to_serve(negotiated: Option<Protocol>) -> (r: Result<Protocol, ServeError>)
    ensures
        r == match negotiated {
            Some(protocol) => Ok::<Protocol, ServeError>(protocol),
            None => Err::<Protocol, ServeError>(ServeError::AlpnMismatch),
        },
{
    match negotiated {
        Some(protocol) => Ok(protocol),
        None => Err(ServeError::AlpnMismatch),
    }
}

/// The limits that an endpoint is started with; zero stands for no idle
/// timeout, for the default record size and for TLS writes of any size.
#[derive(Clone, Copy, Debug)]
pub struct Limits {
    pub max_data: u64,
    pub max_stream_data: u64,
    pub max_streams_bidi: u64,
    pub max_streams_uni: u64,
    pub idle_timeout: u64,
    pub max_record_size: u64,
    pub max_tls_write: usize,
}

/// How a connection is configured.
#[derive(Clone, Copy, Debug, PartialEq, Eq)]
pub struct TransportConfig {
    pub initial_max_data: u64,
    pub initial_max_stream_data_bidi_local: u64,
    pub initial_max_stream_data_bidi_remote: u64,
    pub initial_max_stream_data_uni: u64,
    pub initial_max_streams_bidi: u64,
    pub initial_max_streams_uni: u64,
    pub max_idle_timeout: u64,
    /// The record size, if it is not the default.
    pub qmux_max_record_size: Option<u64>,
    /// The lengths of the queues for received and sent datagrams, if
    /// datagrams are enabled.
    pub dgram_queues: Option<(usize, usize)>,
}

/// How a connection with the given limits is configured, with datagrams or
/// without.
pub fn create_config(limits: &Limits, datagrams: bool) -> (r: TransportConfig)
    ensures
        r.initial_max_data == limits.max_data,
        r.initial_max_stream_data_bidi_local == limits.max_stream_data,
        r.initial_max_stream_data_bidi_remote == limits.max_stream_data,
        r.initial_max_stream_data_uni == limits.max_stream_data,
        r.initial_max_streams_bidi == limits.max_streams_bidi,
        r.initial_max_streams_uni == limits.max_streams_uni,
        r.max_idle_timeout == limits.idle_timeout,
        r.qmux_max_record_size == if limits.max_record_size > 0 {
            Some(limits.max_record_size)
        } else {
            None
        },
        r.dgram_queues == if datagrams {
            Some((1000usize, 1000usize))
        } else {
            None
        },
{
    TransportConfig {
        initial_max_data: limits.max_data,
        initial_max_stream_data_bidi_local: limits.max_stream_data,
        initial_max_stream_data_bidi_remote: limits.max_stream_data,
        initial_max_stream_data_uni: limits.max_stream_data,
        initial_max_streams_bidi: limits.max_streams_bidi,
        initial_max_streams_uni: limits.max_streams_uni,
        max_idle_timeout: limits.idle_timeout,
        qmux_max_record_size: if limits.max_record_size > 0 {
            Some(limits.max_record_size)
        } else {
            None
        },
        dgram_queues: if datagrams {
            Some((1000, 1000))
        } else {
            None
        },
    }
}

/// The limit for the size of a TLS write, if there is one.
pub fn tls_write_limit(limits: &Limits) -> (r: Option<usize>)
    ensures
        r == if limits.max_tls_write > 0 {
            Some(limits.max_tls_write)
        } else {
            None
        },
{
    if limits.max_tls_write > 0 {
        Some(limits.max_tls_write)
    } else {
        None
    }
}

/// Each protocol is negotiated by a token of its own.
pub proof fn law_alpn_tokens_differ(a: Protocol, b: Protocol)
    ensures
        alpn_token(a) == alpn_token(b) ==> a == b,
{
    reveal_strlit("h3-qmux");
    reveal_strlit("hq-qmux");
    assert("h3-qmux"@[1] != "hq-qmux"@[1]);
}

} // verus!
