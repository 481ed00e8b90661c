//! The decisions of an HTTP client and an HTTP server that speak over QMux.
//!
//! QMux carries QUIC streams and datagrams over one byte stream, such as TLS
//! over TCP. This library does no I/O: it says what requests and responses
//! are made of, which files they name, what to write to which stream next,
//! and what to make of what has come. A caller that owns the connection asks
//! it what to do, does it, and reports how it went.
//!
//! The server:
//! - [`server`] says which step is due on a connection;
//! - [`http09`] puts HTTP/0.9 requests together, and [`responder`] writes the
//!   responses one after the other, as flow control lets it
//!   ([`responder_laws`] says what holds over any number of writes);
//! - [`h3`] keeps HTTP/3 requests until they are complete;
//! - [`response`] decides what a request is answered with, and [`path`] which
//!   file that is.
//!
//! The client:
//! - [`fetch`] says which step is due on its connection;
//! - [`client`] says what to fetch, from where, and whether it has come, and
//!   [`h3`] what to do with the events of an HTTP/3 connection.
//!
//! Both: [`exchange_laws`] says what comes of a request, from end to end;
//! [`protocol`], [`header`], [`dgram`], [`varint`] and [`text`].

pub mod client;
pub mod dgram;
pub mod exchange_laws;
pub mod fetch;
pub mod h3;
pub mod header;
pub mod http09;
pub mod path;
pub mod protocol;
pub mod responder;
pub mod responder_laws;
pub mod response;
pub mod server;
pub mod text;
pub mod varint;
