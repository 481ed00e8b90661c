//! What a client fetches, from where, and when it is done.

use std::collections::HashMap;

use vstd::prelude::*;
use vstd::string::*;

use crate::text::decimal_string;

verus! {

broadcast use {vstd::string::group_string_axioms, vstd::std_specs::hash::group_hash_axioms};

/// What the client needs of a URL.
#[derive(Debug)]
pub struct Target {
    pub host: Option<String>,
    /// The port, if it is not the default of the scheme.
    pub port: Option<u16>,
    pub path: String,
}

/// What a [`Target`] stands for.
#[verifier::ext_equal]
pub struct TargetView {
    pub host: Option<Seq<char>>,
    pub port: Option<u16>,
    pub path: Seq<char>,
}

/// The text of an optional string.
pub open spec fn optional_text(s: Option<String>) -> Option<Seq<char>> {
    match s {
        Some(s) => Some(s@),
        None => None,
    }
}

impl View for Target {
    type V = TargetView;

    open spec fn view(&self) -> TargetView {
        TargetView { host: optional_text(self.host), port: self.port, path: self.path@ }
    }
}

impl Clone for Target {
    fn clone(&self) -> (r: Self)
        ensures
            r@ == self@,
            r.path@ == self.path@,
            r.port == self.port,
            (r.host is Some) == (self.host is Some),
            self.host matches Some(host) ==> r.host->0@ == host@,
    {
        let host: Option<String> = match &self.host {
            Some(host) => Some(host.clone()),
            None => None,
        };
        Target { host, port: self.port, path: self.path.clone() }
    }
}

/// The host, the port and the path of the URL that `text` is, or the message
/// of the error if it is none, as `url::Url::parse` finds them.
pub uninterp spec fn url_parts(text: Seq<char>) -> Result<
    (Option<Seq<char>>, Option<u16>, Seq<char>),
    Seq<char>,
>;

/// `url::Url::parse`, with `host_str`, `port` and `path` of the URL that it
/// gives, or the message of its error: what these are depends on the text and
/// on nothing else.
#[verifier::external_body]
fn parse_url(text: &str) -> (r: Result<Target, String>)
    ensures
        match r {
            Ok(t) => url_parts(text@) == Ok::<_, Seq<char>>(
                (optional_text(t.host), t.port, t.path@),
            ),
            Err(message) => url_parts(text@) == Err::<
                (Option<Seq<char>>, Option<u16>, Seq<char>),
                Seq<char>,
            >(message@),
        },
{
    match url::Url::parse(text) {
        Ok(url) => Ok(Target {
            host: url.host_str().map(|host| host.to_string()),
            port: url.port(),
            path: url.path().to_string(),
        }),
        Err(e) => Err(e.to_string()),
    }
}

impl Target {
    /// Reads a URL; the error is a message.
    pub fn parse(text: &str) -> (r: Result<Target, String>)
        ensures
            match r {
                Ok(t) => url_parts(text@) == Ok::<_, Seq<char>>(
                    (optional_text(t.host), t.port, t.path@),
                ),
                Err(message) => url_parts(text@) == Err::<
                    (Option<Seq<char>>, Option<u16>, Seq<char>),
                    Seq<char>,
                >(message@),
            },
    {
        parse_url(text)
    }

    /// The path to ask for: never empty.
    pub fn request_path(&self) -> (r: String)
        ensures
            r@ == path_to_request(self@),
            self.path@.len() > 0 ==> r@ == self.path@,
            self.path@.len() == 0 ==> r@ == "/"@,
    {
        if self.path.as_str().is_empty() {
            "/".to_owned()
        } else {
            self.path.clone()
        }
    }
}

/// The path to ask for: an empty path stands for the root.
pub open spec fn path_to_request(target: TargetView) -> Seq<char> {
    if target.path.len() == 0 {
        "/"@
    } else {
        target.path
    }
}

/// Why a client cannot start, or has not got everything.
#[derive(Clone, Copy, Debug, PartialEq, Eq, Structural)]
pub enum ClientError {
    /// There is nothing to fetch.
    NoUrl,
    /// The first URL has no host.
    MissingHost,
    /// The peer went away before the connection was established.
    HandshakeClosed,
    /// Some HTTP/0.9 responses are missing or cut off.
    Incomplete,
    /// Some HTTP/3 responses are missing or cut off.
    H3Incomplete,
}

impl ClientError {
    /// The error in words.
    pub fn message(&self) -> (r: &'static str)
        ensures
            r@ == match *self {
                ClientError::NoUrl => "at least one URL is required"@,
                ClientError::MissingHost => "missing host"@,
                ClientError::HandshakeClosed => "connection closed during handshake"@,
                ClientError::Incomplete => "not all HTTP/0.9 responses completed"@,
                ClientError::H3Incomplete => "not all HTTP/3 responses completed"@,
            },
    {
        match self {
            ClientError::NoUrl => "at least one URL is required",
            ClientError::MissingHost => "missing host",
            ClientError::HandshakeClosed => "connection closed during handshake",
            ClientError::Incomplete => "not all HTTP/0.9 responses completed",
            ClientError::H3Incomplete => "not all HTTP/3 responses completed",
        }
    }
}

/// Where a client connects to.
#[derive(Debug)]
pub struct Endpoint {
    /// The host by name, for TLS and for requests.
    pub host: String,
    /// The address of the TCP connection.
    pub address: String,
}

/// The address to connect to: the one that was given, or else the host with
/// its port, 443 if it has none.
pub open spec fn address_of(
    host: Seq<char>,
    port: Option<u16>,
    connect_to: Option<Seq<char>>,
) -> Seq<char> {
    match connect_to {
        Some(address) => address,
        None => host + ":"@ + crate::text::decimal(
            match port {
                Some(p) => p as nat,
                None => 443nat,
            },
        ),
    }
}

/// Where a client connects to: all URLs are fetched from the host of the
/// first.
pub fn endpoint(targets: &[Target], connect_to: Option<String>) -> (r: Result<
    Endpoint,
    ClientError,
>)
    ensures
        match r {
            Ok(e) => {
                &&& targets@.len() > 0
                &&& targets@[0]@.host == Some(e.host@)
                &&& e.address@ == address_of(
                    e.host@,
                    targets@[0].port,
                    optional_text(connect_to),
                )
                &&& targets@[0].host matches Some(host) && e.host@ == host@
                &&& connect_to matches Some(address) ==> e.address@ == address@
                &&& connect_to is None ==> e.address@ == e.host@ + ":"@ + crate::text::decimal(
                    match targets@[0].port {
                        Some(port) => port as nat,
                        None => 443nat,
                    },
                )
            },
            Err(ClientError::NoUrl) => targets@.len() == 0,
            Err(ClientError::MissingHost) => targets@.len() > 0 && targets@[0].host is None,
            Err(_) => false,
        },
{
    if targets.len() == 0 {
        return Err(ClientError::NoUrl);
    }
    let host: String = match &targets[0].host {
        Some(host) => host.clone(),
        None => return Err(ClientError::MissingHost),
    };
    let address: String = match connect_to {
        Some(address) => address,
        None => {
            let port: u16 = match targets[0].port {
                Some(port) => port,
                None => 443,
            };
            let mut address = host.clone();
            address.append(":");
            address.append(decimal_string(port as u64).as_str());
            address
        },
    };
    Ok(Endpoint { host, address })
}

/// Which URLs HTTP/3 requests are for: each of several, or the only one as
/// often as asked for, once at least.
pub fn h3_targets(url_count: usize, num_requests: usize) -> (r: Vec<usize>)
    requires
        url_count > 0,
    ensures
        r@ == if url_count > 1 {
            Seq::new(url_count as nat, |i: int| i as usize)
        } else {
            Seq::new(
                if num_requests > 1 {
                    num_requests as nat
                } else {
                    1
                },
                |i: int| 0usize,
            )
        },
{
    let count: usize = if url_count > 1 {
        url_count
    } else if num_requests > 1 {
        num_requests
    } else {
        1
    };
    let mut r: Vec<usize> = Vec::new();
    let mut i: usize = 0;
    while i < count
        invariant
            i <= count,
            r@ == Seq::new(
                i as nat,
                |k: int|
                    if url_count > 1 {
                        k as usize
                    } else {
                        0usize
                    },
            ),
        decreases count - i,
    {
        r.push(
            if url_count > 1 {
                i
            } else {
                0
            },
        );
        i = i + 1;
        assert(r@ =~= Seq::new(
            i as nat,
            |k: int|
                if url_count > 1 {
                    k as usize
                } else {
                    0usize
                },
        ));
    }
    assert(r@ =~= if url_count > 1 {
        Seq::new(url_count as nat, |i: int| i as usize)
    } else {
        Seq::new(count as nat, |i: int| 0usize)
    });
    r
}

/// The stream for the HTTP/0.9 request with the given number: the
/// bidirectional streams of a client are every fourth.
pub open spec fn http09_stream(i: nat) -> nat {
    4 * i
}

/// The stream for the HTTP/0.9 request with the given number.
pub fn http09_stream_id(i: usize) -> (r: u64)
    requires
        http09_stream(i as nat) <= u64::MAX,
    ensures
        r == http09_stream(i as nat),
        r == 4 * i,
{
    (i as u64) * 4
}

/// What to do with what has come on a stream.
#[derive(Clone, Copy, Debug, PartialEq, Eq, Structural)]
pub struct DataAction {
    /// Whether to write it to the file of the stream.
    pub write: bool,
    /// Whether the response is complete: its file is closed, and the stream is
    /// not read again.
    pub complete: bool,
}

/// The HTTP/0.9 responses that a client waits for, and those that it has.
pub struct Http09Downloads {
    done: HashMap<u64, bool>,
}

impl View for Http09Downloads {
    type V = Map<u64, bool>;

    closed spec fn view(&self) -> Map<u64, bool> {
        self.done@
    }
}

/// Whether all responses are complete.
pub open spec fn all_complete(done: Map<u64, bool>) -> bool {
    forall|id: u64| #[trigger] done.contains_key(id) ==> done[id]
}

/// The responses after something has come on a stream.
pub open spec fn after_data(done: Map<u64, bool>, stream_id: u64, fin: bool) -> Map<u64, bool> {
    if fin {
        done.insert(stream_id, true)
    } else {
        done
    }
}

impl Http09Downloads {
    /// No request was sent yet.
    pub fn new() -> (r: Self)
        ensures
            r@ == Map::<u64, bool>::empty(),
    {
        Http09Downloads { done: HashMap::new() }
    }

    /// Takes note that a request was sent on a stream.
    pub fn on_request(&mut self, stream_id: u64)
        ensures
            final(self)@ == old(self)@.insert(stream_id, false),
    {
        self.done.insert(stream_id, false);
    }

    /// Whether a request was sent on the stream.
    pub fn is_requested(&self, stream_id: u64) -> (r: bool)
        ensures
            r == self@.contains_key(stream_id),
    {
        self.done.contains_key(&stream_id)
    }

    /// Takes note that something has come on a stream, and with `fin` its
    /// end, and says what to do with it.
    pub fn on_data(&mut self, stream_id: u64, fin: bool) -> (r: DataAction)
        requires
            old(self)@.contains_key(stream_id),
        ensures
            final(self)@ == after_data(old(self)@, stream_id, fin),
            fin ==> final(self)@ == old(self)@.insert(stream_id, true),
            !fin ==> final(self)@ == old(self)@,
            r.write == !old(self)@[stream_id],
            r.complete == fin,
    {
        let write = match self.done.get(&stream_id) {
            Some(done) => !*done,
            None => false,
        };
        if fin {
            self.done.insert(stream_id, true);
        }
        DataAction { write, complete: fin }
    }

    /// Whether all responses are complete.
    pub fn is_done(&self) -> (r: bool)
        ensures
            r == all_complete(self@),
            r == (forall|id: u64| #[trigger] self@.contains_key(id) ==> self@[id]),
    {
        let ghost all = vstd::std_specs::iter::IteratorSpec::remaining(
            &vstd::std_specs::hash::spec_values_iter(&self.done),
        );
        for done in it: self.done.values()
            invariant
                it.seq() == all,
                all.unref().to_set() == self.done@.values(),
                forall|i: int| 0 <= i < it.index() ==> *(#[trigger] all[i]),
        {
            if !*done {
                assert(all.unref()[it.index()] == false);
                assert(all.unref().to_set().contains(false));
                assert(self.done@.values().contains(false));
                return false;
            }
        }
        assert forall|id: u64| #[trigger] self.done@.contains_key(id) implies self.done@[id] by {
            assert(self.done@.values().contains(self.done@[id]));
            assert(all.unref().to_set().contains(self.done@[id]));
            let i = choose|i: int| 0 <= i < all.unref().len() && all.unref()[i] == self.done@[id];
            assert(*all[i] == self.done@[id]);
        }
        true
    }
}

/// Whether a client goes on waiting after a read that was limited in time:
/// `received` is `None` if the time ran out, and otherwise whether the peer
/// is still there; `closed` is whether the connection is closed.
pub fn keep_waiting(received: Option<bool>, closed: bool) -> (r: bool)
    ensures
        r == match received {
            Some(open) => open,
            None => !closed,
        },
{
    match received {
        Some(open) => open,
        None => !closed,
    }
}

/// The responses after all of `events`, each a stream and whether its end has
/// come.
pub open spec fn after_all_data(done: Map<u64, bool>, events: Seq<(u64, bool)>) -> Map<u64, bool>
    decreases events.len(),
{
    if events.len() == 0 {
        done
    } else {
        after_data(
            after_all_data(done, events.drop_last()),
            events.last().0,
            events.last().1,
        )
    }
}

/// A response that was waited for is complete exactly when the end of its
/// stream has come.
pub proof fn law_complete_at_end_of_stream(
    done: Map<u64, bool>,
    events: Seq<(u64, bool)>,
    id: u64,
)
    requires
        done.contains_key(id),
        !done[id],
    ensures
        after_all_data(done, events).contains_key(id),
        after_all_data(done, events)[id] <==> events.contains((id, true)),
    decreases events.len(),
{
    if events.len() > 0 {
        let front = events.drop_last();
        law_complete_at_end_of_stream(done, front, id);
        if events.contains((id, true)) {
            let i = choose|i: int| 0 <= i < events.len() && events[i] == (id, true);
            if i < front.len() {
                assert(front[i] == (id, true));
            }
        }
        if front.contains((id, true)) {
            let i = choose|i: int| 0 <= i < front.len() && front[i] == (id, true);
            assert(events[i] == (id, true));
        }
        if events.last() == (id, true) {
            assert(events[events.len() - 1] == (id, true));
        }
    }
}

/// A client has all responses exactly if the end of each stream that it asked
/// on has come.
pub proof fn law_all_complete_at_ends_of_streams(
    done: Map<u64, bool>,
    events: Seq<(u64, bool)>,
)
    requires
        forall|id: u64| #[trigger] done.contains_key(id) ==> !done[id],
    ensures
        all_complete(after_all_data(done, events)) <==> forall|id: u64|
            done.contains_key(id) ==> #[trigger] events.contains((id, true)),
{
    let after = after_all_data(done, events);
    if all_complete(after) {
        assert forall|id: u64| done.contains_key(id) implies #[trigger] events.contains(
            (id, true),
        ) by {
            law_complete_at_end_of_stream(done, events, id);
            assert(after.contains_key(id));
        }
    }
    if forall|id: u64| done.contains_key(id) ==> #[trigger] events.contains((id, true)) {
        assert forall|id: u64| #[trigger] after.contains_key(id) implies after[id] by {
            if done.contains_key(id) {
                assert(events.contains((id, true)));
                law_complete_at_end_of_stream(done, events, id);
            } else {
                lemma_unasked_is_complete(done, events, id);
            }
        }
    }
}

proof fn lemma_unasked_is_complete(done: Map<u64, bool>, events: Seq<(u64, bool)>, id: u64)
    requires
        !done.contains_key(id),
    ensures
        after_all_data(done, events).contains_key(id) ==> after_all_data(done, events)[id],
    decreases events.len(),
{
    if events.len() > 0 {
        lemma_unasked_is_complete(done, events.drop_last(), id);
    }
}

/// Each HTTP/0.9 request has a stream of its own, and a bidirectional one that
/// the client opens.
pub proof fn law_requests_have_their_own_streams(i: nat, j: nat)
    ensures
        http09_stream(i) == http09_stream(j) ==> i == j,
        http09_stream(i) % 4 == 0,
{
}

/// The streams of HTTP/0.9 requests start at the first one and go up by four.
pub proof fn law_streams_go_up_by_four(i: nat)
    ensures
        http09_stream(0) == 0,
        http09_stream(i + 1) == http09_stream(i) + 4,
{
}

/// A client asks for the path of its URL, and for the root if there is none.
pub proof fn law_asks_for_the_path(target: TargetView)
    ensures
        target.path.len() > 0 ==> path_to_request(target) == target.path,
        target.path.len() == 0 ==> path_to_request(target) == "/"@,
{
}

/// A client connects to the address that it was given, whatever its URL; and
/// without one to the host of its URL, at the port of its URL, or at 443.
pub proof fn law_address(host: Seq<char>, port: u16, given: Seq<char>)
    ensures
        address_of(host, Some(port), Some(given)) == given,
        address_of(host, None, Some(given)) == given,
        address_of(host, Some(port), None) == host + ":"@ + crate::text::decimal(port as nat),
        address_of(host, None, None) == host + ":"@ + crate::text::decimal(443),
{
}

/// What comes on a stream completes its response if it is the end of the
/// stream, and changes nothing for other streams.
pub proof fn law_data_completes_its_stream(
    done: Map<u64, bool>,
    stream_id: u64,
    fin: bool,
    id: u64,
)
    ensures
        ({
            let after = after_data(done, stream_id, fin);
            if fin && id == stream_id {
                after.contains_key(id) && after[id]
            } else {
                after.contains_key(id) == done.contains_key(id) && after[id] == done[id]
            }
        }),
{
}

} // verus!
