//! HTTP/0.9 requests: one line, `GET <path>`, on a stream of its own.

use std::collections::HashMap;
use std::collections::HashSet;

use vstd::prelude::*;
use vstd::string::*;
use vstd::utf8::*;

use crate::response::strip_prefix;
use crate::text::from_utf8_lossy;
use crate::text::trim;

verus! {

broadcast use {vstd::string::group_string_axioms, vstd::std_specs::hash::group_hash_axioms};

/// The text of a request for `path`.
pub open spec fn request_text(path: Seq<char>) -> Seq<char> {
    "GET "@ + path + "\r\n"@
}

/// The path that a request asks for: what follows `GET`, trimmed, or `/` if
/// the request is something else.
pub open spec fn asked_path(text: Seq<char>) -> Seq<char> {
    if "GET "@.is_prefix_of(text) {
        crate::text::trimmed(text.skip("GET "@.len() as int))
    } else {
        "/"@
    }
}

/// The bytes of a request for `path`.
pub fn request_bytes(path: &str) -> (r: Vec<u8>)
    ensures
        r@ == encode_utf8(request_text(path@)),
        r@ == encode_utf8("GET "@) + encode_utf8(path@) + encode_utf8("\r\n"@),
{
    proof {
        lemma_encode_utf8_concat("GET "@ + path@, "\r\n"@);
        lemma_encode_utf8_concat("GET "@, path@);
    }
    let mut text: String = "GET ".to_owned();
    text.append(path);
    text.append("\r\n");
    vstd::slice::slice_to_vec(text.as_str().as_bytes())
}

/// The path that a request with the given text asks for.
pub fn path_of_text(text: &str) -> (r: String)
    ensures
        r@ == asked_path(text@),
{
    match strip_prefix(text, "GET ") {
        Some(rest) => trim(rest.as_str()),
        None => "/".to_owned(),
    }
}

/// The path that a request asks for.
pub fn request_path(request: &[u8]) -> (r: String)
    ensures
        r@ == asked_path(crate::text::lossy_text(request@)),
{
    path_of_text(from_utf8_lossy(request).as_str())
}

/// Whether `bytes` end with a line break.
pub open spec fn ends_with_crlf(bytes: Seq<u8>) -> bool {
    bytes.len() >= 2 && bytes[bytes.len() - 2] == 13 && bytes[bytes.len() - 1] == 10
}

/// The state of [`Requests`].
#[verifier::ext_equal]
pub struct RequestsView {
    /// What has come of the requests that are not complete, by stream.
    pub partial: Map<u64, Seq<u8>>,
    /// The streams that a complete request has come on.
    pub answered: Set<u64>,
}

impl RequestsView {
    /// What has come on a stream since its last complete request.
    pub open spec fn so_far(self, stream_id: u64) -> Seq<u8> {
        if self.partial.contains_key(stream_id) {
            self.partial[stream_id]
        } else {
            Seq::empty()
        }
    }

    /// The request that is complete once `data` has come on a stream, and
    /// with `fin` its end: a request is complete at a line break or at the end
    /// of the stream. Closing a stream after a request is not another request.
    pub open spec fn completed(self, stream_id: u64, data: Seq<u8>, fin: bool) -> Option<Seq<u8>> {
        let request = self.so_far(stream_id) + data;
        if request.len() == 0 && self.answered.contains(stream_id) {
            None
        } else if ends_with_crlf(request) || fin {
            Some(request)
        } else {
            None
        }
    }

    /// The state once `data` has come on a stream, and with `fin` its end.
    pub open spec fn received(self, stream_id: u64, data: Seq<u8>, fin: bool) -> RequestsView {
        let request = self.so_far(stream_id) + data;
        if self.completed(stream_id, data, fin) is Some {
            RequestsView {
                partial: self.partial.remove(stream_id),
                answered: self.answered.insert(stream_id),
            }
        } else if request.len() == 0 && self.answered.contains(stream_id) {
            RequestsView { partial: self.partial.remove(stream_id), ..self }
        } else {
            RequestsView { partial: self.partial.insert(stream_id, request), ..self }
        }
    }

    /// The state once each of `chunks` has come on a stream that stays open.
    pub open spec fn received_all(self, stream_id: u64, chunks: Seq<Seq<u8>>) -> RequestsView
        decreases chunks.len(),
    {
        if chunks.len() == 0 {
            self
        } else {
            self.received_all(stream_id, chunks.drop_last()).received(
                stream_id,
                chunks.last(),
                false,
            )
        }
    }
}

/// The requests of one connection, put together from what comes on its
/// streams.
pub struct Requests {
    partial: HashMap<u64, Vec<u8>>,
    answered: HashSet<u64>,
}

impl View for Requests {
    type V = RequestsView;

    closed spec fn view(&self) -> RequestsView {
        RequestsView {
            partial: self.partial@.map_values(|v: Vec<u8>| v@),
            answered: self.answered@,
        }
    }
}

fn check_crlf(bytes: &[u8]) -> (r: bool)
    ensures
        r == ends_with_crlf(bytes@),
{
    let n: usize = bytes.len();
    n >= 2 && bytes[n - 2] == 13 && bytes[n - 1] == 10
}

impl Requests {
    /// Nothing has come yet.
    pub fn new() -> (r: Self)
        ensures
            r@ == (RequestsView { partial: Map::empty(), answered: Set::empty() }),
    {
        let r = Requests { partial: HashMap::new(), answered: HashSet::new() };
        assert(r@.partial =~= Map::empty());
        r
    }

    /// Takes what has come on a stream, and hands out the request that it
    /// completes, if any.
    pub fn on_data(&mut self, stream_id: u64, data: &[u8], fin: bool) -> (r: Option<Vec<u8>>)
        ensures
            match r {
                Some(request) => old(self)@.completed(stream_id, data@, fin) == Some(request@),
                None => old(self)@.completed(stream_id, data@, fin) is None,
            },
            final(self)@ == old(self)@.received(stream_id, data@, fin),
    {
        let ghost before = self@;
        let mut request: Vec<u8> = match self.partial.remove(&stream_id) {
            Some(request) => request,
            None => Vec::new(),
        };
        assert(request@ =~= before.so_far(stream_id));
        request.extend_from_slice(data);
        assert(request@ =~= before.so_far(stream_id) + data@);
        if request.len() == 0 && self.answered.contains(&stream_id) {
            assert(self@.partial =~= before.received(stream_id, data@, fin).partial);
            None
        } else if check_crlf(request.as_slice()) || fin {
            self.answered.insert(stream_id);
            assert(self@.partial =~= before.received(stream_id, data@, fin).partial);
            Some(request)
        } else {
            self.partial.insert(stream_id, request);
            assert(self@.partial =~= before.received(stream_id, data@, fin).partial);
            None
        }
    }
}

/// The server finds the path that the client asked for, if it has no white
/// space at its ends.
pub proof fn law_request_round_trip(path: Seq<char>)
    requires
        path.len() > 0 ==> !crate::text::is_whitespace(path.first())
            && !crate::text::is_whitespace(path.last()),
    ensures
        asked_path(crate::text::lossy_text(encode_utf8(request_text(path)))) == path,
{
    let text = request_text(path);
    encode_utf8_valid_utf8(text);
    encode_utf8_decode_utf8(text);
    reveal_strlit("GET ");
    reveal_strlit("\r\n");
    assert("GET "@ =~= text.subrange(0, 4));
    let rest = text.skip(4);
    assert(rest =~= path.push('\r').push('\n'));
    reveal_with_fuel(crate::text::trimmed_start, 3);
    reveal_with_fuel(crate::text::trimmed_end, 3);
    if path.len() == 0 {
        assert(rest.drop_first().drop_first() =~= Seq::empty());
        assert(crate::text::trimmed_start(rest) =~= Seq::empty());
        assert(path =~= Seq::empty());
    } else {
        assert(rest.first() == path.first());
        assert(rest.drop_last() =~= path.push('\r'));
        assert(path.push('\r').drop_last() =~= path);
    }
}

/// How a request is cut into pieces on its way does not matter: if the pieces
/// before the last do not end with a line break, the last one completes the
/// request that all of them are, an empty one too, unless it only closes a
/// stream that a request has come on.
pub proof fn law_pieces_make_the_request(
    s: RequestsView,
    stream_id: u64,
    chunks: Seq<Seq<u8>>,
    fin: bool,
)
    requires
        !s.partial.contains_key(stream_id),
        chunks.len() > 0,
        forall|k: int| 0 <= k < chunks.len() ==> !ends_with_crlf(#[trigger] chunks.take(k).flatten()),
        chunks.flatten().len() > 0 || !s.answered.contains(stream_id),
        ends_with_crlf(chunks.flatten()) || fin,
    ensures
        s.received_all(stream_id, chunks.drop_last()).completed(stream_id, chunks.last(), fin) == Some(
            chunks.flatten(),
        ),
{
    let front = chunks.drop_last();
    assert forall|k: int| 0 <= k <= front.len() implies !ends_with_crlf(
        #[trigger] front.take(k).flatten(),
    ) by {
        assert(front.take(k) =~= chunks.take(k));
    }
    lemma_received_all(s, stream_id, front);
    assert(chunks =~= front.push(chunks.last()));
    front.lemma_flatten_push(chunks.last());
}

proof fn lemma_received_all(s: RequestsView, stream_id: u64, chunks: Seq<Seq<u8>>)
    requires
        !s.partial.contains_key(stream_id),
        forall|k: int| 0 <= k <= chunks.len() ==> !ends_with_crlf(#[trigger] chunks.take(k).flatten()),
    ensures
        s.received_all(stream_id, chunks).so_far(stream_id) == chunks.flatten(),
        s.received_all(stream_id, chunks).answered == s.answered,
    decreases chunks.len(),
{
    if chunks.len() == 0 {
        assert(chunks =~= Seq::empty());
        reveal(Seq::flatten);
        assert(chunks.flatten() =~= Seq::empty());
    } else {
        let front = chunks.drop_last();
        assert forall|k: int| 0 <= k <= front.len() implies !ends_with_crlf(
            #[trigger] front.take(k).flatten(),
        ) by {
            assert(front.take(k) =~= chunks.take(k));
        }
        lemma_received_all(s, stream_id, front);
        assert(chunks =~= front.push(chunks.last()));
        front.lemma_flatten_push(chunks.last());
        assert(chunks.take(chunks.len() as int) =~= chunks);
        assert(!ends_with_crlf(chunks.flatten()));
    }
}

/// However a request is cut into pieces on its way, the server answers the
/// path that the client asked for: the last piece completes the request, and
/// the request asks for the path, if that has no white space at its ends.
pub proof fn law_request_arrives(
    s: RequestsView,
    stream_id: u64,
    path: Seq<char>,
    chunks: Seq<Seq<u8>>,
    fin: bool,
)
    requires
        !s.partial.contains_key(stream_id),
        path.len() > 0 ==> !crate::text::is_whitespace(path.first())
            && !crate::text::is_whitespace(path.last()),
        chunks.len() > 0,
        chunks.flatten() == encode_utf8(request_text(path)),
        forall|k: int| 0 <= k < chunks.len() ==> !ends_with_crlf(#[trigger] chunks.take(k).flatten()),
    ensures
        s.received_all(stream_id, chunks.drop_last()).completed(
            stream_id,
            chunks.last(),
            fin,
        ) matches Some(request) && asked_path(crate::text::lossy_text(request)) == path,
{
    lemma_request_ends_with_crlf(path);
    law_pieces_make_the_request(s, stream_id, chunks, fin);
    law_request_round_trip(path);
}

proof fn lemma_encode_utf8_concat(a: Seq<char>, b: Seq<char>)
    ensures
        encode_utf8(a + b) == encode_utf8(a) + encode_utf8(b),
    decreases a.len(),
{
    if a.len() == 0 {
        assert(a + b =~= b);
        assert(encode_utf8(a) + encode_utf8(b) =~= encode_utf8(b));
    } else {
        lemma_encode_utf8_concat(a.drop_first(), b);
        assert((a + b).drop_first() =~= a.drop_first() + b);
        assert(encode_utf8(a + b) =~= encode_utf8(a) + encode_utf8(b));
    }
}

proof fn lemma_request_ends_with_crlf(path: Seq<char>)
    ensures
        ends_with_crlf(encode_utf8(request_text(path))),
{
    lemma_encode_utf8_concat("GET "@ + path, "\r\n"@);
    reveal_strlit("\r\n");
    is_ascii_chars_encode_utf8("\r\n"@);
}

/// Once a request has come on a stream, closing the stream is no request.
pub proof fn law_closing_is_no_request(s: RequestsView, stream_id: u64, data: Seq<u8>)
    requires
        s.completed(stream_id, data, false) is Some,
    ensures
        s.received(stream_id, data, false).completed(stream_id, Seq::empty(), true) is None,
{
    let t = s.received(stream_id, data, false);
    assert(t.so_far(stream_id) + Seq::<u8>::empty() =~= Seq::empty());
}

/// What comes on one stream does not touch another.
pub proof fn law_streams_are_apart(
    s: RequestsView,
    stream_id: u64,
    data: Seq<u8>,
    fin: bool,
    other: u64,
)
    requires
        other != stream_id,
    ensures
        s.received(stream_id, data, fin).so_far(other) == s.so_far(other),
        s.received(stream_id, data, fin).answered.contains(other) == s.answered.contains(other),
{
}

/// The path of a request is what follows `GET` and a space, without the white
/// space at its ends; what does not start so asks for the root.
pub proof fn law_asked_path(text: Seq<char>)
    ensures
        asked_path("GET "@ + text) == crate::text::trimmed(text),
        !"GET "@.is_prefix_of(text) ==> asked_path(text) == "/"@,
{
    let all = "GET "@ + text;
    assert("GET "@ =~= all.subrange(0, "GET "@.len() as int));
    assert(all.skip("GET "@.len() as int) =~= text);
}

/// A request line ends with the two bytes of a line break, and with nothing
/// else.
pub proof fn law_line_break(front: Seq<u8>, bytes: Seq<u8>)
    ensures
        ends_with_crlf(front.push(13).push(10)),
        ends_with_crlf(bytes) ==> bytes == bytes.take(bytes.len() - 2).push(13).push(10),
{
    if ends_with_crlf(bytes) {
        assert(bytes =~= bytes.take(bytes.len() - 2).push(13).push(10));
    }
}

/// What has come on a stream grows by each piece until a request is complete,
/// at a line break or at the end of the stream, and then starts anew. Only an
/// empty end of a stream that a request has come on completes nothing.
pub proof fn law_one_piece(s: RequestsView, stream_id: u64, data: Seq<u8>, fin: bool)
    ensures
        ({
            let request = s.so_far(stream_id) + data;
            let after = s.received(stream_id, data, fin);
            let complete = fin || (request.len() >= 2 && request.skip(request.len() - 2) == seq![
                13u8,
                10u8,
            ]);
            if request.len() == 0 && s.answered.contains(stream_id) {
                &&& s.completed(stream_id, data, fin) is None
                &&& after.so_far(stream_id).len() == 0
                &&& after.answered == s.answered
            } else if complete {
                &&& s.completed(stream_id, data, fin) == Some(request)
                &&& after.so_far(stream_id).len() == 0
                &&& after.answered == s.answered.insert(stream_id)
            } else {
                &&& s.completed(stream_id, data, fin) is None
                &&& after.so_far(stream_id) == request
                &&& after.answered == s.answered
            }
        }),
{
    let request = s.so_far(stream_id) + data;
    if request.len() >= 2 {
        let end = request.skip(request.len() - 2);
        assert(end[0] == request[request.len() - 2]);
        assert(end[1] == request[request.len() - 1]);
        if ends_with_crlf(request) {
            assert(end =~= seq![13u8, 10u8]);
        }
        if end == seq![13u8, 10u8] {
            assert(seq![13u8, 10u8][0] == 13 && seq![13u8, 10u8][1] == 10);
        }
    }
}

/// Nothing is kept of a stream that nothing has come on.
pub proof fn law_nothing_so_far(s: RequestsView, stream_id: u64)
    ensures
        !s.partial.contains_key(stream_id) ==> s.so_far(stream_id).len() == 0,
        s.partial.contains_key(stream_id) ==> s.so_far(stream_id) == s.partial[stream_id],
{
}

} // verus!
