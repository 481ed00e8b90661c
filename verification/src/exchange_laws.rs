//! What comes of a request, from the client to the server and back.

use vstd::prelude::*;

use crate::fetch::ClientReport;
use crate::h3::DownloadsView;
use crate::h3::H3Event;
use crate::h3::H3Poll;
use crate::header::Header;
use crate::header::HeaderView;
use crate::http09::RequestsView;
use crate::protocol::Protocol;
use crate::responder::ResponderView;

verus! {

/// HTTP/0.9: a client asks for `path` on a stream, in whatever pieces that
/// comes, and the server answers as it does for that path; and with whatever
/// body queued as the response, the stream takes a prefix of it at any later
/// time, and all of it if it is finished.
pub proof fn law_http09_exchange(
    requests: RequestsView,
    responder: ResponderView,
    stream_id: u64,
    path: Seq<char>,
    chunks: Seq<Seq<u8>>,
    fin: bool,
    root: Seq<char>,
    body: Seq<u8>,
    ops: Seq<crate::responder_laws::Op>,
)
    requires
        !requests.partial.contains_key(stream_id),
        responder.wf(),
        path.len() > 0 ==> !crate::text::is_whitespace(path.first())
            && !crate::text::is_whitespace(path.last()),
        chunks.len() > 0,
        chunks.flatten() == vstd::utf8::encode_utf8(crate::http09::request_text(path)),
        forall|k: int|
            0 <= k < chunks.len() ==> !crate::http09::ends_with_crlf(
                #[trigger] chunks.take(k).flatten(),
            ),
        crate::responder_laws::not_queued(ops, stream_id),
    ensures
        requests.received_all(stream_id, chunks.drop_last()).completed(
            stream_id,
            chunks.last(),
            fin,
        ) matches Some(request) && crate::response::routed(
            crate::http09::asked_path(crate::text::lossy_text(request)),
            root,
        ) == crate::response::routed(path, root),
        ({
            let pieces = crate::responder_laws::trace(responder.queued(stream_id, body), ops);
            let taken = crate::responder_laws::delivered(pieces, stream_id);
            &&& taken.is_prefix_of(body)
            &&& crate::responder_laws::finished(pieces, stream_id) ==> taken == body
        }),
{
    crate::http09::law_request_arrives(requests, stream_id, path, chunks, fin);
    crate::responder_laws::law_queued_response_arrives(responder, stream_id, body, ops);
}

/// HTTP/3: a client asks for `path` on a stream; when its request is complete
/// the server answers it, and as one for that path, whatever happens on other
/// streams meanwhile.
pub proof fn law_h3_exchange(
    requests: Map<u64, Seq<HeaderView>>,
    stream_id: u64,
    host: Seq<char>,
    path: Seq<char>,
    list: Vec<Header>,
    more_frames: bool,
    meanwhile: Seq<H3Poll>,
)
    requires
        crate::header::fields(list@) == crate::header::request_fields(host, path),
        forall|i: int|
            0 <= i < meanwhile.len() ==> !crate::h3::concerns_request(
                #[trigger] meanwhile[i],
                stream_id,
            ),
    ensures
        crate::h3::request_to_answer(
            crate::h3::requests_after_all(
                crate::h3::requests_after(
                    requests,
                    H3Poll::Event { stream_id, event: H3Event::Headers { list, more_frames } },
                ),
                meanwhile,
            ),
            H3Poll::Event { stream_id, event: H3Event::Finished },
        ) matches Some(request) && crate::header::requested_path(request) == path,
{
    crate::h3::law_request_is_answered(requests, stream_id, list, more_frames, meanwhile);
    crate::header::law_request_path_round_trip(host, path);
}

/// HTTP/3: a client that reports after a step whether it has everything, as
/// its downloads say it, comes to close its connection only if each stream
/// that it asked on was finished, and neither reset nor left by the server
/// before; if its wait ends otherwise, it fails.
pub proof fn law_h3_success_is_finished(
    requested: Set<u64>,
    polls: Seq<H3Poll>,
    reports: Seq<ClientReport>,
    report: ClientReport,
)
    requires
        report.complete == (DownloadsView { pending: requested, lost: Set::empty() }).after_all(
            polls,
        ).is_complete(),
        crate::fetch::is_waiting(crate::fetch::new_client(Protocol::H3).after_all(reports).phase),
    ensures
        ({
            let after = crate::fetch::new_client(Protocol::H3).after_all(reports).after(report);
            let whole = forall|id: u64|
                requested.contains(id) ==> #[trigger] crate::h3::came_whole(polls, id);
            crate::fetch::is_waiting(after.phase) || after.step() == if whole {
                crate::fetch::ClientStep::Close
            } else {
                crate::fetch::ClientStep::Fail(crate::client::ClientError::H3Incomplete)
            }
        }),
{
    crate::h3::law_complete_means_finished(requested, polls);
    crate::fetch::law_success_is_complete(Protocol::H3, reports, report);
}

/// HTTP/0.9: a client that reports after a step whether it has everything, as
/// its downloads say it, comes to close its connection only if the end of each
/// stream that it asked on has come; if its wait ends otherwise, it fails.
pub proof fn law_http09_success_is_finished(
    requested: Map<u64, bool>,
    events: Seq<(u64, bool)>,
    reports: Seq<ClientReport>,
    report: ClientReport,
)
    requires
        forall|id: u64| #[trigger] requested.contains_key(id) ==> !requested[id],
        report.complete == crate::client::all_complete(
            crate::client::after_all_data(requested, events),
        ),
        crate::fetch::is_waiting(
            crate::fetch::new_client(Protocol::Http09).after_all(reports).phase,
        ),
    ensures
        ({
            let after = crate::fetch::new_client(Protocol::Http09).after_all(reports).after(report);
            let whole = forall|id: u64|
                requested.contains_key(id) ==> #[trigger] events.contains((id, true));
            crate::fetch::is_waiting(after.phase) || after.step() == if whole {
                crate::fetch::ClientStep::Close
            } else {
                crate::fetch::ClientStep::Fail(crate::client::ClientError::Incomplete)
            }
        }),
{
    crate::client::law_all_complete_at_ends_of_streams(requested, events);
    crate::fetch::law_success_is_complete(Protocol::Http09, reports, report);
}

} // verus!
