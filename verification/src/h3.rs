//! What an HTTP/3 server and an HTTP/3 client make of the events of a
//! connection.

use std::collections::HashMap;
use std::collections::HashSet;

use vstd::prelude::*;

use crate::header::Header;
use crate::header::HeaderView;

verus! {

broadcast use vstd::std_specs::hash::group_hash_axioms;

/// What an HTTP/3 connection reports of a stream.
#[derive(Debug)]
pub enum H3Event {
    /// Header fields have come.
    Headers { list: Vec<Header>, more_frames: bool },
    /// A part of the body can be read.
    Data,
    /// The peer has sent everything.
    Finished,
    /// The peer has given up the stream, with this error code.
    Reset(u64),
    /// The peer has changed the priority of the stream.
    PriorityUpdate,
    /// The peer takes no more requests.
    GoAway,
}

/// What polling an HTTP/3 connection has come to.
#[derive(Debug)]
pub enum H3Poll {
    /// Something has happened on a stream.
    Event { stream_id: u64, event: H3Event },
    /// There is nothing more to report for now.
    Done,
    /// The connection reported an error.
    Failed,
}

/// What a server does next.
#[derive(Debug)]
pub enum ServerAction {
    /// Poll again.
    PollAgain,
    /// Read and drop the body that has come, then poll again.
    DrainBody,
    /// Answer the request with these header fields, then poll again.
    Respond(Vec<Header>),
    /// Stop polling for now.
    StopPolling,
    /// Give up with the error that the connection reported.
    Fail,
}

/// What a client does next.
#[derive(Debug)]
pub enum ClientAction {
    /// Poll again.
    PollAgain,
    /// Show the header fields of the response, then poll again.
    ShowHeaders(Vec<Header>),
    /// Read the body that has come into the file of the stream, then poll
    /// again.
    WriteBody,
    /// Close the file of the stream, then poll again.
    CloseFile,
    /// Stop polling for now.
    StopPolling,
    /// Give up with the error that the connection reported.
    Fail,
}

/// The requests of a server that are not complete after a poll: the header
/// fields of a request are kept until the request is complete or given up.
pub open spec fn requests_after(
    requests: Map<u64, Seq<HeaderView>>,
    poll: H3Poll,
) -> Map<u64, Seq<HeaderView>> {
    match poll {
        H3Poll::Event { stream_id, event } => match event {
            H3Event::Headers { list, more_frames } => requests.insert(
                stream_id,
                crate::header::fields(list@),
            ),
            H3Event::Finished => requests.remove(stream_id),
            H3Event::Reset(_) => requests.remove(stream_id),
            _ => requests,
        },
        _ => requests,
    }
}

/// The header fields of the request that is to be answered after a poll.
pub open spec fn request_to_answer(
    requests: Map<u64, Seq<HeaderView>>,
    poll: H3Poll,
) -> Option<Seq<HeaderView>> {
    match poll {
        H3Poll::Event { stream_id, event } => if event is Finished && requests.contains_key(
            stream_id,
        ) {
            Some(requests[stream_id])
        } else {
            None
        },
        _ => None,
    }
}

/// The requests of one connection that are not complete.
pub struct H3Requests {
    requests: HashMap<u64, Vec<Header>>,
}

impl View for H3Requests {
    type V = Map<u64, Seq<HeaderView>>;

    closed spec fn view(&self) -> Map<u64, Seq<HeaderView>> {
        self.requests@.map_values(|list: Vec<Header>| crate::header::fields(list@))
    }
}

impl H3Requests {
    /// No request has come yet.
    pub fn new() -> (r: Self)
        ensures
            r@ == Map::<u64, Seq<HeaderView>>::empty(),
    {
        let r = H3Requests { requests: HashMap::new() };
        assert(r@ =~= Map::empty());
        r
    }

    /// Takes note of a poll, and says what to do.
    pub fn on_poll(&mut self, poll: H3Poll) -> (r: ServerAction)
        ensures
            final(self)@ == requests_after(old(self)@, poll),
            match request_to_answer(old(self)@, poll) {
                Some(request) => r is Respond && crate::header::fields(r->Respond_0@) == request,
                None => r !is Respond,
            },
            r is DrainBody <==> (poll is Event && poll->event is Data),
            r is StopPolling <==> (poll is Done || (poll is Event && poll->event is GoAway)),
            r is Fail <==> poll is Failed,
    {
        let ghost before = self@;
        match poll {
            H3Poll::Event { stream_id, event } => match event {
                H3Event::Headers { list, more_frames: _ } => {
                    self.requests.insert(stream_id, list);
                    assert(self@ =~= requests_after(before, poll));
                    ServerAction::PollAgain
                },
                H3Event::Data => ServerAction::DrainBody,
                H3Event::Finished => {
                    let request = self.requests.remove(&stream_id);
                    assert(self@ =~= requests_after(before, poll));
                    match request {
                        Some(headers) => ServerAction::Respond(headers),
                        None => ServerAction::PollAgain,
                    }
                },
                H3Event::Reset(_) => {
                    self.requests.remove(&stream_id);
                    assert(self@ =~= requests_after(before, poll));
                    ServerAction::PollAgain
                },
                H3Event::PriorityUpdate => ServerAction::PollAgain,
                H3Event::GoAway => ServerAction::StopPolling,
            },
            H3Poll::Done => ServerAction::StopPolling,
            H3Poll::Failed => ServerAction::Fail,
        }
    }
}

/// The streams that a client waits for after a poll: a stream is waited for
/// until it is finished or reset, or the server goes away.
pub open spec fn pending_after(pending: Set<u64>, poll: H3Poll) -> Set<u64> {
    match poll {
        H3Poll::Event { stream_id, event } => match event {
            H3Event::Finished => pending.remove(stream_id),
            H3Event::Reset(_) => pending.remove(stream_id),
            H3Event::GoAway => Set::empty(),
            _ => pending,
        },
        _ => pending,
    }
}

/// What a client does after a poll: it heeds what comes on a stream that it
/// waits for.
pub open spec fn client_action(pending: Set<u64>, poll: H3Poll) -> ClientAction {
    match poll {
        H3Poll::Event { stream_id, event } => match event {
            H3Event::Headers { list, more_frames } => if pending.contains(stream_id) {
                ClientAction::ShowHeaders(list)
            } else {
                ClientAction::PollAgain
            },
            H3Event::Data => if pending.contains(stream_id) {
                ClientAction::WriteBody
            } else {
                ClientAction::PollAgain
            },
            H3Event::Finished => ClientAction::CloseFile,
            _ => ClientAction::PollAgain,
        },
        H3Poll::Done => ClientAction::StopPolling,
        H3Poll::Failed => ClientAction::Fail,
    }
}

/// The state of [`H3Downloads`].
#[verifier::ext_equal]
pub struct DownloadsView {
    /// The streams that are waited for.
    pub pending: Set<u64>,
    /// The streams that were waited for and given up.
    pub lost: Set<u64>,
}

/// The streams that a client has given up after a poll: those that were reset
/// while it waited for them, and all that it waited for if the server went
/// away.
pub open spec fn lost_after(downloads: DownloadsView, poll: H3Poll) -> Set<u64> {
    match poll {
        H3Poll::Event { stream_id, event } => match event {
            H3Event::Reset(_) => if downloads.pending.contains(stream_id) {
                downloads.lost.insert(stream_id)
            } else {
                downloads.lost
            },
            H3Event::GoAway => downloads.lost.union(downloads.pending),
            _ => downloads.lost,
        },
        _ => downloads.lost,
    }
}

impl DownloadsView {
    /// Nothing is waited for, and nothing was given up.
    pub open spec fn is_complete(self) -> bool {
        self.pending == Set::<u64>::empty() && self.lost == Set::<u64>::empty()
    }

    /// The state after a request was sent on a stream.
    pub open spec fn requested(self, stream_id: u64) -> DownloadsView {
        DownloadsView { pending: self.pending.insert(stream_id), ..self }
    }

    /// The state after a poll.
    pub open spec fn after(self, poll: H3Poll) -> DownloadsView {
        DownloadsView {
            pending: pending_after(self.pending, poll),
            lost: lost_after(self, poll),
        }
    }

    /// The state after all of `polls`, in order.
    pub open spec fn after_all(self, polls: Seq<H3Poll>) -> DownloadsView
        decreases polls.len(),
    {
        if polls.len() == 0 {
            self
        } else {
            self.after_all(polls.drop_last()).after(polls.last())
        }
    }
}

/// The responses that a client waits for, and those that it has given up.
pub struct H3Downloads {
    pending: HashSet<u64>,
    lost: HashSet<u64>,
}

impl View for H3Downloads {
    type V = DownloadsView;

    closed spec fn view(&self) -> DownloadsView {
        DownloadsView { pending: self.pending@, lost: self.lost@ }
    }
}

/// Adds all of `more` to `set`.
fn insert_all(set: &mut HashSet<u64>, more: &HashSet<u64>)
    ensures
        final(set)@ == old(set)@.union(more@),
{
    let ghost all = vstd::std_specs::iter::IteratorSpec::remaining(
        &vstd::std_specs::hash::spec_hash_keys_iter(more),
    );
    for id in it: more.iter()
        invariant
            it.seq() == all,
            all.unref().to_set() == more@,
            set@ == old(set)@.union(all.unref().take(it.index() as int).to_set()),
    {
        let ghost before = all.unref().take(it.index() as int);
        let ghost after = all.unref().take(it.index() + 1);
        assert(after =~= before.push(*id));
        set.insert(*id);
        proof {
            assert(after.last() == *id);
            assert forall|x: u64| after.to_set().contains(x) <==> (before.to_set().contains(x) || x
                == *id) by {
                if before.contains(x) {
                    let i = choose|i: int| 0 <= i < before.len() && before[i] == x;
                    assert(after[i] == x);
                }
                if after.contains(x) {
                    let i = choose|i: int| 0 <= i < after.len() && after[i] == x;
                    if i < before.len() {
                        assert(before[i] == x);
                    }
                }
            }
            assert(set@ =~= old(set)@.union(after.to_set()));
        }
    }
    assert(all.unref().take(all.len() as int) =~= all.unref());
}

impl H3Downloads {
    /// No request was sent yet.
    pub fn new() -> (r: Self)
        ensures
            r@ == (DownloadsView { pending: Set::empty(), lost: Set::empty() }),
    {
        H3Downloads { pending: HashSet::new(), lost: HashSet::new() }
    }

    /// Takes note that a request was sent on a stream.
    pub fn on_request(&mut self, stream_id: u64)
        ensures
            final(self)@ == old(self)@.requested(stream_id),
            final(self)@.pending == old(self)@.pending.insert(stream_id),
            final(self)@.lost == old(self)@.lost,
    {
        self.pending.insert(stream_id);
    }

    /// Whether nothing is waited for.
    pub fn is_done(&self) -> (r: bool)
        ensures
            r == (self@.pending == Set::<u64>::empty()),
    {
        let r = self.pending.is_empty();
        assert(r <==> self@.pending =~= Set::empty());
        r
    }

    /// Whether every response has come: nothing is waited for, and nothing was
    /// given up.
    pub fn is_complete(&self) -> (r: bool)
        ensures
            r == self@.is_complete(),
            r == (self@.pending == Set::<u64>::empty() && self@.lost == Set::<u64>::empty()),
    {
        let none_lost = self.lost.is_empty();
        assert(none_lost <==> self@.lost =~= Set::empty());
        self.is_done() && none_lost
    }

    /// How many responses are waited for.
    pub fn remaining(&self) -> (r: usize)
        ensures
            r == self@.pending.len(),
    {
        self.pending.len()
    }

    /// Takes note of a poll, and says what to do.
    pub fn on_poll(&mut self, poll: H3Poll) -> (r: ClientAction)
        ensures
            final(self)@ == old(self)@.after(poll),
            r == client_action(old(self)@.pending, poll),
            poll matches H3Poll::Event { stream_id, event: H3Event::Data } ==> (r is WriteBody
                <==> old(self)@.pending.contains(stream_id)),
            poll matches H3Poll::Event {
                stream_id,
                event: H3Event::Headers { list, more_frames },
            } ==> (if old(self)@.pending.contains(stream_id) {
                r == ClientAction::ShowHeaders(list)
            } else {
                r is PollAgain
            }),
    {
        match poll {
            H3Poll::Event { stream_id, event } => match event {
                H3Event::Headers { list, more_frames: _ } => {
                    if self.pending.contains(&stream_id) {
                        ClientAction::ShowHeaders(list)
                    } else {
                        ClientAction::PollAgain
                    }
                },
                H3Event::Data => {
                    if self.pending.contains(&stream_id) {
                        ClientAction::WriteBody
                    } else {
                        ClientAction::PollAgain
                    }
                },
                H3Event::Finished => {
                    self.pending.remove(&stream_id);
                    ClientAction::CloseFile
                },
                H3Event::Reset(_) => {
                    if self.pending.remove(&stream_id) {
                        self.lost.insert(stream_id);
                    }
                    ClientAction::PollAgain
                },
                H3Event::PriorityUpdate => ClientAction::PollAgain,
                H3Event::GoAway => {
                    insert_all(&mut self.lost, &self.pending);
                    self.pending.clear();
                    ClientAction::PollAgain
                },
            },
            H3Poll::Done => ClientAction::StopPolling,
            H3Poll::Failed => ClientAction::Fail,
        }
    }
}

/// The requests that are not complete after all of `polls`, in order.
pub open spec fn requests_after_all(
    requests: Map<u64, Seq<HeaderView>>,
    polls: Seq<H3Poll>,
) -> Map<u64, Seq<HeaderView>>
    decreases polls.len(),
{
    if polls.len() == 0 {
        requests
    } else {
        requests_after(requests_after_all(requests, polls.drop_last()), polls.last())
    }
}

/// Whether a poll has to do with whether stream `id` is waited for: its
/// headers, its end or its reset.
pub open spec fn concerns_request(poll: H3Poll, id: u64) -> bool {
    poll is Event && poll->stream_id == id && (poll->event is Headers || poll->event is Finished
        || poll->event is Reset)
}

/// A request is answered when it is complete, with the header fields that
/// came last on its stream, whatever happens elsewhere meanwhile.
pub proof fn law_request_is_answered(
    requests: Map<u64, Seq<HeaderView>>,
    id: u64,
    list: Vec<Header>,
    more_frames: bool,
    meanwhile: Seq<H3Poll>,
)
    requires
        forall|i: int| 0 <= i < meanwhile.len() ==> !concerns_request(#[trigger] meanwhile[i], id),
    ensures
        request_to_answer(
            requests_after_all(
                requests_after(
                    requests,
                    H3Poll::Event { stream_id: id, event: H3Event::Headers { list, more_frames } },
                ),
                meanwhile,
            ),
            H3Poll::Event { stream_id: id, event: H3Event::Finished },
        ) == Some(crate::header::fields(list@)),
{
    let start = requests_after(
        requests,
        H3Poll::Event { stream_id: id, event: H3Event::Headers { list, more_frames } },
    );
    lemma_request_stays(start, id, meanwhile);
}

proof fn lemma_request_stays(
    requests: Map<u64, Seq<HeaderView>>,
    id: u64,
    meanwhile: Seq<H3Poll>,
)
    requires
        forall|i: int| 0 <= i < meanwhile.len() ==> !concerns_request(#[trigger] meanwhile[i], id),
    ensures
        requests_after_all(requests, meanwhile).contains_key(id) == requests.contains_key(id),
        requests_after_all(requests, meanwhile)[id] == requests[id],
    decreases meanwhile.len(),
{
    if meanwhile.len() > 0 {
        let front = meanwhile.drop_last();
        assert forall|i: int| 0 <= i < front.len() implies !concerns_request(#[trigger] front[i], id) by {
            assert(front[i] == meanwhile[i]);
        }
        lemma_request_stays(requests, id, front);
        assert(!concerns_request(meanwhile[meanwhile.len() - 1], id));
    }
}

/// A request that was answered or given up is not answered again, unless new
/// header fields come on its stream.
pub proof fn law_request_is_answered_once(
    requests: Map<u64, Seq<HeaderView>>,
    id: u64,
    end: H3Event,
    meanwhile: Seq<H3Poll>,
)
    requires
        end is Finished || end is Reset,
        forall|i: int| 0 <= i < meanwhile.len() ==> !concerns_request(#[trigger] meanwhile[i], id),
    ensures
        request_to_answer(
            requests_after_all(
                requests_after(requests, H3Poll::Event { stream_id: id, event: end }),
                meanwhile,
            ),
            H3Poll::Event { stream_id: id, event: H3Event::Finished },
        ) is None,
{
    let start = requests_after(requests, H3Poll::Event { stream_id: id, event: end });
    lemma_request_stays(start, id, meanwhile);
}

/// The streams that are waited for after all of `polls`, in order.
pub open spec fn pending_after_all(pending: Set<u64>, polls: Seq<H3Poll>) -> Set<u64>
    decreases polls.len(),
{
    if polls.len() == 0 {
        pending
    } else {
        pending_after(pending_after_all(pending, polls.drop_last()), polls.last())
    }
}

/// Whether a poll ends the wait for stream `id`.
pub open spec fn ends_wait(poll: H3Poll, id: u64) -> bool {
    poll is Event && (poll->event is GoAway || (poll->stream_id == id && (poll->event is Finished
        || poll->event is Reset)))
}

/// A client waits for a response exactly until the stream is finished or
/// reset, or the server goes away.
pub proof fn law_response_is_awaited(pending: Set<u64>, polls: Seq<H3Poll>, id: u64)
    ensures
        pending_after_all(pending, polls).contains(id) <==> (pending.contains(id) && forall|i: int|
            0 <= i < polls.len() ==> !ends_wait(#[trigger] polls[i], id)),
    decreases polls.len(),
{
    if polls.len() > 0 {
        let front = polls.drop_last();
        law_response_is_awaited(pending, front, id);
        assert forall|i: int| 0 <= i < front.len() implies #[trigger] front[i] == polls[i] by {}
        if forall|i: int| 0 <= i < polls.len() ==> !ends_wait(#[trigger] polls[i], id) {
            assert forall|i: int| 0 <= i < front.len() implies !ends_wait(#[trigger] front[i], id) by {
                assert(!ends_wait(polls[i], id));
            }
            assert(!ends_wait(polls[polls.len() - 1], id));
        } else {
            let k = choose|k: int| 0 <= k < polls.len() && ends_wait(#[trigger] polls[k], id);
            if k < front.len() {
                assert(ends_wait(front[k], id));
            }
        }
    }
}

/// Whether a poll gives stream `id` up: it is reset, or the server goes away.
pub open spec fn gives_up(poll: H3Poll, id: u64) -> bool {
    poll is Event && (poll->event is GoAway || (poll->stream_id == id && poll->event is Reset))
}

/// Whether `polls` finish stream `id` before they give it up, if they do.
pub open spec fn came_whole(polls: Seq<H3Poll>, id: u64) -> bool {
    exists|i: int| #[trigger] finishes_at(polls, id, i)
}

/// Whether the poll with number `i` finishes stream `id`, and no earlier one
/// gives it up.
pub open spec fn finishes_at(polls: Seq<H3Poll>, id: u64, i: int) -> bool {
    &&& 0 <= i < polls.len()
    &&& polls[i] is Event && polls[i]->stream_id == id && polls[i]->event is Finished
    &&& forall|j: int| 0 <= j < i ==> !gives_up(#[trigger] polls[j], id)
}

proof fn lemma_came_whole_step(polls: Seq<H3Poll>, id: u64)
    requires
        polls.len() > 0,
    ensures
        came_whole(polls, id) <==> came_whole(polls.drop_last(), id) || finishes_at(
            polls,
            id,
            polls.len() - 1,
        ),
{
    let front = polls.drop_last();
    if came_whole(polls, id) {
        let i = choose|i: int| #[trigger] finishes_at(polls, id, i);
        if i < front.len() {
            assert forall|j: int| 0 <= j < i implies !gives_up(#[trigger] front[j], id) by {
                assert(front[j] == polls[j]);
            }
            assert(finishes_at(front, id, i));
        }
    }
    if came_whole(front, id) {
        let i = choose|i: int| #[trigger] finishes_at(front, id, i);
        assert forall|j: int| 0 <= j < i implies !gives_up(#[trigger] polls[j], id) by {
            assert(front[j] == polls[j]);
        }
        assert(finishes_at(polls, id, i));
    }
}

/// A stream that a client waited for is, after any polls, waited for, given up
/// or whole, and whole exactly if it was finished before it was given up. The
/// streams that are waited for are those of [`pending_after_all`].
pub proof fn law_response_is_whole_or_lost(downloads: DownloadsView, polls: Seq<H3Poll>, id: u64)
    requires
        downloads.pending.contains(id),
        !downloads.lost.contains(id),
    ensures
        downloads.after_all(polls).pending == pending_after_all(downloads.pending, polls),
        !(downloads.after_all(polls).pending.contains(id) && downloads.after_all(
            polls,
        ).lost.contains(id)),
        came_whole(polls, id) <==> !downloads.after_all(polls).pending.contains(id)
            && !downloads.after_all(polls).lost.contains(id),
    decreases polls.len(),
{
    if polls.len() > 0 {
        let front = polls.drop_last();
        law_response_is_whole_or_lost(downloads, front, id);
        lemma_came_whole_step(polls, id);
        law_response_is_awaited(downloads.pending, front, id);
        let last = polls.len() - 1;
        if downloads.after_all(front).pending.contains(id) {
            assert forall|j: int| 0 <= j < last implies !gives_up(#[trigger] polls[j], id) by {
                assert(front[j] == polls[j]);
                assert(!ends_wait(front[j], id));
            }
        } else if downloads.after_all(front).lost.contains(id) {
            assert(!finishes_at(polls, id, last)) by {
                lemma_lost_was_given_up(downloads, front, id);
                let j = choose|j: int| 0 <= j < front.len() && gives_up(#[trigger] front[j], id);
                assert(polls[j] == front[j]);
            }
        }
    }
}

proof fn lemma_lost_was_given_up(downloads: DownloadsView, polls: Seq<H3Poll>, id: u64)
    requires
        !downloads.lost.contains(id),
        downloads.after_all(polls).lost.contains(id),
    ensures
        exists|j: int| 0 <= j < polls.len() && gives_up(#[trigger] polls[j], id),
    decreases polls.len(),
{
    let front = polls.drop_last();
    if downloads.after_all(front).lost.contains(id) {
        lemma_lost_was_given_up(downloads, front, id);
        let j = choose|j: int| 0 <= j < front.len() && gives_up(#[trigger] front[j], id);
        assert(polls[j] == front[j]);
    } else {
        assert(gives_up(polls[polls.len() - 1], id));
    }
}

/// Nothing is waited for or given up but what was asked for.
proof fn lemma_only_requested(downloads: DownloadsView, polls: Seq<H3Poll>, id: u64)
    requires
        !downloads.pending.contains(id),
        !downloads.lost.contains(id),
    ensures
        !downloads.after_all(polls).pending.contains(id),
        !downloads.after_all(polls).lost.contains(id),
    decreases polls.len(),
{
    if polls.len() > 0 {
        lemma_only_requested(downloads, polls.drop_last(), id);
    }
}

/// A client has everything exactly if each stream that it asked on was
/// finished, and neither reset nor left by the server before.
pub proof fn law_complete_means_finished(requested: Set<u64>, polls: Seq<H3Poll>)
    ensures
        (DownloadsView { pending: requested, lost: Set::empty() }).after_all(polls).is_complete()
            <==> forall|id: u64| requested.contains(id) ==> #[trigger] came_whole(polls, id),
{
    let start = DownloadsView { pending: requested, lost: Set::empty() };
    let end = start.after_all(polls);
    if end.is_complete() {
        assert forall|id: u64| requested.contains(id) implies #[trigger] came_whole(polls, id) by {
            law_response_is_whole_or_lost(start, polls, id);
        }
    }
    if forall|id: u64| requested.contains(id) ==> #[trigger] came_whole(polls, id) {
        assert forall|id: u64| !end.pending.contains(id) && !end.lost.contains(id) by {
            if requested.contains(id) {
                assert(came_whole(polls, id));
                law_response_is_whole_or_lost(start, polls, id);
            } else {
                lemma_only_requested(start, polls, id);
            }
        }
        assert(end.pending =~= Set::empty());
        assert(end.lost =~= Set::empty());
    }
}

/// What a client does with what comes on a stream depends on whether it waits
/// for that stream, and on no other stream: it reads the body and shows the
/// header fields of a response that it waits for, and of no other.
pub proof fn law_client_heeds_awaited_streams(
    pending: Set<u64>,
    id: u64,
    list: Vec<Header>,
    more_frames: bool,
)
    ensures
        ({
            let data = H3Poll::Event { stream_id: id, event: H3Event::Data };
            let headers = H3Poll::Event {
                stream_id: id,
                event: H3Event::Headers { list, more_frames },
            };
            &&& pending.contains(id) <==> client_action(pending, data) == ClientAction::WriteBody
            &&& !pending.contains(id) <==> client_action(pending, data) == ClientAction::PollAgain
            &&& pending.contains(id) <==> client_action(pending, headers)
                == ClientAction::ShowHeaders(list)
            &&& !pending.contains(id) <==> client_action(pending, headers)
                == ClientAction::PollAgain
        }),
{
}

/// A client reads a body or shows header fields only when they have come,
/// closes a file exactly when a stream is finished, stops polling exactly when
/// there is nothing to report, fails exactly when the connection does, and
/// polls again after anything else.
pub proof fn law_client_answers_to_its_poll(pending: Set<u64>, poll: H3Poll)
    ensures
        ({
            let r = client_action(pending, poll);
            &&& r is StopPolling <==> poll is Done
            &&& r is Fail <==> poll is Failed
            &&& r is CloseFile <==> (poll is Event && poll->event is Finished)
            &&& r is WriteBody ==> (poll is Event && poll->event is Data && pending.contains(
                poll->stream_id,
            ))
            &&& r is ShowHeaders ==> (poll is Event && poll->event is Headers && pending.contains(
                poll->stream_id,
            ))
            &&& poll is Event && (poll->event is Reset || poll->event is PriorityUpdate
                || poll->event is GoAway) ==> r is PollAgain
        }),
{
}

/// What a server keeps of a request changes only by what comes on its own
/// stream: new header fields take the place of old ones, and the end or a
/// reset of the stream does away with them.
pub proof fn law_server_keeps_requests(
    requests: Map<u64, Seq<HeaderView>>,
    poll: H3Poll,
    id: u64,
)
    ensures
        ({
            let after = requests_after(requests, poll);
            let own = poll is Event && poll->stream_id == id;
            if own && poll->event is Headers {
                &&& after.contains_key(id)
                &&& after[id] == crate::header::fields(poll->event->list@)
            } else if own && (poll->event is Finished || poll->event is Reset) {
                !after.contains_key(id)
            } else {
                &&& after.contains_key(id) == requests.contains_key(id)
                &&& after[id] == requests[id]
            }
        }),
{
}

/// A server answers a request when its stream is finished, with the header
/// fields that it kept for that stream, and answers at no other time.
pub proof fn law_server_answers_finished_requests(
    requests: Map<u64, Seq<HeaderView>>,
    poll: H3Poll,
)
    ensures
        request_to_answer(requests, poll) is Some <==> (poll is Event && poll->event is Finished
            && requests.contains_key(poll->stream_id)),
        request_to_answer(requests, poll) matches Some(request) ==> request
            == requests[poll->stream_id],
{
}

/// A stream that is asked on is waited for, and nothing else changes.
pub proof fn law_request_is_noted(downloads: DownloadsView, stream_id: u64, id: u64)
    ensures
        downloads.requested(stream_id).pending.contains(id) <==> (id == stream_id
            || downloads.pending.contains(id)),
        downloads.requested(stream_id).lost == downloads.lost,
{
}

/// A stream is given up when it is reset or the server goes away while it is
/// waited for, and stays given up.
pub proof fn law_lost_while_awaited(downloads: DownloadsView, poll: H3Poll, id: u64)
    ensures
        downloads.after(poll).lost.contains(id) <==> (downloads.lost.contains(id) || (
        downloads.pending.contains(id) && gives_up(poll, id))),
{
}

} // verus!
