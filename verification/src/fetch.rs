//! What a client does with a connection, step by step.
//!
//! A session says which step is due; the caller does it, looks at the
//! connection and reports what it sees. The two ends greet each other, and
//! the client sends all its requests. Then comes round after round of the
//! same steps, until everything has come or nothing more can come: take what
//! has come, send what there is to say, and only then wait for the peer.
//! In the end a client that has got everything says goodbye, and one that has
//! not fails.

use vstd::prelude::*;

use crate::client::keep_waiting;
use crate::client::ClientError;
use crate::protocol::Protocol;

verus! {

/// A step of a client.
#[derive(Clone, Copy, Debug, PartialEq, Eq, Structural)]
pub enum ClientStep {
    /// Send what the connection has to send.
    Flush,
    /// Send and receive, while the connection is not established.
    Drive,
    /// Put the requests and the datagrams on their way.
    SendRequests,
    /// Take what has come of the responses.
    TakeResponses,
    /// Take the datagrams that have come.
    TakeDgrams,
    /// Wait for something to come, but not for long.
    Receive,
    /// Close the connection.
    Close,
    /// The session is over.
    Stop,
    /// The session has failed.
    Fail(ClientError),
}

/// What a client sees after a step.
#[derive(Clone, Copy, Debug)]
pub struct ClientReport {
    /// Whether the connection is established.
    pub established: bool,
    /// Whether the connection is closed.
    pub closed: bool,
    /// Whether the peer was there when the step received something, or
    /// `None` if nothing came in time; of no account after other steps.
    pub received: Option<bool>,
    /// Whether nothing more is waited for.
    pub done: bool,
    /// Whether everything has come that was asked for.
    pub complete: bool,
    /// Whether the step closed the connection, which had not been closed
    /// before; of no account after other steps.
    pub closing: bool,
}

/// How far a session is.
#[derive(Clone, Copy, Debug, PartialEq, Eq, Structural)]
pub enum ClientPhase {
    /// The greeting is to be sent.
    Greeting,
    /// The greeting of the peer is waited for.
    Handshake,
    /// The requests are to be made.
    Requests,
    /// The requests are made, and to be sent.
    Sending,
    /// The step of a round with this number is due.
    Round(usize),
    /// The connection is to be closed.
    Closing,
    /// That the connection is closed is to be sent.
    Farewell,
    /// The session is over.
    Over,
    /// The session has failed.
    Failed(ClientError),
}

/// The state of a [`ClientSession`].
#[verifier::ext_equal]
pub struct ClientView {
    pub protocol: Protocol,
    /// The steps of a round, the last of which is the wait for the peer.
    pub round: Seq<ClientStep>,
    /// How far the session is.
    pub phase: ClientPhase,
}

/// The steps of a client in each round.
pub open spec fn client_round(protocol: Protocol) -> Seq<ClientStep> {
    match protocol {
        Protocol::H3 => seq![
            ClientStep::TakeResponses,
            ClientStep::TakeDgrams,
            ClientStep::Flush,
            ClientStep::Receive,
        ],
        Protocol::Http09 => seq![
            ClientStep::TakeResponses,
            ClientStep::Flush,
            ClientStep::Receive,
        ],
    }
}

/// The state of a client that has done nothing yet.
pub open spec fn new_client(protocol: Protocol) -> ClientView {
    ClientView { protocol, round: client_round(protocol), phase: ClientPhase::Greeting }
}

/// The failure of a client that has not got everything.
pub open spec fn incomplete(protocol: Protocol) -> ClientError {
    match protocol {
        Protocol::H3 => ClientError::H3Incomplete,
        Protocol::Http09 => ClientError::Incomplete,
    }
}

/// How far a session is when its wait is over: a client that has got
/// everything says goodbye, and one that has not has failed.
pub open spec fn finishing(protocol: Protocol, complete: bool) -> ClientPhase {
    if complete {
        ClientPhase::Closing
    } else {
        ClientPhase::Failed(incomplete(protocol))
    }
}

/// Whether to wait on after a wait that ended as `report` says.
pub open spec fn waits_on(report: ClientReport) -> bool {
    &&& !report.done
    &&& report.received != Some(false)
    &&& report.received is None ==> !report.closed
}

impl ClientView {
    /// A round has at least a step and a wait, and a round that is on is at
    /// one of its steps.
    pub open spec fn wf(self) -> bool {
        &&& 2 <= self.round.len() <= usize::MAX
        &&& self.phase matches ClientPhase::Round(i) ==> i < self.round.len()
    }

    /// The step that is due.
    pub open spec fn step(self) -> ClientStep {
        match self.phase {
            ClientPhase::Greeting => ClientStep::Flush,
            ClientPhase::Handshake => ClientStep::Drive,
            ClientPhase::Requests => ClientStep::SendRequests,
            ClientPhase::Sending => ClientStep::Flush,
            ClientPhase::Round(i) => self.round[i as int],
            ClientPhase::Closing => ClientStep::Close,
            ClientPhase::Farewell => ClientStep::Flush,
            ClientPhase::Over => ClientStep::Stop,
            ClientPhase::Failed(e) => ClientStep::Fail(e),
        }
    }

    /// How far the session is after the due step. Greeting goes on until the
    /// connection is established, and fails if the peer goes away. Then the
    /// requests are sent, and rounds follow each other until nothing is waited
    /// for, the peer goes away or the connection is closed.
    pub open spec fn phase_after(self, report: ClientReport) -> ClientPhase {
        match self.phase {
            ClientPhase::Greeting => if report.established {
                ClientPhase::Requests
            } else {
                ClientPhase::Handshake
            },
            ClientPhase::Handshake => if report.received == Some(false) {
                ClientPhase::Failed(ClientError::HandshakeClosed)
            } else if report.established {
                ClientPhase::Requests
            } else {
                ClientPhase::Handshake
            },
            ClientPhase::Requests => ClientPhase::Sending,
            ClientPhase::Sending => if report.done {
                finishing(self.protocol, report.complete)
            } else {
                ClientPhase::Round(0)
            },
            ClientPhase::Round(i) => if i == self.round.len() - 1 {
                if waits_on(report) {
                    ClientPhase::Round(0)
                } else {
                    finishing(self.protocol, report.complete)
                }
            } else if i == self.round.len() - 2 && (report.done || report.closed) {
                finishing(self.protocol, report.complete)
            } else {
                ClientPhase::Round((i + 1) as usize)
            },
            ClientPhase::Closing => if report.closing {
                ClientPhase::Farewell
            } else {
                ClientPhase::Over
            },
            ClientPhase::Farewell => ClientPhase::Over,
            ClientPhase::Over => ClientPhase::Over,
            ClientPhase::Failed(e) => ClientPhase::Failed(e),
        }
    }

    /// The state after the due step.
    pub open spec fn after(self, report: ClientReport) -> ClientView {
        ClientView { phase: self.phase_after(report), ..self }
    }

    /// The state after a step for each of `reports`.
    pub open spec fn after_all(self, reports: Seq<ClientReport>) -> ClientView
        decreases reports.len(),
    {
        if reports.len() == 0 {
            self
        } else {
            self.after_all(reports.drop_last()).after(reports.last())
        }
    }
}

/// What a client does with its connection.
pub struct ClientSession {
    protocol: Protocol,
    round: Vec<ClientStep>,
    phase: ClientPhase,
}

impl View for ClientSession {
    type V = ClientView;

    closed spec fn view(&self) -> ClientView {
        ClientView { protocol: self.protocol, round: self.round@, phase: self.phase }
    }
}

fn finish(protocol: Protocol, complete: bool) -> (r: ClientPhase)
    ensures
        r == finishing(protocol, complete),
{
    if complete {
        ClientPhase::Closing
    } else {
        match protocol {
            Protocol::H3 => ClientPhase::Failed(ClientError::H3Incomplete),
            Protocol::Http09 => ClientPhase::Failed(ClientError::Incomplete),
        }
    }
}

impl ClientSession {
    /// A session for a connection with the given protocol.
    pub fn new(protocol: Protocol) -> (r: Self)
        ensures
            r@ == new_client(protocol),
            r@.wf(),
    {
        let round: Vec<ClientStep> = match protocol {
            Protocol::H3 => vec![
                ClientStep::TakeResponses,
                ClientStep::TakeDgrams,
                ClientStep::Flush,
                ClientStep::Receive,
            ],
            Protocol::Http09 => vec![
                ClientStep::TakeResponses,
                ClientStep::Flush,
                ClientStep::Receive,
            ],
        };
        assert(round@ =~= client_round(protocol));
        ClientSession { protocol, round, phase: ClientPhase::Greeting }
    }

    /// The step that is due.
    pub fn step(&self) -> (r: ClientStep)
        requires
            self@.wf(),
        ensures
            r == self@.step(),
    {
        match self.phase {
            ClientPhase::Greeting => ClientStep::Flush,
            ClientPhase::Handshake => ClientStep::Drive,
            ClientPhase::Requests => ClientStep::SendRequests,
            ClientPhase::Sending => ClientStep::Flush,
            ClientPhase::Round(i) => self.round[i],
            ClientPhase::Closing => ClientStep::Close,
            ClientPhase::Farewell => ClientStep::Flush,
            ClientPhase::Over => ClientStep::Stop,
            ClientPhase::Failed(e) => ClientStep::Fail(e),
        }
    }

    /// Takes note that the due step was done, and of what was seen then.
    pub fn on_step(&mut self, report: ClientReport)
        requires
            old(self)@.wf(),
        ensures
            final(self)@ == old(self)@.after(report),
            final(self)@.wf(),
    {
        let last: usize = self.round.len() - 1;
        let gone = match report.received {
            Some(open) => !open,
            None => false,
        };
        let phase = match self.phase {
            ClientPhase::Greeting => if report.established {
                ClientPhase::Requests
            } else {
                ClientPhase::Handshake
            },
            ClientPhase::Handshake => if gone {
                ClientPhase::Failed(ClientError::HandshakeClosed)
            } else if report.established {
                ClientPhase::Requests
            } else {
                ClientPhase::Handshake
            },
            ClientPhase::Requests => ClientPhase::Sending,
            ClientPhase::Sending => if report.done {
                finish(self.protocol, report.complete)
            } else {
                ClientPhase::Round(0)
            },
            ClientPhase::Round(i) => if i == last {
                if !report.done && keep_waiting(report.received, report.closed) {
                    ClientPhase::Round(0)
                } else {
                    finish(self.protocol, report.complete)
                }
            } else if i == last - 1 && (report.done || report.closed) {
                finish(self.protocol, report.complete)
            } else {
                ClientPhase::Round(i + 1)
            },
            ClientPhase::Closing => if report.closing {
                ClientPhase::Farewell
            } else {
                ClientPhase::Over
            },
            ClientPhase::Farewell => ClientPhase::Over,
            ClientPhase::Over => ClientPhase::Over,
            ClientPhase::Failed(e) => ClientPhase::Failed(e),
        };
        self.phase = phase;
    }
}

/// Whether what was seen lets a client go on with its rounds.
pub open spec fn goes_on(report: ClientReport) -> bool {
    !report.done && !report.closed && report.received != Some(false)
}

/// The steps of a client keep their order: while there is something to wait
/// for, the step with number `k` after the start of a round is the one with
/// number `k` of the round, and the next round starts when they are all done.
pub proof fn law_client_rounds(s: ClientView, reports: Seq<ClientReport>)
    requires
        s.wf(),
        s.phase == ClientPhase::Round(0),
        forall|i: int| 0 <= i < reports.len() ==> goes_on(#[trigger] reports[i]),
    ensures
        s.after_all(reports).wf(),
        s.after_all(reports).round == s.round,
        s.after_all(reports).phase == ClientPhase::Round(
            (reports.len() % s.round.len()) as usize,
        ),
        s.after_all(reports).step() == s.round[(reports.len() % s.round.len()) as int],
    decreases reports.len(),
{
    let n = s.round.len() as int;
    if reports.len() == 0 {
        vstd::arithmetic::div_mod::lemma_small_mod(0, n as nat);
    } else {
        let front = reports.drop_last();
        assert forall|i: int| 0 <= i < front.len() implies goes_on(#[trigger] front[i]) by {
            assert(front[i] == reports[i]);
        }
        law_client_rounds(s, front);
        assert(goes_on(reports[reports.len() - 1]));
        crate::server::lemma_next_mod(front.len() as int, n);
    }
}

/// A client that waits for the peer has just sent what it had to say, on a
/// connection that is not closed, and still misses something.
pub proof fn law_client_sends_before_it_waits(
    protocol: Protocol,
    reports: Seq<ClientReport>,
    report: ClientReport,
)
    requires
        new_client(protocol).after_all(reports).after(report).step() == ClientStep::Receive,
    ensures
        new_client(protocol).after_all(reports).step() == ClientStep::Flush,
        !report.closed,
        !report.done,
{
    lemma_client_wf(protocol, reports);
}

/// No request is sent before the connection was seen established.
pub proof fn law_client_waits_for_handshake(protocol: Protocol, reports: Seq<ClientReport>)
    requires
        forall|i: int| 0 <= i < reports.len() ==> !(#[trigger] reports[i]).established,
    ensures
        ({
            let step = new_client(protocol).after_all(reports).step();
            step == if reports.len() == 0 {
                ClientStep::Flush
            } else if forall|i: int|
                1 <= i < reports.len() ==> (#[trigger] reports[i]).received != Some(false) {
                ClientStep::Drive
            } else {
                ClientStep::Fail(ClientError::HandshakeClosed)
            }
        }),
    decreases reports.len(),
{
    if reports.len() > 0 {
        let front = reports.drop_last();
        assert forall|i: int| 0 <= i < front.len() implies !(#[trigger] front[i]).established by {
            assert(front[i] == reports[i]);
        }
        law_client_waits_for_handshake(protocol, front);
        lemma_client_wf(protocol, front);
        assert(!reports[reports.len() - 1].established);
        let all_open = forall|i: int|
            1 <= i < reports.len() ==> (#[trigger] reports[i]).received != Some(false);
        let front_open = forall|i: int|
            1 <= i < front.len() ==> (#[trigger] front[i]).received != Some(false);
        if all_open {
            assert forall|i: int| 1 <= i < front.len() implies (#[trigger] front[i]).received
                != Some(false) by {
                assert(front[i] == reports[i]);
            }
        }
        if front_open && (reports.len() == 1 || reports.last().received != Some(false)) {
            assert forall|i: int| 1 <= i < reports.len() implies (#[trigger] reports[i]).received
                != Some(false) by {
                if i < front.len() {
                    assert(front[i] == reports[i]);
                }
            }
        }
        if reports.len() > 1 && reports.last().received == Some(false) {
            assert(reports[reports.len() - 1].received == Some(false));
        }
    }
}

/// Whether a session has sent its requests and waits for the responses.
pub open spec fn is_waiting(phase: ClientPhase) -> bool {
    phase == ClientPhase::Sending || phase is Round
}

/// A client that comes to close its connection has got everything, and one
/// whose wait ends before it has got everything fails; whichever the protocol.
pub proof fn law_success_is_complete(
    protocol: Protocol,
    reports: Seq<ClientReport>,
    report: ClientReport,
)
    ensures
        ({
            let before = new_client(protocol).after_all(reports);
            let after = before.after(report);
            &&& before.step() != ClientStep::Close && after.step() == ClientStep::Close
                ==> report.complete
            &&& is_waiting(before.phase) && !is_waiting(after.phase) ==> after.step()
                == if report.complete {
                ClientStep::Close
            } else {
                ClientStep::Fail(incomplete(protocol))
            }
        }),
{
    lemma_client_wf(protocol, reports);
}

/// A client whose session ends well had closed its connection before, and had
/// got everything when it came to that.
pub proof fn law_end_is_success(protocol: Protocol, reports: Seq<ClientReport>) -> (k: int)
    requires
        new_client(protocol).after_all(reports).step() == ClientStep::Stop,
    ensures
        0 <= k < reports.len(),
        is_waiting(new_client(protocol).after_all(reports.take(k)).phase),
        new_client(protocol).after_all(reports.take(k + 1)).step() == ClientStep::Close,
        reports[k].complete,
{
    lemma_client_wf(protocol, reports);
    lemma_closing_is_success(protocol, reports)
}

proof fn lemma_closing_is_success(protocol: Protocol, reports: Seq<ClientReport>) -> (k: int)
    requires
        ({
            let phase = new_client(protocol).after_all(reports).phase;
            phase == ClientPhase::Closing || phase == ClientPhase::Farewell || phase
                == ClientPhase::Over
        }),
    ensures
        0 <= k < reports.len(),
        is_waiting(new_client(protocol).after_all(reports.take(k)).phase),
        new_client(protocol).after_all(reports.take(k + 1)).step() == ClientStep::Close,
        reports[k].complete,
    decreases reports.len(),
{
    let front = reports.drop_last();
    let phase = new_client(protocol).after_all(front).phase;
    if phase == ClientPhase::Closing || phase == ClientPhase::Farewell || phase
        == ClientPhase::Over {
        let k = lemma_closing_is_success(protocol, front);
        assert(front.take(k) =~= reports.take(k));
        assert(front.take(k + 1) =~= reports.take(k + 1));
        k
    } else {
        let k = reports.len() - 1;
        assert(reports.take(k) =~= front);
        assert(reports.take(k + 1) =~= reports);
        k
    }
}

/// A session that is over or has failed stays so.
pub proof fn law_client_stays_over(s: ClientView, reports: Seq<ClientReport>)
    requires
        s.phase == ClientPhase::Over || s.phase is Failed,
    ensures
        s.after_all(reports) == s,
    decreases reports.len(),
{
    if reports.len() > 0 {
        law_client_stays_over(s, reports.drop_last());
    }
}

proof fn lemma_client_wf(protocol: Protocol, reports: Seq<ClientReport>)
    ensures
        new_client(protocol).after_all(reports).wf(),
        new_client(protocol).after_all(reports).protocol == protocol,
        new_client(protocol).after_all(reports).round == client_round(protocol),
        reports.len() > 0 ==> new_client(protocol).after_all(reports).phase
            != ClientPhase::Greeting,
    decreases reports.len(),
{
    if reports.len() > 0 {
        lemma_client_wf(protocol, reports.drop_last());
    }
}

/// The wait ends: when the step just before the wait for the peer is reported
/// with nothing left to wait for, or with the connection closed, no further
/// round starts. The client closes the connection if it has got everything,
/// and fails otherwise. With something left to wait for on an open connection
/// it waits.
pub proof fn law_wait_ends(s: ClientView, report: ClientReport)
    requires
        s.wf(),
        s.phase == ClientPhase::Round((s.round.len() - 2) as usize),
    ensures
        report.done || report.closed ==> {
            &&& !is_waiting(s.after(report).phase)
            &&& report.complete ==> s.after(report).step() == ClientStep::Close
            &&& !report.complete ==> s.after(report).step() == ClientStep::Fail(
                match s.protocol {
                    Protocol::H3 => ClientError::H3Incomplete,
                    Protocol::Http09 => ClientError::Incomplete,
                },
            )
        },
        !report.done && !report.closed ==> s.after(report).phase == ClientPhase::Round(
            (s.round.len() - 1) as usize,
        ),
{
}

/// The wait ends too when the peer goes away during it, when time runs out on
/// a closed connection, and when nothing is left to wait for; otherwise the
/// next round starts.
pub proof fn law_wait_ends_without_the_peer(s: ClientView, report: ClientReport)
    requires
        s.wf(),
        s.phase == ClientPhase::Round((s.round.len() - 1) as usize),
    ensures
        ({
            let over = report.done || report.received == Some(false) || (report.received is None
                && report.closed);
            &&& !over ==> s.after(report).phase == ClientPhase::Round(0)
            &&& over && report.complete ==> s.after(report).step() == ClientStep::Close
            &&& over && !report.complete ==> s.after(report).step() == ClientStep::Fail(
                match s.protocol {
                    Protocol::H3 => ClientError::H3Incomplete,
                    Protocol::Http09 => ClientError::Incomplete,
                },
            )
        }),
{
}

/// From the greeting to the first round: once the connection is established
/// the client makes its requests and sends them, and then takes responses if
/// there is anything to wait for. `r` are the reports after these steps.
pub proof fn law_client_starts(
    protocol: Protocol,
    reports: Seq<ClientReport>,
    r: Seq<ClientReport>,
)
    requires
        forall|i: int| 0 <= i < reports.len() ==> !(#[trigger] reports[i]).established,
        forall|i: int|
            1 <= i < reports.len() ==> (#[trigger] reports[i]).received != Some(false),
        r.len() == 3,
        r[0].established,
        reports.len() > 0 ==> r[0].received != Some(false),
    ensures
        ({
            let start = new_client(protocol).after_all(reports);
            let made = start.after(r[0]);
            let sent = made.after(r[1]);
            let next = sent.after(r[2]);
            &&& start.step() == if reports.len() == 0 {
                ClientStep::Flush
            } else {
                ClientStep::Drive
            }
            &&& made.step() == ClientStep::SendRequests
            &&& sent.step() == ClientStep::Flush
            &&& !r[2].done ==> next.phase == ClientPhase::Round(0) && next.step()
                == ClientStep::TakeResponses
            &&& r[2].done && r[2].complete ==> next.step() == ClientStep::Close
            &&& r[2].done && !r[2].complete ==> next.step() == ClientStep::Fail(
                match protocol {
                    Protocol::H3 => ClientError::H3Incomplete,
                    Protocol::Http09 => ClientError::Incomplete,
                },
            )
        }),
{
    law_client_waits_for_handshake(protocol, reports);
    lemma_client_wf(protocol, reports);
}

/// A peer that goes away before the connection is established is a failure.
pub proof fn law_client_needs_its_peer(s: ClientView, report: ClientReport)
    requires
        s.phase == ClientPhase::Handshake,
        report.received == Some(false),
    ensures
        s.after(report).step() == ClientStep::Fail(ClientError::HandshakeClosed),
{
}

/// A round of an HTTP/3 client: it takes responses, then datagrams, then sends
/// what it has to say; and waits if there is anything to wait for, whatever
/// else is reported on the way. `r` are the reports after these steps.
pub proof fn law_h3_client_round(s: ClientView, r: Seq<ClientReport>)
    requires
        s.protocol == Protocol::H3,
        s.round == client_round(Protocol::H3),
        s.phase == ClientPhase::Round(0),
        r.len() == 4,
        !r[2].done,
        !r[2].closed,
    ensures
        s.step() == ClientStep::TakeResponses,
        s.after(r[0]).step() == ClientStep::TakeDgrams,
        s.after(r[0]).after(r[1]).step() == ClientStep::Flush,
        s.after(r[0]).after(r[1]).after(r[2]).step() == ClientStep::Receive,
        !r[3].done && r[3].received == Some(true) ==> s.after(r[0]).after(r[1]).after(r[2]).after(
            r[3],
        ) == s,
{
}

/// A round of an HTTP/0.9 client: it takes responses, then sends what it has
/// to say; and waits if there is anything to wait for, whatever else is
/// reported on the way. `r` are the reports after these steps.
pub proof fn law_http09_client_round(s: ClientView, r: Seq<ClientReport>)
    requires
        s.protocol == Protocol::Http09,
        s.round == client_round(Protocol::Http09),
        s.phase == ClientPhase::Round(0),
        r.len() == 3,
        !r[1].done,
        !r[1].closed,
    ensures
        s.step() == ClientStep::TakeResponses,
        s.after(r[0]).step() == ClientStep::Flush,
        s.after(r[0]).after(r[1]).step() == ClientStep::Receive,
        !r[2].done && r[2].received == Some(true) ==> s.after(r[0]).after(r[1]).after(r[2]) == s,
{
}

/// A client that has got everything closes the connection, sends that it did
/// if the connection was not closed already, and is then done.
pub proof fn law_client_says_goodbye(s: ClientView, close: ClientReport, flush: ClientReport)
    requires
        s.step() == ClientStep::Close,
        s.phase == ClientPhase::Closing,
    ensures
        close.closing ==> {
            &&& s.after(close).step() == ClientStep::Flush
            &&& s.after(close).after(flush).step() == ClientStep::Stop
        },
        !close.closing ==> s.after(close).step() == ClientStep::Stop,
{
}

/// The step that is due after the first `k` of `reports`.
pub open spec fn client_step_at(
    protocol: Protocol,
    reports: Seq<ClientReport>,
    k: int,
) -> ClientStep {
    new_client(protocol).after_all(reports.take(k)).step()
}

proof fn lemma_client_step_before(protocol: Protocol, reports: Seq<ClientReport>, k: int, i: usize)
    requires
        0 <= k <= reports.len(),
        0 < i,
        new_client(protocol).after_all(reports.take(k)).phase == ClientPhase::Round(i),
    ensures
        0 < k,
        new_client(protocol).after_all(reports.take(k - 1)).phase == ClientPhase::Round(
            (i - 1) as usize,
        ),
        client_step_at(protocol, reports, k - 1) == client_round(protocol)[i - 1],
{
    if k > 0 {
        assert(reports.take(k).drop_last() =~= reports.take(k - 1));
        lemma_client_wf(protocol, reports.take(k - 1));
        lemma_client_wf(protocol, reports.take(k));
    }
}

/// Before each wait for the peer a client takes what has come of the
/// responses and then sends what it has to say; so between any two waits
/// there is a step that takes responses.
pub proof fn law_client_takes_responses_before_it_waits(
    protocol: Protocol,
    reports: Seq<ClientReport>,
    k: int,
)
    requires
        0 <= k <= reports.len(),
        client_step_at(protocol, reports, k) == ClientStep::Receive,
    ensures
        match protocol {
            Protocol::H3 => {
                &&& 3 < k
                &&& client_step_at(protocol, reports, k - 1) == ClientStep::Flush
                &&& client_step_at(protocol, reports, k - 2) == ClientStep::TakeDgrams
                &&& client_step_at(protocol, reports, k - 3) == ClientStep::TakeResponses
            },
            Protocol::Http09 => {
                &&& 2 < k
                &&& client_step_at(protocol, reports, k - 1) == ClientStep::Flush
                &&& client_step_at(protocol, reports, k - 2) == ClientStep::TakeResponses
            },
        },
{
    lemma_client_wf(protocol, reports.take(k));
    match protocol {
        Protocol::H3 => {
            lemma_client_step_before(protocol, reports, k, 3);
            lemma_client_step_before(protocol, reports, k - 1, 2);
            lemma_client_step_before(protocol, reports, k - 2, 1);
            assert(reports.take(0) =~= Seq::empty());
        },
        Protocol::Http09 => {
            lemma_client_step_before(protocol, reports, k, 2);
            lemma_client_step_before(protocol, reports, k - 1, 1);
            assert(reports.take(0) =~= Seq::empty());
        },
    }
}

} // verus!
