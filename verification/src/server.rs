//! What a server does with a connection, step by step.
//!
//! A session says which step is due; the caller does it, looks at the
//! connection and reports what it sees. First the two ends greet each other.
//! Then comes round after round of the same steps: take what has come, send
//! what there is to say, and only then wait for the peer.

use vstd::prelude::*;

use crate::protocol::Protocol;
use crate::protocol::ServeError;

verus! {

/// A step of a server.
#[derive(Clone, Copy, Debug, PartialEq, Eq, Structural)]
pub enum ServerStep {
    /// Send what the connection has to send.
    Flush,
    /// Send and receive, while the connection is not established.
    Drive,
    /// Write to the streams what they take of the responses.
    WriteResponses,
    /// Take the requests that have come.
    TakeRequests,
    /// Take the datagrams that have come, and send them back.
    EchoDgrams,
    /// Wait for something to come.
    Receive,
    /// The session is over.
    Stop,
    /// The session has failed.
    Fail(ServeError),
}

/// What a server sees after a step.
#[derive(Clone, Copy, Debug)]
pub struct ServerReport {
    /// Whether the connection is established.
    pub established: bool,
    /// Whether the connection is closed.
    pub closed: bool,
    /// Whether the peer was there when the step received something; of no
    /// account after other steps.
    pub open: bool,
}

/// How far a session is.
#[derive(Clone, Copy, Debug, PartialEq, Eq, Structural)]
pub enum ServerPhase {
    /// The greeting is to be sent.
    Greeting,
    /// The greeting of the peer is waited for.
    Handshake,
    /// The step of a round with this number is due.
    Round(usize),
    /// The session is over.
    Over,
    /// The session has failed.
    Failed,
}

/// The state of a [`ServerSession`].
#[verifier::ext_equal]
pub struct ServerView {
    /// The steps of a round, the last of which is the wait for the peer.
    pub round: Seq<ServerStep>,
    /// How far the session is.
    pub phase: ServerPhase,
}

/// The steps of a server in each round.
pub open spec fn server_round(protocol: Protocol, dgram_echo: bool) -> Seq<ServerStep> {
    match protocol {
        Protocol::H3 => if dgram_echo {
            seq![
                ServerStep::Flush,
                ServerStep::TakeRequests,
                ServerStep::EchoDgrams,
                ServerStep::Flush,
                ServerStep::Receive,
            ]
        } else {
            seq![
                ServerStep::Flush,
                ServerStep::TakeRequests,
                ServerStep::Flush,
                ServerStep::Receive,
            ]
        },
        Protocol::Http09 => seq![
            ServerStep::WriteResponses,
            ServerStep::Flush,
            ServerStep::TakeRequests,
            ServerStep::WriteResponses,
            ServerStep::Flush,
            ServerStep::Receive,
        ],
    }
}

/// The state of a server that has done nothing yet.
pub open spec fn new_server(protocol: Protocol, dgram_echo: bool) -> ServerView {
    ServerView { round: server_round(protocol, dgram_echo), phase: ServerPhase::Greeting }
}

impl ServerView {
    /// A round has at least a step and a wait, and a round that is on is at
    /// one of its steps.
    pub open spec fn wf(self) -> bool {
        &&& 2 <= self.round.len() <= usize::MAX
        &&& self.phase matches ServerPhase::Round(i) ==> i < self.round.len()
    }

    /// The step that is due.
    pub open spec fn step(self) -> ServerStep {
        match self.phase {
            ServerPhase::Greeting => ServerStep::Flush,
            ServerPhase::Handshake => ServerStep::Drive,
            ServerPhase::Round(i) => self.round[i as int],
            ServerPhase::Over => ServerStep::Stop,
            ServerPhase::Failed => ServerStep::Fail(ServeError::ConnectionClosed),
        }
    }

    /// How far the session is after the due step. Greeting goes on until the
    /// connection is established, and fails if the peer goes away. Then
    /// rounds follow each other, until the peer goes away or the connection
    /// is found closed just before the wait for the peer.
    pub open spec fn phase_after(self, report: ServerReport) -> ServerPhase {
        match self.phase {
            ServerPhase::Greeting => if report.established {
                ServerPhase::Round(0)
            } else {
                ServerPhase::Handshake
            },
            ServerPhase::Handshake => if !report.open {
                ServerPhase::Failed
            } else if report.established {
                ServerPhase::Round(0)
            } else {
                ServerPhase::Handshake
            },
            ServerPhase::Round(i) => if i == self.round.len() - 1 {
                if report.open {
                    ServerPhase::Round(0)
                } else {
                    ServerPhase::Over
                }
            } else if i == self.round.len() - 2 && report.closed {
                ServerPhase::Over
            } else {
                ServerPhase::Round((i + 1) as usize)
            },
            ServerPhase::Over => ServerPhase::Over,
            ServerPhase::Failed => ServerPhase::Failed,
        }
    }

    /// The state after the due step.
    pub open spec fn after(self, report: ServerReport) -> ServerView {
        ServerView { phase: self.phase_after(report), ..self }
    }

    /// The state after a step for each of `reports`.
    pub open spec fn after_all(self, reports: Seq<ServerReport>) -> ServerView
        decreases reports.len(),
    {
        if reports.len() == 0 {
            self
        } else {
            self.after_all(reports.drop_last()).after(reports.last())
        }
    }
}

/// What a server does with one connection.
pub struct ServerSession {
    round: Vec<ServerStep>,
    phase: ServerPhase,
}

impl View for ServerSession {
    type V = ServerView;

    closed spec fn view(&self) -> ServerView {
        ServerView { round: self.round@, phase: self.phase }
    }
}

impl ServerSession {
    /// A session for a connection with the given protocol, with or without
    /// datagrams that are sent back. HTTP/0.9 has no datagrams.
    pub fn new(protocol: Protocol, dgram_echo: bool) -> (r: Self)
        ensures
            r@ == new_server(protocol, dgram_echo),
            r@.wf(),
    {
        let round: Vec<ServerStep> = match protocol {
            Protocol::H3 => if dgram_echo {
                vec![
                    ServerStep::Flush,
                    ServerStep::TakeRequests,
                    ServerStep::EchoDgrams,
                    ServerStep::Flush,
                    ServerStep::Receive,
                ]
            } else {
                vec![
                    ServerStep::Flush,
                    ServerStep::TakeRequests,
                    ServerStep::Flush,
                    ServerStep::Receive,
                ]
            },
            Protocol::Http09 => vec![
                ServerStep::WriteResponses,
                ServerStep::Flush,
                ServerStep::TakeRequests,
                ServerStep::WriteResponses,
                ServerStep::Flush,
                ServerStep::Receive,
            ],
        };
        assert(round@ =~= server_round(protocol, dgram_echo));
        ServerSession { round, phase: ServerPhase::Greeting }
    }

    /// The step that is due.
    pub fn step(&self) -> (r: ServerStep)
        requires
            self@.wf(),
        ensures
            r == self@.step(),
    {
        match self.phase {
            ServerPhase::Greeting => ServerStep::Flush,
            ServerPhase::Handshake => ServerStep::Drive,
            ServerPhase::Round(i) => self.round[i],
            ServerPhase::Over => ServerStep::Stop,
            ServerPhase::Failed => ServerStep::Fail(ServeError::ConnectionClosed),
        }
    }

    /// Takes note that the due step was done, and of what was seen then.
    pub fn on_step(&mut self, report: ServerReport)
        requires
            old(self)@.wf(),
        ensures
            final(self)@ == old(self)@.after(report),
            final(self)@.wf(),
    {
        let last: usize = self.round.len() - 1;
        self.phase =
        match self.phase {
            ServerPhase::Greeting => if report.established {
                ServerPhase::Round(0)
            } else {
                ServerPhase::Handshake
            },
            ServerPhase::Handshake => if !report.open {
                ServerPhase::Failed
            } else if report.established {
                ServerPhase::Round(0)
            } else {
                ServerPhase::Handshake
            },
            ServerPhase::Round(i) => if i == last {
                if report.open {
                    ServerPhase::Round(0)
                } else {
                    ServerPhase::Over
                }
            } else if i == last - 1 && report.closed {
                ServerPhase::Over
            } else {
                ServerPhase::Round(i + 1)
            },
            ServerPhase::Over => ServerPhase::Over,
            ServerPhase::Failed => ServerPhase::Failed,
        };
    }
}

/// Whether what was seen lets a server go on with its rounds.
pub open spec fn goes_on(report: ServerReport) -> bool {
    report.open && !report.closed
}

/// The steps of a server keep their order: while the connection lasts, the
/// step with number `k` after the start of a round is the one with number `k`
/// of the round, and the next round starts when they are all done.
pub proof fn law_server_rounds(s: ServerView, reports: Seq<ServerReport>)
    requires
        s.wf(),
        s.phase == ServerPhase::Round(0),
        forall|i: int| 0 <= i < reports.len() ==> goes_on(#[trigger] reports[i]),
    ensures
        s.after_all(reports).wf(),
        s.after_all(reports).round == s.round,
        s.after_all(reports).phase == ServerPhase::Round(
            (reports.len() % s.round.len()) as usize,
        ),
        s.after_all(reports).step() == s.round[(reports.len() % s.round.len()) as int],
    decreases reports.len(),
{
    let n = s.round.len() as int;
    if reports.len() == 0 {
        vstd::arithmetic::div_mod::lemma_small_mod(0, n as nat);
    } else {
        let front = reports.drop_last();
        assert forall|i: int| 0 <= i < front.len() implies goes_on(#[trigger] front[i]) by {
            assert(front[i] == reports[i]);
        }
        law_server_rounds(s, front);
        assert(goes_on(reports[reports.len() - 1]));
        let k = front.len() as int;
        lemma_next_mod(k, n);
    }
}

/// Counting on by one in rounds of `n`.
pub(crate) proof fn lemma_next_mod(k: int, n: int)
    requires
        0 <= k,
        0 < n,
    ensures
        0 <= k % n < n,
        (k + 1) % n == if k % n == n - 1 {
            0
        } else {
            k % n + 1
        },
{
    vstd::arithmetic::div_mod::lemma_fundamental_div_mod(k, n);
    vstd::arithmetic::div_mod::lemma_mod_bound(k, n);
    let q = k / n;
    let r = k % n;
    if r == n - 1 {
        assert(k + 1 == (q + 1) * n + 0) by (nonlinear_arith)
            requires
                k == n * q + r,
                r == n - 1,
        ;
        vstd::arithmetic::div_mod::lemma_fundamental_div_mod_converse(k + 1, n, q + 1, 0);
    } else {
        assert(k + 1 == q * n + (r + 1)) by (nonlinear_arith)
            requires
                k == n * q + r,
        ;
        vstd::arithmetic::div_mod::lemma_fundamental_div_mod_converse(k + 1, n, q, r + 1);
    }
}

/// A server that waits for the peer has just sent what it had to say, on a
/// connection that is not closed, after it had taken what had come.
pub proof fn law_server_sends_before_it_waits(
    protocol: Protocol,
    dgram_echo: bool,
    reports: Seq<ServerReport>,
    report: ServerReport,
)
    requires
        new_server(protocol, dgram_echo).after_all(reports).after(report).step()
            == ServerStep::Receive,
    ensures
        new_server(protocol, dgram_echo).after_all(reports).step() == ServerStep::Flush,
        !report.closed,
{
    lemma_server_wf(protocol, dgram_echo, reports);
}

/// No request is taken before the connection was seen established.
pub proof fn law_server_waits_for_handshake(
    protocol: Protocol,
    dgram_echo: bool,
    reports: Seq<ServerReport>,
)
    requires
        forall|i: int| 0 <= i < reports.len() ==> !(#[trigger] reports[i]).established,
    ensures
        ({
            let step = new_server(protocol, dgram_echo).after_all(reports).step();
            step == if reports.len() == 0 {
                ServerStep::Flush
            } else if forall|i: int| 1 <= i < reports.len() ==> (#[trigger] reports[i]).open {
                ServerStep::Drive
            } else {
                ServerStep::Fail(ServeError::ConnectionClosed)
            }
        }),
    decreases reports.len(),
{
    if reports.len() > 0 {
        let front = reports.drop_last();
        assert forall|i: int| 0 <= i < front.len() implies !(#[trigger] front[i]).established by {
            assert(front[i] == reports[i]);
        }
        law_server_waits_for_handshake(protocol, dgram_echo, front);
        lemma_server_wf(protocol, dgram_echo, front);
        assert(!reports[reports.len() - 1].established);
        let all_open = forall|i: int| 1 <= i < reports.len() ==> (#[trigger] reports[i]).open;
        let front_open = forall|i: int| 1 <= i < front.len() ==> (#[trigger] front[i]).open;
        if all_open {
            assert forall|i: int| 1 <= i < front.len() implies (#[trigger] front[i]).open by {
                assert(front[i] == reports[i]);
            }
        }
        if front_open && (reports.len() == 1 || reports.last().open) {
            assert forall|i: int| 1 <= i < reports.len() implies (#[trigger] reports[i]).open by {
                if i < front.len() {
                    assert(front[i] == reports[i]);
                }
            }
        }
        if reports.len() > 1 && !reports.last().open {
            assert(!reports[reports.len() - 1].open);
        }
    }
}

/// A session that is over or has failed stays so.
pub proof fn law_server_stays_over(s: ServerView, reports: Seq<ServerReport>)
    requires
        s.phase == ServerPhase::Over || s.phase == ServerPhase::Failed,
    ensures
        s.after_all(reports) == s,
    decreases reports.len(),
{
    if reports.len() > 0 {
        law_server_stays_over(s, reports.drop_last());
    }
}

proof fn lemma_server_wf(protocol: Protocol, dgram_echo: bool, reports: Seq<ServerReport>)
    ensures
        new_server(protocol, dgram_echo).after_all(reports).wf(),
        new_server(protocol, dgram_echo).after_all(reports).round == server_round(
            protocol,
            dgram_echo,
        ),
        reports.len() > 0 ==> new_server(protocol, dgram_echo).after_all(reports).phase
            != ServerPhase::Greeting,
    decreases reports.len(),
{
    if reports.len() > 0 {
        lemma_server_wf(protocol, dgram_echo, reports.drop_last());
    }
}

/// From the greeting to the first round: once the connection is established
/// the first step of a round is due, and a peer that goes away before is a
/// failure.
pub proof fn law_server_starts(
    protocol: Protocol,
    dgram_echo: bool,
    reports: Seq<ServerReport>,
    report: ServerReport,
)
    requires
        forall|i: int| 0 <= i < reports.len() ==> !(#[trigger] reports[i]).established,
        forall|i: int| 1 <= i < reports.len() ==> (#[trigger] reports[i]).open,
    ensures
        ({
            let after = new_server(protocol, dgram_echo).after_all(reports).after(report);
            if reports.len() > 0 && !report.open {
                after.step() == ServerStep::Fail(ServeError::ConnectionClosed)
            } else if report.established {
                &&& after.phase == ServerPhase::Round(0)
                &&& after.step() == match protocol {
                    Protocol::H3 => ServerStep::Flush,
                    Protocol::Http09 => ServerStep::WriteResponses,
                }
            } else {
                after.step() == ServerStep::Drive
            }
        }),
{
    law_server_waits_for_handshake(protocol, dgram_echo, reports);
    lemma_server_wf(protocol, dgram_echo, reports);
}

/// A round of an HTTP/0.9 server, with datagrams or without: it writes what it
/// can of the responses and sends it, takes requests, writes and sends again,
/// and then waits for the peer, or stops if the connection is closed; a peer
/// that goes away ends the session, and otherwise the next round starts.
/// Nothing else that is reported matters. `r` are the reports after the steps.
pub proof fn law_http09_server_round(s: ServerView, dgram_echo: bool, r: Seq<ServerReport>)
    requires
        s.round == server_round(Protocol::Http09, dgram_echo),
        s.phase == ServerPhase::Round(0),
        r.len() == 6,
    ensures
        s.step() == ServerStep::WriteResponses,
        s.after(r[0]).step() == ServerStep::Flush,
        s.after(r[0]).after(r[1]).step() == ServerStep::TakeRequests,
        s.after(r[0]).after(r[1]).after(r[2]).step() == ServerStep::WriteResponses,
        s.after(r[0]).after(r[1]).after(r[2]).after(r[3]).step() == ServerStep::Flush,
        ({
            let waiting = s.after(r[0]).after(r[1]).after(r[2]).after(r[3]).after(r[4]);
            if r[4].closed {
                waiting.step() == ServerStep::Stop
            } else {
                &&& waiting.step() == ServerStep::Receive
                &&& r[5].open ==> waiting.after(r[5]) == s
                &&& !r[5].open ==> waiting.after(r[5]).step() == ServerStep::Stop
            }
        }),
{
}

/// A round of an HTTP/3 server without datagrams: it sends what it has to say,
/// takes requests, sends again, and then waits for the peer, or stops if the
/// connection is closed; a peer that goes away ends the session, and otherwise
/// the next round starts. Nothing else that is reported matters. `r` are the
/// reports after the steps.
pub proof fn law_h3_server_round(s: ServerView, r: Seq<ServerReport>)
    requires
        s.round == server_round(Protocol::H3, false),
        s.phase == ServerPhase::Round(0),
        r.len() == 4,
    ensures
        s.step() == ServerStep::Flush,
        s.after(r[0]).step() == ServerStep::TakeRequests,
        s.after(r[0]).after(r[1]).step() == ServerStep::Flush,
        ({
            let waiting = s.after(r[0]).after(r[1]).after(r[2]);
            if r[2].closed {
                waiting.step() == ServerStep::Stop
            } else {
                &&& waiting.step() == ServerStep::Receive
                &&& r[3].open ==> waiting.after(r[3]) == s
                &&& !r[3].open ==> waiting.after(r[3]).step() == ServerStep::Stop
            }
        }),
{
}

/// A round of an HTTP/3 server with datagrams: as without, but datagrams are
/// sent back after the requests are taken. `r` are the reports after the
/// steps.
pub proof fn law_h3_server_round_with_dgrams(s: ServerView, r: Seq<ServerReport>)
    requires
        s.round == server_round(Protocol::H3, true),
        s.phase == ServerPhase::Round(0),
        r.len() == 5,
    ensures
        s.step() == ServerStep::Flush,
        s.after(r[0]).step() == ServerStep::TakeRequests,
        s.after(r[0]).after(r[1]).step() == ServerStep::EchoDgrams,
        s.after(r[0]).after(r[1]).after(r[2]).step() == ServerStep::Flush,
        ({
            let waiting = s.after(r[0]).after(r[1]).after(r[2]).after(r[3]);
            if r[3].closed {
                waiting.step() == ServerStep::Stop
            } else {
                &&& waiting.step() == ServerStep::Receive
                &&& r[4].open ==> waiting.after(r[4]) == s
                &&& !r[4].open ==> waiting.after(r[4]).step() == ServerStep::Stop
            }
        }),
{
}

/// The step that is due after the first `k` of `reports`.
pub open spec fn server_step_at(
    protocol: Protocol,
    dgram_echo: bool,
    reports: Seq<ServerReport>,
    k: int,
) -> ServerStep {
    new_server(protocol, dgram_echo).after_all(reports.take(k)).step()
}

proof fn lemma_server_step_before(
    protocol: Protocol,
    dgram_echo: bool,
    reports: Seq<ServerReport>,
    k: int,
    i: usize,
)
    requires
        0 <= k <= reports.len(),
        0 < i,
        new_server(protocol, dgram_echo).after_all(reports.take(k)).phase == ServerPhase::Round(i),
    ensures
        0 < k,
        new_server(protocol, dgram_echo).after_all(reports.take(k - 1)).phase
            == ServerPhase::Round((i - 1) as usize),
        server_step_at(protocol, dgram_echo, reports, k - 1) == server_round(
            protocol,
            dgram_echo,
        )[i - 1],
{
    if k > 0 {
        assert(reports.take(k).drop_last() =~= reports.take(k - 1));
        lemma_server_wf(protocol, dgram_echo, reports.take(k - 1));
        lemma_server_wf(protocol, dgram_echo, reports.take(k));
    }
}

/// Before each wait for the peer an HTTP/0.9 server has taken requests, then
/// written to the streams what they take of the responses, and then sent it;
/// with datagrams or without.
pub proof fn law_http09_server_answers_before_it_waits(
    dgram_echo: bool,
    reports: Seq<ServerReport>,
    k: int,
)
    requires
        0 <= k <= reports.len(),
        server_step_at(Protocol::Http09, dgram_echo, reports, k) == ServerStep::Receive,
    ensures
        5 < k,
        server_step_at(Protocol::Http09, dgram_echo, reports, k - 1) == ServerStep::Flush,
        server_step_at(Protocol::Http09, dgram_echo, reports, k - 2) == ServerStep::WriteResponses,
        server_step_at(Protocol::Http09, dgram_echo, reports, k - 3) == ServerStep::TakeRequests,
        server_step_at(Protocol::Http09, dgram_echo, reports, k - 4) == ServerStep::Flush,
        server_step_at(Protocol::Http09, dgram_echo, reports, k - 5) == ServerStep::WriteResponses,
{
    lemma_server_wf(Protocol::Http09, dgram_echo, reports.take(k));
    lemma_server_step_before(Protocol::Http09, dgram_echo, reports, k, 5);
    lemma_server_step_before(Protocol::Http09, dgram_echo, reports, k - 1, 4);
    lemma_server_step_before(Protocol::Http09, dgram_echo, reports, k - 2, 3);
    lemma_server_step_before(Protocol::Http09, dgram_echo, reports, k - 3, 2);
    lemma_server_step_before(Protocol::Http09, dgram_echo, reports, k - 4, 1);
    assert(reports.take(0) =~= Seq::empty());
}

/// Before each wait for the peer an HTTP/3 server has taken and answered
/// requests, then sent datagrams back if it does that, and then sent what it
/// had to say.
pub proof fn law_h3_server_answers_before_it_waits(
    dgram_echo: bool,
    reports: Seq<ServerReport>,
    k: int,
)
    requires
        0 <= k <= reports.len(),
        server_step_at(Protocol::H3, dgram_echo, reports, k) == ServerStep::Receive,
    ensures
        3 < k,
        server_step_at(Protocol::H3, dgram_echo, reports, k - 1) == ServerStep::Flush,
        dgram_echo ==> {
            &&& server_step_at(Protocol::H3, dgram_echo, reports, k - 2) == ServerStep::EchoDgrams
            &&& server_step_at(Protocol::H3, dgram_echo, reports, k - 3) == ServerStep::TakeRequests
        },
        !dgram_echo ==> server_step_at(Protocol::H3, dgram_echo, reports, k - 2)
            == ServerStep::TakeRequests,
{
    lemma_server_wf(Protocol::H3, dgram_echo, reports.take(k));
    if dgram_echo {
        lemma_server_step_before(Protocol::H3, dgram_echo, reports, k, 4);
        lemma_server_step_before(Protocol::H3, dgram_echo, reports, k - 1, 3);
        lemma_server_step_before(Protocol::H3, dgram_echo, reports, k - 2, 2);
        lemma_server_step_before(Protocol::H3, dgram_echo, reports, k - 3, 1);
    } else {
        lemma_server_step_before(Protocol::H3, dgram_echo, reports, k, 3);
        lemma_server_step_before(Protocol::H3, dgram_echo, reports, k - 1, 2);
        lemma_server_step_before(Protocol::H3, dgram_echo, reports, k - 2, 1);
    }
    assert(reports.take(0) =~= Seq::empty());
}

/// Between any two waits for the peer a server takes requests, whichever the
/// protocol, with datagrams or without.
pub proof fn law_requests_are_taken_between_waits(
    protocol: Protocol,
    dgram_echo: bool,
    reports: Seq<ServerReport>,
    i: int,
    j: int,
) -> (k: int)
    requires
        0 <= i < j <= reports.len(),
        server_step_at(protocol, dgram_echo, reports, i) == ServerStep::Receive,
        server_step_at(protocol, dgram_echo, reports, j) == ServerStep::Receive,
    ensures
        i < k < j,
        server_step_at(protocol, dgram_echo, reports, k) == ServerStep::TakeRequests,
{
    match protocol {
        Protocol::H3 => {
            law_h3_server_answers_before_it_waits(dgram_echo, reports, j);
            if dgram_echo {
                j - 3
            } else {
                j - 2
            }
        },
        Protocol::Http09 => {
            law_http09_server_answers_before_it_waits(dgram_echo, reports, j);
            j - 3
        },
    }
}

} // verus!
