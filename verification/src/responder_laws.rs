//! What holds of the response queue over any number of writes.

use crate::responder::{FlushStep, ReplyView, ResponderView, WriteOutcome, WriteView};
use vstd::prelude::*;

verus! {

/// Something that happens to the queue.
pub ghost enum Op {
    /// A response is queued.
    Queue { stream_id: u64, body: Seq<u8> },
    /// The next response is picked, and its due write ends.
    Write { outcome: WriteOutcome },
}

/// The state after all of `ops`, in order.
pub open spec fn run(s: ResponderView, ops: Seq<Op>) -> ResponderView
    decreases ops.len(),
{
    if ops.len() == 0 {
        s
    } else {
        let before = run(s, ops.drop_last());
        match ops.last() {
            Op::Queue { stream_id, body } => before.queued(stream_id, body),
            Op::Write { outcome } => before.advanced().written(outcome),
        }
    }
}

/// The piece that a stream took in an operation, if any.
pub open spec fn piece(s: ResponderView, op: Op) -> Option<WriteView> {
    match op {
        Op::Queue { .. } => None,
        Op::Write { outcome } => s.advanced().taken(outcome),
    }
}

/// The pieces that the streams took on the way, oldest first.
pub open spec fn trace(s: ResponderView, ops: Seq<Op>) -> Seq<WriteView>
    decreases ops.len(),
{
    if ops.len() == 0 {
        Seq::empty()
    } else {
        let before = trace(s, ops.drop_last());
        match piece(run(s, ops.drop_last()), ops.last()) {
            Some(w) => before.push(w),
            None => before,
        }
    }
}

/// Whether no response for stream `id` is queued by `ops`.
pub open spec fn not_queued(ops: Seq<Op>, id: u64) -> bool {
    forall|i: int|
        0 <= i < ops.len() ==> ((#[trigger] ops[i]) matches Op::Queue { stream_id, .. } ==> stream_id
            != id)
}

/// The bytes that stream `id` took, in order.
pub open spec fn delivered(pieces: Seq<WriteView>, id: u64) -> Seq<u8>
    decreases pieces.len(),
{
    if pieces.len() == 0 {
        Seq::empty()
    } else if pieces.last().stream_id == id {
        delivered(pieces.drop_last(), id) + pieces.last().data
    } else {
        delivered(pieces.drop_last(), id)
    }
}

/// Whether the end of stream `id` is among the pieces.
pub open spec fn finished(pieces: Seq<WriteView>, id: u64) -> bool {
    exists|i: int| 0 <= i < pieces.len() && (#[trigger] pieces[i]).stream_id == id && pieces[i].fin
}

/// Picking the next response changes no response, and gives a turn to some
/// response if there is one.
pub proof fn law_advance(s: ResponderView)
    requires
        s.wf(),
    ensures
        s.advanced().wf(),
        s.advanced().pending == s.pending,
        s.advanced().due() is None <==> s.pending.dom() =~= Set::empty(),
        s.advanced().active is Some <==> s.advanced().writing(),
        s.advanced().advanced() == s.advanced(),
    decreases s.queue.len(),
{
    if s.writing() {
        assert(s.pending.dom().contains(s.active->0));
    } else if s.queue.len() == 0 {
        assert forall|id: u64| !s.pending.dom().contains(id) by {
            if s.pending.contains_key(id) {
                assert(s.queue.contains(id));
            }
        }
    } else {
        let t = ResponderView {
            active: Some(s.queue.first()),
            queue: s.queue.drop_first(),
            ..s
        };
        assert forall|id: u64| #[trigger] t.pending.contains_key(id) implies t.active == Some(id)
            || t.queue.contains(id) by {
            assert(s.pending.contains_key(id));
            let i = choose|i: int| 0 <= i < s.queue.len() && s.queue[i] == id;
            if i > 0 {
                assert(t.queue[i - 1] == id);
            }
        }
        law_advance(t);
    }
}

/// Responses take their turns in the order in which they were queued: when
/// no response is being written, the next one is the first in the queue that
/// is not finished, and what stands behind it in the queue stays there.
pub proof fn law_first_come_first_served(s: ResponderView) -> (k: int)
    requires
        s.wf(),
        !s.writing(),
        s.advanced().active is Some,
    ensures
        0 <= k < s.queue.len(),
        s.advanced().active == Some(s.queue[k]),
        s.pending.contains_key(s.queue[k]),
        forall|j: int| 0 <= j < k ==> !s.pending.contains_key(#[trigger] s.queue[j]),
        s.advanced().queue == s.queue.skip(k + 1),
    decreases s.queue.len(),
{
    let t = ResponderView { active: Some(s.queue.first()), queue: s.queue.drop_first(), ..s };
    if t.writing() {
        assert(s.queue.drop_first() =~= s.queue.skip(1));
        0
    } else {
        assert forall|id: u64| #[trigger] t.pending.contains_key(id) implies t.active == Some(id)
            || t.queue.contains(id) by {
            assert(s.pending.contains_key(id));
            let i = choose|i: int| 0 <= i < s.queue.len() && s.queue[i] == id;
            if i > 0 {
                assert(t.queue[i - 1] == id);
            }
        }
        let k = law_first_come_first_served(t);
        assert(s.queue[k + 1] == t.queue[k]);
        assert forall|j: int| 0 <= j < k + 1 implies !s.pending.contains_key(
            #[trigger] s.queue[j],
        ) by {
            if j > 0 {
                assert(t.queue[j - 1] == s.queue[j]);
            }
        }
        assert(t.queue.skip(k + 1) =~= s.queue.skip(k + 2));
        k + 1
    }
}

/// A write that is blocked or fails, or of which nothing was taken, leaves
/// every response as it was.
pub proof fn law_nothing_taken_nothing_lost(s: ResponderView, outcome: WriteOutcome)
    requires
        s.taken(outcome) is None,
    ensures
        s.written(outcome) == s,
{
}

/// One write: what a stream took is the front of what its response still
/// had to write, and no other response is touched.
pub proof fn law_one_write(s: ResponderView, outcome: WriteOutcome)
    requires
        s.wf(),
    ensures
        s.written(outcome).wf(),
        s.written(outcome).queue == s.queue,
        match s.taken(outcome) {
            None => s.written(outcome) == s,
            Some(w) => {
                &&& s.active == Some(w.stream_id)
                &&& s.pending.contains_key(w.stream_id)
                &&& ({
                    let reply = s.pending[w.stream_id];
                    let after = s.written(outcome);
                    &&& forall|id: u64|
                        id != w.stream_id ==> (#[trigger] after.pending.contains_key(id)
                            <==> s.pending.contains_key(id)) && after.pending[id] == s.pending[id]
                    &&& if w.fin {
                        &&& reply.offset == reply.body.len()
                        &&& w.data =~= Seq::empty()
                        &&& !after.pending.contains_key(w.stream_id)
                        &&& after.active is None
                    } else {
                        &&& 0 < w.data.len()
                        &&& reply.offset + w.data.len() <= reply.body.len()
                        &&& w.data =~= reply.body.subrange(
                            reply.offset as int,
                            (reply.offset + w.data.len()) as int,
                        )
                        &&& after.active == s.active
                        &&& after.pending.contains_key(w.stream_id)
                        &&& after.pending[w.stream_id] == (ReplyView {
                            body: reply.body,
                            offset: reply.offset + w.data.len(),
                        })
                    }
                })
            },
        },
{
    let t = s.written(outcome);
    assert forall|id: u64| #[trigger] t.pending.contains_key(id) implies (t.active == Some(id)
        || t.queue.contains(id)) && t.pending[id].offset <= t.pending[id].body.len() by {
        assert(s.pending.contains_key(id));
    }
    if s.writing() {
        assert(s.pending.contains_key(s.active->0));
    }
}

/// Queueing a response: it waits behind the others, and no other response is
/// touched.
pub proof fn law_queue(s: ResponderView, stream_id: u64, body: Seq<u8>)
    requires
        s.wf(),
    ensures
        s.queued(stream_id, body).wf(),
        s.queued(stream_id, body).pending[stream_id] == (ReplyView { body, offset: 0 }),
        s.queued(stream_id, body).queue == s.queue.push(stream_id),
        s.queued(stream_id, body).active == s.active,
        forall|id: u64|
            id != stream_id ==> (#[trigger] s.queued(stream_id, body).pending.contains_key(id)
                <==> s.pending.contains_key(id)) && s.queued(stream_id, body).pending[id]
                == s.pending[id],
{
    let t = s.queued(stream_id, body);
    assert forall|id: u64| #[trigger] t.pending.contains_key(id) implies t.active == Some(id)
        || t.queue.contains(id) by {
        if id == stream_id {
            assert(t.queue.last() == id);
        } else {
            assert(s.pending.contains_key(id));
            if s.queue.contains(id) {
                let i = choose|i: int| 0 <= i < s.queue.len() && s.queue[i] == id;
                assert(t.queue[i] == id);
            }
        }
    }
}

/// Whatever the outcomes of the writes and whatever else is queued meanwhile,
/// the bytes that a stream takes are the bytes of its response, in order and
/// without a gap, from where it stood; the stream is finished if and only if
/// all of them were taken, and then the response is gone.
pub proof fn law_bodies_arrive_whole(s: ResponderView, ops: Seq<Op>, id: u64)
    requires
        s.wf(),
        s.pending.contains_key(id),
        not_queued(ops, id),
    ensures
        run(s, ops).wf(),
        ({
            let reply = s.pending[id];
            let after = run(s, ops);
            let pieces = trace(s, ops);
            if after.pending.contains_key(id) {
                &&& after.pending[id].body == reply.body
                &&& reply.offset <= after.pending[id].offset <= reply.body.len()
                &&& delivered(pieces, id) == reply.body.subrange(
                    reply.offset as int,
                    after.pending[id].offset as int,
                )
                &&& !finished(pieces, id)
            } else {
                &&& delivered(pieces, id) == reply.body.skip(reply.offset as int)
                &&& finished(pieces, id)
            }
        }),
    decreases ops.len(),
{
    let reply = s.pending[id];
    if ops.len() == 0 {
        assert(reply.body.subrange(reply.offset as int, reply.offset as int) =~= Seq::empty());
    } else {
        assert forall|i: int| 0 <= i < ops.drop_last().len() implies (
        (#[trigger] ops.drop_last()[i]) matches Op::Queue { stream_id, .. } ==> stream_id != id) by {
            assert(ops.drop_last()[i] == ops[i]);
        }
        law_bodies_arrive_whole(s, ops.drop_last(), id);
        let mid = run(s, ops.drop_last());
        let pieces = trace(s, ops.drop_last());
        match ops.last() {
            Op::Queue { stream_id, body } => {
                assert(ops[ops.len() - 1] == ops.last());
                law_queue(mid, stream_id, body);
                assert(mid.queued(stream_id, body).pending.contains_key(id)
                    <==> mid.pending.contains_key(id));
            },
            Op::Write { outcome } => {
                law_advance(mid);
                let ready = mid.advanced();
                law_one_write(ready, outcome);
                if let Some(w) = ready.taken(outcome) {
                    let all = pieces.push(w);
                    assert(all.drop_last() =~= pieces);
                    assert(all.last() == w);
                    if w.stream_id == id {
                        let at = mid.pending[id].offset as int;
                        if w.fin {
                            assert(all[all.len() - 1].fin);
                            assert(reply.body.subrange(reply.offset as int, at) + w.data
                                =~= reply.body.skip(reply.offset as int));
                        } else {
                            assert(reply.body.subrange(reply.offset as int, at) + w.data
                                =~= reply.body.subrange(reply.offset as int, at + w.data.len()));
                            lemma_not_finished(pieces, w, id);
                        }
                    } else {
                        lemma_finished_push(pieces, w, id);
                    }
                }
            },
        }
    }
}

/// A response that is queued for a stream reaches it whole: at any later time
/// the stream has taken a prefix of the body, and all of it if it is finished.
pub proof fn law_queued_response_arrives(
    s: ResponderView,
    stream_id: u64,
    body: Seq<u8>,
    ops: Seq<Op>,
)
    requires
        s.wf(),
        not_queued(ops, stream_id),
    ensures
        delivered(trace(s.queued(stream_id, body), ops), stream_id).is_prefix_of(body),
        finished(trace(s.queued(stream_id, body), ops), stream_id) ==> delivered(
            trace(s.queued(stream_id, body), ops),
            stream_id,
        ) == body,
        finished(trace(s.queued(stream_id, body), ops), stream_id) <==> !run(
            s.queued(stream_id, body),
            ops,
        ).pending.contains_key(stream_id),
{
    law_queue(s, stream_id, body);
    let t = s.queued(stream_id, body);
    law_bodies_arrive_whole(t, ops, stream_id);
    assert(body.skip(0) =~= body);
    let after = run(t, ops);
    if after.pending.contains_key(stream_id) {
        assert(body.subrange(0, after.pending[stream_id].offset as int).is_prefix_of(body));
    }
}

proof fn lemma_not_finished(pieces: Seq<WriteView>, w: WriteView, id: u64)
    requires
        !finished(pieces, id),
        !w.fin,
    ensures
        !finished(pieces.push(w), id),
{
    let all = pieces.push(w);
    assert forall|i: int| 0 <= i < all.len() && (#[trigger] all[i]).stream_id == id implies !all[i].fin by {
        if i < pieces.len() {
            assert(all[i] == pieces[i]);
        }
    }
}

proof fn lemma_finished_push(pieces: Seq<WriteView>, w: WriteView, id: u64)
    requires
        w.stream_id != id,
    ensures
        finished(pieces.push(w), id) <==> finished(pieces, id),
{
    let all = pieces.push(w);
    if finished(pieces, id) {
        let i = choose|i: int|
            0 <= i < pieces.len() && (#[trigger] pieces[i]).stream_id == id && pieces[i].fin;
        assert(all[i] == pieces[i]);
    }
    if finished(all, id) {
        let i = choose|i: int|
            0 <= i < all.len() && (#[trigger] all[i]).stream_id == id && all[i].fin;
        assert(all[i] == pieces[i]);
    }
}

/// Nothing is written to a stream that was finished, unless another response
/// is queued for it.
pub proof fn law_nothing_after_the_end(s: ResponderView, ops: Seq<Op>, i: int, j: int)
    requires
        s.wf(),
        0 <= i < j < trace(s, ops).len(),
        trace(s, ops)[i].fin,
        not_queued(ops, trace(s, ops)[i].stream_id),
    ensures
        trace(s, ops)[j].stream_id != trace(s, ops)[i].stream_id,
    decreases ops.len(),
{
    let id = trace(s, ops)[i].stream_id;
    let early = ops.drop_last();
    assert forall|k: int| 0 <= k < early.len() implies ((#[trigger] early[k]) matches Op::Queue {
        stream_id,
        ..
    } ==> stream_id != id) by {
        assert(early[k] == ops[k]);
    }
    let mid = run(s, early);
    let pieces = trace(s, early);
    lemma_run(s, early);
    if j < pieces.len() {
        law_nothing_after_the_end(s, early, i, j);
    } else {
        assert(pieces[i].stream_id == id);
        if s.pending.contains_key(id) {
            law_bodies_arrive_whole(s, early, id);
        } else {
            lemma_not_queued_not_pending(s, early, id);
        }
        assert(finished(pieces, id));
        law_advance(mid);
        if let Op::Write { outcome } = ops.last() {
            law_one_write(mid.advanced(), outcome);
        }
    }
}

/// One response at a time: between the first byte of a response and the end
/// of its stream, no other stream is written to.
pub proof fn law_one_response_at_a_time(s: ResponderView, ops: Seq<Op>, i: int)
    requires
        s.wf(),
        0 <= i,
        i + 1 < trace(s, ops).len(),
        !trace(s, ops)[i].fin,
    ensures
        trace(s, ops)[i + 1].stream_id == trace(s, ops)[i].stream_id,
    decreases ops.len(),
{
    let mid = run(s, ops.drop_last());
    let pieces = trace(s, ops.drop_last());
    lemma_run(s, ops.drop_last());
    if i + 1 < pieces.len() {
        law_one_response_at_a_time(s, ops.drop_last(), i);
    } else {
        law_advance(mid);
        if let Op::Write { outcome } = ops.last() {
            law_one_write(mid.advanced(), outcome);
        }
    }
}

/// A run keeps the state well formed, and a stream of which a piece was
/// written keeps the turn until it is finished.
proof fn lemma_run(s: ResponderView, ops: Seq<Op>)
    requires
        s.wf(),
    ensures
        run(s, ops).wf(),
        trace(s, ops).len() > 0 && !trace(s, ops).last().fin ==> ({
            &&& run(s, ops).active == Some(trace(s, ops).last().stream_id)
            &&& run(s, ops).writing()
        }),
    decreases ops.len(),
{
    if ops.len() > 0 {
        lemma_run(s, ops.drop_last());
        let mid = run(s, ops.drop_last());
        match ops.last() {
            Op::Queue { stream_id, body } => {
                law_queue(mid, stream_id, body);
            },
            Op::Write { outcome } => {
                law_advance(mid);
                law_one_write(mid.advanced(), outcome);
            },
        }
    }
}

/// A stream without a response gets none unless one is queued, and takes
/// nothing.
proof fn lemma_not_queued_not_pending(s: ResponderView, ops: Seq<Op>, id: u64)
    requires
        s.wf(),
        !s.pending.contains_key(id),
        not_queued(ops, id),
    ensures
        !run(s, ops).pending.contains_key(id),
    decreases ops.len(),
{
    if ops.len() > 0 {
        let early = ops.drop_last();
        assert forall|k: int| 0 <= k < early.len() implies ((#[trigger] early[k]) matches Op::Queue {
            stream_id,
            ..
        } ==> stream_id != id) by {
            assert(early[k] == ops[k]);
        }
        lemma_not_queued_not_pending(s, early, id);
        lemma_run(s, early);
        let mid = run(s, early);
        match ops.last() {
            Op::Queue { stream_id, body } => {
                assert(ops[ops.len() - 1] == ops.last());
            },
            Op::Write { outcome } => {
                law_advance(mid);
                law_one_write(mid.advanced(), outcome);
            },
        }
    }
}

/// The state after `a` and then `b`.
proof fn lemma_run_concat(s: ResponderView, a: Seq<Op>, b: Seq<Op>)
    ensures
        run(s, a + b) == run(run(s, a), b),
    decreases b.len(),
{
    if b.len() == 0 {
        assert(a + b =~= a);
    } else {
        lemma_run_concat(s, a, b.drop_last());
        assert((a + b).drop_last() =~= a + b.drop_last());
    }
}

/// The write of everything that is due.
pub open spec fn write_all() -> Op {
    Op::Write { outcome: WriteOutcome::Accepted(usize::MAX) }
}

/// No response waits forever: when streams take all that is due, two writes
/// for each response, one for the body and one for the end, are enough to
/// finish them all.
pub proof fn law_all_responses_end(s: ResponderView) -> (writes: nat)
    requires
        s.wf(),
        s.pending.dom().finite(),
        forall|id: u64| #[trigger]
            s.pending.contains_key(id) ==> s.pending[id].body.len() <= usize::MAX,
    ensures
        writes <= 2 * s.pending.dom().len(),
        run(s, Seq::new(writes, |i: int| write_all())).pending.dom() =~= Set::empty(),
    decreases s.pending.dom().len(),
{
    law_advance(s);
    if s.advanced().due() is None {
        0
    } else {
        let outcome = WriteOutcome::Accepted(usize::MAX);
        let id = s.advanced().active->0;
        assert(s.pending.contains_key(id));
        let one = seq![write_all()];
        assert(one.drop_last() =~= Seq::empty());
        assert(run(s, one) == s.advanced().written(outcome)) by {
            reveal_with_fuel(run, 2);
        }
        let first = run(s, one);
        law_one_write(s.advanced(), outcome);
        if s.advanced().due()->0.fin {
            assert(first.pending.dom() =~= s.pending.dom().remove(id));
            lemma_pending_small(s, first, id);
            let rest = law_all_responses_end(first);
            lemma_run_concat(s, one, Seq::new(rest, |i: int| write_all()));
            assert(one + Seq::new(rest, |i: int| write_all()) =~= Seq::new(
                rest + 1,
                |i: int| write_all(),
            ));
            rest + 1
        } else {
            let two = seq![write_all(), write_all()];
            assert(two.drop_last() =~= one);
            law_advance(first);
            assert(first.advanced() == first);
            assert(first.due()->0.fin);
            let second = run(s, two);
            assert(second == first.written(outcome));
            law_one_write(first, outcome);
            assert(second.pending.dom() =~= s.pending.dom().remove(id));
            lemma_pending_small(s, second, id);
            let rest = law_all_responses_end(second);
            lemma_run_concat(s, two, Seq::new(rest, |i: int| write_all()));
            assert(two + Seq::new(rest, |i: int| write_all()) =~= Seq::new(
                rest + 2,
                |i: int| write_all(),
            ));
            rest + 2
        }
    }
}

proof fn lemma_pending_small(s: ResponderView, t: ResponderView, id: u64)
    requires
        forall|k: u64| #[trigger]
            s.pending.contains_key(k) ==> s.pending[k].body.len() <= usize::MAX,
        t.pending.dom() =~= s.pending.dom().remove(id),
        forall|k: u64| k != id && #[trigger] t.pending.contains_key(k) ==> t.pending[k] == s.pending[k],
    ensures
        forall|k: u64| #[trigger]
            t.pending.contains_key(k) ==> t.pending[k].body.len() <= usize::MAX,
{
    assert forall|k: u64| #[trigger] t.pending.contains_key(k) implies t.pending[k].body.len()
        <= usize::MAX by {
        assert(t.pending.dom().contains(k));
        assert(s.pending.contains_key(k));
    }
}

/// What is due on a stream is all of its body that the stream has not taken
/// yet, and the end of the stream exactly when nothing is left; nothing is due
/// without an unfinished response whose turn it is.
pub proof fn law_due_is_the_rest(s: ResponderView)
    ensures
        s.active is Some && s.pending.contains_key(s.active->0) ==> ({
            let id = s.active->0;
            let reply = s.pending[id];
            &&& s.due() is Some
            &&& s.due()->0.stream_id == id
            &&& s.due()->0.data == reply.body.skip(reply.offset as int)
            &&& s.due()->0.fin <==> reply.offset >= reply.body.len()
        }),
        s.due() is Some ==> (s.active is Some && s.pending.contains_key(s.active->0)),
{
}

/// A stream that takes `n` bytes of what is due has taken exactly the first
/// `n` of them, and its response goes on right behind them: `n` more bytes are
/// counted, and nothing else changes.
pub proof fn law_accepted_bytes_are_counted(s: ResponderView, id: u64, n: usize)
    requires
        s.active == Some(id),
        s.pending.contains_key(id),
        0 < n,
        s.pending[id].offset + n <= s.pending[id].body.len(),
    ensures
        ({
            let reply = s.pending[id];
            let outcome = WriteOutcome::Accepted(n);
            let after = s.written(outcome);
            let rest = reply.body.skip((reply.offset + n) as int);
            &&& s.due() is Some
            &&& s.taken(outcome) == Some(
                WriteView { stream_id: id, data: s.due()->0.data.take(n as int), fin: false },
            )
            &&& s.step(outcome) == FlushStep::Continue
            &&& after.pending == s.pending.insert(
                id,
                ReplyView { body: reply.body, offset: (reply.offset + n) as nat },
            )
            &&& after.queue == s.queue
            &&& after.active == s.active
            &&& after.due() == Some(
                WriteView { stream_id: id, data: rest, fin: rest.len() == 0 },
            )
        }),
{
}

/// Of a body that is not written in full a stream takes no more than there is,
/// whatever it reports.
pub proof fn law_no_more_is_taken_than_is_due(s: ResponderView, id: u64, n: usize)
    requires
        s.active == Some(id),
        s.pending.contains_key(id),
        s.pending[id].offset < s.pending[id].body.len(),
        s.pending[id].offset + n > s.pending[id].body.len(),
    ensures
        ({
            let reply = s.pending[id];
            let outcome = WriteOutcome::Accepted(n);
            let after = s.written(outcome);
            &&& s.taken(outcome) == s.due()
            &&& s.step(outcome) == FlushStep::Continue
            &&& after.pending == s.pending.insert(
                id,
                ReplyView { body: reply.body, offset: reply.body.len() },
            )
            &&& after.queue == s.queue
            &&& after.active == s.active
        }),
{
}

/// A stream that takes its end is done with: its response is gone, the turn is
/// free, and writing goes on.
pub proof fn law_accepted_end_frees_the_turn(s: ResponderView, id: u64, n: usize)
    requires
        s.active == Some(id),
        s.pending.contains_key(id),
        s.pending[id].offset >= s.pending[id].body.len(),
    ensures
        ({
            let outcome = WriteOutcome::Accepted(n);
            &&& s.taken(outcome) == s.due()
            &&& s.step(outcome) == FlushStep::Continue
            &&& s.written(outcome) == (ResponderView {
                pending: s.pending.remove(id),
                queue: s.queue,
                active: None,
            })
        }),
{
}

/// When a stream takes nothing of a body, or is blocked, writing stops; when
/// the connection fails, so does writing; and nothing changes either way.
pub proof fn law_refused_write_changes_nothing(s: ResponderView, id: u64)
    requires
        s.active == Some(id),
        s.pending.contains_key(id),
    ensures
        s.written(WriteOutcome::Blocked) == s,
        s.step(WriteOutcome::Blocked) == FlushStep::Stop,
        s.written(WriteOutcome::Failed) == s,
        s.step(WriteOutcome::Failed) == FlushStep::Fail,
        s.pending[id].offset < s.pending[id].body.len() ==> {
            &&& s.written(WriteOutcome::Accepted(0)) == s
            &&& s.step(WriteOutcome::Accepted(0)) == FlushStep::Stop
        },
{
}

/// When nothing is due, no report changes anything, and writing stops.
pub proof fn law_nothing_due_nothing_written(s: ResponderView, outcome: WriteOutcome)
    requires
        s.active is None || !s.pending.contains_key(s.active->0),
    ensures
        s.due() is None,
        s.written(outcome) == s,
        s.step(outcome) == FlushStep::Stop,
{
}

/// A response that is being written keeps the turn, and when there is no
/// response nobody has it.
pub proof fn law_turn_is_kept(s: ResponderView)
    requires
        s.wf(),
    ensures
        s.active matches Some(id) && s.pending.contains_key(id) ==> s.advanced() == s,
        s.pending.dom() =~= Set::empty() ==> s.advanced() == (ResponderView {
            pending: s.pending,
            queue: Seq::empty(),
            active: None,
        }),
    decreases s.queue.len(),
{
    if !s.writing() && s.pending.dom() =~= Set::empty() {
        assert forall|id: u64| !s.pending.contains_key(id) by {
            assert(!s.pending.dom().contains(id));
        }
        if s.queue.len() == 0 {
            assert(s.queue =~= Seq::empty());
        } else {
            law_turn_is_kept(
                ResponderView {
                    active: Some(s.queue.first()),
                    queue: s.queue.drop_first(),
                    ..s
                },
            );
        }
    }
}

/// The bytes that stream `id` reports to have accepted in an operation: of the
/// bytes that were due on it, as many as it reports.
pub open spec fn reported(s: ResponderView, op: Op, id: u64) -> Seq<u8> {
    match (op, s.advanced().due()) {
        (Op::Write { outcome: WriteOutcome::Accepted(n) }, Some(w)) => if w.stream_id != id {
            Seq::empty()
        } else if n <= w.data.len() {
            w.data.take(n as int)
        } else {
            w.data
        },
        _ => Seq::empty(),
    }
}

/// All bytes that stream `id` reports to have accepted, in order.
pub open spec fn all_reported(s: ResponderView, ops: Seq<Op>, id: u64) -> Seq<u8>
    decreases ops.len(),
{
    if ops.len() == 0 {
        Seq::empty()
    } else {
        all_reported(s, ops.drop_last(), id) + reported(run(s, ops.drop_last()), ops.last(), id)
    }
}

/// Whether a stream reports in an operation to have accepted its end.
pub open spec fn reports_end(s: ResponderView, op: Op, id: u64) -> bool {
    &&& op matches Op::Write { outcome: WriteOutcome::Accepted(_) }
    &&& s.advanced().due() matches Some(w) && w.stream_id == id && w.fin
}

/// What the streams report is what is counted: whatever happens, the bytes
/// that a stream reports to have accepted, joined in order, are the bytes of
/// its response from where it stood; they are all of them when the stream
/// accepts its end, and it can accept its end only then.
pub proof fn law_reported_bytes_are_the_body(s: ResponderView, ops: Seq<Op>, op: Op, id: u64)
    requires
        s.wf(),
        s.pending.contains_key(id),
        not_queued(ops, id),
    ensures
        ({
            let reply = s.pending[id];
            let rest = reply.body.skip(reply.offset as int);
            let after = run(s, ops);
            &&& after.pending.contains_key(id) ==> {
                &&& after.pending[id].body == reply.body
                &&& after.pending[id].offset == reply.offset + all_reported(s, ops, id).len()
                &&& all_reported(s, ops, id) == rest.take(all_reported(s, ops, id).len() as int)
            }
            &&& !after.pending.contains_key(id) ==> all_reported(s, ops, id) == rest
            &&& reports_end(after, op, id) ==> all_reported(s, ops, id) == rest
            &&& op is Write && reports_end(after, op, id) ==> !run(s, ops.push(op)).pending.contains_key(
                id,
            )
        }),
{
    let reply = s.pending[id];
    let rest = reply.body.skip(reply.offset as int);
    law_bodies_arrive_whole(s, ops, id);
    lemma_reported_is_delivered(s, ops, id);
    let after = run(s, ops);
    if after.pending.contains_key(id) {
        assert(reply.body.subrange(reply.offset as int, after.pending[id].offset as int)
            =~= rest.take(after.pending[id].offset - reply.offset));
    }
    law_advance(after);
    law_due_is_the_rest(after.advanced());
    if reports_end(after, op, id) {
        assert(after.pending.contains_key(id));
        assert(rest.take(rest.len() as int) =~= rest);
        assert(ops.push(op).drop_last() =~= ops);
    }
}

proof fn lemma_reported_is_delivered(s: ResponderView, ops: Seq<Op>, id: u64)
    requires
        s.wf(),
    ensures
        all_reported(s, ops, id) == delivered(trace(s, ops), id),
    decreases ops.len(),
{
    if ops.len() > 0 {
        let early = ops.drop_last();
        lemma_reported_is_delivered(s, early, id);
        lemma_run(s, early);
        let mid = run(s, early);
        law_advance(mid);
        let pieces = trace(s, early);
        let before = delivered(pieces, id);
        assert(before + Seq::<u8>::empty() =~= before);
        if let Op::Write { outcome } = ops.last() {
            law_one_write(mid.advanced(), outcome);
            match mid.advanced().taken(outcome) {
                Some(w) => {
                    assert(pieces.push(w).drop_last() =~= pieces);
                    assert(w.data =~= mid.advanced().due()->0.data.take(w.data.len() as int));
                    assert(w.stream_id == id ==> reported(mid, ops.last(), id) =~= w.data);
                },
                None => {
                    assert(reported(mid, ops.last(), id) =~= Seq::empty());
                },
            }
        }
    }
}

} // verus!
