//! The queue of HTTP/0.9 responses.
//!
//! Bodies are written to their streams one after the other: a response starts
//! only once the one before it has been written in full and its stream has
//! been finished. How much of a body a stream takes at a time is up to flow
//! control, so writing is a dialogue: the queue says what to write next, the
//! caller writes it and reports the outcome.

use std::collections::HashMap;
use std::collections::VecDeque;

use vstd::prelude::*;

verus! {

broadcast use {vstd::std_specs::hash::group_hash_axioms, vstd::std_specs::vecdeque::group_vec_dequeue_axioms};

/// A response body and how many of its bytes its stream has taken.
pub struct Reply {
    pub body: Vec<u8>,
    pub offset: usize,
}

/// What a [`Reply`] stands for.
#[verifier::ext_equal]
pub struct ReplyView {
    pub body: Seq<u8>,
    pub offset: nat,
}

impl View for Reply {
    type V = ReplyView;

    open spec fn view(&self) -> ReplyView {
        ReplyView { body: self.body@, offset: self.offset as nat }
    }
}

/// What came of writing to a stream.
#[derive(Clone, Copy, Debug, PartialEq, Eq, Structural)]
pub enum WriteOutcome {
    /// The stream took this many bytes.
    Accepted(usize),
    /// The stream can take nothing for now.
    Blocked,
    /// The connection reported an error.
    Failed,
}

/// What to do after a write.
#[derive(Clone, Copy, Debug, PartialEq, Eq, Structural)]
pub enum FlushStep {
    /// Go on with the next write.
    Continue,
    /// Nothing more can be written for now.
    Stop,
    /// Give up with the error that the write reported.
    Fail,
}

/// A write that is due.
#[derive(Debug)]
pub struct Write<'a> {
    pub stream_id: u64,
    pub data: &'a [u8],
    pub fin: bool,
}

/// What a [`Write`] stands for; also a piece that a stream has taken.
#[verifier::ext_equal]
pub struct WriteView {
    pub stream_id: u64,
    pub data: Seq<u8>,
    pub fin: bool,
}

impl<'a> View for Write<'a> {
    type V = WriteView;

    open spec fn view(&self) -> WriteView {
        WriteView { stream_id: self.stream_id, data: self.data@, fin: self.fin }
    }
}

/// The state of a [`Responder`].
#[verifier::ext_equal]
pub struct ResponderView {
    /// The responses that are not finished, by stream.
    pub pending: Map<u64, ReplyView>,
    /// The streams that wait for their turn, first come first.
    pub queue: Seq<u64>,
    /// The stream whose turn it is.
    pub active: Option<u64>,
}

impl ResponderView {
    /// No stream has taken more than there is, and every unfinished response
    /// has its turn now or later.
    pub open spec fn wf(self) -> bool {
        &&& forall|id: u64| #[trigger]
            self.pending.contains_key(id) ==> self.pending[id].offset <= self.pending[id].body.len()
        &&& forall|id: u64| #[trigger]
            self.pending.contains_key(id) ==> self.active == Some(id) || self.queue.contains(id)
    }

    /// Whether the active stream has an unfinished response.
    pub open spec fn writing(self) -> bool {
        self.active is Some && self.pending.contains_key(self.active->0)
    }

    /// The state once the next response has been picked: the active stream
    /// keeps its turn until it is finished, then the first stream in the
    /// queue with something to write takes it.
    pub open spec fn advanced(self) -> ResponderView
        decreases self.queue.len(),
    {
        if self.writing() {
            self
        } else if self.queue.len() == 0 {
            ResponderView { active: None, ..self }
        } else {
            ResponderView {
                active: Some(self.queue.first()),
                queue: self.queue.drop_first(),
                ..self
            }.advanced()
        }
    }

    /// The write that is due on the active stream: the rest of the body, or,
    /// when all of it has been taken, the end of the stream.
    pub open spec fn due(self) -> Option<WriteView> {
        if self.writing() {
            let id = self.active->0;
            let reply = self.pending[id];
            Some(
                WriteView {
                    stream_id: id,
                    data: reply.body.skip(reply.offset as int),
                    fin: reply.offset >= reply.body.len(),
                },
            )
        } else {
            None
        }
    }

    /// The piece of the due write that its stream has taken under `outcome`,
    /// if any.
    pub open spec fn taken(self, outcome: WriteOutcome) -> Option<WriteView> {
        match (self.due(), outcome) {
            (Some(w), WriteOutcome::Accepted(n)) => if w.fin {
                Some(w)
            } else if n == 0 {
                None
            } else if n <= w.data.len() {
                Some(WriteView { data: w.data.take(n as int), ..w })
            } else {
                Some(w)
            },
            _ => None,
        }
    }

    /// The state after the due write ended with `outcome`.
    pub open spec fn written(self, outcome: WriteOutcome) -> ResponderView {
        match self.taken(outcome) {
            Some(w) => if w.fin {
                ResponderView { pending: self.pending.remove(w.stream_id), active: None, ..self }
            } else {
                let reply = self.pending[w.stream_id];
                let rest = ReplyView { offset: reply.offset + w.data.len(), ..reply };
                ResponderView { pending: self.pending.insert(w.stream_id, rest), ..self }
            },
            None => self,
        }
    }

    /// What follows the due write that ended with `outcome`.
    pub open spec fn step(self, outcome: WriteOutcome) -> FlushStep {
        if self.taken(outcome) is Some {
            FlushStep::Continue
        } else if self.due() is Some && outcome == WriteOutcome::Failed {
            FlushStep::Fail
        } else {
            FlushStep::Stop
        }
    }

    /// The state with one more response in the queue.
    pub open spec fn queued(self, stream_id: u64, body: Seq<u8>) -> ResponderView {
        ResponderView {
            pending: self.pending.insert(stream_id, ReplyView { body, offset: 0 }),
            queue: self.queue.push(stream_id),
            ..self
        }
    }
}

/// The responses of one connection that are still to be written.
pub struct Responder {
    pending: HashMap<u64, Reply>,
    queue: VecDeque<u64>,
    active: Option<u64>,
}

impl View for Responder {
    type V = ResponderView;

    closed spec fn view(&self) -> ResponderView {
        ResponderView {
            pending: self.pending@.map_values(|r: Reply| r@),
            queue: self.queue@,
            active: self.active,
        }
    }
}

impl Responder {
    /// A queue with nothing in it.
    pub fn new() -> (r: Self)
        ensures
            r@ == (ResponderView { pending: Map::empty(), queue: Seq::empty(), active: None }),
            r@.wf(),
    {
        let r = Responder { pending: HashMap::new(), queue: VecDeque::new(), active: None };
        assert(r@.pending =~= Map::empty());
        r
    }

    /// Puts the response for `stream_id` at the end of the queue. A response
    /// that the stream still waits for is replaced.
    pub fn queue_response(&mut self, stream_id: u64, body: Vec<u8>)
        requires
            old(self)@.wf(),
        ensures
            final(self)@ == old(self)@.queued(stream_id, body@),
            final(self)@.pending == old(self)@.pending.insert(
                stream_id,
                ReplyView { body: body@, offset: 0 },
            ),
            final(self)@.queue == old(self)@.queue.push(stream_id),
            final(self)@.active == old(self)@.active,
            final(self)@.wf(),
    {
        let ghost before = self@;
        self.pending.insert(stream_id, Reply { body, offset: 0 });
        self.queue.push_back(stream_id);
        proof {
            assert(self@.pending =~= before.queued(stream_id, body@).pending);
            crate::responder_laws::law_queue(before, stream_id, body@);
        }
    }

    /// Gives the turn to the next response, once the active one is finished.
    pub fn advance(&mut self)
        requires
            old(self)@.wf(),
        ensures
            final(self)@ == old(self)@.advanced(),
            final(self)@.wf(),
    {
        proof {
            crate::responder_laws::law_advance(self@);
        }
        loop
            invariant
                self@.advanced() == old(self)@.advanced(),
            ensures
                self@ == old(self)@.advanced(),
            decreases self.queue@.len(),
        {
            if let Some(id) = self.active {
                if self.pending.contains_key(&id) {
                    break;
                }
            }
            match self.queue.pop_front() {
                Some(id) => {
                    self.active = Some(id);
                },
                None => {
                    self.active = None;
                    break;
                },
            }
        }
    }

    /// The write that is due, if any.
    pub fn due(&self) -> (r: Option<Write<'_>>)
        requires
            self@.wf(),
        ensures
            match r {
                Some(w) => {
                    &&& self@.due() == Some(w@)
                    &&& self@.active == Some(w.stream_id)
                    &&& self@.pending.contains_key(w.stream_id)
                    &&& w.data@ == self@.pending[w.stream_id].body.skip(
                        self@.pending[w.stream_id].offset as int,
                    )
                    &&& w.fin == (w.data@.len() == 0)
                },
                None => self@.due() is None,
            },
    {
        match self.active {
            None => None,
            Some(stream_id) => match self.pending.get(&stream_id) {
                None => None,
                Some(reply) => {
                    let len: usize = reply.body.len();
                    assert(self@.pending.contains_key(stream_id));
                    let data = vstd::slice::slice_subrange(
                        reply.body.as_slice(),
                        reply.offset,
                        len,
                    );
                    Some(Write { stream_id, data, fin: reply.offset >= len })
                },
            },
        }
    }

    /// Takes note of how the due write ended, and says what follows.
    pub fn on_write(&mut self, outcome: WriteOutcome) -> (r: FlushStep)
        requires
            old(self)@.wf(),
        ensures
            r == old(self)@.step(outcome),
            final(self)@ == old(self)@.written(outcome),
            final(self)@.wf(),
    {
        let ghost before = self@;
        proof {
            crate::responder_laws::law_one_write(before, outcome);
        }
        let stream_id = match self.active {
            None => return FlushStep::Stop,
            Some(id) => id,
        };
        let (len, offset) = match self.pending.get(&stream_id) {
            None => return FlushStep::Stop,
            Some(reply) => (reply.body.len(), reply.offset),
        };
        assert(self@.pending.contains_key(stream_id));
        let n: usize = match outcome {
            WriteOutcome::Failed => return FlushStep::Fail,
            WriteOutcome::Blocked => return FlushStep::Stop,
            WriteOutcome::Accepted(n) => n,
        };
        if offset >= len {
            self.pending.remove(&stream_id);
            self.active = None;
            assert(self@.pending =~= before.written(outcome).pending);
            return FlushStep::Continue;
        }
        if n == 0 {
            return FlushStep::Stop;
        }
        let taken: usize = if n <= len - offset { n } else { len - offset };
        if let Some(reply) = self.pending.remove(&stream_id) {
            self.pending.insert(
                stream_id,
                Reply { body: reply.body, offset: offset + taken },
            );
        }
        assert(self@.pending =~= before.written(outcome).pending);
        FlushStep::Continue
    }
}

} // verus!
