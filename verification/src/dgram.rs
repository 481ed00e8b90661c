//! HTTP/3 datagrams: a flow id, as a variable-length integer, and a payload.

use vstd::prelude::*;

use crate::varint::MAX_VAR_INT;

verus! {

/// Why a datagram could not be built.
#[derive(Clone, Copy, Debug, PartialEq, Eq, Structural)]
pub enum DgramError {
    BufferTooShort,
}

/// A datagram that was taken apart.
#[derive(Clone, Copy, Debug)]
pub struct H3Dgram<'a> {
    pub flow_id: u64,
    pub data: &'a [u8],
}

/// The bytes of the datagram with the given flow id and payload.
pub open spec fn h3_dgram(flow_id: u64, content: Seq<u8>) -> Seq<u8> {
    crate::varint::varint_bytes(flow_id) + content
}

/// The flow id and the payload of a datagram, if it has a flow id.
pub open spec fn parsed_h3_dgram(dgram: Seq<u8>) -> Option<(u64, Seq<u8>)> {
    match crate::varint::varint_at_front(dgram) {
        Some((flow_id, size)) => Some((flow_id as u64, dgram.skip(size as int))),
        None => None,
    }
}

/// The answer to a datagram: the same flow id and payload.
pub open spec fn echoed_h3_dgram(dgram: Seq<u8>) -> Option<Seq<u8>> {
    match parsed_h3_dgram(dgram) {
        Some((flow_id, data)) => Some(h3_dgram(flow_id, data)),
        None => None,
    }
}

/// Builds the datagram with the given flow id and content.
pub fn encode_h3_dgram(flow_id: u64, dgram_content: &[u8]) -> (r: Result<Vec<u8>, DgramError>)
    requires
        flow_id <= MAX_VAR_INT,
        crate::varint::varint_size(flow_id) + dgram_content@.len() <= isize::MAX,
    ensures
        r is Ok,
        r->Ok_0@ == h3_dgram(flow_id, dgram_content@),
        r->Ok_0@ == crate::varint::varint_bytes(flow_id) + dgram_content@,
{
    let len: usize = octets::varint_len(flow_id) + dgram_content.len();
    let mut d: Vec<u8> = vec![0; len];
    let off: usize = match crate::varint::put_varint(&mut d, flow_id) {
        Ok(off) => off,
        Err(_) => return Err(DgramError::BufferTooShort),
    };
    proof {
        crate::varint::law_varint_size(flow_id);
    }
    match crate::varint::put_bytes(&mut d, off, dgram_content) {
        Ok(_) => {
            assert(d@ =~= h3_dgram(flow_id, dgram_content@));
            Ok(d)
        },
        Err(_) => Err(DgramError::BufferTooShort),
    }
}

/// Takes a datagram apart: `None` if it is too short to have a flow id.
pub fn decode_h3_dgram(dgram: &[u8]) -> (r: Option<H3Dgram<'_>>)
    ensures
        match r {
            Some(d) => parsed_h3_dgram(dgram@) == Some((d.flow_id, d.data@)),
            None => parsed_h3_dgram(dgram@) is None,
        },
        r matches Some(d) ==> d.flow_id <= MAX_VAR_INT,
{
    proof {
        crate::varint::law_varint_read_is_writable(dgram@);
    }
    match crate::varint::get_varint(dgram) {
        Ok((flow_id, off)) => {
            let data = vstd::slice::slice_subrange(dgram, off, dgram.len());
            assert(data@ =~= dgram@.skip(off as int));
            Some(H3Dgram { flow_id, data })
        },
        Err(_) => None,
    }
}

/// Builds the answer to a datagram: `None` if it has no flow id.
pub fn echo_h3_dgram(dgram: &[u8]) -> (r: Option<Vec<u8>>)
    requires
        dgram@.len() <= isize::MAX,
    ensures
        match r {
            Some(d) => echoed_h3_dgram(dgram@) == Some(d@),
            None => echoed_h3_dgram(dgram@) is None,
        },
{
    proof {
        crate::varint::law_varint_read_is_writable(dgram@);
    }
    match decode_h3_dgram(dgram) {
        Some(d) => match encode_h3_dgram(d.flow_id, d.data) {
            Ok(echo) => Some(echo),
            Err(_) => None,
        },
        None => None,
    }
}

/// Counts the datagrams that were received, those without a flow id too.
#[derive(Clone, Copy, Debug)]
pub struct DgramReceiver {
    pub count: u64,
}

impl DgramReceiver {
    /// Nothing was received yet.
    pub fn new() -> (r: Self)
        ensures
            r.count == 0,
    {
        DgramReceiver { count: 0 }
    }

    /// Counts one datagram and takes it apart.
    pub fn on_dgram<'a>(&mut self, dgram: &'a [u8]) -> (r: Option<H3Dgram<'a>>)
        requires
            old(self).count < u64::MAX,
        ensures
            final(self).count == old(self).count + 1,
            match r {
                Some(d) => parsed_h3_dgram(dgram@) == Some((d.flow_id, d.data@)),
                None => parsed_h3_dgram(dgram@) is None,
            },
    {
        self.count = self.count + 1;
        decode_h3_dgram(dgram)
    }
}

/// A number of datagrams to send, until one of them is refused.
#[derive(Clone, Copy, Debug)]
pub struct DgramBurst {
    remaining: u64,
    sent: u64,
}

/// What a [`DgramBurst`] stands for.
pub ghost struct BurstView {
    /// How many datagrams are still to be sent.
    pub remaining: nat,
    /// How many were sent.
    pub sent: nat,
}

impl BurstView {
    /// The burst after one more datagram was sent or refused: after a refusal
    /// no more are to be sent.
    pub open spec fn after(self, ok: bool) -> BurstView {
        if ok && self.remaining > 0 {
            BurstView { remaining: (self.remaining - 1) as nat, sent: self.sent + 1 }
        } else {
            BurstView { remaining: 0, ..self }
        }
    }

    /// The burst after a datagram for each of `results`, while some are to be
    /// sent.
    pub open spec fn after_all(self, results: Seq<bool>) -> BurstView
        decreases results.len(),
    {
        if results.len() == 0 || self.remaining == 0 {
            self
        } else {
            self.after(results[0]).after_all(results.drop_first())
        }
    }
}

impl View for DgramBurst {
    type V = BurstView;

    closed spec fn view(&self) -> BurstView {
        BurstView { remaining: self.remaining as nat, sent: self.sent as nat }
    }
}

impl DgramBurst {
    /// A burst of `count` datagrams.
    pub fn new(count: u64) -> (r: Self)
        ensures
            r@ == (BurstView { remaining: count as nat, sent: 0 }),
    {
        DgramBurst { remaining: count, sent: 0 }
    }

    /// Whether another datagram is to be sent.
    pub fn is_due(&self) -> (r: bool)
        ensures
            r == (self@.remaining > 0),
    {
        self.remaining > 0
    }

    /// How many datagrams were sent.
    pub fn sent(&self) -> (r: u64)
        ensures
            r == self@.sent,
    {
        self.sent
    }

    /// Takes note of whether a datagram was sent.
    pub fn on_send(&mut self, ok: bool)
        requires
            old(self)@.remaining + old(self)@.sent <= u64::MAX,
        ensures
            final(self)@ == old(self)@.after(ok),
            ok && old(self)@.remaining > 0 ==> {
                &&& final(self)@.remaining == old(self)@.remaining - 1
                &&& final(self)@.sent == old(self)@.sent + 1
            },
            !(ok && old(self)@.remaining > 0) ==> {
                &&& final(self)@.remaining == 0
                &&& final(self)@.sent == old(self)@.sent
            },
            final(self)@.remaining + final(self)@.sent <= u64::MAX,
    {
        if ok && self.remaining > 0 {
            self.remaining = self.remaining - 1;
            self.sent = self.sent + 1;
        } else {
            self.remaining = 0;
        }
    }
}

/// How many of the first `count` of `results` are successes that no failure
/// comes before.
pub open spec fn sent_before_failure(count: nat, results: Seq<bool>) -> nat
    decreases results.len(),
{
    if count == 0 || results.len() == 0 || !results[0] {
        0
    } else {
        1 + sent_before_failure((count - 1) as nat, results.drop_first())
    }
}

/// A burst sends datagrams up to its count or to the first refusal, and
/// counts those that were sent.
pub proof fn law_burst(burst: BurstView, results: Seq<bool>)
    ensures
        burst.after_all(results).sent == burst.sent + sent_before_failure(burst.remaining, results),
        burst.after_all(results).sent <= burst.sent + burst.remaining,
    decreases results.len(),
{
    if results.len() > 0 && burst.remaining > 0 {
        law_burst(burst.after(results[0]), results.drop_first());
    }
}

/// Taking apart a datagram that was built gives back its flow id and content.
pub proof fn law_dgram_round_trip(flow_id: u64, content: Seq<u8>)
    requires
        flow_id <= MAX_VAR_INT,
    ensures
        parsed_h3_dgram(h3_dgram(flow_id, content)) == Some((flow_id, content)),
{
    crate::varint::law_varint_round_trip(flow_id, content);
    crate::varint::law_varint_size(flow_id);
    assert(h3_dgram(flow_id, content).skip(crate::varint::varint_size(flow_id) as int) =~= content);
}

/// The answer to a datagram has the flow id and the payload of the datagram,
/// and is not longer.
pub proof fn law_dgram_echo(dgram: Seq<u8>)
    ensures
        echoed_h3_dgram(dgram) is Some <==> parsed_h3_dgram(dgram) is Some,
        echoed_h3_dgram(dgram) matches Some(echo) ==> {
            &&& parsed_h3_dgram(echo) == parsed_h3_dgram(dgram)
            &&& echo.len() <= dgram.len()
        },
{
    crate::varint::law_varint_read_is_writable(dgram);
    if let Some((flow_id, data)) = parsed_h3_dgram(dgram) {
        law_dgram_round_trip(flow_id, data);
        crate::varint::law_varint_size(flow_id);
    }
}

/// A datagram is the encoding of its flow id and then its content, all of it.
pub proof fn law_dgram_is_flow_id_and_content(flow_id: u64, content: Seq<u8>)
    ensures
        h3_dgram(flow_id, content) == crate::varint::varint_bytes(flow_id) + content,
{
}

/// A datagram has a flow id exactly if a whole number stands at its front, and
/// its payload is all that follows, whatever that is and in however many bytes
/// the flow id came.
pub proof fn law_dgram_is_taken_apart(dgram: Seq<u8>)
    ensures
        parsed_h3_dgram(dgram) is Some <==> crate::varint::varint_at_front(dgram) is Some,
        crate::varint::varint_at_front(dgram) matches Some((flow_id, size)) ==> parsed_h3_dgram(
            dgram,
        ) == Some((flow_id as u64, dgram.skip(size as int))),
{
}

/// A datagram that was built comes back as it is.
pub proof fn law_built_dgram_is_echoed_as_it_is(flow_id: u64, content: Seq<u8>)
    requires
        flow_id <= MAX_VAR_INT,
    ensures
        echoed_h3_dgram(h3_dgram(flow_id, content)) == Some(h3_dgram(flow_id, content)),
{
    law_dgram_round_trip(flow_id, content);
}

/// The answer to a datagram is the datagram that has its flow id and its
/// payload.
pub proof fn law_echo_is_built_anew(dgram: Seq<u8>)
    ensures
        parsed_h3_dgram(dgram) matches Some((flow_id, data)) ==> echoed_h3_dgram(dgram) == Some(
            crate::varint::varint_bytes(flow_id) + data,
        ),
{
}

/// One datagram of a burst: one that was sent is counted and leaves one less to
/// send, and after a refusal none is sent.
pub proof fn law_burst_counts_down(burst: BurstView)
    ensures
        burst.remaining > 0 ==> {
            &&& burst.after(true).remaining == burst.remaining - 1
            &&& burst.after(true).sent == burst.sent + 1
        },
        burst.remaining == 0 ==> burst.after(true) == burst,
        burst.after(false).remaining == 0,
        burst.after(false).sent == burst.sent,
{
}

} // verus!
