//! One mini-protocol in one direction. What is received comes in pieces that are put
//! together until a whole message is there.
use crate::cbor;
use crate::cbor::skip_item;
use crate::mux::segment::Direction;
use crate::mux::MuxError;
use vstd::prelude::*;
use vstd::slice::{slice_subrange, slice_to_vec};

verus! {

/// Number of messages that may wait to be sent.
pub const EGRESS_CHANNEL_CAPACITY: usize = 32;

/// A channel.
#[derive(Debug)]
pub struct MuxChannel {
    pub protocol_id: u16,
    pub direction: Direction,
    /// What was received and is not yet a whole message.
    pub reassembly_buf: Vec<u8>,
    /// Most bytes that may wait to become a message.
    pub ingress_limit: usize,
}

/// Length of the message at the start of `b`, if all of it is there. A message is a
/// single CBOR item.
pub open spec fn message_len(b: Seq<u8>) -> Option<int> {
    let (error, end) = cbor::skip_at(b, 0);
    if error is None {
        Some(end)
    } else {
        None
    }
}

/// Length of the message at the start of `b`, if all of it is there.
pub fn try_decode_cbor_boundary(b: &[u8]) -> (r: Option<usize>)
    ensures
        r is Some <==> message_len(b@) is Some,
        r matches Some(n) ==> message_len(b@) == Some(n as int) && 0 < n <= b@.len(),
{
    let mut pos: usize = 0;
    match skip_item(b, &mut pos) {
        Ok(_) => Some(pos),
        Err(_) => None,
    }
}

/// What happens to a channel that waits for a message.
#[derive(Debug)]
pub enum ChannelEvent {
    /// It starts to wait.
    Start,
    /// A piece was received.
    Chunk(Vec<u8>),
    /// Nothing more will be received.
    Closed,
}

/// What a channel comes to.
#[derive(Debug)]
pub enum ChannelStep {
    /// A message is there.
    Message(Vec<u8>),
    /// More is needed.
    Wait,
    /// There will be no message.
    Failed(MuxError),
}

/// What happens to a channel that is asked for a message without waiting.
#[derive(Debug)]
pub enum PollEvent {
    /// A piece was received.
    Chunk(Vec<u8>),
    /// Nothing more was received so far.
    Empty,
    /// Nothing more will be received.
    Closed,
}

/// What a channel comes to that is asked for a message without waiting.
#[derive(Debug)]
pub enum PollStep {
    /// Ask for another piece.
    Again,
    /// A message is there, or none is.
    Done(Option<Vec<u8>>),
    /// There will be no message.
    Failed(MuxError),
}

/// Whether the error says that `bytes` bytes are more than the channel may hold.
pub open spec fn is_overrun(e: MuxError, c: MuxChannel, bytes: nat) -> bool {
    e matches MuxError::IngressQueueOverrun { protocol_id, bytes: n, limit } && protocol_id
        == c.protocol_id && n == bytes && limit == c.ingress_limit
}

/// Whether looking for a message in `b` comes to `r`, and leaves `rest`.
pub open spec fn looked(b: Seq<u8>, r: Option<Seq<u8>>, rest: Seq<u8>) -> bool {
    match message_len(b) {
        Some(n) => r == Some(b.take(n)) && rest == b.skip(n),
        None => r is None && rest == b,
    }
}

/// Whether nothing of `b` is lost, doubled or moved: the message and what is left are
/// what was there, in order.
pub open spec fn kept(b: Seq<u8>, m: Option<Seq<u8>>, rest: Seq<u8>) -> bool {
    match m {
        Some(x) => b == x + rest,
        None => b == rest,
    }
}

/// The message of a step, if there is one.
pub open spec fn step_message(r: ChannelStep) -> Option<Seq<u8>> {
    match r {
        ChannelStep::Message(v) => Some(v@),
        _ => None,
    }
}

/// The bytes that an event brings.
pub open spec fn event_bytes(e: ChannelEvent) -> Seq<u8> {
    match e {
        ChannelEvent::Chunk(x) => x@,
        _ => Seq::empty(),
    }
}

/// The contents of an optional message.
pub open spec fn msg_view(m: Option<Vec<u8>>) -> Option<Seq<u8>> {
    match m {
        Some(v) => Some(v@),
        None => None,
    }
}

/// Whether the step is a message, or the wish for more, as `m` says.
pub open spec fn step_is(r: ChannelStep, m: Option<Seq<u8>>) -> bool {
    match m {
        Some(b) => r matches ChannelStep::Message(v) && v@ == b,
        None => r is Wait,
    }
}

/// Whether a channel that waits may come from `c` to `c2` and to `r`. More bytes than it
/// may hold are an error only where they do not start with a whole message.
pub open spec fn recv_leads(
    c: MuxChannel,
    e: ChannelEvent,
    c2: MuxChannel,
    r: ChannelStep,
) -> bool {
    let buf = c.reassembly_buf@;
    match e {
        ChannelEvent::Start => exists|m: Option<Seq<u8>>| #[trigger]
            looked(buf, m, c2.reassembly_buf@) && step_is(r, m),
        ChannelEvent::Chunk(x) => if message_len(buf + x@) is None && buf.len() + x@.len()
            > c.ingress_limit {
            &&& c2.reassembly_buf@ == buf + x@
            &&& r matches ChannelStep::Failed(e) && is_overrun(e, c, buf.len() + x@.len())
        } else {
            exists|m: Option<Seq<u8>>| #[trigger]
                looked(buf + x@, m, c2.reassembly_buf@) && step_is(r, m)
        },
        ChannelEvent::Closed => {
            &&& c2.reassembly_buf@ == buf
            &&& r matches ChannelStep::Failed(MuxError::BearerClosed)
        },
    }
}

/// Whether a channel that is asked without waiting may come from `c` to `c2` and to `r`.
pub open spec fn poll_leads(c: MuxChannel, e: PollEvent, c2: MuxChannel, r: PollStep) -> bool {
    let buf = c.reassembly_buf@;
    match e {
        PollEvent::Chunk(x) => {
            &&& c2.reassembly_buf@ == buf + x@
            &&& if buf.len() + x@.len() > c.ingress_limit {
                r matches PollStep::Failed(e) && is_overrun(e, c, buf.len() + x@.len())
            } else {
                r is Again
            }
        },
        PollEvent::Empty => r matches PollStep::Done(m) && looked(
            buf,
            msg_view(m),
            c2.reassembly_buf@,
        ),
        PollEvent::Closed => match message_len(buf) {
            Some(_) => r matches PollStep::Done(m) && looked(
                buf,
                msg_view(m),
                c2.reassembly_buf@,
            ),
            None => c2.reassembly_buf@ == buf && r matches PollStep::Failed(
                MuxError::BearerClosed,
            ),
        },
    }
}

impl MuxChannel {
    /// Whether the channel is the same but for what it has received.
    pub open spec fn same_but_buffer(&self, other: MuxChannel) -> bool {
        &&& self.protocol_id == other.protocol_id
        &&& self.direction == other.direction
        &&& self.ingress_limit == other.ingress_limit
    }

    /// A channel that has received nothing.
    pub fn new(protocol_id: u16, direction: Direction, ingress_limit: usize) -> (r: MuxChannel)
        ensures
            r.protocol_id == protocol_id,
            r.direction == direction,
            r.ingress_limit == ingress_limit,
            r.reassembly_buf@ == Seq::<u8>::empty(),
    {
        MuxChannel { protocol_id, direction, reassembly_buf: Vec::new(), ingress_limit }
    }

    /// Takes the first message out, if all of it is there.
    pub fn take_message(&mut self) -> (r: Option<Vec<u8>>)
        ensures
            looked(old(self).reassembly_buf@, msg_view(r), final(self).reassembly_buf@),
            kept(old(self).reassembly_buf@, msg_view(r), final(self).reassembly_buf@),
            final(self).same_but_buffer(*old(self)),
    {
        match try_decode_cbor_boundary(self.reassembly_buf.as_slice()) {
            Some(n) => {
                let msg = slice_to_vec(slice_subrange(self.reassembly_buf.as_slice(), 0, n));
                let rest = self.reassembly_buf.split_off(n);
                self.reassembly_buf = rest;
                assert(msg@ =~= old(self).reassembly_buf@.take(n as int));
                assert(self.reassembly_buf@ =~= old(self).reassembly_buf@.skip(n as int));
                assert(old(self).reassembly_buf@ =~= msg@ + self.reassembly_buf@);
                Some(msg)
            },
            None => None,
        }
    }

    /// Appends a piece. More bytes than the channel may hold are an error.
    pub fn feed(&mut self, chunk: &[u8]) -> (r: Result<(), MuxError>)
        ensures
            final(self).reassembly_buf@ == old(self).reassembly_buf@ + chunk@,
            final(self).same_but_buffer(*old(self)),
            r is Err <==> old(self).reassembly_buf@.len() + chunk@.len() > old(self).ingress_limit,
            r matches Err(e) ==> is_overrun(
                e,
                *old(self),
                old(self).reassembly_buf@.len() + chunk@.len(),
            ),
    {
        self.reassembly_buf.extend_from_slice(chunk);
        assert(self.reassembly_buf@ =~= old(self).reassembly_buf@ + chunk@);
        if self.reassembly_buf.len() > self.ingress_limit {
            return Err(
                MuxError::IngressQueueOverrun {
                    protocol_id: self.protocol_id,
                    bytes: self.reassembly_buf.len(),
                    limit: self.ingress_limit,
                },
            );
        }
        Ok(())
    }

    /// Goes on waiting for a message.
    pub fn recv_step(&mut self, event: &ChannelEvent) -> (r: ChannelStep)
        ensures
            recv_leads(*old(self), *event, *final(self), r),
            kept(
                old(self).reassembly_buf@ + event_bytes(*event),
                step_message(r),
                final(self).reassembly_buf@,
            ),
            final(self).same_but_buffer(*old(self)),
    {
        assert(old(self).reassembly_buf@ + Seq::<u8>::empty() =~= old(self).reassembly_buf@);
        match event {
            ChannelEvent::Start => {},
            ChannelEvent::Chunk(x) => {
                let fed = self.feed(x.as_slice());
                if let Err(e) = fed {
                    if try_decode_cbor_boundary(self.reassembly_buf.as_slice()).is_none() {
                        return ChannelStep::Failed(e);
                    }
                }
            },
            ChannelEvent::Closed => {
                return ChannelStep::Failed(MuxError::BearerClosed);
            },
        }
        let ghost buf = self.reassembly_buf@;
        let m = self.take_message();
        assert(looked(buf, msg_view(m), self.reassembly_buf@));
        match m {
            Some(msg) => ChannelStep::Message(msg),
            None => ChannelStep::Wait,
        }
    }

    /// Goes on looking for a message without waiting. A message that is there is handed
    /// out even if nothing more will be received.
    pub fn try_recv_step(&mut self, event: &PollEvent) -> (r: PollStep)
        ensures
            poll_leads(*old(self), *event, *final(self), r),
            final(self).same_but_buffer(*old(self)),
    {
        match event {
            PollEvent::Chunk(x) => match self.feed(x.as_slice()) {
                Ok(_) => PollStep::Again,
                Err(e) => PollStep::Failed(e),
            },
            PollEvent::Empty => PollStep::Done(self.take_message()),
            PollEvent::Closed => {
                if try_decode_cbor_boundary(self.reassembly_buf.as_slice()).is_none() {
                    return PollStep::Failed(MuxError::BearerClosed);
                }
                PollStep::Done(self.take_message())
            },
        }
    }

    /// The mini-protocol of the channel.
    pub fn protocol_id(&self) -> (r: u16)
        ensures
            r == self.protocol_id,
    {
        self.protocol_id
    }

    /// The direction of the channel.
    pub fn direction(&self) -> (r: Direction)
        ensures
            r == self.direction,
    {
        self.direction
    }
}

/// A channel hands out the first item of what it has, once all of it is there, and keeps the
/// rest. It fails only where no whole item is there and it holds more than it may, or where
/// nothing more will come.
pub proof fn lemma_messages_come_whole(
    c: MuxChannel,
    x: Vec<u8>,
    c2: MuxChannel,
    r: ChannelStep,
)
    requires
        recv_leads(c, ChannelEvent::Chunk(x), c2, r),
    ensures
        ({
            let all = c.reassembly_buf@ + x@;
            let (error, end) = cbor::skip_at(all, 0);
            &&& error is None ==> (r matches ChannelStep::Message(m) && m@ == all.take(end))
                && c2.reassembly_buf@ == all.skip(end)
            &&& error is Some ==> c2.reassembly_buf@ == all
            &&& error is Some && all.len() <= c.ingress_limit ==> r is Wait
            &&& error is Some && all.len() > c.ingress_limit ==> (r matches ChannelStep::Failed(
                MuxError::IngressQueueOverrun { protocol_id, bytes, limit },
            ) && protocol_id == c.protocol_id && bytes == all.len() && limit == c.ingress_limit)
        }),
{
}

/// A channel that starts to wait hands out a message that is there already; one whose bearer is
/// closed fails. One that is asked without waiting takes on what it can hold, and hands out a
/// message that is there even if nothing more will come.
pub proof fn lemma_messages_that_are_there(
    c: MuxChannel,
    c2: MuxChannel,
    r: ChannelStep,
    p: PollStep,
    x: Vec<u8>,
)
    ensures
        ({
            let b = c.reassembly_buf@;
            let (error, end) = cbor::skip_at(b, 0);
            &&& recv_leads(c, ChannelEvent::Start, c2, r) ==> {
                &&& error is None ==> (r matches ChannelStep::Message(m) && m@ == b.take(end))
                    && c2.reassembly_buf@ == b.skip(end)
                &&& error is Some ==> r is Wait && c2.reassembly_buf@ == b
            }
            &&& recv_leads(c, ChannelEvent::Closed, c2, r) ==> (r matches ChannelStep::Failed(
                MuxError::BearerClosed,
            ))
            &&& poll_leads(c, PollEvent::Empty, c2, p) ==> {
                &&& error is None ==> (p matches PollStep::Done(Some(m)) && m@ == b.take(end))
                    && c2.reassembly_buf@ == b.skip(end)
                &&& error is Some ==> (p matches PollStep::Done(None)) && c2.reassembly_buf@ == b
            }
            &&& poll_leads(c, PollEvent::Closed, c2, p) ==> {
                &&& error is None ==> (p matches PollStep::Done(Some(m)) && m@ == b.take(end))
                    && c2.reassembly_buf@ == b.skip(end)
                &&& error is Some ==> (p matches PollStep::Failed(MuxError::BearerClosed))
            }
            &&& poll_leads(c, PollEvent::Chunk(x), c2, p) ==> {
                &&& c2.reassembly_buf@ == b + x@
                &&& b.len() + x@.len() <= c.ingress_limit <==> p is Again
                &&& b.len() + x@.len() > c.ingress_limit <==> p is Failed
            }
        }),
{
}

} // verus!
