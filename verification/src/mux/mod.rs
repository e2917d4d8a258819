//! Multiplexing of mini-protocols over one bearer.
//!
//! A message travels in segments: an 8-byte header, then at most 65535 bytes of
//! payload. The header holds a time stamp, the number of the mini-protocol, the
//! direction of the conversation and the length of the payload.
//!
//! - [`segment`]: the header.
//! - [`channel`]: one mini-protocol in one direction; puts the segments of a message
//!   together again.
//! - [`egress`]: cuts messages into segments, one channel after the other.
//! - [`sending`]: says when to do so.
//! - [`ingress`]: hands what was received to its channel.
use crate::table::Key;
use vstd::prelude::*;

pub mod channel;
pub mod egress;
pub mod ingress;
pub mod segment;
pub mod sending;

use crate::mux::channel::MuxChannel;
use crate::mux::egress::EgressTask;
use crate::mux::ingress::{IngressRoute, IngressTask};
use crate::mux::segment::Direction;

verus! {

/// Number of pieces that may wait for a channel.
pub const INGRESS_CHANNEL_CAPACITY: usize = 64;

/// What is wrong with a bearer.
#[derive(Debug)]
pub enum BearerError {
    /// The other side closed it.
    ConnectionReset,
    /// Reading or writing failed.
    Io(String),
}

/// Why multiplexing ends.
#[derive(Debug)]
pub enum MuxError {
    /// The bearer failed.
    Bearer(BearerError),
    /// The bearer was closed.
    BearerClosed,
    /// The other end of a channel is gone.
    ChannelClosed,
    /// More bytes came for a channel than it may hold.
    IngressQueueOverrun { protocol_id: u16, bytes: usize, limit: usize },
}

/// What tells channels apart: the mini-protocol and the direction.
#[derive(Debug, Clone, Copy, PartialEq, Eq, Structural)]
pub struct ChannelKey {
    pub protocol_id: u16,
    pub direction: Direction,
}

impl Key for ChannelKey {
    fn same(&self, other: &Self) -> (r: bool) {
        self.protocol_id == other.protocol_id && self.direction == other.direction
    }
}

/// The channels of a connection.
#[derive(Debug)]
pub struct Mux {
    pub is_initiator: bool,
    pub ingress: IngressTask,
    pub egress: EgressTask,
}

impl Mux {
    /// A multiplexer without channels. `is_initiator` says whether this side opened the
    /// connection.
    pub fn new(is_initiator: bool, sdu_size: usize, batch_size: usize) -> (r: Mux)
        ensures
            r.is_initiator == is_initiator,
            r.ingress.wf(),
            r.ingress.routes@ == Map::<ChannelKey, IngressRoute>::empty(),
            r.egress.wf(),
            r.egress@.len() == 0,
            r.egress.sdu_size == sdu_size,
            r.egress.batch_size == batch_size,
    {
        Mux {
            is_initiator,
            ingress: IngressTask::new(),
            egress: EgressTask::new(sdu_size, batch_size),
        }
    }

    /// Opens a channel that may hold `ingress_limit` bytes.
    pub fn subscribe(&mut self, protocol_id: u16, direction: Direction, ingress_limit: usize) -> (r:
        MuxChannel)
        requires
            old(self).ingress.wf(),
        ensures
            final(self).ingress.wf(),
            final(self).ingress.routes@ == old(self).ingress.routes@.insert(
                ChannelKey { protocol_id, direction },
                IngressRoute { limit: ingress_limit, buffered: 0 },
            ),
            final(self).egress == old(self).egress,
            final(self).is_initiator == old(self).is_initiator,
            r.protocol_id == protocol_id,
            r.direction == direction,
            r.ingress_limit == ingress_limit,
            r.reassembly_buf@ == Seq::<u8>::empty(),
    {
        self.ingress.routes.insert(
            ChannelKey { protocol_id, direction },
            IngressRoute { limit: ingress_limit, buffered: 0 },
        );
        MuxChannel::new(protocol_id, direction, ingress_limit)
    }

    /// Whether this side opened the connection.
    pub fn is_initiator(&self) -> (r: bool)
        ensures
            r == self.is_initiator,
    {
        self.is_initiator
    }
}

} // verus!
