//! Handing what was received to its channel.
//!
//! The sender's direction is turned round first: what the other side sends as an
//! initiator is for a responder here. Segments of the reserved mini-protocol, and those
//! for which there is no channel, are dropped.
use crate::mux::segment;
use crate::mux::segment::{decode_header, SduHeader};
use crate::mux::{BearerError, ChannelKey, MuxError};
use crate::table::Table;
use vstd::prelude::*;

verus! {

/// The mini-protocol that is never used.
pub const RESERVED_PROTOCOL_ID: u16 = 1;

/// How much a channel may hold, and how much it was handed.
#[derive(Debug, Clone, Copy, PartialEq, Eq, Structural)]
pub struct IngressRoute {
    pub limit: usize,
    /// Bytes that the channel was handed so far. What it has read since is not known
    /// here and stays counted.
    pub buffered: usize,
}

/// The channels.
#[derive(Debug)]
pub struct IngressTask {
    pub routes: Table<ChannelKey, IngressRoute>,
}

/// Where a payload goes.
#[derive(Debug, Clone, Copy, PartialEq, Eq, Structural)]
pub enum Delivery {
    /// To this channel.
    Deliver(ChannelKey),
    /// Nowhere.
    Drop,
}

/// The channel for a segment with the given header.
pub open spec fn key_for(h: SduHeader) -> ChannelKey {
    ChannelKey { protocol_id: h.protocol_id, direction: h.direction.spec_flip() }
}

/// A sum, or the largest number there is.
pub open spec fn saturated(a: nat, b: nat) -> nat {
    if a + b > usize::MAX {
        usize::MAX as nat
    } else {
        a + b
    }
}

/// Whether a payload of `n` bytes is more than the channel may hold.
pub open spec fn too_much(r: IngressRoute, n: nat) -> bool {
    r.buffered + n > r.limit
}

/// Whether a segment may lead from channels `m` to `m2` and to `r`.
pub open spec fn dispatched(
    m: Map<ChannelKey, IngressRoute>,
    h: SduHeader,
    n: nat,
    m2: Map<ChannelKey, IngressRoute>,
    r: Result<Delivery, MuxError>,
) -> bool {
    let k = key_for(h);
    if h.protocol_id == RESERVED_PROTOCOL_ID || !m.dom().contains(k) {
        m2 == m && r == Ok::<Delivery, MuxError>(Delivery::Drop)
    } else if too_much(m[k], n) {
        &&& m2 == m
        &&& r matches Err(MuxError::IngressQueueOverrun { protocol_id, bytes, limit })
            && protocol_id == h.protocol_id && bytes == saturated(m[k].buffered as nat, n) && limit
            == m[k].limit
    } else {
        &&& m2 == m.insert(
            k,
            IngressRoute { limit: m[k].limit, buffered: (m[k].buffered + n) as usize },
        )
        &&& r == Ok::<Delivery, MuxError>(
            if n > 0 {
                Delivery::Deliver(k)
            } else {
                Delivery::Drop
            },
        )
    }
}

impl IngressTask {
    /// Whether the table of channels holds none twice.
    pub open spec fn wf(&self) -> bool {
        self.routes.wf()
    }

    /// No channels.
    pub fn new() -> (r: IngressTask)
        ensures
            r.wf(),
            r.routes@ == Map::<ChannelKey, IngressRoute>::empty(),
    {
        IngressTask { routes: Table::new() }
    }

    /// What it means that no header could be read: a bearer that was closed between two
    /// segments was closed in order.
    pub fn header_failed(error: BearerError) -> (r: Result<(), MuxError>)
        ensures
            r is Ok <==> error is ConnectionReset,
            r matches Err(e) ==> e == MuxError::Bearer(error),
    {
        match error {
            BearerError::ConnectionReset => Ok(()),
            other => Err(MuxError::Bearer(other)),
        }
    }

    /// Reads a header. The payload that follows it has the length that it says.
    pub fn read_header(&self, bytes: &[u8]) -> (r: SduHeader)
        requires
            bytes@.len() >= 8,
        ensures
            r == segment::header_at(bytes@),
    {
        decode_header(bytes)
    }

    /// Says where the payload of a segment goes, and counts it.
    pub fn dispatch(&mut self, header: &SduHeader, payload: &[u8]) -> (r: Result<
        Delivery,
        MuxError,
    >)
        requires
            old(self).wf(),
        ensures
            final(self).wf(),
            dispatched(old(self).routes@, *header, payload@.len(), final(self).routes@, r),
    {
        if header.protocol_id == RESERVED_PROTOCOL_ID {
            return Ok(Delivery::Drop);
        }
        let k = ChannelKey {
            protocol_id: header.protocol_id,
            direction: header.direction.flip(),
        };
        let route: IngressRoute = match self.routes.get(&k) {
            Some(r) => *r,
            None => {
                return Ok(Delivery::Drop);
            },
        };
        let n: usize = payload.len();
        if route.buffered > route.limit || n > route.limit - route.buffered {
            let bytes: usize = if n > usize::MAX - route.buffered {
                usize::MAX
            } else {
                route.buffered + n
            };
            return Err(
                MuxError::IngressQueueOverrun {
                    protocol_id: header.protocol_id,
                    bytes,
                    limit: route.limit,
                },
            );
        }
        self.routes.insert(
            k,
            IngressRoute { limit: route.limit, buffered: route.buffered + n },
        );
        if n > 0 {
            Ok(Delivery::Deliver(k))
        } else {
            Ok(Delivery::Drop)
        }
    }
}

/// Whether no channel was handed more than it may hold.
pub open spec fn within_limits(m: Map<ChannelKey, IngressRoute>) -> bool {
    forall|k: ChannelKey| #[trigger] m.dom().contains(k) ==> m[k].buffered <= m[k].limit
}

/// No channel is ever handed more bytes than it may hold, and what one is handed changes
/// no other.
pub proof fn lemma_limits_are_kept(
    m: Map<ChannelKey, IngressRoute>,
    h: SduHeader,
    n: nat,
    m2: Map<ChannelKey, IngressRoute>,
    r: Result<Delivery, MuxError>,
)
    requires
        within_limits(m),
        dispatched(m, h, n, m2, r),
    ensures
        within_limits(m2),
        m2.dom() == m.dom(),
        forall|k: ChannelKey| #[trigger]
            m.dom().contains(k) && k != key_for(h) ==> m2[k] == m[k],
{
    assert(m2.dom() =~= m.dom());
}

/// A payload goes to the channel of its mini-protocol on the other side than the one that sent
/// it, and is counted there once. What is for no channel, or for the reserved number, is
/// dropped; what a channel cannot hold is an error that says how much it would have held.
/// Nothing else changes.
pub proof fn lemma_where_a_payload_goes(
    m: Map<ChannelKey, IngressRoute>,
    h: SduHeader,
    n: nat,
    m2: Map<ChannelKey, IngressRoute>,
    r: Result<Delivery, MuxError>,
    k: ChannelKey,
)
    requires
        dispatched(m, h, n, m2, r),
        k.protocol_id == h.protocol_id,
        k.direction != h.direction,
        n <= 65535,
    ensures
        h.protocol_id == RESERVED_PROTOCOL_ID || !m.dom().contains(k) ==> m2 == m && r == Ok::<
            Delivery,
            MuxError,
        >(Delivery::Drop),
        h.protocol_id != RESERVED_PROTOCOL_ID && m.dom().contains(k) ==> {
            &&& m[k].buffered + n <= m[k].limit ==> {
                &&& m2.dom() == m.dom()
                &&& m2[k].buffered == m[k].buffered + n
                &&& m2[k].limit == m[k].limit
                &&& n > 0 ==> r == Ok::<Delivery, MuxError>(Delivery::Deliver(k))
                &&& n == 0 ==> r == Ok::<Delivery, MuxError>(Delivery::Drop)
            }
            &&& m[k].buffered + n > m[k].limit ==> {
                &&& m2 == m
                &&& r matches Err(MuxError::IngressQueueOverrun { protocol_id, bytes, limit })
                    && protocol_id == h.protocol_id && limit == m[k].limit && (m[k].buffered + n
                    <= usize::MAX ==> bytes == m[k].buffered + n)
            }
        },
{
    assert(key_for(h) == k);
    assert(m2.dom() =~= m.dom());
}

} // verus!
