//! Whole messages on a multiplexed connection.
use crate::cbor::put_raw;
use crate::mux::segment;
use crate::mux::segment::{decode_header, encode_header, Direction, SduHeader};
use vstd::prelude::*;
use vstd::slice::{slice_subrange, slice_to_vec};

verus! {

/// A piece of one side's conversation in a mini-protocol.
#[derive(Debug, Clone)]
pub struct Segment {
    pub transmission_time: u32,
    pub protocol_id: u16,
    pub is_responder: bool,
    pub payload: Vec<u8>,
}

/// A segment by its contents.
pub struct SegmentView {
    pub transmission_time: u32,
    pub protocol_id: u16,
    pub is_responder: bool,
    pub payload: Seq<u8>,
}

impl View for Segment {
    type V = SegmentView;

    open spec fn view(&self) -> SegmentView {
        SegmentView {
            transmission_time: self.transmission_time,
            protocol_id: self.protocol_id,
            is_responder: self.is_responder,
            payload: self.payload@,
        }
    }
}

/// The side that sends a segment.
pub open spec fn direction_of(is_responder: bool) -> Direction {
    if is_responder {
        Direction::ResponderDir
    } else {
        Direction::InitiatorDir
    }
}

/// One segment on the wire.
pub open spec fn sdu_bytes(s: SegmentView, payload: Seq<u8>) -> Seq<u8> {
    segment::header_bytes(
        SduHeader {
            timestamp: s.transmission_time,
            protocol_id: s.protocol_id,
            direction: direction_of(s.is_responder),
            payload_length: payload.len() as u16,
        },
    ) + payload
}

/// The payload from `p` on, in segments of at most 65535 bytes; a payload without
/// bytes takes one segment.
pub open spec fn wire_from(s: SegmentView, p: int) -> Seq<u8>
    decreases s.payload.len() - p,
{
    if p + 65535 >= s.payload.len() {
        sdu_bytes(s, s.payload.subrange(p, s.payload.len() as int))
    } else {
        sdu_bytes(s, s.payload.subrange(p, p + 65535)) + wire_from(s, p + 65535)
    }
}

/// A segment on the wire.
pub open spec fn wire_bytes(s: SegmentView) -> Seq<u8> {
    wire_from(s, 0)
}

/// The first segment of `b`, if all of it is there, and its length on the wire.
pub open spec fn segment_at(b: Seq<u8>) -> Option<(SegmentView, int)> {
    let h = segment::header_at(b);
    if b.len() < 8 || b.len() < 8 + h.payload_length {
        None
    } else {
        Some(
            (
                SegmentView {
                    transmission_time: h.timestamp,
                    protocol_id: h.protocol_id,
                    is_responder: h.direction is ResponderDir,
                    payload: b.subrange(8, 8 + h.payload_length),
                },
                8 + h.payload_length,
            ),
        )
    }
}

/// A segment of at most 65535 bytes reads back as it was written, whatever follows.
pub proof fn lemma_segment_roundtrip(s: SegmentView, rest: Seq<u8>)
    requires
        s.protocol_id < 0x8000,
        s.payload.len() <= 65535,
    ensures
        segment_at(wire_bytes(s) + rest) == Some((s, wire_bytes(s).len() as int)),
{
    let h = SduHeader {
        timestamp: s.transmission_time,
        protocol_id: s.protocol_id,
        direction: direction_of(s.is_responder),
        payload_length: s.payload.len() as u16,
    };
    assert(s.payload.subrange(0, s.payload.len() as int) =~= s.payload);
    let b = wire_bytes(s) + rest;
    assert(b =~= segment::header_bytes(h) + (s.payload + rest));
    segment::lemma_header_roundtrip(h, s.payload + rest);
    assert(b.subrange(8, 8 + s.payload.len() as int) =~= s.payload);
}

impl Segment {
    /// The segment on the wire, in several pieces if the payload takes them.
    pub fn encode(&self) -> (r: Vec<u8>)
        ensures
            r@ == wire_bytes(self@),
    {
        let mut r: Vec<u8> = Vec::new();
        let n: usize = self.payload.len();
        let mut p: usize = 0;
        let mut done: bool = false;
        while !done
            invariant
                p <= n,
                n == self.payload@.len(),
                !done ==> r@ + wire_from(self@, p as int) == wire_bytes(self@),
                done ==> r@ == wire_bytes(self@),
            decreases n - p, if done { 0int } else { 1int },
        {
            let end: usize = if n - p <= 65535 {
                n
            } else {
                p + 65535
            };
            let header = SduHeader {
                timestamp: self.transmission_time,
                protocol_id: self.protocol_id,
                direction: if self.is_responder {
                    Direction::ResponderDir
                } else {
                    Direction::InitiatorDir
                },
                payload_length: (end - p) as u16,
            };
            let head = encode_header(&header);
            let chunk = slice_subrange(self.payload.as_slice(), p, end);
            let ghost before = r@;
            put_raw(&mut r, head.as_slice());
            put_raw(&mut r, chunk);
            proof {
                assert(r@ =~= before + sdu_bytes(self@, chunk@));
                if end < n {
                    assert(before + wire_from(self@, p as int) =~= r@ + wire_from(
                        self@,
                        end as int,
                    ));
                }
            }
            if end == n {
                done = true;
            }
            p = end;
        }
        r
    }

    /// The first segment of `b` and its length on the wire; `None` while bytes are
    /// missing.
    pub fn decode(b: &[u8]) -> (r: Option<(Segment, usize)>)
        ensures
            r is Some <==> segment_at(b@) is Some,
            r matches Some(x) ==> (x.0@, x.1 as int) == segment_at(b@).unwrap(),
    {
        if b.len() < 8 {
            return None;
        }
        let h = decode_header(b);
        let n: usize = h.payload_length as usize;
        if b.len() - 8 < n {
            return None;
        }
        let payload = slice_to_vec(slice_subrange(b, 8, 8 + n));
        let segment = Segment {
            transmission_time: h.timestamp,
            protocol_id: h.protocol_id,
            is_responder: matches!(h.direction, Direction::ResponderDir),
            payload,
        };
        Some((segment, 8 + n))
    }
}

} // verus!
