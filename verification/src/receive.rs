//! Cutting a stream of bytes into segments.
use crate::multiplexer;
use crate::multiplexer::{Segment, SegmentView};
use vstd::prelude::*;

verus! {

/// The segments that are complete in `b`, in order.
pub open spec fn segments_in(b: Seq<u8>) -> Seq<SegmentView>
    decreases b.len(),
{
    match multiplexer::segment_at(b) {
        Some((s, n)) => seq![s] + segments_in(b.skip(n)),
        None => Seq::empty(),
    }
}

/// What is left of `b` behind them.
pub open spec fn rest_of(b: Seq<u8>) -> Seq<u8>
    decreases b.len(),
{
    match multiplexer::segment_at(b) {
        Some((_, n)) => rest_of(b.skip(n)),
        None => b,
    }
}

/// A segment that is complete stays the same, whatever follows.
proof fn lemma_segment_at_prefix(a: Seq<u8>, b: Seq<u8>)
    requires
        multiplexer::segment_at(a) is Some,
    ensures
        multiplexer::segment_at(a + b) == multiplexer::segment_at(a),
{
    let (s, n) = multiplexer::segment_at(a)->0;
    assert((a + b).subrange(8, n) =~= a.subrange(8, n));
    assert(forall|i: int| 0 <= i < 8 ==> (a + b)[i] == a[i]);
}

/// However a stream is cut, the same segments come out of it: those of a first part,
/// then those of what is left of it with the second part behind.
pub proof fn lemma_cut_anywhere(a: Seq<u8>, b: Seq<u8>)
    ensures
        segments_in(a + b) == segments_in(a) + segments_in(rest_of(a) + b),
        rest_of(a + b) == rest_of(rest_of(a) + b),
    decreases a.len(),
{
    match multiplexer::segment_at(a) {
        Some((s, n)) => {
            lemma_segment_at_prefix(a, b);
            assert((a + b).skip(n) =~= a.skip(n) + b);
            lemma_cut_anywhere(a.skip(n), b);
            assert(segments_in(a + b) =~= segments_in(a) + segments_in(rest_of(a) + b));
        },
        None => {
            assert(segments_in(a + b) =~= segments_in(a) + segments_in(a + b));
        },
    }
}

/// The bytes of segments, one after another.
pub open spec fn stream_of(s: Seq<SegmentView>) -> Seq<u8>
    decreases s.len(),
{
    if s.len() == 0 {
        Seq::empty()
    } else {
        multiplexer::wire_bytes(s[0]) + stream_of(s.skip(1))
    }
}

/// Segments of at most 65535 bytes come out of the stream as they were put into it, and
/// nothing is left.
pub proof fn lemma_stream_roundtrip(s: Seq<SegmentView>)
    requires
        forall|i: int|
            0 <= i < s.len() ==> (#[trigger] s[i]).protocol_id < 0x8000 && s[i].payload.len()
                <= 65535,
    ensures
        segments_in(stream_of(s)) == s,
        rest_of(stream_of(s)) == Seq::<u8>::empty(),
    decreases s.len(),
{
    if s.len() == 0 {
        assert(segments_in(stream_of(s)) =~= s);
    } else {
        let rest = s.skip(1);
        assert forall|i: int| 0 <= i < rest.len() implies (#[trigger] rest[i]).protocol_id < 0x8000
            && rest[i].payload.len() <= 65535 by {
            assert(rest[i] == s[i + 1]);
        }
        lemma_stream_roundtrip(rest);
        multiplexer::lemma_segment_roundtrip(s[0], stream_of(rest));
        let b = stream_of(s);
        assert(b.skip(multiplexer::wire_bytes(s[0]).len() as int) =~= stream_of(rest));
        assert(seq![s[0]] + rest =~= s);
    }
}

/// Bytes that were received and not yet taken out as segments.
#[derive(Debug)]
pub struct ReceiveBuffer {
    pub pending: Vec<u8>,
}

impl ReceiveBuffer {
    /// An empty buffer.
    pub fn new() -> (r: ReceiveBuffer)
        ensures
            r.pending@ == Seq::<u8>::empty(),
    {
        ReceiveBuffer { pending: Vec::new() }
    }

    /// Appends what was received.
    pub fn push(&mut self, data: &[u8])
        ensures
            final(self).pending@ == old(self).pending@ + data@,
    {
        self.pending.extend_from_slice(data);
        assert(self.pending@ =~= old(self).pending@ + data@);
    }

    /// Takes the first segment out, if all of it is there.
    pub fn next_segment(&mut self) -> (r: Option<Segment>)
        ensures
            match multiplexer::segment_at(old(self).pending@) {
                Some((s, n)) => r is Some && r->0@ == s && final(self).pending@ == old(
                    self,
                ).pending@.skip(n),
                None => r is None && final(self).pending@ == old(self).pending@,
            },
    {
        match Segment::decode(self.pending.as_slice()) {
            Some((segment, n)) => {
                let rest = self.pending.split_off(n);
                self.pending = rest;
                assert(self.pending@ =~= old(self).pending@.skip(n as int));
                Some(segment)
            },
            None => None,
        }
    }

    /// Takes all complete segments out.
    pub fn drain(&mut self) -> (r: Vec<Segment>)
        ensures
            r@.map_values(|s: Segment| s@) == segments_in(old(self).pending@),
            final(self).pending@ == rest_of(old(self).pending@),
    {
        let mut r: Vec<Segment> = Vec::new();
        let ghost f = |s: Segment| s@;
        assert(r@.map_values(f) + segments_in(self.pending@) =~= segments_in(self.pending@));
        loop
            invariant
                f == (|s: Segment| s@),
                r@.map_values(f) + segments_in(self.pending@) == segments_in(old(self).pending@),
                rest_of(self.pending@) == rest_of(old(self).pending@),
            decreases self.pending@.len(),
        {
            let ghost before = self.pending@;
            match self.next_segment() {
                Some(s) => {
                    let ghost so_far = r@;
                    r.push(s);
                    proof {
                        let n = (multiplexer::segment_at(before)->0).1;
                        assert(r@.map_values(f) =~= so_far.map_values(f).push(s@));
                        assert(so_far.map_values(f) + (seq![s@] + segments_in(before.skip(n)))
                            =~= r@.map_values(f) + segments_in(before.skip(n)));
                    }
                },
                None => {
                    assert(r@.map_values(f) + Seq::<SegmentView>::empty() =~= r@.map_values(f));
                    return r;
                },
            }
        }
    }
}

proof fn lemma_long_payload_from(s: SegmentView, p: int)
    requires
        0 <= p <= s.payload.len(),
        s.protocol_id < 0x8000,
    ensures
        ({
            let g = segments_in(multiplexer::wire_from(s, p));
            &&& g.len() > 0
            &&& payloads(g) == s.payload.skip(p)
            &&& rest_of(multiplexer::wire_from(s, p)).len() == 0
            &&& forall|i: int|
                0 <= i < g.len() ==> (#[trigger] g[i]).transmission_time == s.transmission_time
                    && g[i].protocol_id == s.protocol_id && g[i].is_responder == s.is_responder
                    && g[i].payload.len() <= 65535
            &&& forall|i: int|
                0 <= i < g.len() - 1 ==> (#[trigger] g[i]).payload.len() == 65535
        }),
    decreases s.payload.len() - p,
{
    let w = multiplexer::wire_from(s, p);
    let last = p + 65535 >= s.payload.len();
    let q = if last {
        s.payload.len() as int
    } else {
        p + 65535
    };
    let x = SegmentView { payload: s.payload.subrange(p, q), ..s };
    let rest = if last {
        Seq::<u8>::empty()
    } else {
        multiplexer::wire_from(s, q)
    };
    assert(x.payload.subrange(0, x.payload.len() as int) =~= x.payload);
    multiplexer::lemma_segment_roundtrip(x, rest);
    assert(multiplexer::wire_bytes(x) == multiplexer::sdu_bytes(x, x.payload));
    assert(w =~= multiplexer::wire_bytes(x) + rest);
    let n = multiplexer::wire_bytes(x).len() as int;
    assert(w.skip(n) =~= rest);
    let g = segments_in(w);
    assert(g == seq![x] + segments_in(rest));
    if last {
        assert(segments_in(rest) =~= Seq::empty());
        assert(g =~= seq![x]);
        reveal_with_fuel(payloads, 2);
        assert(g.skip(1) =~= Seq::empty());
        assert(payloads(g) =~= s.payload.skip(p));
        assert(rest_of(rest) == rest);
    } else {
        lemma_long_payload_from(s, q);
        assert(g.skip(1) =~= segments_in(rest));
        assert(g[0] == x);
        assert(payloads(g) =~= s.payload.skip(p));
        assert forall|i: int| 0 <= i < g.len() implies (#[trigger] g[i]).transmission_time
            == s.transmission_time && g[i].protocol_id == s.protocol_id && g[i].is_responder
            == s.is_responder && g[i].payload.len() <= 65535 by {
            if i > 0 {
                assert(g[i] == segments_in(rest)[i - 1]);
            }
        }
        assert forall|i: int| 0 <= i < g.len() - 1 implies (#[trigger] g[i]).payload.len()
            == 65535 by {
            if i > 0 {
                assert(g[i] == segments_in(rest)[i - 1]);
            }
        }
    }
}

/// The payloads of segments, one after another.
pub open spec fn payloads(s: Seq<SegmentView>) -> Seq<u8>
    decreases s.len(),
{
    if s.len() == 0 {
        Seq::empty()
    } else {
        s[0].payload + payloads(s.skip(1))
    }
}

/// Whatever its length, a payload comes out as it was sent: in segments with the same header
/// that all hold 65535 bytes but the last, and with nothing left behind them.
pub proof fn lemma_long_payload(s: SegmentView)
    requires
        s.protocol_id < 0x8000,
    ensures
        ({
            let g = segments_in(multiplexer::wire_bytes(s));
            &&& g.len() > 0
            &&& payloads(g) == s.payload
            &&& rest_of(multiplexer::wire_bytes(s)).len() == 0
            &&& forall|i: int|
                0 <= i < g.len() ==> (#[trigger] g[i]).transmission_time == s.transmission_time
                    && g[i].protocol_id == s.protocol_id && g[i].is_responder == s.is_responder
                    && g[i].payload.len() <= 65535
            &&& forall|i: int|
                0 <= i < g.len() - 1 ==> (#[trigger] g[i]).payload.len() == 65535
        }),
{
    lemma_long_payload_from(s, 0);
    assert(s.payload.skip(0) =~= s.payload);
}

} // verus!
