//! ChainSync: a peer follows the headers of the chain.
//!
//! | Tag | Message              | Contents                             |
//! |-----|----------------------|--------------------------------------|
//! |   0 | MsgRequestNext       | `[0]`                                |
//! |   1 | MsgAwaitReply        | `[1]`                                |
//! |   2 | MsgRollForward       | `[2, [era, tag 24 (header)], tip]`   |
//! |   3 | MsgRollBackward      | `[3, point, tip]`                    |
//! |   4 | MsgFindIntersect     | `[4, [point, ..]]`                   |
//! |   5 | MsgIntersectFound    | `[5, point, tip]`                    |
//! |   6 | MsgIntersectNotFound | `[6, tip]`                           |
//! |   7 | MsgDone              | `[7]`                                |
use crate::cbor;
use crate::cbor::{
    at_break, get_array, get_u32, put_array, put_bytes, put_tag, put_u32, skip_item,
};
use crate::multiplexer::Segment;
use crate::n2n_server;
use crate::n2n_server::message;
use crate::n2n_server::message::{is_origin_point, parse_point_slot_hash, read_msg_tag, reply};
use crate::n2n_server::{
    BlockAnnouncement, BlockProvider, N2NServerError, PeerState, PeerStateView,
    RollbackAnnouncement, TipInfo, MINI_PROTOCOL_CHAINSYNC,
};
use crate::point;
use crate::point::{encode_point, encode_tip};
use crate::words;
use crate::words::Word;
use vstd::prelude::*;

verus! {

// ---------------------------------------------------------------------------
// Headers
// ---------------------------------------------------------------------------

/// The number of the era, cut to 16 bits, and the header of a block
/// `[era, [header, ..]]`.
pub open spec fn header_of(block: Seq<u8>) -> Option<(u16, Seq<u8>)> {
    let a = cbor::len_at(block, 0, 4);
    let era = cbor::uint_at(block, a.end, u32::MAX as nat);
    let inner = cbor::len_at(block, era.end, 4);
    let (error, end) = cbor::skip_at(block, inner.end);
    if a.value is Some && era.value is Some && inner.value is Some && error is None {
        Some(((era.value->0 % 0x1_0000) as u16, block.subrange(inner.end, end)))
    } else {
        None
    }
}

/// Takes the number of the era and the header out of a block.
pub fn extract_header_from_block(block_cbor: &[u8]) -> (r: Option<(u16, Vec<u8>)>)
    ensures
        match r {
            Some(h) => header_of(block_cbor@) == Some((h.0, h.1@)),
            None => header_of(block_cbor@) is None,
        },
{
    let mut pos: usize = 0;
    if get_array(block_cbor, &mut pos).is_err() {
        return None;
    }
    let era: u32 = match get_u32(block_cbor, &mut pos) {
        Ok(n) => n,
        Err(_) => {
            return None;
        },
    };
    if get_array(block_cbor, &mut pos).is_err() {
        return None;
    }
    let start: usize = pos;
    if skip_item(block_cbor, &mut pos).is_err() {
        return None;
    }
    let header = vstd::slice::slice_subrange(block_cbor, start, pos);
    let mut v: Vec<u8> = Vec::new();
    v.extend_from_slice(header);
    assert(v@ =~= block_cbor@.subrange(start as int, pos as int));
    assert(era as u16 == era % 0x1_0000) by (bit_vector);
    Some((#[verifier::truncate] (era as u16), v))
}

/// The index of an era on the wire, where a block on disk holds `era`: both kinds of
/// Byron blocks have index 0, and from then on it is one less.
pub open spec fn era_index(era: u16) -> nat {
    if era <= 1 {
        0
    } else {
        (era - 1) as nat
    }
}

/// MsgRollForward. A block whose header cannot be found is sent whole, as one of the
/// era with index 6.
pub open spec fn roll_forward_bytes(block: Seq<u8>, slot: u64, hash: Seq<u8>, block_no: u64) -> Seq<
    u8,
> {
    let (index, header) = match header_of(block) {
        Some(h) => (era_index(h.0), h.1),
        None => (6nat, block),
    };
    cbor::array_head(3)
        + cbor::uint(2)
        + (cbor::array_head(2)
            + cbor::uint(index)
            + cbor::tag_head(24)
            + cbor::bytes_item(header))
        + point::tip_bytes(slot, hash, block_no)
}

/// MsgRollForward with the header of a block.
pub fn build_chainsync_roll_forward(
    block_cbor: &[u8],
    tip_slot: u64,
    tip_hash: &[u8; 32],
    tip_block: u64,
) -> (r: Vec<u8>)
    ensures
        r@ == roll_forward_bytes(block_cbor@, tip_slot, tip_hash@, tip_block),
{
    let mut buf: Vec<u8> = Vec::new();
    put_array(&mut buf, 3);
    put_u32(&mut buf, 2);
    put_array(&mut buf, 2);
    match extract_header_from_block(block_cbor) {
        Some((era, header)) => {
            let index: u32 = if era <= 1 {
                0
            } else {
                era as u32 - 1
            };
            put_u32(&mut buf, index);
            put_tag(&mut buf, 24);
            put_bytes(&mut buf, header.as_slice());
        },
        None => {
            put_u32(&mut buf, 6);
            put_tag(&mut buf, 24);
            put_bytes(&mut buf, block_cbor);
        },
    }
    encode_tip(&mut buf, tip_slot, tip_hash, tip_block);
    assert(buf@ =~= roll_forward_bytes(block_cbor@, tip_slot, tip_hash@, tip_block));
    buf
}

// ---------------------------------------------------------------------------
// Points
// ---------------------------------------------------------------------------

/// A point that a peer names.
pub enum PeerPoint {
    /// `[]`: where the chain starts.
    Origin,
    /// `[slot, hash]`.
    At(u64, Seq<u8>),
    /// Anything else.
    Malformed,
}

/// The point at `p`, and where it ends.
pub open spec fn peer_point(b: Seq<u8>, p: int) -> (PeerPoint, int) {
    let r = message::point_at(b, p);
    if message::origin_at(b, p) {
        (PeerPoint::Origin, r.end)
    } else {
        match r.value {
            Some(v) => (PeerPoint::At(v.0, v.1), r.end),
            None => (PeerPoint::Malformed, r.end),
        }
    }
}

/// At most `n` points, from `p` on. An array of indefinite length ends earlier if there
/// is a break or nothing more.
pub open spec fn points_from(b: Seq<u8>, p: int, n: nat, indefinite: bool) -> Seq<PeerPoint>
    decreases n,
{
    if n == 0 || (indefinite && (p >= b.len() || cbor::break_at(b, p))) {
        Seq::empty()
    } else {
        let (point, end) = peer_point(b, p);
        seq![point] + points_from(b, end, (n - 1) as nat, indefinite)
    }
}

/// The points in the array at `p`, `None` where there is none. In an array of indefinite
/// length there are fewer points than bytes in the message.
pub open spec fn peer_points(b: Seq<u8>, p: int) -> Option<Seq<PeerPoint>> {
    let a = cbor::len_at(b, p, 4);
    match a.value {
        Some(Some(n)) => Some(points_from(b, a.end, n, false)),
        Some(None) => Some(points_from(b, a.end, b.len() + 1, true)),
        None => None,
    }
}

/// Whether the server has the block of the point, where the answer for its hash is
/// `has`.
pub open spec fn is_known(point: PeerPoint, has: bool) -> bool {
    point is At && has
}

/// The first point from the `k`-th on whose block the server has, among those for which
/// there is an answer.
pub open spec fn first_known(points: Seq<PeerPoint>, has: Seq<bool>, k: int) -> Option<
    (u64, Seq<u8>),
>
    decreases has.len() - k,
{
    if k >= has.len() {
        None
    } else {
        match points[k] {
            PeerPoint::At(slot, hash) if has[k] => Some((slot, hash)),
            _ => first_known(points, has, k + 1),
        }
    }
}

/// The first known point comes first in the list of the peer: every earlier one with a
/// block is unknown, and there is none exactly where all are unknown.
pub proof fn lemma_first_known(points: Seq<PeerPoint>, has: Seq<bool>)
    requires
        has.len() <= points.len(),
    ensures
        match first_known(points, has, 0) {
            Some(f) => exists|i: int|
                #![trigger points[i]]
                0 <= i < has.len() && points[i] == PeerPoint::At(f.0, f.1) && has[i] && (forall|
                    j: int,
                |
                    0 <= j < i ==> !is_known(#[trigger] points[j], has[j])),
            None => forall|j: int| 0 <= j < has.len() ==> !is_known(#[trigger] points[j], has[j]),
        },
{
    lemma_first_known_from(points, has, 0);
}

proof fn lemma_first_known_from(points: Seq<PeerPoint>, has: Seq<bool>, k: int)
    requires
        0 <= k <= has.len() <= points.len(),
        forall|j: int| 0 <= j < k ==> !is_known(#[trigger] points[j], has[j]),
    ensures
        match first_known(points, has, k) {
            Some(f) => exists|i: int|
                #![trigger points[i]]
                0 <= i < has.len() && points[i] == PeerPoint::At(f.0, f.1) && has[i] && (forall|
                    j: int,
                |
                    0 <= j < i ==> !is_known(#[trigger] points[j], has[j])),
            None => forall|j: int| 0 <= j < has.len() ==> !is_known(#[trigger] points[j], has[j]),
        },
    decreases has.len() - k,
{
    if k < has.len() {
        if is_known(points[k], has[k]) {
            let f = first_known(points, has, k)->0;
            assert(points[k] == PeerPoint::At(f.0, f.1));
        } else {
            lemma_first_known_from(points, has, k + 1);
        }
    }
}

proof fn lemma_first_known_none(points: Seq<PeerPoint>, has: Seq<bool>, k: int)
    requires
        0 <= k <= has.len(),
        forall|j: int| k <= j < has.len() ==> !is_known(#[trigger] points[j], has[j]),
    ensures
        first_known(points, has, k) is None,
    decreases has.len() - k,
{
    if k < has.len() {
        assert(!is_known(points[k], has[k]));
        lemma_first_known_none(points, has, k + 1);
    }
}

proof fn lemma_first_known_last(points: Seq<PeerPoint>, has: Seq<bool>, k: int)
    requires
        0 <= k < has.len(),
        forall|j: int| k <= j < has.len() - 1 ==> !is_known(#[trigger] points[j], has[j]),
    ensures
        first_known(points, has, k) == first_known(points, has, has.len() - 1),
    decreases has.len() - k,
{
    if k < has.len() - 1 {
        assert(!is_known(points[k], has[k]));
        lemma_first_known_last(points, has, k + 1);
    }
}

/// Where peer and server agree.
pub enum Intersection {
    Block(u64, Seq<u8>),
    Origin,
    Nowhere,
}

/// Where peer and server agree: at the first point whose block the server has, else
/// where the chain starts if the peer names that.
pub open spec fn intersection(points: Seq<PeerPoint>, has: Seq<bool>) -> Intersection {
    match first_known(points, has, 0) {
        Some(f) => Intersection::Block(f.0, f.1),
        None => if points.contains(PeerPoint::Origin) {
            Intersection::Origin
        } else {
            Intersection::Nowhere
        },
    }
}

/// Whether the provider may give the answers `has` for the points of a peer, where it is
/// asked for one after the other until it has one.
pub open spec fn may_find<P: BlockProvider>(
    provider: &P,
    points: Seq<PeerPoint>,
    has: Seq<bool>,
) -> bool {
    &&& has.len() <= points.len()
    &&& has.len() < points.len() ==> first_known(points, has, 0) is Some
    &&& forall|k: int|
        #![trigger has[k]]
        0 <= k < has.len() ==> match points[k] {
            PeerPoint::At(_, h) => provider.may_have(h, has[k]),
            _ => true,
        }
}

// ---------------------------------------------------------------------------
// Messages
// ---------------------------------------------------------------------------

/// MsgAwaitReply.
pub open spec fn await_bytes() -> Seq<u8> {
    cbor::array_head(1) + cbor::uint(1)
}

/// MsgIntersectFound or MsgIntersectNotFound.
pub open spec fn intersect_bytes(at: Intersection, tip: TipInfo) -> Seq<u8> {
    let tip_item = point::tip_bytes(tip.slot, tip.hash@, tip.block_number);
    match at {
        Intersection::Block(slot, hash) => cbor::array_head(3)
            + cbor::uint(5)
            + point::point_bytes(slot, hash)
            + tip_item,
        Intersection::Origin => cbor::array_head(3)
            + cbor::uint(5)
            + cbor::array_head(0)
            + tip_item,
        Intersection::Nowhere => cbor::array_head(2) + cbor::uint(6) + tip_item,
    }
}

/// MsgRollBackward.
pub open spec fn roll_backward_bytes(rb: RollbackAnnouncement) -> Seq<u8> {
    cbor::array_head(3)
        + cbor::uint(3)
        + point::point_bytes(rb.slot, rb.hash@)
        + point::tip_bytes(rb.tip_slot, rb.tip_hash@, rb.tip_block_number)
}

/// What a provider of blocks may answer to the questions that a message leads to.
pub struct Answers {
    pub tip: TipInfo,
    /// The block behind the cursor.
    pub next: Option<(u64, [u8; 32], Seq<u8>)>,
    /// For each point of the peer, up to one that is known, whether the provider has it.
    pub has: Seq<bool>,
}

/// The slot of the cursor, 0 before there is one.
pub open spec fn cursor_slot(s: PeerStateView) -> u64 {
    match s.chainsync_cursor_slot {
        Some(slot) => slot,
        None => 0,
    }
}

/// What MsgRequestNext leads to. A peer is told to wait if it has come to the tip, or if
/// there is no block behind its cursor.
pub open spec fn next_step(s: PeerStateView, a: Answers) -> (PeerStateView, message::Outcome) {
    let wait = (
        PeerStateView { chainsync_must_reply: true, ..s },
        message::replied(MINI_PROTOCOL_CHAINSYNC, await_bytes()),
    );
    if cursor_slot(s) >= a.tip.slot {
        wait
    } else {
        match a.next {
            Some(next) => (
                PeerStateView {
                    chainsync_cursor_slot: Some(next.0),
                    chainsync_cursor_hash: Some(next.1),
                    ..s
                },
                message::replied(
                    MINI_PROTOCOL_CHAINSYNC,
                    roll_forward_bytes(next.2, a.tip.slot, a.tip.hash@, a.tip.block_number),
                ),
            ),
            None => wait,
        }
    }
}

/// The cursor after MsgFindIntersect.
pub open spec fn moved(s: PeerStateView, s2: PeerStateView, at: Intersection) -> bool {
    match at {
        Intersection::Block(slot, hash) => {
            &&& s2.chainsync_cursor_hash is Some
            &&& s2.chainsync_cursor_hash->0@ == hash
            &&& s2 == (PeerStateView {
                chainsync_cursor_slot: Some(slot),
                chainsync_cursor_hash: s2.chainsync_cursor_hash,
                ..s
            })
        },
        Intersection::Origin => s2 == (PeerStateView {
            chainsync_cursor_slot: Some(0),
            chainsync_cursor_hash: None,
            ..s
        }),
        Intersection::Nowhere => s2 == s,
    }
}

/// Whether the message `b` may lead from state `s` to `s2` and to `o`, if the provider
/// gives the answers `a`.
pub open spec fn sync_step(
    b: Seq<u8>,
    s: PeerStateView,
    s2: PeerStateView,
    a: Answers,
    o: message::Outcome,
) -> bool {
    match message::msg_tag(b) {
        message::MsgTag::Tag(tag, end) => if tag == 0 {
            (s2, o) == next_step(s, a)
        } else if tag == 4 {
            match peer_points(b, end) {
                Some(points) => {
                    let at = intersection(points, a.has);
                    &&& moved(s, s2, at)
                    &&& o == message::replied(MINI_PROTOCOL_CHAINSYNC, intersect_bytes(at, a.tip))
                },
                None => {
                    &&& s2 == s
                    &&& o == message::Outcome::Failed(
                        message::ErrorView::Protocol(cbor::array_error_text(b, end)),
                    )
                },
            }
        } else {
            s2 == s && o == message::silent()
        },
        message::MsgTag::Broken(m) => {
            &&& s2 == s
            &&& o == message::Outcome::Failed(message::ErrorView::Protocol(m))
        },
    }
}

/// Whether the provider may give these answers to the questions that the message `b`
/// leads to.
pub open spec fn may_answer<P: BlockProvider>(
    provider: &P,
    b: Seq<u8>,
    s: PeerStateView,
    a: Answers,
) -> bool {
    match message::msg_tag(b) {
        message::MsgTag::Tag(tag, end) => {
            &&& tag == 0 ==> {
                &&& provider.may_end_at(a.tip)
                &&& cursor_slot(s) < a.tip.slot ==> provider.may_follow(cursor_slot(s), a.next)
            }
            &&& tag == 4 && peer_points(b, end) is Some ==> {
                &&& may_find(provider, peer_points(b, end)->0, a.has)
                &&& provider.may_end_at(a.tip)
            }
        },
        _ => true,
    }
}

/// Whether the message `b` may lead from state `s` to `s2` and to `o`.
pub open spec fn may_lead<P: BlockProvider>(
    provider: &P,
    b: Seq<u8>,
    s: PeerStateView,
    s2: PeerStateView,
    o: message::Outcome,
) -> bool {
    exists|a: Answers| #[trigger] may_answer(provider, b, s, a) && sync_step(b, s, s2, a, o)
}

/// A point that a peer names, as it was found.
pub enum FoundAt {
    Block(u64, [u8; 32]),
    Origin,
    Nowhere,
}

/// Where peer and server agree.
pub open spec fn found_view(f: FoundAt) -> Intersection {
    match f {
        FoundAt::Block(slot, hash) => Intersection::Block(slot, hash@),
        FoundAt::Origin => Intersection::Origin,
        FoundAt::Nowhere => Intersection::Nowhere,
    }
}

/// MsgAwaitReply.
pub fn await_reply() -> (r: Segment)
    ensures
        r@ == message::reply_view(MINI_PROTOCOL_CHAINSYNC, await_bytes()),
{
    let mut buf: Vec<u8> = Vec::new();
    put_array(&mut buf, 1);
    put_u32(&mut buf, 1);
    assert(buf@ =~= await_bytes());
    reply(MINI_PROTOCOL_CHAINSYNC, buf)
}

/// MsgIntersectFound or MsgIntersectNotFound.
pub fn intersect_reply(at: &FoundAt, tip: &TipInfo) -> (r: Segment)
    ensures
        r@ == message::reply_view(
            MINI_PROTOCOL_CHAINSYNC,
            intersect_bytes(found_view(*at), *tip),
        ),
{
    let mut buf: Vec<u8> = Vec::new();
    match at {
        FoundAt::Block(slot, hash) => {
            put_array(&mut buf, 3);
            put_u32(&mut buf, 5);
            encode_point(&mut buf, *slot, hash);
        },
        FoundAt::Origin => {
            put_array(&mut buf, 3);
            put_u32(&mut buf, 5);
            put_array(&mut buf, 0);
        },
        FoundAt::Nowhere => {
            put_array(&mut buf, 2);
            put_u32(&mut buf, 6);
        },
    }
    encode_tip(&mut buf, tip.slot, &tip.hash, tip.block_number);
    assert(buf@ =~= intersect_bytes(found_view(*at), *tip));
    reply(MINI_PROTOCOL_CHAINSYNC, buf)
}

/// MsgRollBackward.
pub fn roll_backward_reply(rb: &RollbackAnnouncement) -> (r: Segment)
    ensures
        r@ == message::reply_view(MINI_PROTOCOL_CHAINSYNC, roll_backward_bytes(*rb)),
{
    let mut buf: Vec<u8> = Vec::new();
    put_array(&mut buf, 3);
    put_u32(&mut buf, 3);
    encode_point(&mut buf, rb.slot, &rb.hash);
    encode_tip(&mut buf, rb.tip_slot, &rb.tip_hash, rb.tip_block_number);
    assert(buf@ =~= roll_backward_bytes(*rb));
    reply(MINI_PROTOCOL_CHAINSYNC, buf)
}

/// Finds where peer and server agree.
fn find_intersection<P: BlockProvider>(b: &[u8], start: usize, provider: &P) -> (r: (
    Result<FoundAt, String>,
    Ghost<Seq<bool>>,
))
    ensures
        match peer_points(b@, start as int) {
            Some(points) => {
                &&& r.0 is Ok
                &&& found_view(r.0->Ok_0) == intersection(points, r.1@)
                &&& may_find(provider, points, r.1@)
            },
            None => r.0 is Err && r.0->Err_0@ == cbor::array_error_text(b@, start as int),
        },
{
    let mut pos: usize = start;
    let ghost mut has: Seq<bool> = Seq::empty();
    let len: Option<u64> = match get_array(b, &mut pos) {
        Ok(n) => n,
        Err(e) => {
            return (Err(e), Ghost(has));
        },
    };
    let ghost points = peer_points(b@, start as int)->0;
    let ghost indefinite = len is None;
    let ghost n: nat = match len {
        Some(n) => n as nat,
        None => b@.len() + 1,
    };
    let mut remaining: Option<u64> = len;
    let ghost mut i: nat = 0;
    let mut origin: bool = false;
    assert(points.skip(0) =~= points);
    loop
        invariant
            i <= n,
            indefinite <==> remaining is None,
            remaining matches Some(k) ==> k == n - i,
            indefinite ==> n == b@.len() + 1 && i <= pos <= b@.len(),
            peer_points(b@, start as int) == Some(points),
            points.len() >= i,
            has.len() == i,
            points.skip(i as int) == points_from(b@, pos as int, (n - i) as nat, indefinite),
            origin <==> points.take(i as int).contains(PeerPoint::Origin),
            forall|j: int| 0 <= j < i ==> !is_known(#[trigger] points[j], has[j]),
            forall|k: int|
                #![trigger has[k]]
                0 <= k < has.len() ==> match points[k] {
                    PeerPoint::At(_, h) => provider.may_have(h, has[k]),
                    _ => true,
                },
        decreases n - i,
    {
        let done: bool = match remaining {
            Some(k) => k == 0,
            None => pos >= b.len() || at_break(b, pos),
        };
        if done {
            proof {
                assert(points.skip(i as int).len() == 0);
                assert(points.take(i as int) =~= points);
                lemma_first_known_none(points, has, 0);
            }
            return (
                Ok(
                    if origin {
                        FoundAt::Origin
                    } else {
                        FoundAt::Nowhere
                    },
                ),
                Ghost(has),
            );
        }
        if let Some(k) = remaining {
            remaining = Some(k - 1);
        }
        let ghost rest = points.skip(i as int);
        let ghost p = pos as int;
        let is_origin: bool = is_origin_point(b, pos);
        let found: Option<(u64, [u8; 32])> = parse_point_slot_hash(b, &mut pos);
        proof {
            let pp = peer_point(b@, p);
            assert(rest.len() > 0);
            assert(rest[0] == pp.0);
            assert(points[i as int] == pp.0);
            assert(points.skip(i as int + 1) =~= rest.skip(1));
            assert(rest.skip(1) =~= points_from(
                b@,
                pos as int,
                (n - i - 1) as nat,
                indefinite,
            ));
            assert(points.take(i as int + 1) =~= points.take(i as int).push(pp.0));
            assert forall|x: PeerPoint|
                points.take(i as int + 1).contains(x) <==> (points.take(i as int).contains(x) || x
                    == pp.0) by {
                let t = points.take(i as int);
                if t.contains(x) {
                    let j = choose|j: int| 0 <= j < t.len() && t[j] == x;
                    assert(t.push(pp.0)[j] == x);
                }
                assert(t.push(pp.0)[t.len() as int] == pp.0);
            }
        }
        let ghost before = has;
        proof {
            has = has.push(false);
        }
        if is_origin {
            origin = true;
        } else if let Some((slot, hash)) = found {
            let answer: bool = provider.has_block(&hash);
            proof {
                has = before.push(answer);
            }
            if answer {
                proof {
                    lemma_first_known_last(points, has, 0);
                }
                return (Ok(FoundAt::Block(slot, hash)), Ghost(has));
            }
        }
        proof {
            i = i + 1;
        }
    }
}

/// Answers MsgRequestNext.
fn request_next<P: BlockProvider>(provider: &P, peer_state: &mut PeerState) -> (r: (
    Segment,
    Ghost<Answers>,
))
    ensures
        (final(peer_state)@, message::Outcome::Replies(seq![r.0@])) == next_step(
            old(peer_state)@,
            r.1@,
        ),
        provider.may_end_at(r.1@.tip),
        cursor_slot(old(peer_state)@) < r.1@.tip.slot ==> provider.may_follow(
            cursor_slot(old(peer_state)@),
            r.1@.next,
        ),
{
    let tip = provider.get_tip();
    let ghost a = Answers { tip, next: None, has: Seq::empty() };
    let slot: u64 = match peer_state.chainsync_cursor_slot {
        Some(s) => s,
        None => 0,
    };
    if slot >= tip.slot {
        peer_state.chainsync_must_reply = true;
        return (await_reply(), Ghost(a));
    }
    let next = provider.get_next_block_after_slot(slot);
    let ghost next_view = n2n_server::next_block(next);
    match next {
        Some((next_slot, next_hash, block)) => {
            peer_state.chainsync_cursor_slot = Some(next_slot);
            peer_state.chainsync_cursor_hash = Some(next_hash);
            let buf = build_chainsync_roll_forward(
                block.as_slice(),
                tip.slot,
                &tip.hash,
                tip.block_number,
            );
            (reply(MINI_PROTOCOL_CHAINSYNC, buf), Ghost(Answers { next: next_view, ..a }))
        },
        None => {
            peer_state.chainsync_must_reply = true;
            (await_reply(), Ghost(a))
        },
    }
}

/// Moves the cursor of a peer to where peer and server agree.
pub fn move_cursor(at: &FoundAt, peer_state: &mut PeerState)
    ensures
        moved(old(peer_state)@, final(peer_state)@, found_view(*at)),
{
    match at {
        FoundAt::Block(slot, hash) => {
            peer_state.chainsync_cursor_slot = Some(*slot);
            peer_state.chainsync_cursor_hash = Some(*hash);
        },
        FoundAt::Origin => {
            peer_state.chainsync_cursor_slot = Some(0);
            peer_state.chainsync_cursor_hash = None;
        },
        FoundAt::Nowhere => {},
    }
}

/// Answers a message of ChainSync.
pub fn handle_n2n_chainsync<P: BlockProvider>(
    payload: &[u8],
    block_provider: &P,
    peer_state: &mut PeerState,
) -> (r: Result<Option<Segment>, N2NServerError>)
    ensures
        may_lead(
            block_provider,
            payload@,
            old(peer_state)@,
            final(peer_state)@,
            message::outcome(r),
        ),
{
    let mut pos: usize = 0;
    let ghost mut a: Answers = arbitrary();
    let ghost s = peer_state@;
    let tag: u32 = match read_msg_tag(payload, &mut pos) {
        Ok(tag) => tag,
        Err(e) => {
            assert(may_answer(block_provider, payload@, s, a));
            return Err(N2NServerError::Protocol(e));
        },
    };
    if tag == 0 {
        let (segment, Ghost(answers)) = request_next(block_provider, peer_state);
        assert(may_answer(block_provider, payload@, s, answers));
        Ok(Some(segment))
    } else if tag == 4 {
        let (found, Ghost(has)) = find_intersection(payload, pos, block_provider);
        let at: FoundAt = match found {
            Ok(at) => at,
            Err(e) => {
                assert(may_answer(block_provider, payload@, s, a));
                return Err(N2NServerError::Protocol(e));
            },
        };
        let tip = block_provider.get_tip();
        move_cursor(&at, peer_state);
        proof {
            a = Answers { tip, has, next: None };
            assert(may_answer(block_provider, payload@, s, a));
        }
        Ok(Some(intersect_reply(&at, &tip)))
    } else {
        assert(may_answer(block_provider, payload@, s, a));
        Ok(None)
    }
}

// ---------------------------------------------------------------------------
// Announcements
// ---------------------------------------------------------------------------

/// Whether a peer that waits is behind the announced block.
pub open spec fn wants_block(s: PeerStateView, ann: BlockAnnouncement) -> bool {
    &&& s.chainsync_must_reply
    &&& s.chainsync_cursor_slot is Some
    &&& s.chainsync_cursor_slot->0 < ann.slot
}

/// What the announcement of a block leads to, if `next` is the block behind the cursor
/// of the peer: the cursor moves to that block.
pub open spec fn announce_step(
    s: PeerStateView,
    ann: BlockAnnouncement,
    next: Option<(u64, [u8; 32], Seq<u8>)>,
) -> (PeerStateView, Seq<crate::multiplexer::SegmentView>) {
    if wants_block(s, ann) && next is Some {
        (
            PeerStateView {
                chainsync_cursor_slot: Some((next->0).0),
                chainsync_cursor_hash: Some((next->0).1),
                chainsync_must_reply: false,
                ..s
            },
            seq![
                message::reply_view(
                    MINI_PROTOCOL_CHAINSYNC,
                    roll_forward_bytes((next->0).2, ann.slot, ann.hash@, ann.block_number),
                ),
            ],
        )
    } else {
        (s, Seq::empty())
    }
}

/// What is sent, as a sequence of at most one segment.
pub open spec fn sent(r: Option<Segment>) -> Seq<crate::multiplexer::SegmentView> {
    match r {
        Some(s) => seq![s@],
        None => Seq::empty(),
    }
}

/// The segment that a peer gets when a block is announced, if any: the header behind its
/// cursor, where it waits for one.
pub fn push_block<P: BlockProvider>(
    ann: &BlockAnnouncement,
    block_provider: &P,
    peer_state: &mut PeerState,
) -> (r: Option<Segment>)
    ensures
        exists|next: Option<(u64, [u8; 32], Seq<u8>)>|
            {
                &&& (final(peer_state)@, sent(r)) == #[trigger] announce_step(
                    old(peer_state)@,
                    *ann,
                    next,
                )
                &&& wants_block(old(peer_state)@, *ann) ==> block_provider.may_follow(
                    old(peer_state)@.chainsync_cursor_slot->0,
                    next,
                )
            },
{
    let ghost s = peer_state@;
    if peer_state.chainsync_must_reply {
        if let Some(slot) = peer_state.chainsync_cursor_slot {
            if slot < ann.slot {
                let next = block_provider.get_next_block_after_slot(slot);
                let ghost next_view = n2n_server::next_block(next);
                if let Some((next_slot, next_hash, block)) = next {
                    peer_state.chainsync_cursor_slot = Some(next_slot);
                    peer_state.chainsync_cursor_hash = Some(next_hash);
                    peer_state.chainsync_must_reply = false;
                    let buf = build_chainsync_roll_forward(
                        block.as_slice(),
                        ann.slot,
                        &ann.hash,
                        ann.block_number,
                    );
                    let r = Some(reply(MINI_PROTOCOL_CHAINSYNC, buf));
                    assert((peer_state@, sent(r)) == announce_step(s, *ann, next_view));
                    return r;
                }
                assert((peer_state@, sent(None)) == announce_step(s, *ann, next_view));
                return None;
            }
        }
    }
    assert((peer_state@, sent(None)) == announce_step(s, *ann, None));
    None
}

/// What the announcement of a rollback leads to.
pub open spec fn rollback_step(s: PeerStateView, rb: RollbackAnnouncement) -> (
    PeerStateView,
    Seq<crate::multiplexer::SegmentView>,
) {
    if s.chainsync_must_reply && s.chainsync_cursor_slot is Some && s.chainsync_cursor_slot->0
        > rb.slot {
        (
            PeerStateView {
                chainsync_cursor_slot: Some(rb.slot),
                chainsync_cursor_hash: Some(rb.hash),
                chainsync_must_reply: false,
                ..s
            },
            seq![message::reply_view(MINI_PROTOCOL_CHAINSYNC, roll_backward_bytes(rb))],
        )
    } else {
        (s, Seq::empty())
    }
}

/// The segment that a peer gets when the chain is rolled back, if any: it has to wait,
/// and to be ahead of the point to which the chain was rolled back.
pub fn push_rollback(rb: &RollbackAnnouncement, peer_state: &mut PeerState) -> (r: Option<Segment>)
    ensures
        (final(peer_state)@, sent(r)) == rollback_step(old(peer_state)@, *rb),
{
    if peer_state.chainsync_must_reply {
        if let Some(slot) = peer_state.chainsync_cursor_slot {
            if slot > rb.slot {
                peer_state.chainsync_cursor_slot = Some(rb.slot);
                peer_state.chainsync_cursor_hash = Some(rb.hash);
                peer_state.chainsync_must_reply = false;
                return Some(roll_backward_reply(rb));
            }
        }
    }
    None
}

/// A peer that was not told to wait gets nothing that answers no message: neither an
/// announced block nor an announced rollback leads to a segment or changes its state.
pub proof fn lemma_no_push_without_wait(
    s: PeerStateView,
    ann: BlockAnnouncement,
    next: Option<(u64, [u8; 32], Seq<u8>)>,
    rb: RollbackAnnouncement,
)
    requires
        !s.chainsync_must_reply,
    ensures
        announce_step(s, ann, next) == (s, Seq::<crate::multiplexer::SegmentView>::empty()),
        rollback_step(s, rb) == (s, Seq::<crate::multiplexer::SegmentView>::empty()),
{
}

/// A block that is pushed to a peer is the one behind its cursor, and the cursor moves to
/// that block: no block is skipped.
pub proof fn lemma_push_skips_nothing(
    s: PeerStateView,
    ann: BlockAnnouncement,
    next: Option<(u64, [u8; 32], Seq<u8>)>,
)
    requires
        announce_step(s, ann, next).1.len() > 0,
    ensures
        next matches Some(n) && announce_step(s, ann, next).0.chainsync_cursor_slot == Some(n.0)
            && announce_step(s, ann, next).0.chainsync_cursor_hash == Some(n.1),
        announce_step(s, ann, next).1 == seq![
            message::reply_view(
                MINI_PROTOCOL_CHAINSYNC,
                roll_forward_bytes((next->0).2, ann.slot, ann.hash@, ann.block_number),
            ),
        ],
{
}

/// Whatever is pushed to a peer ends its wait: a second push leads to nothing before the
/// peer asks again.
pub proof fn lemma_push_ends_wait(
    s: PeerStateView,
    ann: BlockAnnouncement,
    next: Option<(u64, [u8; 32], Seq<u8>)>,
    rb: RollbackAnnouncement,
)
    ensures
        announce_step(s, ann, next).1.len() > 0 ==> !announce_step(
            s,
            ann,
            next,
        ).0.chainsync_must_reply,
        rollback_step(s, rb).1.len() > 0 ==> !rollback_step(s, rb).0.chainsync_must_reply,
{
}

// ---------------------------------------------------------------------------
// What a peer reads, and what is read of a peer
// ---------------------------------------------------------------------------

/// Whether `payload` is MsgRollForward with the header, as one of the era with the given
/// index, and the tip.
pub open spec fn rolls_forward(
    payload: Seq<u8>,
    index: nat,
    header: Seq<u8>,
    slot: u64,
    hash: Seq<u8>,
    block_no: u64,
) -> bool {
    words::spells(
        payload,
        words::arr(3) + words::num(2) + (words::arr(2) + words::num(index) + words::tag(24)
            + words::bin(header)) + (words::arr(2) + (words::arr(2) + words::num(slot as nat)
            + words::bin(hash)) + words::num(block_no as nat)),
    )
}

/// The header of a block `[era, [header, ..]]` is what stands between its two heads and the
/// end of the item there.
pub proof fn lemma_header_is_found(block: Seq<u8>, n: nat, era: u16, m: nat, p: int, q: int)
    requires
        words::reads(block, 0, words::arr(n) + words::num(era as nat) + words::arr(m), p),
        cbor::skip_at(block, p) == (None::<Seq<char>>, q),
    ensures
        header_of(block) == Some((era, block.subrange(p, q))),
{
    let k = words::lemma_reads_split(
        block,
        0,
        words::arr(n) + words::num(era as nat),
        words::arr(m),
        p,
    );
    let j = words::lemma_reads_split(block, 0, words::arr(n), words::num(era as nat), k);
    words::lemma_array_at(block, 0, n, j);
    words::lemma_number_at(block, j, era as nat, k);
    words::lemma_array_at(block, k, m, p);
}

/// A header is announced in its own era. Both kinds of Byron blocks, 0 and 1 on disk, have
/// index 0 on the wire; every later era has the index that is one less than its number on
/// disk. A block whose header cannot be found is announced whole, with index 6.
pub proof fn lemma_header_is_announced_in_its_era(
    block: Seq<u8>,
    slot: u64,
    hash: Seq<u8>,
    block_no: u64,
)
    requires
        block.len() <= u64::MAX,
        hash.len() == 32,
    ensures
        ({
            let payload = roll_forward_bytes(block, slot, hash, block_no);
            match header_of(block) {
                Some((era, header)) => header.len() <= u64::MAX ==> exists|index: nat|
                    {
                        &&& #[trigger] rolls_forward(payload, index, header, slot, hash, block_no)
                        &&& era <= 1 ==> index == 0
                        &&& era >= 2 ==> index + 1 == era
                    },
                None => rolls_forward(payload, 6, block, slot, hash, block_no),
            }
        }),
{
    broadcast use words::group_words;
    broadcast use point::lemma_tip_is_read;

    let payload = roll_forward_bytes(block, slot, hash, block_no);
    match header_of(block) {
        Some((era, header)) => {
            if header.len() <= u64::MAX {
                let index = era_index(era);
                assert(rolls_forward(payload, index, header, slot, hash, block_no));
            }
        },
        None => {
            assert(rolls_forward(payload, 6, block, slot, hash, block_no));
        },
    }
}

/// Consecutive eras have consecutive indices, and no two eras from Byron's main blocks on
/// share one.
pub proof fn lemma_era_indices(e: u16, f: u16)
    ensures
        1 <= e < u16::MAX ==> era_index((e + 1) as u16) == era_index(e) + 1,
        1 <= e && 1 <= f && era_index(e) == era_index(f) ==> e == f,
        era_index(0) == era_index(1),
        e >= 1 ==> era_index(e) + 1 == e,
{
}

/// How a peer writes a point: `[]` where the chain starts, else `[slot, hash]`.
pub open spec fn point_words(p: PeerPoint) -> Seq<Word> {
    match p {
        PeerPoint::At(slot, h) => words::arr(2) + words::num(slot as nat) + words::bin(h),
        _ => words::arr(0),
    }
}

/// How a peer asks for an intersection: `[4, [point, ..]]`, with an array of definite length
/// or one up to a break.
pub open spec fn find_intersect_words(points: Seq<PeerPoint>, open: bool) -> Seq<Word> {
    words::arr(2) + words::num(4) + if open {
        seq![Word::OpenArray] + words::each(points, |p: PeerPoint| point_words(p)) + seq![
            Word::Break,
        ]
    } else {
        words::arr(points.len()) + words::each(points, |p: PeerPoint| point_words(p))
    }
}

/// Whether these are points that a peer may name: where the chain starts, or a slot with a
/// hash of 32 bytes.
pub open spec fn are_points(points: Seq<PeerPoint>) -> bool {
    forall|i: int|
        0 <= i < points.len() ==> match #[trigger] points[i] {
            PeerPoint::At(_, h) => h.len() == 32,
            PeerPoint::Origin => true,
            PeerPoint::Malformed => false,
        }
}

proof fn lemma_points_are_read(
    b: Seq<u8>,
    p: int,
    points: Seq<PeerPoint>,
    n: nat,
    open: bool,
    q: int,
)
    requires
        are_points(points),
        words::reads(b, p, words::each(points, |p: PeerPoint| point_words(p)), q),
        if open {
            n > points.len() && cbor::break_at(b, q)
        } else {
            n == points.len()
        },
    ensures
        points_from(b, p, n, open) == points,
    decreases points.len(),
{
    let g = |p: PeerPoint| point_words(p);
    if points.len() == 0 {
        assert(points_from(b, p, n, open) =~= points);
    } else {
        let x = points[0];
        words::lemma_each_first(points, g);
        let m = words::lemma_reads_split(b, p, g(x), words::each(points.skip(1), g), q);
        match x {
            PeerPoint::At(slot, h) => {
                message::lemma_point_is_found(b, p, slot, h, m);
                let k = words::lemma_reads_split(
                    b,
                    p,
                    words::arr(2) + words::num(slot as nat),
                    words::bin(h),
                    m,
                );
                let j = words::lemma_reads_split(b, p, words::arr(2), words::num(slot as nat), k);
                words::lemma_array_at(b, p, 2, j);
            },
            _ => {
                words::lemma_array_at(b, p, 0, m);
            },
        }
        assert(peer_point(b, p) == (x, m));
        assert(!cbor::break_at(b, p) && p < b.len());
        assert(are_points(points.skip(1))) by {
            assert forall|i: int| 0 <= i < points.skip(1).len() implies match #[trigger] points.skip(
                1,
            )[i] {
                PeerPoint::At(_, h) => h.len() == 32,
                PeerPoint::Origin => true,
                PeerPoint::Malformed => false,
            } by {
                assert(points.skip(1)[i] == points[i + 1]);
            }
        }
        lemma_points_are_read(b, m, points.skip(1), (n - 1) as nat, open, q);
        assert(points =~= seq![x] + points.skip(1));
    }
}

proof fn lemma_points_take_room(b: Seq<u8>, p: int, points: Seq<PeerPoint>, q: int)
    requires
        words::reads(b, p, words::each(points, |p: PeerPoint| point_words(p)), q),
        0 <= p <= b.len(),
    ensures
        p + points.len() <= q <= b.len(),
    decreases points.len(),
{
    let g = |p: PeerPoint| point_words(p);
    if points.len() > 0 {
        words::lemma_each_first(points, g);
        let m = words::lemma_reads_split(b, p, g(points[0]), words::each(points.skip(1), g), q);
        match points[0] {
            PeerPoint::At(slot, h) => {
                let k = words::lemma_reads_split(
                    b,
                    p,
                    words::arr(2) + words::num(slot as nat),
                    words::bin(h),
                    m,
                );
                let j = words::lemma_reads_split(b, p, words::arr(2), words::num(slot as nat), k);
                words::lemma_array_at(b, p, 2, j);
                words::lemma_number_at(b, j, slot as nat, k);
                words::lemma_bytes_at(b, k, h, m);
            },
            _ => {
                words::lemma_array_at(b, p, 0, m);
            },
        }
        lemma_points_take_room(b, m, points.skip(1), q);
    }
}

proof fn lemma_request_is_read(b: Seq<u8>, points: Seq<PeerPoint>, open: bool) -> (end: int)
    requires
        are_points(points),
        words::spells(b, find_intersect_words(points, open)),
    ensures
        message::msg_tag(b) == message::MsgTag::Tag(4, end),
        peer_points(b, end) == Some(points),
{
    reveal(words::spells);
    let q = b.len() as int;
    let list = words::each(points, |p: PeerPoint| point_words(p));
    let rest = if open {
        seq![Word::OpenArray] + list + seq![Word::Break]
    } else {
        words::arr(points.len()) + list
    };
    let m = words::lemma_reads_split(b, 0, words::arr(2) + words::num(4), rest, q);
    message::lemma_tag_is_read(b, 2, 4, m);
    let h = words::lemma_reads_split(b, 0, words::arr(2), words::num(4), m);
    words::lemma_array_at(b, 0, 2, h);
    words::lemma_number_at(b, h, 4, m);
    if open {
        let e = words::lemma_reads_split(
            b,
            m,
            seq![Word::OpenArray] + list,
            seq![Word::Break],
            q,
        );
        let k = words::lemma_reads_split(b, m, seq![Word::OpenArray], list, e);
        words::lemma_open_at(b, m, k);
        words::lemma_break_at(b, e, q);
        lemma_points_take_room(b, k, points, e);
        lemma_points_are_read(b, k, points, b.len() + 1, true, e);
    } else {
        let k = words::lemma_reads_split(b, m, words::arr(points.len()), list, q);
        words::lemma_array_at(b, m, points.len(), k);
        lemma_points_are_read(b, k, points, points.len(), false, q);
    }
    m
}

/// Whether `payload` answers MsgFindIntersect with the given point, or with none, and the tip.
pub open spec fn names(payload: Seq<u8>, found: Option<PeerPoint>, tip: TipInfo) -> bool {
    words::spells(
        payload,
        match found {
            Some(p) => words::arr(3) + words::num(5) + point_words(p),
            None => words::arr(2) + words::num(6),
        } + (words::arr(2) + (words::arr(2) + words::num(tip.slot as nat) + words::bin(tip.hash@))
            + words::num(tip.block_number as nat)),
    )
}

proof fn lemma_intersection_is_named(at: Intersection, tip: TipInfo)
    requires
        at matches Intersection::Block(_, h) ==> h.len() == 32,
    ensures
        names(
            intersect_bytes(at, tip),
            match at {
                Intersection::Block(slot, h) => Some(PeerPoint::At(slot, h)),
                Intersection::Origin => Some(PeerPoint::Origin),
                Intersection::Nowhere => None,
            },
            tip,
        ),
{
    broadcast use words::group_words;
    broadcast use point::lemma_tip_is_read;
    broadcast use point::lemma_point_is_read;

    assert(tip.hash@.len() == 32);
}

/// A peer that asks for an intersection is told of the first point of its list whose block
/// the provider has: it has none of those before it. Where it has none at all, the peer is
/// told of the start of the chain if that is in its list, else of nothing. The cursor moves
/// to the point that is named.
pub proof fn lemma_first_common_point_is_named<P: BlockProvider>(
    provider: &P,
    b: Seq<u8>,
    points: Seq<PeerPoint>,
    open: bool,
    s: PeerStateView,
    s2: PeerStateView,
    o: message::Outcome,
)
    requires
        are_points(points),
        words::spells(b, find_intersect_words(points, open)),
        may_lead(provider, b, s, s2, o),
    ensures
        exists|tip: TipInfo, payload: Seq<u8>|
            {
                &&& #[trigger] provider.may_end_at(tip)
                &&& o == #[trigger] message::replied(MINI_PROTOCOL_CHAINSYNC, payload)
                &&& s2.chainsync_must_reply == s.chainsync_must_reply
                &&& s2.tx_inflight == s.tx_inflight
                &&& {
                    ||| exists|i: int|
                        {
                            &&& 0 <= i < points.len()
                            &&& #[trigger] points[i] matches PeerPoint::At(slot, h)
                                && provider.may_have(h, true) && s2.chainsync_cursor_slot == Some(
                                slot,
                            ) && s2.chainsync_cursor_hash is Some && s2.chainsync_cursor_hash->0@
                                == h && names(payload, Some(points[i]), tip)
                            &&& forall|j: int|
                                0 <= j < i ==> match #[trigger] points[j] {
                                    PeerPoint::At(_, h) => provider.may_have(h, false),
                                    _ => true,
                                }
                        }
                    ||| {
                        &&& forall|j: int|
                            0 <= j < points.len() ==> match #[trigger] points[j] {
                                PeerPoint::At(_, h) => provider.may_have(h, false),
                                _ => true,
                            }
                        &&& if points.contains(PeerPoint::Origin) {
                            &&& s2.chainsync_cursor_slot == Some(0u64)
                            &&& s2.chainsync_cursor_hash is None
                            &&& names(payload, Some(PeerPoint::Origin), tip)
                        } else {
                            &&& s2.chainsync_cursor_slot == s.chainsync_cursor_slot
                            &&& s2.chainsync_cursor_hash == s.chainsync_cursor_hash
                            &&& names(payload, None, tip)
                        }
                    }
                }
            },
{
    let end = lemma_request_is_read(b, points, open);
    let a = choose|a: Answers| #[trigger]
        may_answer(provider, b, s, a) && sync_step(b, s, s2, a, o);
    let at = intersection(points, a.has);
    let payload = intersect_bytes(at, a.tip);
    lemma_first_known(points, a.has);
    assert(provider.may_end_at(a.tip));
    assert(o == message::replied(MINI_PROTOCOL_CHAINSYNC, payload));
    match first_known(points, a.has, 0) {
        Some(f) => {
            let i = choose|i: int|
                #![trigger points[i]]
                0 <= i < a.has.len() && points[i] == PeerPoint::At(f.0, f.1) && a.has[i] && (forall|
                    j: int,
                |
                    0 <= j < i ==> !is_known(#[trigger] points[j], a.has[j]));
            lemma_intersection_is_named(at, a.tip);
            assert(provider.may_have(f.1, a.has[i]));
            assert forall|j: int| 0 <= j < i implies match #[trigger] points[j] {
                PeerPoint::At(_, h) => provider.may_have(h, false),
                _ => true,
            } by {
                assert(!is_known(points[j], a.has[j]));
                assert(points[j] is At ==> a.has[j] == false);
            }
            assert(names(payload, Some(points[i]), a.tip));
        },
        None => {
            lemma_intersection_is_named(at, a.tip);
            assert forall|j: int| 0 <= j < points.len() implies match #[trigger] points[j] {
                PeerPoint::At(_, h) => provider.may_have(h, false),
                _ => true,
            } by {
                assert(!is_known(points[j], a.has[j]));
                assert(points[j] is At ==> a.has[j] == false);
            }
        },
    }
}

/// Whether `payload` is what a peer gets that asks for the block behind slot `from` while the
/// chain ends at `tip`. It is told to wait, and from then on gets what is announced, where it has come to
/// the tip or there is no block behind its cursor; else it gets the header of that block, with
/// the tip, and the cursor moves there.
pub open spec fn is_next<P: BlockProvider>(
    provider: &P,
    from: u64,
    s: PeerStateView,
    s2: PeerStateView,
    tip: TipInfo,
    payload: Seq<u8>,
) -> bool {
    ||| {
        &&& from >= tip.slot || provider.may_follow(from, None)
        &&& words::spells(payload, words::arr(1) + words::num(1))
        &&& s2 == (PeerStateView { chainsync_must_reply: true, ..s })
    }
    ||| from < tip.slot && exists|next: (u64, [u8; 32], Seq<u8>)|
        {
            &&& #[trigger] provider.may_follow(from, Some(next))
            &&& payload == roll_forward_bytes(next.2, tip.slot, tip.hash@, tip.block_number)
            &&& s2 == (PeerStateView {
                chainsync_cursor_slot: Some(next.0),
                chainsync_cursor_hash: Some(next.1),
                ..s
            })
        }
}

proof fn lemma_answers_to_request_next<P: BlockProvider>(
    provider: &P,
    b: Seq<u8>,
    end: int,
    s: PeerStateView,
    s2: PeerStateView,
    o: message::Outcome,
) -> (a: Answers)
    requires
        message::msg_tag(b) == message::MsgTag::Tag(0, end),
        may_lead(provider, b, s, s2, o),
    ensures
        (s2, o) == next_step(s, a),
        provider.may_end_at(a.tip),
        cursor_slot(s) < a.tip.slot ==> provider.may_follow(cursor_slot(s), a.next),
{
    choose|a: Answers| #[trigger] may_answer(provider, b, s, a) && sync_step(b, s, s2, a, o)
}

proof fn lemma_next_of_answers<P: BlockProvider>(
    provider: &P,
    s: PeerStateView,
    s2: PeerStateView,
    o: message::Outcome,
    a: Answers,
) -> (payload: Seq<u8>)
    requires
        (s2, o) == next_step(s, a),
        cursor_slot(s) < a.tip.slot ==> provider.may_follow(cursor_slot(s), a.next),
    ensures
        o == message::replied(MINI_PROTOCOL_CHAINSYNC, payload),
        is_next(provider, cursor_slot(s), s, s2, a.tip, payload),
{
    lemma_await_is_read();
    if cursor_slot(s) < a.tip.slot && a.next is Some {
        let next = a.next->0;
        assert(a.next == Some(next));
        assert(provider.may_follow(cursor_slot(s), Some(next)));
        assert(s2 == (PeerStateView {
            chainsync_cursor_slot: Some(next.0),
            chainsync_cursor_hash: Some(next.1),
            ..s
        }));
        let payload = roll_forward_bytes(next.2, a.tip.slot, a.tip.hash@, a.tip.block_number);
        assert(is_next(provider, cursor_slot(s), s, s2, a.tip, payload));
        payload
    } else {
        if cursor_slot(s) < a.tip.slot {
            assert(a.next == None::<(u64, [u8; 32], Seq<u8>)>);
        }
        assert(s2 == (PeerStateView { chainsync_must_reply: true, ..s }));
        assert(is_next(provider, cursor_slot(s), s, s2, a.tip, await_bytes()));
        await_bytes()
    }
}

/// A peer that asks for the next block gets the header of the block behind its cursor, or
/// behind slot 0 before it has one, or is told to wait.
pub proof fn lemma_next_header_is_sent<P: BlockProvider>(
    provider: &P,
    b: Seq<u8>,
    from: u64,
    s: PeerStateView,
    s2: PeerStateView,
    o: message::Outcome,
)
    requires
        match s.chainsync_cursor_slot {
            Some(slot) => from == slot,
            None => from == 0,
        },
        words::spells(b, words::arr(1) + words::num(0)),
        may_lead(provider, b, s, s2, o),
    ensures
        exists|tip: TipInfo, payload: Seq<u8>|
            {
                &&& provider.may_end_at(tip)
                &&& o == message::replied(MINI_PROTOCOL_CHAINSYNC, payload)
                &&& #[trigger] is_next(provider, from, s, s2, tip, payload)
            },
{
    message::lemma_bare_tag_is_read(b, 0);
    let a = lemma_answers_to_request_next(provider, b, b.len() as int, s, s2, o);
    let payload = lemma_next_of_answers(provider, s, s2, o, a);
}

proof fn lemma_await_is_read()
    ensures
        words::spells(await_bytes(), words::arr(1) + words::num(1)),
{
    broadcast use words::group_words;

}

/// MsgDone and messages of unknown tags are not answered and change nothing.
pub proof fn lemma_the_rest_is_not_answered<P: BlockProvider>(
    provider: &P,
    b: Seq<u8>,
    tag: nat,
    s: PeerStateView,
    s2: PeerStateView,
    o: message::Outcome,
)
    requires
        words::spells(b, words::arr(1) + words::num(tag)),
        tag <= u32::MAX,
        tag != 0 && tag != 4,
        may_lead(provider, b, s, s2, o),
    ensures
        s2 == s,
        o == message::Outcome::Replies(Seq::empty()),
{
    message::lemma_bare_tag_is_read(b, tag);
}

/// A peer that waits and is behind an announced block is told of the block behind its cursor,
/// with the announced block for the tip; one that waits and is ahead of the point to which
/// the chain was rolled back is told to go back there. Either ends the wait and moves the
/// cursor. No other peer is told anything.
pub proof fn lemma_what_is_pushed(
    s: PeerStateView,
    ann: BlockAnnouncement,
    next: (u64, [u8; 32], Seq<u8>),
    rb: RollbackAnnouncement,
)
    ensures
        ({
            let waits = s.chainsync_must_reply && s.chainsync_cursor_slot is Some;
            let at = s.chainsync_cursor_slot->0;
            let pushed = announce_step(s, ann, Some(next));
            let back = rollback_step(s, rb);
            &&& waits && at < ann.slot ==> {
                &&& pushed.1 == seq![
                    message::reply_view(
                        2,
                        roll_forward_bytes(next.2, ann.slot, ann.hash@, ann.block_number),
                    ),
                ]
                &&& pushed.0 == (PeerStateView {
                    chainsync_cursor_slot: Some(next.0),
                    chainsync_cursor_hash: Some(next.1),
                    chainsync_must_reply: false,
                    ..s
                })
            }
            &&& !(waits && at < ann.slot) ==> pushed.0 == s && pushed.1.len() == 0
            &&& announce_step(s, ann, None) == (s, Seq::<crate::multiplexer::SegmentView>::empty())
            &&& waits && at > rb.slot ==> {
                &&& back.1.len() == 1
                &&& back.1[0].protocol_id == 2 && back.1[0].is_responder
                &&& words::spells(
                    back.1[0].payload,
                    words::arr(3) + words::num(3) + (words::arr(2) + words::num(rb.slot as nat)
                        + words::bin(rb.hash@)) + (words::arr(2) + (words::arr(2) + words::num(
                        rb.tip_slot as nat,
                    ) + words::bin(rb.tip_hash@)) + words::num(rb.tip_block_number as nat)),
                )
                &&& back.0 == (PeerStateView {
                    chainsync_cursor_slot: Some(rb.slot),
                    chainsync_cursor_hash: Some(rb.hash),
                    chainsync_must_reply: false,
                    ..s
                })
            }
            &&& !(waits && at > rb.slot) ==> back.0 == s && back.1.len() == 0
        }),
{
    broadcast use words::group_words;

    assert(rb.hash@.len() == 32);
    assert(rb.tip_hash@.len() == 32);
    assert(words::spells(
        roll_backward_bytes(rb),
        words::arr(3) + words::num(3) + (words::arr(2) + words::num(rb.slot as nat) + words::bin(
            rb.hash@,
        )) + (words::arr(2) + (words::arr(2) + words::num(rb.tip_slot as nat) + words::bin(
            rb.tip_hash@,
        )) + words::num(rb.tip_block_number as nat)),
    ));
}

} // verus!
