//! LocalChainSync: a client follows the chain, block by block.
//!
//! | Tag | Message              | Contents                               |
//! |-----|----------------------|----------------------------------------|
//! |   0 | MsgRequestNext       | `[0]`                                  |
//! |   1 | MsgAwaitReply        | `[1]`                                  |
//! |   2 | MsgRollForward       | `[2, [era, tag 24 (block)], tip]`      |
//! |   3 | MsgRollBackward      | `[3, point, tip]`                      |
//! |   4 | MsgFindIntersect     | `[4, [point, ..]]`                     |
//! |   5 | MsgIntersectFound    | `[5, point, tip]`                      |
//! |   6 | MsgIntersectNotFound | `[6, tip]`                             |
//! |   7 | MsgDone              | `[7]`                                  |
use crate::cbor;
use crate::cbor::{
    get_array, get_bytes, get_u64, put_array, put_bytes, put_tag, put_u32, skip_item,
};
use crate::hash;
use crate::hash::{no_hash, same_hash, to_hash};
use crate::multiplexer::Segment;
use crate::n2c::message;
use crate::n2c::message::{read_msg_tag, reply};
use crate::n2c::{N2CServerError, MINI_PROTOCOL_CHAINSYNC};
use crate::n2n_server;
use crate::n2n_server::{BlockProvider, TipInfo};
use crate::point;
use crate::point::{block_era, encode_point, encode_tip};
use crate::words;
use crate::words::Word;
use vstd::prelude::*;

verus! {

/// How far a client has followed the chain.
#[derive(Debug, Clone, Copy, PartialEq, Eq, Structural)]
pub struct ChainSyncCursor {
    /// Blocks behind this slot come next.
    pub cursor_slot: u64,
    /// Whether the client and the server agree on a point.
    pub has_intersection: bool,
}

/// A point that a client names.
pub enum ClientPoint {
    /// `[]`: where the chain starts.
    Origin,
    /// `[slot, hash]`.
    At(u64, Seq<u8>),
    /// Anything else.
    Malformed,
}

/// The point at `p`, and where it ends. Behind what is no point, one more item is
/// passed over.
pub open spec fn client_point(b: Seq<u8>, p: int) -> (ClientPoint, int) {
    let a = cbor::len_at(b, p, 4);
    if a.value == Some(Some(2nat)) {
        let s = cbor::uint_at(b, a.end, u64::MAX as nat);
        let h = cbor::bytes_at(b, s.end);
        if s.value is Some && h.value is Some {
            (ClientPoint::At(s.value->0 as u64, h.value->0), h.end)
        } else {
            (ClientPoint::Malformed, cbor::skip_at(b, h.end).1)
        }
    } else if a.value == Some(Some(0nat)) {
        (ClientPoint::Origin, a.end)
    } else {
        (ClientPoint::Malformed, cbor::skip_at(b, a.end).1)
    }
}

/// The `n` points from `p` on.
pub open spec fn points_from(b: Seq<u8>, p: int, n: nat) -> Seq<ClientPoint>
    decreases n,
{
    if n == 0 {
        Seq::empty()
    } else {
        let (point, end) = client_point(b, p);
        seq![point] + points_from(b, end, (n - 1) as nat)
    }
}

/// The points in the array at `p`; none where its length is indefinite.
pub open spec fn client_points(b: Seq<u8>, p: int) -> Seq<ClientPoint> {
    let a = cbor::len_at(b, p, 4);
    match a.value {
        Some(Some(n)) => points_from(b, a.end, n),
        _ => Seq::empty(),
    }
}

/// Whether the server has the point, where the answer for its hash is `has`.
pub open spec fn on_chain(point: ClientPoint, has: bool) -> bool {
    match point {
        ClientPoint::Origin => true,
        ClientPoint::At(_, h) => h.len() == 32 && has,
        ClientPoint::Malformed => false,
    }
}

/// The first point from the `k`-th on that is on the chain, among those for which there
/// is an answer.
pub open spec fn first_on_chain(points: Seq<ClientPoint>, has: Seq<bool>, k: int) -> Option<
    (u64, Seq<u8>),
>
    decreases has.len() - k,
{
    if k >= has.len() {
        None
    } else if on_chain(points[k], has[k]) {
        match points[k] {
            ClientPoint::At(slot, h) => Some((slot, h)),
            _ => Some((0u64, hash::zero_hash())),
        }
    } else {
        first_on_chain(points, has, k + 1)
    }
}

/// The point on which client and server agree where the server knows only its tip.
pub open spec fn at_tip(points: Seq<ClientPoint>, slot: u64, tip: Seq<u8>) -> Option<
    (u64, Seq<u8>),
> {
    if points.contains(ClientPoint::At(slot, tip)) {
        Some((slot, tip))
    } else {
        None
    }
}

/// MsgAwaitReply.
pub open spec fn await_bytes() -> Seq<u8> {
    cbor::array_head(1) + cbor::uint(1)
}

/// MsgRollForward.
pub open spec fn roll_forward_bytes(block: Seq<u8>, tip: TipInfo) -> Seq<u8> {
    cbor::array_head(3)
        + cbor::uint(2)
        + (cbor::array_head(2)
            + cbor::uint(point::era_of(block) as nat)
            + cbor::tag_head(24)
            + cbor::bytes_item(block))
        + point::tip_bytes(tip.slot, tip.hash@, tip.block_number)
}

/// MsgRollBackward.
pub open spec fn roll_backward_bytes(tip: TipInfo) -> Seq<u8> {
    cbor::array_head(3)
        + cbor::uint(3)
        + point::point_bytes(tip.slot, tip.hash@)
        + point::tip_bytes(tip.slot, tip.hash@, tip.block_number)
}

/// MsgIntersectFound or MsgIntersectNotFound.
pub open spec fn intersect_bytes(found: Option<(u64, Seq<u8>)>, tip: TipInfo) -> Seq<u8> {
    match found {
        Some(f) => cbor::array_head(3)
            + cbor::uint(5)
            + point::point_bytes(f.0, f.1)
            + point::tip_bytes(tip.slot, tip.hash@, tip.block_number),
        None => cbor::array_head(2)
            + cbor::uint(6)
            + point::tip_bytes(tip.slot, tip.hash@, tip.block_number),
    }
}

/// What a provider of blocks may answer to the questions that a message leads to.
pub struct Answers {
    /// The tip.
    pub tip: TipInfo,
    /// The block behind the cursor.
    pub next: Option<(u64, [u8; 32], Seq<u8>)>,
    /// The tip once that block is known.
    pub tip_after: TipInfo,
    /// For each point of the client, up to one that is on the chain, whether the
    /// provider has it.
    pub has: Seq<bool>,
}

/// The reply in this mini-protocol.
pub open spec fn sync_reply(payload: Seq<u8>) -> message::Outcome {
    message::Outcome::Reply(message::reply_view(MINI_PROTOCOL_CHAINSYNC, payload))
}

/// What MsgRequestNext leads to where there is a provider.
pub open spec fn next_step(c: ChainSyncCursor, a: Answers) -> (ChainSyncCursor, message::Outcome) {
    if !c.has_intersection {
        (c, sync_reply(await_bytes()))
    } else if c.cursor_slot > a.tip.slot {
        (ChainSyncCursor { cursor_slot: a.tip.slot, ..c }, sync_reply(roll_backward_bytes(a.tip)))
    } else {
        match a.next {
            Some(next) => (
                ChainSyncCursor { cursor_slot: next.0, ..c },
                sync_reply(roll_forward_bytes(next.2, a.tip_after)),
            ),
            None => (c, sync_reply(await_bytes())),
        }
    }
}

/// What MsgFindIntersect leads to where client and server agree on `found`.
pub open spec fn intersect_step(
    found: Option<(u64, Seq<u8>)>,
    ledger_tip: TipInfo,
    c: ChainSyncCursor,
) -> (ChainSyncCursor, message::Outcome) {
    (
        match found {
            Some(f) => ChainSyncCursor { cursor_slot: f.0, has_intersection: true },
            None => ChainSyncCursor { has_intersection: false, ..c },
        },
        sync_reply(intersect_bytes(found, ledger_tip)),
    )
}

/// What the message `b` leads to, where `a` holds the answers of the provider of
/// blocks, if there is one.
pub open spec fn sync_step(
    b: Seq<u8>,
    ledger_tip: TipInfo,
    c: ChainSyncCursor,
    a: Option<Answers>,
) -> (ChainSyncCursor, message::Outcome) {
    match message::msg_tag(b) {
        message::MsgTag::Tag(tag, end) => if tag == 0 {
            match a {
                Some(a) => next_step(c, a),
                None => (c, sync_reply(await_bytes())),
            }
        } else if tag == 4 {
            let points = client_points(b, end);
            let found = match a {
                Some(a) => first_on_chain(points, a.has, 0),
                None => at_tip(points, ledger_tip.slot, ledger_tip.hash@),
            };
            intersect_step(found, ledger_tip, c)
        } else if tag == 7 {
            (ChainSyncCursor { has_intersection: false, ..c }, message::Outcome::Silent)
        } else {
            (c, message::Outcome::Silent)
        },
        message::MsgTag::Invalid => (
            c,
            message::Outcome::ProtocolError("invalid chainsync message"@),
        ),
        message::MsgTag::Bad(m) => (
            c,
            message::Outcome::ProtocolError("bad chainsync msg tag: "@ + m),
        ),
    }
}

/// Whether the provider may give the answers `has` for the points of a client, where it
/// is asked for one after the other until one is on the chain.
pub open spec fn may_find<P: BlockProvider>(
    provider: &P,
    points: Seq<ClientPoint>,
    has: Seq<bool>,
) -> bool {
    &&& has.len() <= points.len()
    &&& has.len() < points.len() ==> first_on_chain(points, has, 0) is Some
    &&& forall|k: int|
        #![trigger has[k]]
        0 <= k < has.len() ==> match points[k] {
            ClientPoint::At(_, h) => h.len() == 32 ==> provider.may_have(h, has[k]),
            _ => true,
        }
}

/// Whether the provider may give these answers to the questions that the message `b`
/// leads to.
pub open spec fn may_answer<P: BlockProvider>(
    provider: &P,
    b: Seq<u8>,
    c: ChainSyncCursor,
    a: Answers,
) -> bool {
    match message::msg_tag(b) {
        message::MsgTag::Tag(tag, end) => {
            &&& tag == 0 && c.has_intersection ==> {
                &&& provider.may_end_at(a.tip)
                &&& c.cursor_slot <= a.tip.slot ==> provider.may_follow(c.cursor_slot, a.next)
                &&& c.cursor_slot <= a.tip.slot && a.next is Some ==> provider.may_end_at(
                    a.tip_after,
                )
            }
            &&& tag == 4 ==> may_find(provider, client_points(b, end), a.has)
        },
        _ => true,
    }
}

/// Whether the message `b` may lead from cursor `c` to `c2` and to `o`.
pub open spec fn may_lead<P: BlockProvider>(
    block_provider: Option<&P>,
    b: Seq<u8>,
    ledger_tip: TipInfo,
    c: ChainSyncCursor,
    c2: ChainSyncCursor,
    o: message::Outcome,
) -> bool {
    match block_provider {
        None => (c2, o) == sync_step(b, ledger_tip, c, None),
        Some(provider) => exists|a: Answers|
            {
                &&& (c2, o) == #[trigger] sync_step(b, ledger_tip, c, Some(a))
                &&& may_answer(provider, b, c, a)
            },
    }
}

/// MsgAwaitReply.
pub fn await_reply() -> (r: Segment)
    ensures
        r@ == message::reply_view(MINI_PROTOCOL_CHAINSYNC, await_bytes()),
{
    let mut buf: Vec<u8> = Vec::new();
    put_array(&mut buf, 1);
    put_u32(&mut buf, 1);
    assert(buf@ =~= await_bytes());
    reply(MINI_PROTOCOL_CHAINSYNC, buf)
}

/// MsgRollForward with a whole block.
pub fn roll_forward_reply(block: &[u8], tip: &TipInfo) -> (r: Segment)
    ensures
        r@ == message::reply_view(MINI_PROTOCOL_CHAINSYNC, roll_forward_bytes(block@, *tip)),
{
    let mut buf: Vec<u8> = Vec::new();
    put_array(&mut buf, 3);
    put_u32(&mut buf, 2);
    put_array(&mut buf, 2);
    put_u32(&mut buf, block_era(block));
    put_tag(&mut buf, 24);
    put_bytes(&mut buf, block);
    encode_tip(&mut buf, tip.slot, &tip.hash, tip.block_number);
    assert(buf@ =~= roll_forward_bytes(block@, *tip));
    reply(MINI_PROTOCOL_CHAINSYNC, buf)
}

/// MsgRollBackward to the tip.
pub fn roll_backward_reply(tip: &TipInfo) -> (r: Segment)
    ensures
        r@ == message::reply_view(MINI_PROTOCOL_CHAINSYNC, roll_backward_bytes(*tip)),
{
    let mut buf: Vec<u8> = Vec::new();
    put_array(&mut buf, 3);
    put_u32(&mut buf, 3);
    encode_point(&mut buf, tip.slot, &tip.hash);
    encode_tip(&mut buf, tip.slot, &tip.hash, tip.block_number);
    assert(buf@ =~= roll_backward_bytes(*tip));
    reply(MINI_PROTOCOL_CHAINSYNC, buf)
}

/// A point by its contents.
pub open spec fn found_view(f: Option<(u64, [u8; 32])>) -> Option<(u64, Seq<u8>)> {
    match f {
        Some(f) => Some((f.0, f.1@)),
        None => None,
    }
}

/// MsgIntersectFound or MsgIntersectNotFound.
pub fn intersect_reply(found: &Option<(u64, [u8; 32])>, tip: &TipInfo) -> (r: Segment)
    ensures
        r@ == message::reply_view(
            MINI_PROTOCOL_CHAINSYNC,
            intersect_bytes(found_view(*found), *tip),
        ),
{
    let mut buf: Vec<u8> = Vec::new();
    match found {
        Some(f) => {
            put_array(&mut buf, 3);
            put_u32(&mut buf, 5);
            encode_point(&mut buf, f.0, &f.1);
        },
        None => {
            put_array(&mut buf, 2);
            put_u32(&mut buf, 6);
        },
    }
    encode_tip(&mut buf, tip.slot, &tip.hash, tip.block_number);
    assert(buf@ =~= intersect_bytes(found_view(*found), *tip));
    reply(MINI_PROTOCOL_CHAINSYNC, buf)
}

/// A point that a client names.
enum ParsedPoint<'a> {
    Origin,
    At(u64, &'a [u8]),
    Malformed,
}

spec fn parsed_view(p: ParsedPoint) -> ClientPoint {
    match p {
        ParsedPoint::Origin => ClientPoint::Origin,
        ParsedPoint::At(s, h) => ClientPoint::At(s, h@),
        ParsedPoint::Malformed => ClientPoint::Malformed,
    }
}

/// Reads a point.
fn read_point<'a>(b: &'a [u8], pos: &mut usize) -> (r: ParsedPoint<'a>)
    ensures
        (parsed_view(r), *final(pos) as int) == client_point(b@, *old(pos) as int),
{
    match get_array(b, pos) {
        Ok(Some(2)) => {
            let slot = get_u64(b, pos);
            let h = get_bytes(b, pos);
            match (slot, h) {
                (Some(slot), Ok(h)) => {
                    return ParsedPoint::At(slot, h);
                },
                _ => {},
            }
        },
        Ok(Some(0)) => {
            return ParsedPoint::Origin;
        },
        _ => {},
    }
    let _ = skip_item(b, pos);
    ParsedPoint::Malformed
}

proof fn lemma_first_on_chain_none(points: Seq<ClientPoint>, has: Seq<bool>, k: int)
    requires
        0 <= k <= has.len(),
        forall|j: int| k <= j < has.len() ==> !on_chain(#[trigger] points[j], has[j]),
    ensures
        first_on_chain(points, has, k) is None,
    decreases has.len() - k,
{
    if k < has.len() {
        assert(!on_chain(points[k], has[k]));
        lemma_first_on_chain_none(points, has, k + 1);
    }
}

proof fn lemma_first_on_chain_last(points: Seq<ClientPoint>, has: Seq<bool>, k: int)
    requires
        0 <= k < has.len(),
        forall|j: int| k <= j < has.len() - 1 ==> !on_chain(#[trigger] points[j], has[j]),
    ensures
        first_on_chain(points, has, k) == first_on_chain(points, has, has.len() - 1),
    decreases has.len() - k,
{
    if k < has.len() - 1 {
        assert(!on_chain(points[k], has[k]));
        lemma_first_on_chain_last(points, has, k + 1);
    }
}

/// Finds the point of the client that is the tip.
pub fn find_tip(b: &[u8], start: usize, tip: &TipInfo) -> (r: Option<(u64, [u8; 32])>)
    ensures
        found_view(r) == at_tip(client_points(b@, start as int), tip.slot, tip.hash@),
{
    let mut pos: usize = start;
    let ghost points = client_points(b@, start as int);
    let n: u64 = match get_array(b, &mut pos) {
        Ok(Some(n)) => n,
        _ => {
            return None;
        },
    };
    let mut i: u64 = 0;
    assert(points.skip(0) =~= points);
    while i < n
        invariant
            i <= n,
            points.len() >= i,
            points.skip(i as int) == points_from(b@, pos as int, (n - i) as nat),
            points == client_points(b@, start as int),
            forall|j: int|
                0 <= j < i ==> #[trigger] points[j] != ClientPoint::At(tip.slot, tip.hash@),
        decreases n - i,
    {
        let ghost rest = points.skip(i as int);
        let point = read_point(b, &mut pos);
        proof {
            assert(rest.len() > 0);
            assert(rest[0] == parsed_view(point));
            assert(points[i as int] == parsed_view(point));
            assert(points.skip(i + 1) =~= rest.skip(1));
            assert(rest.skip(1) =~= points_from(b@, pos as int, (n - i - 1) as nat));
        }
        if let ParsedPoint::At(slot, h) = point {
            if slot == tip.slot && h.len() == 32 {
                let found: [u8; 32] = to_hash(h);
                if same_hash(&found, &tip.hash) {
                    assert(points[i as int] == ClientPoint::At(tip.slot, tip.hash@));
                    return Some((slot, found));
                }
            }
        }
        i += 1;
    }
    assert(points.skip(i as int).len() == 0);
    None
}

/// Finds the first point of the client that is on the chain of the provider.
fn find_on_chain<P: BlockProvider>(b: &[u8], start: usize, provider: &P) -> (r: (
    Option<(u64, [u8; 32])>,
    Ghost<Seq<bool>>,
))
    ensures
        found_view(r.0) == first_on_chain(client_points(b@, start as int), r.1@, 0),
        may_find(provider, client_points(b@, start as int), r.1@),
{
    let mut pos: usize = start;
    let ghost points = client_points(b@, start as int);
    let ghost mut has: Seq<bool> = Seq::empty();
    let n: u64 = match get_array(b, &mut pos) {
        Ok(Some(n)) => n,
        _ => {
            return (None, Ghost(has));
        },
    };
    let mut i: u64 = 0;
    assert(points.skip(0) =~= points);
    while i < n
        invariant
            i <= n,
            points.len() >= i,
            has.len() == i,
            points.skip(i as int) == points_from(b@, pos as int, (n - i) as nat),
            points == client_points(b@, start as int),
            forall|j: int| 0 <= j < i ==> !on_chain(#[trigger] points[j], has[j]),
            forall|k: int|
                #![trigger has[k]]
                0 <= k < has.len() ==> match points[k] {
                    ClientPoint::At(_, h) => h.len() == 32 ==> provider.may_have(h, has[k]),
                    _ => true,
                },
        decreases n - i,
    {
        let ghost rest = points.skip(i as int);
        let ghost before = has;
        let point = read_point(b, &mut pos);
        proof {
            assert(rest.len() > 0);
            assert(rest[0] == parsed_view(point));
            assert(points[i as int] == parsed_view(point));
            assert(points.skip(i + 1) =~= rest.skip(1));
            assert(rest.skip(1) =~= points_from(b@, pos as int, (n - i - 1) as nat));
            has = has.push(false);
        }
        match point {
            ParsedPoint::Origin => {
                proof {
                    lemma_first_on_chain_last(points, has, 0);
                }
                return (Some((0, no_hash())), Ghost(has));
            },
            ParsedPoint::At(slot, h) => {
                if h.len() == 32 {
                    let found: [u8; 32] = to_hash(h);
                    let answer: bool = provider.has_block(&found);
                    proof {
                        has = before.push(answer);
                    }
                    if answer {
                        proof {
                            lemma_first_on_chain_last(points, has, 0);
                        }
                        return (Some((slot, found)), Ghost(has));
                    }
                }
            },
            ParsedPoint::Malformed => {},
        }
        i += 1;
    }
    proof {
        assert(points.skip(i as int).len() == 0);
        lemma_first_on_chain_none(points, has, 0);
    }
    (None, Ghost(has))
}

/// Moves the cursor to the point on which client and server agree.
pub fn move_cursor(found: &Option<(u64, [u8; 32])>, cursor: &mut ChainSyncCursor)
    ensures
        match *found {
            Some(f) => *final(cursor) == (ChainSyncCursor {
                cursor_slot: f.0,
                has_intersection: true,
            }),
            None => *final(cursor) == (ChainSyncCursor { has_intersection: false, ..*old(cursor) }),
        },
{
    match found {
        Some(f) => {
            cursor.cursor_slot = f.0;
            cursor.has_intersection = true;
        },
        None => {
            cursor.has_intersection = false;
        },
    }
}

/// Answers MsgRequestNext where there is a provider.
fn request_next<P: BlockProvider>(provider: &P, cursor: &mut ChainSyncCursor) -> (r: (
    Segment,
    Ghost<Answers>,
))
    ensures
        (*final(cursor), message::Outcome::Reply(r.0@)) == next_step(*old(cursor), r.1@),
        r.1@.has == Seq::<bool>::empty(),
        old(cursor).has_intersection ==> {
            &&& provider.may_end_at(r.1@.tip)
            &&& old(cursor).cursor_slot <= r.1@.tip.slot ==> provider.may_follow(
                old(cursor).cursor_slot,
                r.1@.next,
            )
            &&& old(cursor).cursor_slot <= r.1@.tip.slot && r.1@.next is Some
                ==> provider.may_end_at(r.1@.tip_after)
        },
{
    if !cursor.has_intersection {
        return (await_reply(), Ghost(Answers { has: Seq::empty(), ..arbitrary() }));
    }
    let tip = provider.get_tip();
    let ghost a = Answers { tip, next: None, tip_after: tip, has: Seq::empty() };
    if cursor.cursor_slot > tip.slot {
        cursor.cursor_slot = tip.slot;
        return (roll_backward_reply(&tip), Ghost(a));
    }
    let next = provider.get_next_block_after_slot(cursor.cursor_slot);
    let ghost next_view = n2n_server::next_block(next);
    match next {
        Some((slot, _, block)) => {
            cursor.cursor_slot = slot;
            let tip_after = provider.get_tip();
            (
                roll_forward_reply(block.as_slice(), &tip_after),
                Ghost(Answers { next: next_view, tip_after, ..a }),
            )
        },
        None => (await_reply(), Ghost(a)),
    }
}

/// Answers a message of LocalChainSync. `ledger_tip` is the tip of the ledger.
pub fn handle_local_chainsync<P: BlockProvider>(
    payload: &[u8],
    ledger_tip: &TipInfo,
    block_provider: Option<&P>,
    cursor: &mut ChainSyncCursor,
) -> (r: Result<Option<Segment>, N2CServerError>)
    ensures
        may_lead(
            block_provider,
            payload@,
            *ledger_tip,
            *old(cursor),
            *final(cursor),
            message::outcome(r),
        ),
{
    let mut pos: usize = 0;
    let ghost mut a: Answers = arbitrary();
    let tag: u32 = match read_msg_tag(
        payload,
        &mut pos,
        "invalid chainsync message",
        "bad chainsync msg tag: ",
    ) {
        Ok(tag) => tag,
        Err(e) => {
            assert((*cursor, message::failure(e)) == sync_step(
                payload@,
                *ledger_tip,
                *old(cursor),
                Some(a),
            ));
            return Err(e);
        },
    };
    let r: Option<Segment> = if tag == 0 {
        match block_provider {
            Some(provider) => {
                let (s, Ghost(answers)) = request_next(provider, cursor);
                proof {
                    a = answers;
                }
                Some(s)
            },
            None => Some(await_reply()),
        }
    } else if tag == 4 {
        let found: Option<(u64, [u8; 32])> = match block_provider {
            Some(provider) => {
                let (found, Ghost(has)) = find_on_chain(payload, pos, provider);
                proof {
                    a = Answers { has, ..a };
                }
                found
            },
            None => find_tip(payload, pos, ledger_tip),
        };
        move_cursor(&found, cursor);
        Some(intersect_reply(&found, ledger_tip))
    } else if tag == 7 {
        cursor.has_intersection = false;
        None
    } else {
        None
    };
    let r: Result<Option<Segment>, N2CServerError> = Ok(r);
    proof {
        if block_provider is Some {
            assert((*cursor, message::outcome(r)) == sync_step(
                payload@,
                *ledger_tip,
                *old(cursor),
                Some(a),
            ));
        }
    }
    r
}

// ---------------------------------------------------------------------------
// Laws
// ---------------------------------------------------------------------------

/// How a client writes a point: `[]` where the chain starts, else `[slot, hash]`.
pub open spec fn point_words(p: ClientPoint) -> Seq<Word> {
    match p {
        ClientPoint::At(slot, h) => words::arr(2) + words::num(slot as nat) + words::bin(h),
        _ => words::arr(0),
    }
}

/// How a client asks for an intersection: `[4, [point, ..]]`.
pub open spec fn find_intersect_words(points: Seq<ClientPoint>) -> Seq<Word> {
    words::arr(2) + words::num(4) + (words::arr(points.len()) + words::each(
        points,
        |p: ClientPoint| point_words(p),
    ))
}

/// Whether `payload` is MsgIntersectFound for the point, with the tip.
pub open spec fn names_point(payload: Seq<u8>, slot: u64, h: Seq<u8>, tip: TipInfo) -> bool {
    words::spells(
        payload,
        words::arr(3) + words::num(5) + (words::arr(2) + words::num(slot as nat) + words::bin(h))
            + (words::arr(2) + (words::arr(2) + words::num(tip.slot as nat) + words::bin(
            tip.hash@,
        )) + words::num(tip.block_number as nat)),
    )
}

/// Whether `payload` is MsgIntersectNotFound, with the tip.
pub open spec fn names_no_point(payload: Seq<u8>, tip: TipInfo) -> bool {
    words::spells(
        payload,
        words::arr(2) + words::num(6) + (words::arr(2) + (words::arr(2) + words::num(
            tip.slot as nat,
        ) + words::bin(tip.hash@)) + words::num(tip.block_number as nat)),
    )
}

proof fn lemma_points_are_read(b: Seq<u8>, p: int, points: Seq<ClientPoint>, q: int)
    requires
        forall|i: int| 0 <= i < points.len() ==> !((#[trigger] points[i]) is Malformed),
        words::reads(b, p, words::each(points, |p: ClientPoint| point_words(p)), q),
    ensures
        points_from(b, p, points.len()) == points,
    decreases points.len(),
{
    let g = |p: ClientPoint| point_words(p);
    if points.len() == 0 {
        assert(points_from(b, p, 0) =~= points);
    } else {
        let x = points[0];
        words::lemma_each_first(points, g);
        let m = words::lemma_reads_split(b, p, g(x), words::each(points.skip(1), g), q);
        match x {
            ClientPoint::At(slot, h) => {
                let k = words::lemma_reads_split(
                    b,
                    p,
                    words::arr(2) + words::num(slot as nat),
                    words::bin(h),
                    m,
                );
                let j = words::lemma_reads_split(
                    b,
                    p,
                    words::arr(2),
                    words::num(slot as nat),
                    k,
                );
                words::lemma_array_at(b, p, 2, j);
                words::lemma_number_at(b, j, slot as nat, k);
                words::lemma_bytes_at(b, k, h, m);
            },
            _ => {
                words::lemma_array_at(b, p, 0, m);
            },
        }
        assert(client_point(b, p) == (x, m));
        assert forall|i: int| 0 <= i < points.skip(1).len() implies !((#[trigger] points.skip(
            1,
        )[i]) is Malformed) by {
            assert(points.skip(1)[i] == points[i + 1]);
        }
        lemma_points_are_read(b, m, points.skip(1), q);
        assert(points =~= seq![x] + points.skip(1));
    }
}

/// A request for an intersection is read as the points in it.
pub proof fn lemma_request_is_read(b: Seq<u8>, points: Seq<ClientPoint>) -> (end: int)
    requires
        forall|i: int| 0 <= i < points.len() ==> !((#[trigger] points[i]) is Malformed),
        words::spells(b, find_intersect_words(points)),
    ensures
        message::msg_tag(b) == message::MsgTag::Tag(4, end),
        client_points(b, end) == points,
{
    reveal(words::spells);
    let q = b.len() as int;
    let list = words::each(points, |p: ClientPoint| point_words(p));
    let m = words::lemma_reads_split(
        b,
        0,
        words::arr(2) + words::num(4),
        words::arr(points.len()) + list,
        q,
    );
    message::lemma_tag_is_read(b, 2, 4, m);
    let k = words::lemma_reads_split(b, m, words::arr(points.len()), list, q);
    words::lemma_array_at(b, m, points.len(), k);
    lemma_points_are_read(b, k, points, q);
    m
}

/// The answer to a request for an intersection is read as the point, or as none, and the tip.
pub proof fn lemma_intersection_is_read(found: Option<(u64, Seq<u8>)>, tip: TipInfo)
    requires
        found matches Some(f) ==> f.1.len() <= u64::MAX,
    ensures
        match found {
            Some(f) => names_point(intersect_bytes(found, tip), f.0, f.1, tip),
            None => names_no_point(intersect_bytes(found, tip), tip),
        },
{
    broadcast use words::group_words;
    broadcast use point::lemma_tip_is_read;
    broadcast use point::lemma_point_is_read;

    assert(tip.hash@.len() == 32);
}

proof fn lemma_first_on_chain(points: Seq<ClientPoint>, has: Seq<bool>, k: int)
    requires
        0 <= k <= has.len() <= points.len(),
    ensures
        match first_on_chain(points, has, k) {
            Some(f) => exists|i: int|
                {
                    &&& k <= i < has.len()
                    &&& match #[trigger] points[i] {
                        ClientPoint::At(slot, h) => f == (slot, h) && h.len() == 32 && has[i],
                        ClientPoint::Origin => f == (0u64, hash::zero_hash()),
                        ClientPoint::Malformed => false,
                    }
                    &&& forall|j: int|
                        k <= j < i ==> match #[trigger] points[j] {
                            ClientPoint::At(_, h) => h.len() == 32 ==> has[j] == false,
                            ClientPoint::Origin => false,
                            ClientPoint::Malformed => true,
                        }
                },
            None => forall|j: int|
                k <= j < has.len() ==> match #[trigger] points[j] {
                    ClientPoint::At(_, h) => h.len() == 32 ==> has[j] == false,
                    ClientPoint::Origin => false,
                    ClientPoint::Malformed => true,
                },
        },
    decreases has.len() - k,
{
    if k < has.len() && !on_chain(points[k], has[k]) {
        lemma_first_on_chain(points, has, k + 1);
    } else if k < has.len() {
        assert(match points[k] {
            ClientPoint::At(slot, h) => h.len() == 32 && has[k],
            ClientPoint::Origin => true,
            ClientPoint::Malformed => false,
        });
    }
}

/// Whether the answer to a client names its `i`-th point, which the provider has, or which is
/// where the chain starts, and moves the cursor there.
pub open spec fn agrees_on<P: BlockProvider>(
    provider: &P,
    point: ClientPoint,
    payload: Seq<u8>,
    tip: TipInfo,
    c2: ChainSyncCursor,
) -> bool {
    match point {
        ClientPoint::At(slot, h) => {
            &&& h.len() == 32
            &&& provider.may_have(h, true)
            &&& names_point(payload, slot, h, tip)
            &&& c2 == (ChainSyncCursor { cursor_slot: slot, has_intersection: true })
        },
        ClientPoint::Origin => {
            &&& names_point(payload, 0, Seq::new(32, |k: int| 0u8), tip)
            &&& c2 == (ChainSyncCursor { cursor_slot: 0, has_intersection: true })
        },
        ClientPoint::Malformed => false,
    }
}

/// Whether the provider lacks the point, which is not where the chain starts.
pub open spec fn lacks<P: BlockProvider>(provider: &P, point: ClientPoint) -> bool {
    match point {
        ClientPoint::At(_, h) => h.len() == 32 ==> provider.may_have(h, false),
        _ => false,
    }
}

/// A client that asks for an intersection is told of the first point of its list that is on
/// the chain, or where the chain starts if that comes first: the provider has no point that
/// comes before it. It is told of none only where the provider has none of them and the list
/// does not hold the start of the chain.
pub proof fn lemma_first_common_point_is_named<P: BlockProvider>(
    provider: &P,
    b: Seq<u8>,
    points: Seq<ClientPoint>,
    tip: TipInfo,
    c: ChainSyncCursor,
    c2: ChainSyncCursor,
    o: message::Outcome,
)
    requires
        forall|i: int| 0 <= i < points.len() ==> !((#[trigger] points[i]) is Malformed),
        words::spells(b, find_intersect_words(points)),
        may_lead(Some(provider), b, tip, c, c2, o),
    ensures
        o matches message::Outcome::Reply(g) && g.protocol_id == 5 && g.is_responder && {
            ||| exists|i: int|
                {
                    &&& 0 <= i < points.len()
                    &&& agrees_on(provider, #[trigger] points[i], g.payload, tip, c2)
                    &&& forall|j: int| 0 <= j < i ==> lacks(provider, #[trigger] points[j])
                }
            ||| {
                &&& forall|j: int| 0 <= j < points.len() ==> lacks(provider, #[trigger] points[j])
                &&& names_no_point(g.payload, tip)
                &&& c2 == (ChainSyncCursor {
                    cursor_slot: c.cursor_slot,
                    has_intersection: false,
                })
            }
        },
{
    broadcast use words::group_words;
    broadcast use point::lemma_tip_is_read;
    broadcast use point::lemma_point_is_read;

    let end = lemma_request_is_read(b, points);
    let a = choose|a: Answers|
        {
            &&& (c2, o) == #[trigger] sync_step(b, tip, c, Some(a))
            &&& may_answer(provider, b, c, a)
        };
    lemma_first_on_chain(points, a.has, 0);
    let payload = intersect_bytes(first_on_chain(points, a.has, 0), tip);
    assert(tip.hash@.len() == 32);
    match first_on_chain(points, a.has, 0) {
        Some(f) => {
            let i = choose|i: int|
                {
                    &&& 0 <= i < a.has.len()
                    &&& match #[trigger] points[i] {
                        ClientPoint::At(slot, h) => f == (slot, h) && h.len() == 32 && a.has[i],
                        ClientPoint::Origin => f == (0u64, hash::zero_hash()),
                        ClientPoint::Malformed => false,
                    }
                    &&& forall|j: int|
                        0 <= j < i ==> match #[trigger] points[j] {
                            ClientPoint::At(_, h) => h.len() == 32 ==> a.has[j] == false,
                            ClientPoint::Origin => false,
                            ClientPoint::Malformed => true,
                        }
                };
            assert(names_point(payload, f.0, f.1, tip));
            assert(provider.may_have(f.1, a.has[i]) || points[i] is Origin);
            assert(agrees_on(provider, points[i], payload, tip, c2));
            assert forall|j: int| 0 <= j < i implies lacks(provider, #[trigger] points[j]) by {
                assert(a.has[j] == false || !(points[j] is At) || points[j]->At_1.len() != 32);
            }
        },
        None => {
            assert(names_no_point(payload, tip));
            assert forall|j: int| 0 <= j < points.len() implies lacks(
                provider,
                #[trigger] points[j],
            ) by {
                assert(a.has[j] == false || !(points[j] is At) || points[j]->At_1.len() != 32);
            }
        },
    }
}

/// Without a provider a client is told of the tip exactly where the tip is in its list.
pub proof fn lemma_only_the_tip_is_known<P: BlockProvider>(
    b: Seq<u8>,
    points: Seq<ClientPoint>,
    tip: TipInfo,
    c: ChainSyncCursor,
    c2: ChainSyncCursor,
    o: message::Outcome,
)
    requires
        forall|i: int| 0 <= i < points.len() ==> !((#[trigger] points[i]) is Malformed),
        words::spells(b, find_intersect_words(points)),
        may_lead(None::<&P>, b, tip, c, c2, o),
    ensures
        o matches message::Outcome::Reply(g) && g.protocol_id == 5 && g.is_responder && if exists|
            i: int,
        |
            0 <= i < points.len() && #[trigger] points[i] == ClientPoint::At(tip.slot, tip.hash@) {
            &&& names_point(g.payload, tip.slot, tip.hash@, tip)
            &&& c2 == (ChainSyncCursor { cursor_slot: tip.slot, has_intersection: true })
        } else {
            &&& names_no_point(g.payload, tip)
            &&& c2 == (ChainSyncCursor { cursor_slot: c.cursor_slot, has_intersection: false })
        },
{
    broadcast use words::group_words;
    broadcast use point::lemma_tip_is_read;
    broadcast use point::lemma_point_is_read;

    let end = lemma_request_is_read(b, points);
    assert(tip.hash@.len() == 32);
    if exists|i: int|
        0 <= i < points.len() && #[trigger] points[i] == ClientPoint::At(tip.slot, tip.hash@) {
        assert(points.contains(ClientPoint::At(tip.slot, tip.hash@)));
    }
    assert(match at_tip(points, tip.slot, tip.hash@) {
        Some(f) => names_point(intersect_bytes(Some(f), tip), f.0, f.1, tip),
        None => names_no_point(intersect_bytes(None, tip), tip),
    });
}

/// A client that asks for the next block gets the whole block behind its cursor, in its era,
/// and the cursor moves to that block. It is rolled back to the tip where it is ahead of it,
/// and told to wait where there is no block, or no point on which it agrees with the server.
pub proof fn lemma_next_block_is_sent<P: BlockProvider>(
    provider: &P,
    b: Seq<u8>,
    ledger_tip: TipInfo,
    c: ChainSyncCursor,
    c2: ChainSyncCursor,
    o: message::Outcome,
)
    requires
        words::spells(b, words::arr(1) + words::num(0)),
        may_lead(Some(provider), b, ledger_tip, c, c2, o),
    ensures
        o matches message::Outcome::Reply(g) && g.protocol_id == 5 && g.is_responder && {
            ||| {
                &&& !c.has_intersection
                &&& c2 == c
                &&& words::spells(g.payload, words::arr(1) + words::num(1))
            }
            ||| c.has_intersection && exists|tip: TipInfo|
                {
                    &&& #[trigger] provider.may_end_at(tip)
                    &&& c.cursor_slot > tip.slot
                    &&& c2 == (ChainSyncCursor { cursor_slot: tip.slot, has_intersection: true })
                    &&& words::spells(
                        g.payload,
                        words::arr(3) + words::num(3) + (words::arr(2) + words::num(tip.slot as nat)
                            + words::bin(tip.hash@)) + (words::arr(2) + (words::arr(2) + words::num(
                            tip.slot as nat,
                        ) + words::bin(tip.hash@)) + words::num(tip.block_number as nat)),
                    )
                }
            ||| c.has_intersection && c2 == c && provider.may_follow(c.cursor_slot, None)
                && words::spells(g.payload, words::arr(1) + words::num(1))
            ||| c.has_intersection && exists|next: (u64, [u8; 32], Seq<u8>), tip: TipInfo|
                {
                    &&& #[trigger] provider.may_follow(c.cursor_slot, Some(next))
                    &&& #[trigger] provider.may_end_at(tip)
                    &&& c2 == (ChainSyncCursor { cursor_slot: next.0, has_intersection: true })
                    &&& next.2.len() <= u64::MAX ==> words::spells(
                        g.payload,
                        words::arr(3) + words::num(2) + (words::arr(2) + words::num(
                            point::era_of(next.2) as nat,
                        ) + words::tag(24) + words::bin(next.2)) + (words::arr(2) + (words::arr(2)
                            + words::num(tip.slot as nat) + words::bin(tip.hash@)) + words::num(
                            tip.block_number as nat,
                        )),
                    )
                }
        },
{
    broadcast use words::group_words;
    broadcast use point::lemma_tip_is_read;
    broadcast use point::lemma_point_is_read;

    message::lemma_bare_tag_is_read(b, 0);
    let a = choose|a: Answers|
        {
            &&& (c2, o) == #[trigger] sync_step(b, ledger_tip, c, Some(a))
            &&& may_answer(provider, b, c, a)
        };
    lemma_replies_are_read(a.tip, a.next, a.tip_after);
    if c.has_intersection {
        assert(provider.may_end_at(a.tip));
        if c.cursor_slot <= a.tip.slot {
            assert(provider.may_follow(c.cursor_slot, a.next));
            if a.next is Some {
                assert(provider.may_follow(c.cursor_slot, Some(a.next->0)));
                assert(provider.may_end_at(a.tip_after));
            }
        }
    }
}

proof fn lemma_replies_are_read(
    tip: TipInfo,
    next: Option<(u64, [u8; 32], Seq<u8>)>,
    after: TipInfo,
)
    ensures
        words::spells(await_bytes(), words::arr(1) + words::num(1)),
        words::spells(
            roll_backward_bytes(tip),
            words::arr(3) + words::num(3) + (words::arr(2) + words::num(tip.slot as nat)
                + words::bin(tip.hash@)) + (words::arr(2) + (words::arr(2) + words::num(
                tip.slot as nat,
            ) + words::bin(tip.hash@)) + words::num(tip.block_number as nat)),
        ),
        next matches Some(n) && n.2.len() <= u64::MAX ==> words::spells(
            roll_forward_bytes((next->0).2, after),
            words::arr(3) + words::num(2) + (words::arr(2) + words::num(
                point::era_of((next->0).2) as nat,
            ) + words::tag(24) + words::bin((next->0).2)) + (words::arr(2) + (words::arr(2)
                + words::num(after.slot as nat) + words::bin(after.hash@)) + words::num(
                after.block_number as nat,
            )),
        ),
{
    broadcast use words::group_words;

    assert(tip.hash@.len() == 32);
    assert(after.hash@.len() == 32);
}

/// MsgDone ends the agreement and is not answered, and neither is any other message.
pub proof fn lemma_the_rest_is_not_answered<P: BlockProvider>(
    provider: Option<&P>,
    b: Seq<u8>,
    tag: nat,
    ledger_tip: TipInfo,
    c: ChainSyncCursor,
    c2: ChainSyncCursor,
    o: message::Outcome,
)
    requires
        words::spells(b, words::arr(1) + words::num(tag)),
        tag <= u32::MAX,
        tag != 0 && tag != 4,
        may_lead(provider, b, ledger_tip, c, c2, o),
    ensures
        o == message::Outcome::Silent,
        c2.cursor_slot == c.cursor_slot,
        c2.has_intersection == (c.has_intersection && tag != 7),
{
    message::lemma_bare_tag_is_read(b, tag);
}

/// What is no message breaks the protocol, and the error says how.
pub proof fn lemma_broken_messages(
    b: Seq<u8>,
    ledger_tip: TipInfo,
    c: ChainSyncCursor,
    a: Option<Answers>,
)
    ensures
        message::msg_tag(b) is Invalid ==> sync_step(b, ledger_tip, c, a) == (
            c,
            message::Outcome::ProtocolError("invalid chainsync message"@),
        ),
        message::msg_tag(b) matches message::MsgTag::Bad(m) ==> sync_step(b, ledger_tip, c, a) == (
            c,
            message::Outcome::ProtocolError("bad chainsync msg tag: "@ + m),
        ),
{
}

} // verus!
