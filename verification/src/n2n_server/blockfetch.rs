//! BlockFetch: a peer asks for the blocks between two points.
//!
//! | Tag | Message         | Contents              |
//! |-----|-----------------|-----------------------|
//! |   0 | MsgRequestRange | `[0, point, point]`   |
//! |   1 | MsgClientDone   | `[1]`                 |
//! |   2 | MsgStartBatch   | `[2]`                 |
//! |   3 | MsgNoBlocks     | `[3]`                 |
//! |   4 | MsgBlock        | `[4, tag 24 (block)]` |
//! |   5 | MsgBatchDone    | `[5]`                 |
use crate::cbor;
use crate::cbor::{put_array, put_bytes, put_tag, put_u32};
use crate::hash::same_hash;
use crate::mempool;
use crate::multiplexer::{Segment, SegmentView};
use crate::n2n_server;
use crate::n2n_server::message;
use crate::n2n_server::message::{parse_point_slot_hash, read_msg_tag, reply};
use crate::n2n_server::{BlockProvider, N2NServerError, MINI_PROTOCOL_BLOCKFETCH};
use crate::words;
use vstd::prelude::*;

verus! {

/// A message that is a tag alone.
pub open spec fn bare_view(tag: u32) -> SegmentView {
    message::reply_view(MINI_PROTOCOL_BLOCKFETCH, cbor::array_head(1) + cbor::uint(tag as nat))
}

/// MsgBlock.
pub open spec fn block_view(block: Seq<u8>) -> SegmentView {
    message::reply_view(
        MINI_PROTOCOL_BLOCKFETCH,
        cbor::array_head(2) + cbor::uint(4) + cbor::tag_head(24) + cbor::bytes_item(block),
    )
}

/// A block behind a slot: its slot, hash and bytes.
pub type NextBlock = Option<(u64, [u8; 32], Seq<u8>)>;

/// What a provider of blocks may answer to the questions that a message leads to.
pub struct Answers {
    /// Whether it has the first block of the range, and the last one.
    pub has_from: bool,
    pub has_to: bool,
    /// The first block of the range.
    pub first: Option<Seq<u8>>,
    /// The blocks behind the first one, each behind the one before.
    pub nexts: Seq<NextBlock>,
}

/// The slot behind which the `k`-th of `nexts` is asked for.
pub open spec fn slot_before(from_slot: u64, nexts: Seq<NextBlock>, k: int) -> u64 {
    if k == 0 {
        from_slot
    } else {
        (nexts[k - 1]->0).0
    }
}

/// The blocks among `nexts` that belong to the range, but for the first one of it.
pub open spec fn in_range(nexts: Seq<NextBlock>, from_hash: Seq<u8>, to_slot: u64) -> Seq<Seq<u8>>
    decreases nexts.len(),
{
    if nexts.len() == 0 {
        Seq::empty()
    } else {
        let before = in_range(nexts.drop_last(), from_hash, to_slot);
        match nexts.last() {
            Some(n) if n.0 <= to_slot && n.1@ != from_hash => before.push(n.2),
            _ => before,
        }
    }
}

/// Whether nothing more has to be asked for behind `nexts`: the slot `to_slot` is reached,
/// there is no other block, or there are more than `max_blocks` of them, with `first` of
/// them in front.
pub open spec fn walk_ends(
    nexts: Seq<NextBlock>,
    first: nat,
    from_hash: Seq<u8>,
    to_slot: u64,
    max_blocks: u64,
) -> bool {
    ||| nexts.len() > 0 && (nexts.last() is None || (nexts.last()->0).0 >= to_slot)
    ||| first + in_range(nexts, from_hash, to_slot).len() > max_blocks
}

/// Whether the provider may give the answers `nexts` when it is asked for one block after
/// the other behind `from`, until nothing more has to be asked for.
pub open spec fn may_walk<P: BlockProvider>(
    provider: &P,
    from: (u64, Seq<u8>),
    to_slot: u64,
    first: nat,
    max_blocks: u64,
    nexts: Seq<NextBlock>,
) -> bool {
    &&& forall|k: int|
        0 <= k < nexts.len() ==> provider.may_follow(
            #[trigger] slot_before(from.0, nexts, k),
            nexts[k],
        )
    &&& forall|k: int|
        0 <= k < nexts.len() && nexts[k] is Some ==> (nexts[k]->0).0 > #[trigger] slot_before(
            from.0,
            nexts,
            k,
        )
    &&& forall|k: int|
        0 <= k < nexts.len() ==> !walk_ends(
            #[trigger] nexts.take(k),
            first,
            from.1,
            to_slot,
            max_blocks,
        )
    &&& walk_ends(nexts, first, from.1, to_slot, max_blocks)
}

/// The first block of the range, if there is one.
pub open spec fn first_blocks(a: Answers) -> Seq<Seq<u8>> {
    match a.first {
        Some(b) => seq![b],
        None => Seq::empty(),
    }
}

/// The blocks of the range, as far as they were asked for.
pub open spec fn range_blocks(
    from: (u64, Seq<u8>),
    to_slot: u64,
    a: Answers,
) -> Seq<Seq<u8>> {
    if from.0 < to_slot {
        first_blocks(a) + in_range(a.nexts, from.1, to_slot)
    } else {
        first_blocks(a)
    }
}

/// A batch: a start, the blocks, and an end.
pub open spec fn batch_views(blocks: Seq<Seq<u8>>) -> Seq<SegmentView> {
    seq![bare_view(2)] + blocks.map_values(|b: Seq<u8>| block_view(b)) + seq![bare_view(5)]
}

/// What MsgRequestRange leads to. The range is refused if the server lacks one of its
/// ends, or if it holds more than `max_blocks` blocks.
pub open spec fn range_step(
    from: Option<(u64, Seq<u8>)>,
    to: Option<(u64, Seq<u8>)>,
    max_blocks: u64,
    a: Answers,
) -> Seq<SegmentView> {
    if from is Some && to is Some && a.has_from && a.has_to && range_blocks(
        from->0,
        (to->0).0,
        a,
    ).len() <= max_blocks {
        batch_views(range_blocks(from->0, (to->0).0, a))
    } else {
        seq![bare_view(3)]
    }
}

/// What the message `b` leads to, if the provider gives the answers `a`.
pub open spec fn fetch_step(b: Seq<u8>, max_blocks: u64, a: Answers) -> message::Outcome {
    match message::msg_tag(b) {
        message::MsgTag::Tag(tag, end) => if tag == 0 {
            let from = message::point_at(b, end);
            let to = message::point_at(b, from.end);
            message::Outcome::Replies(range_step(from.value, to.value, max_blocks, a))
        } else {
            message::silent()
        },
        message::MsgTag::Broken(m) => message::Outcome::Failed(message::ErrorView::Protocol(m)),
    }
}

/// Whether the provider may give the answers `a` about the given range.
pub open spec fn may_serve<P: BlockProvider>(
    provider: &P,
    from: Option<(u64, Seq<u8>)>,
    to: Option<(u64, Seq<u8>)>,
    max_blocks: u64,
    a: Answers,
) -> bool {
    &&& from is Some ==> provider.may_have((from->0).1, a.has_from)
    &&& to is Some ==> provider.may_have((to->0).1, a.has_to)
    &&& from is Some && to is Some && a.has_from && a.has_to ==> {
        &&& provider.may_get((from->0).1, a.first)
        &&& (from->0).0 < (to->0).0 ==> may_walk(
            provider,
            from->0,
            (to->0).0,
            first_blocks(a).len(),
            max_blocks,
            a.nexts,
        )
    }
}

/// Whether the provider may give these answers to the questions that the message `b`
/// leads to.
pub open spec fn may_answer<P: BlockProvider>(
    provider: &P,
    b: Seq<u8>,
    max_blocks: u64,
    a: Answers,
) -> bool {
    match message::msg_tag(b) {
        message::MsgTag::Tag(tag, end) => tag == 0 ==> {
            let from = message::point_at(b, end);
            let to = message::point_at(b, from.end);
            may_serve(provider, from.value, to.value, max_blocks, a)
        },
        _ => true,
    }
}

/// Whether the message `b` may lead to `o`.
pub open spec fn may_lead<P: BlockProvider>(
    provider: &P,
    b: Seq<u8>,
    max_blocks: u64,
    o: message::Outcome,
) -> bool {
    exists|a: Answers|
        o == #[trigger] fetch_step(b, max_blocks, a) && may_answer(provider, b, max_blocks, a)
}

/// The slots of the blocks that are looked at behind the first one of a range ascend, and
/// all of them but the last lie within the range.
pub proof fn lemma_blocks_in_order<P: BlockProvider>(
    provider: &P,
    from: (u64, Seq<u8>),
    to_slot: u64,
    first: nat,
    max_blocks: u64,
    nexts: Seq<NextBlock>,
    i: int,
    j: int,
)
    requires
        may_walk(provider, from, to_slot, first, max_blocks, nexts),
        0 <= i < j < nexts.len(),
        nexts[j] is Some,
    ensures
        from.0 < (nexts[i]->0).0 < to_slot,
        (nexts[i]->0).0 < (nexts[j]->0).0,
    decreases i + j,
{
    lemma_goes_on(provider, from, to_slot, first, max_blocks, nexts, i);
    assert((nexts[i]->0).0 > slot_before(from.0, nexts, i));
    assert((nexts[j]->0).0 > slot_before(from.0, nexts, j));
    if i > 0 {
        lemma_blocks_in_order(provider, from, to_slot, first, max_blocks, nexts, i - 1, i);
    }
    if i + 1 < j {
        lemma_goes_on(provider, from, to_slot, first, max_blocks, nexts, j - 1);
        lemma_blocks_in_order(provider, from, to_slot, first, max_blocks, nexts, i, j - 1);
    }
}

/// Whatever another block is asked for behind lies within the range.
proof fn lemma_goes_on<P: BlockProvider>(
    provider: &P,
    from: (u64, Seq<u8>),
    to_slot: u64,
    first: nat,
    max_blocks: u64,
    nexts: Seq<NextBlock>,
    i: int,
)
    requires
        may_walk(provider, from, to_slot, first, max_blocks, nexts),
        0 <= i < nexts.len() - 1,
    ensures
        nexts[i] is Some,
        (nexts[i]->0).0 < to_slot,
{
    let t = nexts.take(i + 1);
    assert(!walk_ends(t, first, from.1, to_slot, max_blocks));
    assert(t.last() == nexts[i]);
}

/// No more blocks are served than the range may hold, and at most one more is asked for.
pub proof fn lemma_batches_are_bounded<P: BlockProvider>(
    provider: &P,
    from: (u64, Seq<u8>),
    to: (u64, Seq<u8>),
    max_blocks: u64,
    a: Answers,
)
    requires
        may_serve(provider, Some(from), Some(to), max_blocks, a),
    ensures
        range_step(Some(from), Some(to), max_blocks, a).len() <= max_blocks + 2,
        a.has_from && a.has_to ==> range_blocks(from, to.0, a).len() <= max_blocks + 1,
{
    if a.has_from && a.has_to && from.0 < to.0 && a.nexts.len() > 0 {
        let n = a.nexts.len() - 1;
        let t = a.nexts.take(n);
        assert(t =~= a.nexts.drop_last());
        assert(!walk_ends(t, first_blocks(a).len(), from.1, to.0, max_blocks));
    }
}

/// A message that is a tag alone.
fn bare(tag: u32) -> (r: Segment)
    ensures
        r@ == bare_view(tag),
{
    let mut buf: Vec<u8> = Vec::new();
    put_array(&mut buf, 1);
    put_u32(&mut buf, tag);
    assert(buf@ =~= cbor::array_head(1) + cbor::uint(tag as nat));
    reply(MINI_PROTOCOL_BLOCKFETCH, buf)
}

/// MsgBlock.
pub fn make_block_segment(block_data: &[u8]) -> (r: Segment)
    ensures
        r@ == block_view(block_data@),
{
    let mut buf: Vec<u8> = Vec::new();
    put_array(&mut buf, 2);
    put_u32(&mut buf, 4);
    put_tag(&mut buf, 24);
    put_bytes(&mut buf, block_data);
    assert(buf@ =~= cbor::array_head(2) + cbor::uint(4) + cbor::tag_head(24) + cbor::bytes_item(
        block_data@,
    ));
    reply(MINI_PROTOCOL_BLOCKFETCH, buf)
}

/// Appends MsgBlock for each block of the range behind the first one, until there are more
/// than `max_blocks` of them. `segments` starts with MsgStartBatch.
fn push_range<P: BlockProvider>(
    segments: &mut Vec<Segment>,
    provider: &P,
    from: &(u64, [u8; 32]),
    to_slot: u64,
    max_blocks: u64,
) -> (r: Ghost<Seq<NextBlock>>)
    requires
        from.0 < to_slot,
        old(segments)@.len() > 0,
    ensures
        message::segment_views(final(segments)@) == message::segment_views(old(segments)@)
            + in_range(r@, from.1@, to_slot).map_values(|b: Seq<u8>| block_view(b)),
        may_walk(
            provider,
            (from.0, from.1@),
            to_slot,
            (old(segments)@.len() - 1) as nat,
            max_blocks,
            r@,
        ),
{
    let ghost pre = message::segment_views(segments@);
    let ghost first = (segments@.len() - 1) as nat;
    let ghost mut nexts: Seq<NextBlock> = Seq::empty();
    let mut current: u64 = from.0;
    proof {
        assert(in_range(nexts, from.1@, to_slot).map_values(|b: Seq<u8>| block_view(b))
            =~= Seq::empty());
        assert(pre + Seq::<SegmentView>::empty() =~= pre);
    }
    loop
        invariant
            from.0 <= current < to_slot,
            current == slot_before(from.0, nexts, nexts.len() as int),
            nexts.len() > 0 ==> nexts.last() is Some && (nexts.last()->0).0 < to_slot,
            forall|k: int|
                0 <= k < nexts.len() ==> provider.may_follow(
                    #[trigger] slot_before(from.0, nexts, k),
                    nexts[k],
                ),
            forall|k: int|
                0 <= k < nexts.len() && nexts[k] is Some ==> (nexts[k]->0).0
                    > #[trigger] slot_before(from.0, nexts, k),
            forall|k: int|
                0 <= k < nexts.len() ==> !walk_ends(
                    #[trigger] nexts.take(k),
                    first,
                    from.1@,
                    to_slot,
                    max_blocks,
                ),
            first == old(segments)@.len() - 1,
            pre == message::segment_views(old(segments)@),
            message::segment_views(segments@) == pre + in_range(
                nexts,
                from.1@,
                to_slot,
            ).map_values(|b: Seq<u8>| block_view(b)),
        decreases to_slot - current,
    {
        assert(message::segment_views(segments@).len() == segments@.len());
        if segments.len() as u128 > max_blocks as u128 + 1 {
            return Ghost(nexts);
        }
        let next = provider.get_next_block_after_slot(current);
        let ghost before = nexts;
        proof {
            nexts = nexts.push(n2n_server::next_block(next));
            assert(nexts.drop_last() =~= before);
            assert forall|k: int| 0 <= k < nexts.len() implies provider.may_follow(
                #[trigger] slot_before(from.0, nexts, k),
                nexts[k],
            ) by {
                if k < before.len() {
                    assert(nexts[k] == before[k]);
                    assert(slot_before(from.0, nexts, k) == slot_before(from.0, before, k));
                }
            }
            assert forall|k: int| 0 <= k < nexts.len() && nexts[k] is Some implies (nexts[k]->0).0
                > #[trigger] slot_before(from.0, nexts, k) by {
                if k < before.len() {
                    assert(nexts[k] == before[k]);
                    assert(slot_before(from.0, nexts, k) == slot_before(from.0, before, k));
                }
            }
            assert forall|k: int| 0 <= k < nexts.len() implies !walk_ends(
                #[trigger] nexts.take(k),
                first,
                from.1@,
                to_slot,
                max_blocks,
            ) by {
                if k < before.len() {
                    assert(nexts.take(k) =~= before.take(k));
                } else {
                    assert(nexts.take(k) =~= before);
                }
            }
        }
        match next {
            Some((next_slot, next_hash, block)) => {
                if next_slot > to_slot {
                    return Ghost(nexts);
                }
                if !same_hash(&next_hash, &from.1) {
                    let ghost so_far = segments@;
                    segments.push(make_block_segment(block.as_slice()));
                    proof {
                        let f = |b: Seq<u8>| block_view(b);
                        let blocks = in_range(before, from.1@, to_slot);
                        assert(message::segment_views(segments@) =~= message::segment_views(
                            so_far,
                        ).push(block_view(block@)));
                        assert(blocks.push(block@).map_values(f) =~= blocks.map_values(f).push(
                            block_view(block@),
                        ));
                        assert(in_range(nexts, from.1@, to_slot) == blocks.push(block@));
                        assert(message::segment_views(segments@) =~= pre + in_range(
                            nexts,
                            from.1@,
                            to_slot,
                        ).map_values(f));
                    }
                }
                if next_slot == to_slot {
                    return Ghost(nexts);
                }
                current = next_slot;
            },
            None => {
                return Ghost(nexts);
            },
        }
    }
}

/// The segments of a batch, if the range holds no more than `max_blocks` blocks.
fn serve_range<P: BlockProvider>(
    provider: &P,
    from: &(u64, [u8; 32]),
    to_slot: u64,
    max_blocks: u64,
) -> (r: (Option<Vec<Segment>>, Ghost<(Option<Seq<u8>>, Seq<NextBlock>)>))
    ensures
        forall|a: Answers|
            #![trigger range_blocks((from.0, from.1@), to_slot, a)]
            a.first == r.1@.0 && a.nexts == r.1@.1 ==> {
                let blocks = range_blocks((from.0, from.1@), to_slot, a);
                &&& r.0 is Some <==> blocks.len() <= max_blocks
                &&& r.0 matches Some(v) ==> message::segment_views(v@) == batch_views(blocks)
                &&& from.0 < to_slot ==> may_walk(
                    provider,
                    (from.0, from.1@),
                    to_slot,
                    first_blocks(a).len(),
                    max_blocks,
                    a.nexts,
                )
            },
        provider.may_get(from.1@, r.1@.0),
        r.0 matches Some(v) ==> v@.len() <= max_blocks + 2,
{
    let mut segments: Vec<Segment> = Vec::new();
    let ghost f = |b: Seq<u8>| block_view(b);
    segments.push(bare(2));
    let first = provider.get_block(&from.1);
    let ghost first_view = mempool::opt_bytes(first);
    let ghost mut blocks: Seq<Seq<u8>> = Seq::empty();
    if let Some(block) = first {
        segments.push(make_block_segment(block.as_slice()));
        proof {
            blocks = seq![block@];
        }
    }
    proof {
        assert(message::segment_views(segments@) =~= seq![bare_view(2)] + blocks.map_values(f));
    }
    let ghost start = blocks;
    let ghost mut nexts: Seq<NextBlock> = Seq::empty();
    if from.0 < to_slot {
        let ghost so_far = message::segment_views(segments@);
        let Ghost(walked) = push_range(&mut segments, provider, from, to_slot, max_blocks);
        proof {
            let more = in_range(walked, from.1@, to_slot);
            assert(so_far + more.map_values(f) =~= seq![bare_view(2)] + (blocks + more).map_values(
                f,
            ));
            blocks = blocks + more;
            nexts = walked;
        }
    }
    proof {
        assert(message::segment_views(segments@).len() == segments@.len());
        assert forall|a: Answers|
            #![trigger range_blocks((from.0, from.1@), to_slot, a)]
            a.first == first_view && a.nexts == nexts implies range_blocks(
            (from.0, from.1@),
            to_slot,
            a,
        ) == blocks && first_blocks(a).len() == start.len() by {
            assert(first_blocks(a) =~= start);
            assert(range_blocks((from.0, from.1@), to_slot, a) =~= blocks);
        }
    }
    if segments.len() as u128 > max_blocks as u128 + 1 {
        return (None, Ghost((first_view, nexts)));
    }
    let ghost so_far = segments@;
    segments.push(bare(5));
    proof {
        assert(message::segment_views(segments@) =~= message::segment_views(so_far).push(
            bare_view(5),
        ));
        assert(message::segment_views(segments@) =~= batch_views(blocks));
    }
    (Some(segments), Ghost((first_view, nexts)))
}

/// Answers a message of BlockFetch.
pub fn handle_n2n_blockfetch<P: BlockProvider>(
    payload: &[u8],
    block_provider: &P,
    max_blockfetch_range: u64,
) -> (r: Result<Vec<Segment>, N2NServerError>)
    ensures
        may_lead(block_provider, payload@, max_blockfetch_range, message::outcomes(r)),
        r matches Ok(v) ==> v@.len() <= max_blockfetch_range + 2,
{
    let mut pos: usize = 0;
    let ghost mut a = Answers {
        has_from: false,
        has_to: false,
        first: None,
        nexts: Seq::empty(),
    };
    let tag: u32 = match read_msg_tag(payload, &mut pos) {
        Ok(tag) => tag,
        Err(e) => {
            let r: Result<Vec<Segment>, N2NServerError> = Err(N2NServerError::Protocol(e));
            assert(message::outcomes(r) == fetch_step(payload@, max_blockfetch_range, a));
            return r;
        },
    };
    let mut segments: Vec<Segment> = Vec::new();
    if tag == 0 {
        let from = parse_point_slot_hash(payload, &mut pos);
        let to = parse_point_slot_hash(payload, &mut pos);
        let has_from: bool = match &from {
            Some(p) => block_provider.has_block(&p.1),
            None => false,
        };
        let has_to: bool = match &to {
            Some(p) => block_provider.has_block(&p.1),
            None => false,
        };
        proof {
            a = Answers { has_from, has_to, ..a };
        }
        let mut served: bool = false;
        if has_from && has_to {
            if let (Some(from), Some(to)) = (from, to) {
                let (batch, Ghost(g)) = serve_range(
                    block_provider,
                    &from,
                    to.0,
                    max_blockfetch_range,
                );
                proof {
                    a = Answers { first: g.0, nexts: g.1, ..a };
                    let blocks = range_blocks((from.0, from.1@), to.0, a);
                    assert(batch is Some <==> blocks.len() <= max_blockfetch_range);
                }
                if let Some(batch) = batch {
                    segments = batch;
                    served = true;
                }
            }
        }
        if !served {
            segments.push(bare(3));
            assert(message::segment_views(segments@) =~= seq![bare_view(3)]);
        }
    } else {
        assert(message::segment_views(segments@) =~= Seq::empty());
    }
    let r: Result<Vec<Segment>, N2NServerError> = Ok(segments);
    assert(message::outcomes(r) == fetch_step(payload@, max_blockfetch_range, a));
    r
}

// ---------------------------------------------------------------------------
// What a peer reads
// ---------------------------------------------------------------------------

/// Whether a peer reads a batch of these blocks: 2, each block as tag 24 on its bytes behind 4,
/// in their order, and 5.
pub open spec fn is_batch(replies: Seq<SegmentView>, blocks: Seq<Seq<u8>>) -> bool {
    &&& replies.len() == blocks.len() + 2
    &&& words::spells(replies[0].payload, words::arr(1) + words::num(2))
    &&& words::spells(replies.last().payload, words::arr(1) + words::num(5))
    &&& forall|i: int|
        0 <= i < blocks.len() && blocks[i].len() <= u64::MAX ==> words::spells(
            (#[trigger] replies[i + 1]).payload,
            words::arr(2) + words::num(4) + words::tag(24) + words::bin(blocks[i]),
        )
    &&& forall|i: int|
        0 <= i < replies.len() ==> (#[trigger] replies[i]).protocol_id == 3
            && replies[i].is_responder
}

/// Whether a peer reads that there are no blocks: 3 alone.
pub open spec fn is_refusal(replies: Seq<SegmentView>) -> bool {
    &&& replies.len() == 1
    &&& replies[0].protocol_id == 3 && replies[0].is_responder
    &&& words::spells(replies[0].payload, words::arr(1) + words::num(3))
}

proof fn lemma_bare_is_read(tag: u32)
    ensures
        words::spells(bare_view(tag).payload, words::arr(1) + words::num(tag as nat)),
{
    broadcast use words::group_words;

}

proof fn lemma_block_is_read(block: Seq<u8>)
    ensures
        block.len() <= u64::MAX ==> words::spells(
            block_view(block).payload,
            words::arr(2) + words::num(4) + words::tag(24) + words::bin(block),
        ),
{
    broadcast use words::group_words;

}

proof fn lemma_batch_is_read(blocks: Seq<Seq<u8>>)
    ensures
        is_batch(batch_views(blocks), blocks),
{
    let r = batch_views(blocks);
    lemma_bare_is_read(2);
    lemma_bare_is_read(5);
    assert(r[0] == bare_view(2));
    assert(r.last() == bare_view(5));
    assert forall|i: int| 0 <= i < blocks.len() implies #[trigger] r[i + 1] == block_view(
        blocks[i],
    ) by {}
    assert forall|i: int| 0 <= i < blocks.len() && blocks[i].len() <= u64::MAX implies words::spells(
        (#[trigger] r[i + 1]).payload,
        words::arr(2) + words::num(4) + words::tag(24) + words::bin(blocks[i]),
    ) by {
        lemma_block_is_read(blocks[i]);
    }
    assert forall|i: int| 0 <= i < r.len() implies (#[trigger] r[i]).protocol_id == 3
        && r[i].is_responder by {
        if 0 < i < r.len() - 1 {
            assert(r[i] == block_view(blocks[i - 1]));
        }
    }
}

/// Whether `blocks` are what the walk `nexts` from the block `from` finds up to the slot
/// `to_slot`, each behind the one before: every block that is found up to that slot is among
/// them, but for the one at which the walk started, and no other.
pub open spec fn are_found(
    blocks: Seq<Seq<u8>>,
    from_hash: Seq<u8>,
    to_slot: u64,
    nexts: Seq<NextBlock>,
) -> bool {
    &&& blocks.len() <= nexts.len()
    &&& forall|i: int|
        0 <= i < nexts.len() && (#[trigger] nexts[i] matches Some(n) && n.0 <= to_slot && n.1@
            != from_hash) ==> blocks.contains((nexts[i]->0).2)
    &&& forall|j: int|
        0 <= j < blocks.len() ==> exists|i: int|
            j <= i < nexts.len() && (#[trigger] nexts[i] matches Some(n) && n.0 <= to_slot && n.1@
                != from_hash && n.2 == #[trigger] blocks[j])
}

proof fn lemma_range_holds_what_is_found(nexts: Seq<NextBlock>, from_hash: Seq<u8>, to_slot: u64)
    ensures
        are_found(in_range(nexts, from_hash, to_slot), from_hash, to_slot, nexts),
    decreases nexts.len(),
{
    if nexts.len() > 0 {
        let init = nexts.drop_last();
        let before = in_range(init, from_hash, to_slot);
        let blocks = in_range(nexts, from_hash, to_slot);
        lemma_range_holds_what_is_found(init, from_hash, to_slot);
        assert(nexts[nexts.len() - 1] == nexts.last());
        assert forall|i: int|
            0 <= i < nexts.len() && (#[trigger] nexts[i] matches Some(n) && n.0 <= to_slot && n.1@
                != from_hash) implies blocks.contains((nexts[i]->0).2) by {
            if i < init.len() {
                assert(init[i] == nexts[i]);
                assert(before.contains((init[i]->0).2));
                let j = choose|j: int| 0 <= j < before.len() && before[j] == (init[i]->0).2;
                assert(blocks[j] == before[j]);
            } else {
                assert(blocks.last() == (nexts[i]->0).2);
            }
        }
        assert forall|j: int| 0 <= j < blocks.len() implies exists|i: int|
            j <= i < nexts.len() && (#[trigger] nexts[i] matches Some(n) && n.0 <= to_slot && n.1@
                != from_hash && n.2 == #[trigger] blocks[j]) by {
            if j < before.len() {
                assert(blocks[j] == before[j]);
                let i = choose|i: int|
                    j <= i < init.len() && (#[trigger] init[i] matches Some(n) && n.0 <= to_slot
                        && n.1@ != from_hash && n.2 == before[j]);
                assert(nexts[i] == init[i]);
            } else {
                assert(nexts[nexts.len() - 1] == nexts.last());
            }
        }
    }
}

/// Whether a peer reads the first block of a range, if the server has it, and then `more`, in
/// one batch, or is refused because there are too many blocks.
pub open spec fn is_answered(
    replies: Seq<SegmentView>,
    from: (u64, Seq<u8>),
    to: (u64, Seq<u8>),
    max_blocks: u64,
    first: Option<Seq<u8>>,
    nexts: Seq<NextBlock>,
    more: Seq<Seq<u8>>,
) -> bool {
    let start: Seq<Seq<u8>> = match first {
        Some(x) => seq![x],
        None => Seq::empty(),
    };
    &&& from.0 >= to.0 ==> more.len() == 0
    &&& from.0 < to.0 ==> are_found(more, from.1, to.0, nexts)
    &&& if start.len() + more.len() <= max_blocks {
        is_batch(replies, start + more)
    } else {
        is_refusal(replies)
    }
}

/// Whether a peer reads what the answers of a provider come to.
pub open spec fn is_served<P: BlockProvider>(
    provider: &P,
    replies: Seq<SegmentView>,
    from: (u64, Seq<u8>),
    to: (u64, Seq<u8>),
    max_blocks: u64,
    a: Answers,
) -> bool {
    &&& may_serve(provider, Some(from), Some(to), max_blocks, a)
    &&& provider.may_have(from.1, a.has_from) && provider.may_have(to.1, a.has_to)
    &&& if a.has_from && a.has_to {
        provider.may_get(from.1, a.first) && exists|more: Seq<Seq<u8>>| #[trigger]
            is_answered(replies, from, to, max_blocks, a.first, a.nexts, more)
    } else {
        is_refusal(replies)
    }
}

proof fn lemma_answers_are_served<P: BlockProvider>(
    provider: &P,
    from: (u64, Seq<u8>),
    to: (u64, Seq<u8>),
    max_blocks: u64,
    a: Answers,
)
    requires
        may_serve(provider, Some(from), Some(to), max_blocks, a),
    ensures
        is_served(
            provider,
            range_step(Some(from), Some(to), max_blocks, a),
            from,
            to,
            max_blocks,
            a,
        ),
{
    let replies = range_step(Some(from), Some(to), max_blocks, a);
    lemma_bare_is_read(3);
    let more = if from.0 < to.0 {
        in_range(a.nexts, from.1, to.0)
    } else {
        Seq::empty()
    };
    lemma_range_holds_what_is_found(a.nexts, from.1, to.0);
    let blocks = range_blocks(from, to.0, a);
    assert(blocks =~= first_blocks(a) + more);
    lemma_batch_is_read(first_blocks(a) + more);
    if a.has_from && a.has_to {
        assert(is_answered(replies, from, to, max_blocks, a.first, a.nexts, more));
    }
}

/// A peer that asks for a range of which the server has both ends gets the first block of the
/// range and those behind it up to its end, each once and in their order, in one batch; it is
/// refused where an end is missing or there are too many blocks.
pub proof fn lemma_range_is_served<P: BlockProvider>(
    provider: &P,
    b: Seq<u8>,
    from: (u64, Seq<u8>),
    to: (u64, Seq<u8>),
    max_blocks: u64,
    o: message::Outcome,
)
    requires
        from.1.len() == 32,
        to.1.len() == 32,
        words::spells(
            b,
            words::arr(3) + words::num(0) + (words::arr(2) + words::num(from.0 as nat) + words::bin(
                from.1,
            )) + (words::arr(2) + words::num(to.0 as nat) + words::bin(to.1)),
        ),
        may_lead(provider, b, max_blocks, o),
    ensures
        o matches message::Outcome::Replies(replies) && exists|a: Answers| #[trigger]
            is_served(provider, replies, from, to, max_blocks, a),
{
    reveal(words::spells);
    let q = b.len() as int;
    let wf = words::arr(2) + words::num(from.0 as nat) + words::bin(from.1);
    let wt = words::arr(2) + words::num(to.0 as nat) + words::bin(to.1);
    let k = words::lemma_reads_split(b, 0, words::arr(3) + words::num(0) + wf, wt, q);
    let m = words::lemma_reads_split(b, 0, words::arr(3) + words::num(0), wf, k);
    message::lemma_tag_is_read(b, 3, 0, m);
    message::lemma_point_is_found(b, m, from.0, from.1, k);
    message::lemma_point_is_found(b, k, to.0, to.1, q);
    let a = choose|a: Answers|
        o == #[trigger] fetch_step(b, max_blocks, a) && may_answer(provider, b, max_blocks, a);
    assert(message::point_at(b, m).value == Some(from));
    assert(message::point_at(b, k).value == Some(to));
    assert(o == message::Outcome::Replies(range_step(Some(from), Some(to), max_blocks, a)));
    lemma_answers_are_served(provider, from, to, max_blocks, a);
    let replies = o->Replies_0;
    assert(is_served(provider, replies, from, to, max_blocks, a));
}

/// A range is walked from its first block on, each time from the block that was found last,
/// until the slot of its end is reached, there is no other block, or more were found than a
/// range may hold.
pub proof fn lemma_range_is_walked_to_its_end<P: BlockProvider>(
    provider: &P,
    from: (u64, Seq<u8>),
    to_slot: u64,
    first: nat,
    max_blocks: u64,
    nexts: Seq<NextBlock>,
    k: int,
)
    requires
        may_walk(provider, from, to_slot, first, max_blocks, nexts),
    ensures
        (nexts.len() > 0 && (nexts.last() matches Some(n) ==> n.0 >= to_slot)) || first + in_range(
            nexts,
            from.1,
            to_slot,
        ).len() > max_blocks,
        0 < k < nexts.len() ==> nexts[k - 1] is Some && provider.may_follow(
            (nexts[k - 1]->0).0,
            nexts[k],
        ),
        nexts.len() > 0 ==> provider.may_follow(from.0, nexts[0]),
        0 <= k < nexts.len() - 1 ==> nexts[k] is Some && (nexts[k]->0).0 < to_slot,
{
    if nexts.len() > 0 {
        assert(slot_before(from.0, nexts, 0) == from.0);
    }
    if 0 < k < nexts.len() {
        lemma_goes_on(provider, from, to_slot, first, max_blocks, nexts, k - 1);
        assert(slot_before(from.0, nexts, k) == (nexts[k - 1]->0).0);
    }
    if 0 <= k < nexts.len() - 1 {
        lemma_goes_on(provider, from, to_slot, first, max_blocks, nexts, k);
    }
}

/// A range whose ends are no points is refused, and messages of other tags are not answered.
pub proof fn lemma_other_messages(
    b: Seq<u8>,
    tag: nat,
    end: int,
    max_blocks: u64,
    a: Answers,
)
    requires
        message::msg_tag(b) == message::MsgTag::Tag(tag, end),
    ensures
        tag != 0 ==> fetch_step(b, max_blocks, a) == message::Outcome::Replies(Seq::empty()),
        tag == 0 && (message::point_at(b, end).value is None || message::point_at(
            b,
            message::point_at(b, end).end,
        ).value is None) ==> (fetch_step(b, max_blocks, a) matches message::Outcome::Replies(r)
            && is_refusal(r)),
{
    lemma_bare_is_read(3);
}

} // verus!
