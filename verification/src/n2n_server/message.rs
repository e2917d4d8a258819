//! What the handlers of the mini-protocols have in common: the tag of a message, the
//! points in it, and the replies.
use crate::cbor;
use crate::cbor::{get_array, get_bytes, get_u32, get_u64, put_array, put_bool, put_u16, put_u32};
use crate::hash::to_hash;
use crate::multiplexer::{Segment, SegmentView};
use crate::n2n_server::{N2NServerError, MINI_PROTOCOL_TXSUBMISSION};
use crate::point;
use crate::words;
use vstd::prelude::*;

verus! {

/// A server error by its contents.
pub enum ErrorView {
    Io(Seq<char>),
    HandshakeFailed(Seq<char>),
    Protocol(Seq<char>),
}

impl View for N2NServerError {
    type V = ErrorView;

    open spec fn view(&self) -> ErrorView {
        match *self {
            N2NServerError::Io(m) => ErrorView::Io(m@),
            N2NServerError::HandshakeFailed(m) => ErrorView::HandshakeFailed(m@),
            N2NServerError::Protocol(m) => ErrorView::Protocol(m@),
        }
    }
}

/// What becomes of a message: the replies to it, in order, or the end of the connection.
pub enum Outcome {
    Replies(Seq<SegmentView>),
    Failed(ErrorView),
}

/// What a handler returned that replies at most once.
pub open spec fn outcome(r: Result<Option<Segment>, N2NServerError>) -> Outcome {
    match r {
        Ok(Some(s)) => Outcome::Replies(seq![s@]),
        Ok(None) => Outcome::Replies(Seq::empty()),
        Err(e) => Outcome::Failed(e@),
    }
}

/// Segments by their contents.
pub open spec fn segment_views(s: Seq<Segment>) -> Seq<SegmentView> {
    s.map_values(|x: Segment| x@)
}

/// What a handler returned that replies any number of times.
pub open spec fn outcomes(r: Result<Vec<Segment>, N2NServerError>) -> Outcome {
    match r {
        Ok(v) => Outcome::Replies(segment_views(v@)),
        Err(e) => Outcome::Failed(e@),
    }
}

/// A segment that the server sends in the given mini-protocol.
pub open spec fn reply_view(protocol_id: u16, payload: Seq<u8>) -> SegmentView {
    SegmentView { transmission_time: 0, protocol_id, is_responder: true, payload }
}

/// A single reply in the given mini-protocol.
pub open spec fn replied(protocol_id: u16, payload: Seq<u8>) -> Outcome {
    Outcome::Replies(seq![reply_view(protocol_id, payload)])
}

/// No reply.
pub open spec fn silent() -> Outcome {
    Outcome::Replies(Seq::empty())
}

/// A segment that the server sends in the given mini-protocol.
pub(crate) fn reply(protocol_id: u16, payload: Vec<u8>) -> (r: Segment)
    ensures
        r@ == reply_view(protocol_id, payload@),
{
    Segment { transmission_time: 0, protocol_id, is_responder: true, payload }
}

/// The tag of a message, and where it ends, or what is wrong with it.
pub enum MsgTag {
    Tag(nat, int),
    Broken(Seq<char>),
}

/// The tag of the message `b`: the first item of an array.
pub open spec fn msg_tag(b: Seq<u8>) -> MsgTag {
    let a = cbor::len_at(b, 0, 4);
    let u = cbor::uint_at(b, a.end, u32::MAX as nat);
    if a.value is None {
        MsgTag::Broken(cbor::array_error_text(b, 0))
    } else {
        match u.value {
            Some(n) => MsgTag::Tag(n, u.end),
            None => MsgTag::Broken(cbor::u32_error_text(b, a.end)),
        }
    }
}

/// Reads the tag of a message and moves `pos` past it.
pub(crate) fn read_msg_tag(b: &[u8], pos: &mut usize) -> (r: Result<u32, String>)
    requires
        *old(pos) == 0,
    ensures
        match msg_tag(b@) {
            MsgTag::Tag(n, end) => r is Ok && r->Ok_0 as nat == n && *final(pos) as int == end,
            MsgTag::Broken(m) => r is Err && r->Err_0@ == m,
        },
{
    match get_array(b, pos) {
        Ok(_) => get_u32(b, pos),
        Err(e) => Err(e),
    }
}

/// The point `[slot, hash]` at `p`, where there is one, and the position after the
/// attempt to read it.
pub open spec fn point_at(b: Seq<u8>, p: int) -> cbor::Read<(u64, Seq<u8>)> {
    let a = cbor::len_at(b, p, 4);
    if a.value != Some(Some(2nat)) {
        cbor::Read { value: None, end: a.end }
    } else {
        let s = cbor::uint_at(b, a.end, u64::MAX as nat);
        let h = cbor::bytes_at(b, s.end);
        match (s.value, h.value) {
            (Some(slot), Some(hash)) => cbor::Read {
                value: if hash.len() == 32 {
                    Some((slot as u64, hash))
                } else {
                    None
                },
                end: h.end,
            },
            (Some(_), None) => cbor::Read { value: None, end: h.end },
            (None, _) => cbor::Read { value: None, end: s.end },
        }
    }
}

/// A point by its contents.
pub open spec fn point_view(p: Option<(u64, [u8; 32])>) -> Option<(u64, Seq<u8>)> {
    match p {
        Some(p) => Some((p.0, p.1@)),
        None => None,
    }
}

/// Reads a point `[slot, hash]`.
pub fn parse_point_slot_hash(b: &[u8], pos: &mut usize) -> (r: Option<(u64, [u8; 32])>)
    ensures
        point_view(r) == point_at(b@, *old(pos) as int).value,
        *final(pos) as int == point_at(b@, *old(pos) as int).end,
{
    match get_array(b, pos) {
        Ok(Some(2)) => {},
        _ => {
            return None;
        },
    }
    let slot: u64 = match get_u64(b, pos) {
        Some(s) => s,
        None => {
            return None;
        },
    };
    match get_bytes(b, pos) {
        Ok(h) => if h.len() == 32 {
            Some((slot, to_hash(h)))
        } else {
            None
        },
        Err(_) => None,
    }
}

/// A point reads back as the server writes it.
pub proof fn lemma_point_reads_back(pre: Seq<u8>, slot: u64, hash: Seq<u8>, rest: Seq<u8>)
    requires
        hash.len() == 32,
    ensures
        point_at(pre + point::point_bytes(slot, hash) + rest, pre.len() as int) == (cbor::Read {
            value: Some((slot, hash)),
            end: (pre + point::point_bytes(slot, hash)).len() as int,
        }),
{
    let n = slot as nat;
    let a = cbor::array_head(2);
    let u = cbor::uint(n);
    let h = cbor::bytes_item(hash);
    let b = pre + point::point_bytes(slot, hash) + rest;
    cbor::lemma_len_reads_back(pre, 4, 2, u + h + rest);
    assert(b =~= pre + a + (u + h + rest));
    cbor::lemma_uint_reads_back(pre + a, n, u64::MAX as nat, h + rest);
    assert(b =~= (pre + a) + u + (h + rest));
    cbor::lemma_bytes_read_back(pre + a + u, hash, rest);
    assert(b =~= (pre + a + u) + h + rest);
}

/// Whether the point where the chain starts, `[]`, is at `p`.
pub open spec fn origin_at(b: Seq<u8>, p: int) -> bool {
    cbor::len_at(b, p, 4).value == Some(Some(0nat))
}

/// Whether the point where the chain starts is here.
pub fn is_origin_point(b: &[u8], pos: usize) -> (r: bool)
    ensures
        r == origin_at(b@, pos as int),
{
    let mut p: usize = pos;
    match get_array(b, &mut p) {
        Ok(Some(0)) => true,
        _ => false,
    }
}

/// MsgRequestTxIds of TxSubmission2: `[0, true, ack, 3]`. It acknowledges `ack`
/// transactions and asks for three more, however long that takes.
pub open spec fn request_tx_ids_bytes(ack: u16) -> Seq<u8> {
    cbor::array_head(4)
        + cbor::uint(0)
        + cbor::bool_item(true)
        + cbor::uint(ack as nat)
        + cbor::uint(3)
}

/// MsgRequestTxIds of TxSubmission2.
pub fn request_tx_ids(ack: u16) -> (r: Segment)
    ensures
        r@ == reply_view(MINI_PROTOCOL_TXSUBMISSION, request_tx_ids_bytes(ack)),
{
    let mut buf: Vec<u8> = Vec::new();
    put_array(&mut buf, 4);
    put_u32(&mut buf, 0);
    put_bool(&mut buf, true);
    put_u16(&mut buf, ack);
    put_u16(&mut buf, 3);
    assert(buf@ =~= request_tx_ids_bytes(ack));
    reply(MINI_PROTOCOL_TXSUBMISSION, buf)
}

/// The tag of a message without contents is the number in its array.
pub proof fn lemma_bare_tag_is_read(b: Seq<u8>, tag: nat)
    requires
        words::spells(b, words::arr(1) + words::num(tag)),
        tag <= u32::MAX,
    ensures
        msg_tag(b) == MsgTag::Tag(tag, b.len() as int),
{
    reveal(words::spells);
    lemma_tag_is_read(b, 1, tag, b.len() as int);
}

/// The tag of a message is the number that is read first in its array.
pub proof fn lemma_tag_is_read(b: Seq<u8>, n: nat, tag: nat, q: int)
    requires
        words::reads(b, 0, words::arr(n) + words::num(tag), q),
        tag <= u32::MAX,
    ensures
        msg_tag(b) == MsgTag::Tag(tag, q),
{
    let m = words::lemma_reads_split(b, 0, words::arr(n), words::num(tag), q);
    words::lemma_array_at(b, 0, n, m);
    words::lemma_number_at(b, m, tag, q);
}

/// A point is found where its slot and its hash of 32 bytes are read.
pub proof fn lemma_point_is_found(b: Seq<u8>, p: int, slot: u64, hash: Seq<u8>, q: int)
    requires
        hash.len() == 32,
        words::reads(b, p, words::arr(2) + words::num(slot as nat) + words::bin(hash), q),
    ensures
        point_at(b, p) == (cbor::Read { value: Some((slot, hash)), end: q }),
        !origin_at(b, p),
        p < q <= b.len(),
{
    let k = words::lemma_reads_split(
        b,
        p,
        words::arr(2) + words::num(slot as nat),
        words::bin(hash),
        q,
    );
    let j = words::lemma_reads_split(b, p, words::arr(2), words::num(slot as nat), k);
    words::lemma_array_at(b, p, 2, j);
    words::lemma_number_at(b, j, slot as nat, k);
    words::lemma_bytes_at(b, k, hash, q);
}

/// MsgRequestTxIds is read as a blocking request that acknowledges `ack` transactions and
/// asks for three.
pub proof fn lemma_request_tx_ids_is_read(ack: u16)
    ensures
        words::spells(
            request_tx_ids_bytes(ack),
            words::arr(4) + words::num(0) + words::truth(true) + words::num(ack as nat)
                + words::num(3),
        ),
{
    broadcast use words::group_words;

}

} // verus!
