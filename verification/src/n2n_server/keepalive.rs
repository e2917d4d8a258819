//! KeepAlive: a peer sends a number, and gets it back.
use crate::cbor;
use crate::cbor::{get_u16, put_array, put_u16, put_u32};
use crate::multiplexer::Segment;
use crate::n2n_server::message;
use crate::n2n_server::message::{read_msg_tag, reply};
use crate::n2n_server::{N2NServerError, MINI_PROTOCOL_KEEPALIVE};
use crate::words;
use vstd::prelude::*;

verus! {

/// MsgKeepAlive: `[0, cookie]`.
pub open spec fn keepalive_bytes(cookie: u16) -> Seq<u8> {
    cbor::array_head(2) + cbor::uint(0) + cbor::uint(cookie as nat)
}

/// MsgKeepAliveResponse: `[1, cookie]`.
pub open spec fn response_bytes(cookie: u16) -> Seq<u8> {
    cbor::array_head(2) + cbor::uint(1) + cbor::uint(cookie as nat)
}

/// The cookie at `p`, 0 where there is none.
pub open spec fn cookie_at(b: Seq<u8>, p: int) -> u16 {
    match cbor::uint_at(b, p, u16::MAX as nat).value {
        Some(n) => n as u16,
        None => 0,
    }
}

/// What the message `b` leads to.
pub open spec fn keepalive_outcome(b: Seq<u8>) -> message::Outcome {
    match message::msg_tag(b) {
        message::MsgTag::Tag(tag, end) => if tag == 0 {
            message::replied(MINI_PROTOCOL_KEEPALIVE, response_bytes(cookie_at(b, end)))
        } else {
            message::silent()
        },
        message::MsgTag::Broken(m) => message::Outcome::Failed(message::ErrorView::Protocol(m)),
    }
}

/// Answers a message of KeepAlive.
pub fn handle_keepalive(payload: &[u8]) -> (r: Result<Option<Segment>, N2NServerError>)
    ensures
        message::outcome(r) == keepalive_outcome(payload@),
{
    let mut pos: usize = 0;
    let tag: u32 = match read_msg_tag(payload, &mut pos) {
        Ok(tag) => tag,
        Err(e) => {
            return Err(N2NServerError::Protocol(e));
        },
    };
    if tag == 0 {
        let cookie: u16 = match get_u16(payload, &mut pos) {
            Some(c) => c,
            None => 0,
        };
        let mut buf: Vec<u8> = Vec::new();
        put_array(&mut buf, 2);
        put_u32(&mut buf, 1);
        put_u16(&mut buf, cookie);
        assert(buf@ =~= response_bytes(cookie));
        Ok(Some(reply(MINI_PROTOCOL_KEEPALIVE, buf)))
    } else {
        Ok(None)
    }
}

/// A peer gets back the cookie that it sent.
pub proof fn lemma_cookie_comes_back(cookie: u16)
    ensures
        keepalive_outcome(keepalive_bytes(cookie)) == message::replied(
            MINI_PROTOCOL_KEEPALIVE,
            response_bytes(cookie),
        ),
{
    let b = keepalive_bytes(cookie);
    let a = cbor::array_head(2);
    let t = cbor::uint(0);
    let c = cbor::uint(cookie as nat);
    let none = Seq::<u8>::empty();
    cbor::lemma_len_reads_back(none, 4, 2, t + c);
    assert(b =~= none + a + (t + c));
    cbor::lemma_uint_reads_back(none + a, 0, u32::MAX as nat, c);
    assert(b =~= (none + a) + t + c);
    cbor::lemma_uint_reads_back(none + a + t, cookie as nat, u16::MAX as nat, none);
    assert(b =~= (none + a + t) + c + none);
}

/// Whoever sends 0 and a cookie reads 1 and that cookie; nothing else is answered.
pub proof fn lemma_keepalive_is_read(b: Seq<u8>, cookie: u16, n: nat, tag: nat, q: int)
    requires
        tag == 0 ==> words::reads(
            b,
            0,
            words::arr(n) + words::num(0) + words::num(cookie as nat),
            q,
        ),
        tag != 0 ==> words::reads(b, 0, words::arr(n) + words::num(tag), q),
        tag <= u32::MAX,
    ensures
        tag == 0 ==> (keepalive_outcome(b) matches message::Outcome::Replies(r) && r.len() == 1
            && r[0].protocol_id == 8 && r[0].is_responder && words::spells(
            r[0].payload,
            words::arr(2) + words::num(1) + words::num(cookie as nat),
        )),
        tag != 0 ==> keepalive_outcome(b) == message::Outcome::Replies(Seq::empty()),
{
    broadcast use words::group_words;

    if tag == 0 {
        let m = words::lemma_reads_split(
            b,
            0,
            words::arr(n) + words::num(0),
            words::num(cookie as nat),
            q,
        );
        message::lemma_tag_is_read(b, n, 0, m);
        words::lemma_number_at(b, m, cookie as nat, q);
        assert(words::spells(
            response_bytes(cookie),
            words::arr(2) + words::num(1) + words::num(cookie as nat),
        ));
    } else {
        message::lemma_tag_is_read(b, n, tag, q);
    }
}

} // verus!
