//! LocalStateQuery: the client acquires a state, asks, and releases it.
use crate::cbor;
use crate::cbor::{put_array, put_u32};
use crate::multiplexer::Segment;
use crate::n2c::message;
use crate::n2c::message::{read_msg_tag, reply};
use crate::n2c::query::encoding;
use crate::n2c::query::encoding::encode_query_result;
use crate::n2c::{N2CServerError, MINI_PROTOCOL_STATE_QUERY};
use crate::query_handler::QueryResult;
use crate::words;
use vstd::prelude::*;

verus! {

/// What a message of the client asks for.
#[derive(Debug)]
pub enum StateQueryStep {
    /// Send this reply.
    Reply(Segment),
    /// Run the query of the message, then reply with its result.
    Query,
    /// Nothing.
    Silent,
}

/// MsgAcquired: `[1]`.
pub open spec fn acquired_bytes() -> Seq<u8> {
    cbor::array_head(1) + cbor::uint(1)
}

/// What the message `b` leads to. Tags 0 and 8 acquire, 5 and 10 acquire again, 3 asks,
/// and any other tag needs no answer.
pub open spec fn state_query_step(b: Seq<u8>, r: Result<StateQueryStep, N2CServerError>) -> bool {
    match message::msg_tag(b) {
        message::MsgTag::Tag(tag, _) => if tag == 0 || tag == 8 || tag == 5 || tag == 10 {
            r matches Ok(StateQueryStep::Reply(s)) && s@ == message::reply_view(
                MINI_PROTOCOL_STATE_QUERY,
                acquired_bytes(),
            )
        } else if tag == 3 {
            r matches Ok(StateQueryStep::Query)
        } else {
            r matches Ok(StateQueryStep::Silent)
        },
        message::MsgTag::Invalid => r matches Err(e) && message::failure(e)
            == message::Outcome::ProtocolError("invalid state query message"@),
        message::MsgTag::Bad(m) => r matches Err(e) && message::failure(e)
            == message::Outcome::ProtocolError("bad msg tag: "@ + m),
    }
}

/// Decides what a message of the client leads to.
pub fn handle_state_query(payload: &[u8]) -> (r: Result<StateQueryStep, N2CServerError>)
    ensures
        state_query_step(payload@, r),
{
    let mut pos: usize = 0;
    let tag: u32 = match read_msg_tag(
        payload,
        &mut pos,
        "invalid state query message",
        "bad msg tag: ",
    ) {
        Ok(tag) => tag,
        Err(e) => {
            return Err(e);
        },
    };
    if tag == 0 || tag == 8 || tag == 5 || tag == 10 {
        let mut buf: Vec<u8> = Vec::new();
        put_array(&mut buf, 1);
        put_u32(&mut buf, 1);
        assert(buf@ =~= acquired_bytes());
        Ok(StateQueryStep::Reply(reply(MINI_PROTOCOL_STATE_QUERY, buf)))
    } else if tag == 3 {
        Ok(StateQueryStep::Query)
    } else {
        Ok(StateQueryStep::Silent)
    }
}

/// The reply that carries the result of a query.
pub fn query_reply(result: &QueryResult) -> (r: Segment)
    requires
        encoding::encodable(*result),
    ensures
        r@ == message::reply_view(MINI_PROTOCOL_STATE_QUERY, encoding::msg_result_bytes(*result)),
{
    reply(MINI_PROTOCOL_STATE_QUERY, encode_query_result(result))
}

/// Acquiring, by any of its four tags, is answered with 1; 3 asks a query; nothing else is
/// answered.
pub proof fn lemma_state_query_tags(
    b: Seq<u8>,
    n: nat,
    tag: nat,
    q: int,
    r: Result<StateQueryStep, N2CServerError>,
)
    requires
        words::reads(b, 0, words::arr(n) + words::num(tag), q),
        n > 0,
        tag <= u32::MAX,
        state_query_step(b, r),
    ensures
        tag == 0 || tag == 5 || tag == 8 || tag == 10 <==> r matches Ok(StateQueryStep::Reply(s)),
        r matches Ok(StateQueryStep::Reply(s)) ==> s@.protocol_id == 7 && s@.is_responder
            && words::spells(s@.payload, words::arr(1) + words::num(1)),
        tag == 3 <==> r matches Ok(StateQueryStep::Query),
        r is Ok,
{
    broadcast use words::group_words;

    message::lemma_tag_is_read(b, n, tag, q);
    assert(words::spells(acquired_bytes(), words::arr(1) + words::num(1)));
}

} // verus!
