//! What the handlers of the mini-protocols have in common: the tag of a message,
//! and the reply.
use crate::cbor;
use crate::cbor::{get_array, get_u32};
use crate::multiplexer::{Segment, SegmentView};
use crate::n2c::N2CServerError;
use crate::text::push_text;
use crate::words;
use vstd::prelude::*;
use vstd::string::StringExecFns;

verus! {

/// What becomes of a message.
pub enum Outcome {
    /// It is answered.
    Reply(SegmentView),
    /// It needs no answer.
    Silent,
    /// It breaks the protocol.
    ProtocolError(Seq<char>),
    /// No version could be negotiated.
    HandshakeError(Seq<char>),
    /// Reading or writing failed.
    IoError(Seq<char>),
}

/// What a handler returned.
pub open spec fn outcome(r: Result<Option<Segment>, N2CServerError>) -> Outcome {
    match r {
        Ok(Some(s)) => Outcome::Reply(s@),
        Ok(None) => Outcome::Silent,
        Err(e) => failure(e),
    }
}

/// What an error stands for.
pub open spec fn failure(e: N2CServerError) -> Outcome {
    match e {
        N2CServerError::Io(m) => Outcome::IoError(m@),
        N2CServerError::HandshakeFailed(m) => Outcome::HandshakeError(m@),
        N2CServerError::Protocol(m) => Outcome::ProtocolError(m@),
    }
}

/// A reply of the server in the given mini-protocol.
pub open spec fn reply_view(protocol_id: u16, payload: Seq<u8>) -> SegmentView {
    SegmentView { transmission_time: 0, protocol_id, is_responder: true, payload }
}

/// A reply of the server in the given mini-protocol.
pub(crate) fn reply(protocol_id: u16, payload: Vec<u8>) -> (r: Segment)
    ensures
        r@ == reply_view(protocol_id, payload@),
{
    Segment { transmission_time: 0, protocol_id, is_responder: true, payload }
}

/// The tag of a message, or what is wrong with it.
pub enum MsgTag {
    /// The tag, and where it ends.
    Tag(nat, int),
    /// The message is no array that has a first item.
    Invalid,
    /// The first item is no tag.
    Bad(Seq<char>),
}

/// The tag of the message `b`: the first item of an array.
pub open spec fn msg_tag(b: Seq<u8>) -> MsgTag {
    let a = cbor::len_at(b, 0, 4);
    if a.value is None || a.value == Some(Some(0nat)) {
        MsgTag::Invalid
    } else {
        let u = cbor::uint_at(b, a.end, u32::MAX as nat);
        match u.value {
            Some(n) => MsgTag::Tag(n, u.end),
            None => MsgTag::Bad(cbor::u32_error_text(b, a.end)),
        }
    }
}

/// Reads the tag of a message and moves `pos` past it. `invalid` is the error where
/// the message is no array that has a first item; `bad` goes before what is wrong
/// with the tag.
pub(crate) fn read_msg_tag(b: &[u8], pos: &mut usize, invalid: &str, bad: &str) -> (r: Result<
    u32,
    N2CServerError,
>)
    requires
        *old(pos) == 0,
    ensures
        match msg_tag(b@) {
            MsgTag::Tag(n, end) => r is Ok && r->Ok_0 as nat == n && *final(pos) as int == end,
            MsgTag::Invalid => r is Err && failure(r->Err_0) == Outcome::ProtocolError(invalid@),
            MsgTag::Bad(m) => r is Err && failure(r->Err_0) == Outcome::ProtocolError(bad@ + m),
        },
{
    let a = get_array(b, pos);
    match a {
        Err(_) => {
            return Err(N2CServerError::Protocol(String::from_str(invalid)));
        },
        Ok(Some(0)) => {
            return Err(N2CServerError::Protocol(String::from_str(invalid)));
        },
        _ => {},
    }
    match get_u32(b, pos) {
        Ok(n) => Ok(n),
        Err(e) => {
            let mut m = String::from_str(bad);
            push_text(&mut m, e.as_str());
            Err(N2CServerError::Protocol(m))
        },
    }
}

/// The tag of a message without contents is the number in its array.
pub proof fn lemma_bare_tag_is_read(b: Seq<u8>, tag: nat)
    requires
        words::spells(b, words::arr(1) + words::num(tag)),
        tag <= u32::MAX,
    ensures
        msg_tag(b) == MsgTag::Tag(tag, b.len() as int),
{
    reveal(words::spells);
    lemma_tag_is_read(b, 1, tag, b.len() as int);
}

/// The tag of a message is the number that is read first in its array.
pub proof fn lemma_tag_is_read(b: Seq<u8>, n: nat, tag: nat, q: int)
    requires
        words::reads(b, 0, words::arr(n) + words::num(tag), q),
        n > 0,
        tag <= u32::MAX,
    ensures
        msg_tag(b) == MsgTag::Tag(tag, q),
{
    let m = words::lemma_reads_split(b, 0, words::arr(n), words::num(tag), q);
    words::lemma_array_at(b, 0, n, m);
    words::lemma_number_at(b, m, tag, q);
}

} // verus!
