//! Version negotiation with a local client.
use crate::cbor;
use crate::cbor::{get_array, get_map, get_u32, get_u64, put_array, put_bool, put_u32, put_u64, skip_item};
use crate::multiplexer::Segment;
use crate::n2c::message;
use crate::n2c::message::reply;
use crate::n2c::{N2CServerError, MINI_PROTOCOL_HANDSHAKE};
use crate::words;
use vstd::prelude::*;
use vstd::string::StringExecFns;

verus! {

/// Bit 15, which some clients set on the wire in every version number.
pub const N2C_VERSION_BIT: u32 = 0x8000;

/// The highest version that the server speaks.
pub const N2C_MAX_VERSION: u32 = 17;

/// The lowest version that the server speaks.
pub const N2C_MIN_VERSION: u32 = 16;

/// Whether bit 15 is set.
pub open spec fn has_version_bit(wire: u32) -> bool {
    wire / 0x8000 % 2 == 1
}

/// The version that a number on the wire stands for.
pub open spec fn logical_version(wire: u32) -> int {
    if has_version_bit(wire) {
        wire - 0x8000
    } else {
        wire as int
    }
}

/// Whether the server speaks the version.
pub open spec fn supported(wire: u32) -> bool {
    16 <= logical_version(wire) <= 17
}

/// The better of the best version so far and another one, as (version, number on the
/// wire): only a supported version that is higher takes the place.
pub open spec fn better(best: Option<(u16, u32)>, wire: u32) -> Option<(u16, u32)> {
    if supported(wire) && (best matches Some(b) ==> logical_version(wire) > b.0) {
        Some((logical_version(wire) as u16, wire))
    } else {
        best
    }
}

/// The best of several versions.
pub open spec fn best_of(wires: Seq<u32>) -> Option<(u16, u32)>
    decreases wires.len(),
{
    if wires.len() == 0 {
        None
    } else {
        better(best_of(wires.drop_last()), wires.last())
    }
}

/// A version is chosen exactly where one is supported; it is supported, proposed, and
/// none that is supported is higher.
pub proof fn lemma_best_is_highest(wires: Seq<u32>)
    ensures
        best_of(wires) is Some <==> exists|i: int|
            0 <= i < wires.len() && supported(#[trigger] wires[i]),
        best_of(wires) matches Some(b) ==> {
            &&& supported(b.1)
            &&& b.0 == logical_version(b.1)
            &&& wires.contains(b.1)
            &&& forall|i: int|
                0 <= i < wires.len() && supported(#[trigger] wires[i]) ==> logical_version(wires[i])
                    <= b.0
        },
    decreases wires.len(),
{
    if wires.len() > 0 {
        let init = wires.drop_last();
        lemma_best_is_highest(init);
        assert(wires[wires.len() - 1] == wires.last());
        assert forall|i: int| 0 <= i < init.len() implies #[trigger] wires[i] == init[i] by {}
        if best_of(init) is Some {
            let i = choose|i: int| 0 <= i < init.len() && supported(#[trigger] init[i]);
            assert(supported(wires[i]));
            let j = choose|j: int| 0 <= j < init.len() && init[j] == (best_of(init)->0).1;
            assert(wires[j] == (best_of(init)->0).1);
        }
        assert forall|i: int| 0 <= i < wires.len() && supported(#[trigger] wires[i]) implies {
            &&& best_of(wires) is Some
            &&& logical_version(wires[i]) <= (best_of(wires)->0).0
        } by {
            if i < init.len() {
                assert(supported(init[i]));
            }
        }
    }
}

/// The version numbers of a proposal whose `n` entries start at `p`, or `None` where
/// an entry has no value.
pub open spec fn proposed(b: Seq<u8>, p: int, n: nat) -> Option<Seq<u32>>
    decreases n,
{
    if n == 0 {
        Some(Seq::empty())
    } else {
        let v = cbor::uint_at(b, p, u32::MAX as nat);
        let (error, end) = cbor::skip_at(b, v.end);
        if error is Some {
            None
        } else {
            match proposed(b, end, (n - 1) as nat) {
                Some(rest) => match v.value {
                    Some(w) => Some(seq![w as u32] + rest),
                    None => Some(rest),
                },
                None => None,
            }
        }
    }
}

/// Number of entries of the proposal `b`, and where they start; `None` where `b` is no
/// proposal of definite length.
pub open spec fn proposal_entries(b: Seq<u8>) -> Option<(nat, int)> {
    let a = cbor::len_at(b, 0, 4);
    let t = cbor::uint_at(b, a.end, u32::MAX as nat);
    let m = cbor::len_at(b, t.end, 5);
    if a.value is Some && t.value is Some && m.value is Some && m.value->0 is Some {
        Some((m.value->0->0, m.end))
    } else {
        None
    }
}

/// The version that the server chooses from the proposal `b`.
pub open spec fn highest_version(b: Seq<u8>) -> Option<(u16, u32)> {
    match proposal_entries(b) {
        Some((n, p)) => match proposed(b, p, n) {
            Some(wires) => best_of(wires),
            None => None,
        },
        None => None,
    }
}

/// The network magic of the first entry of the proposal `b`, where its value is an
/// array of definite length that starts with a number.
pub open spec fn magic(b: Seq<u8>) -> Option<u64> {
    let a = cbor::len_at(b, 0, 4);
    let t = cbor::uint_at(b, a.end, u32::MAX as nat);
    let m = cbor::len_at(b, t.end, 5);
    let v = cbor::uint_at(b, m.end, u32::MAX as nat);
    let d = cbor::len_at(b, v.end, 4);
    let n = cbor::uint_at(b, d.end, u64::MAX as nat);
    if a.value is Some && t.value is Some && m.value is Some && m.value != Some(Some(0nat))
        && v.value is Some && d.value is Some && d.value->0 is Some && n.value is Some {
        Some(n.value->0 as u64)
    } else {
        None
    }
}

/// MsgAcceptVersion: `[1, version, [magic, false]]`.
pub open spec fn accept_bytes(wire: u32, magic: u64) -> Seq<u8> {
    cbor::array_head(3)
        + cbor::uint(1)
        + cbor::uint(wire as nat)
        + (cbor::array_head(2) + cbor::uint(magic as nat) + cbor::bool_item(false))
}

/// The number on the wire of the version that is accepted: 16 where none was chosen.
pub open spec fn accepted_wire(b: Seq<u8>) -> u32 {
    match highest_version(b) {
        Some(v) => v.1,
        None => 16,
    }
}

/// The better of the best version so far and another one.
pub fn better_version(best: Option<(u16, u32)>, wire: u32) -> (r: Option<(u16, u32)>)
    ensures
        r == better(best, wire),
{
    let logical: u32 = if wire / N2C_VERSION_BIT % 2 == 1 {
        wire - N2C_VERSION_BIT
    } else {
        wire
    };
    if logical < N2C_MIN_VERSION || logical > N2C_MAX_VERSION {
        return best;
    }
    match best {
        Some(b) => if logical as u16 > b.0 {
            Some((logical as u16, wire))
        } else {
            best
        },
        None => Some((logical as u16, wire)),
    }
}

/// The highest proposed version that the server speaks, as (version, number on the
/// wire). The number on the wire keeps bit 15 if the client sent it.
pub fn parse_highest_version(payload: &[u8]) -> (r: Option<(u16, u32)>)
    ensures
        r == highest_version(payload@),
{
    let mut pos: usize = 0;
    if get_array(payload, &mut pos).is_err() {
        return None;
    }
    if get_u32(payload, &mut pos).is_err() {
        return None;
    }
    let n: u64 = match get_map(payload, &mut pos) {
        Ok(Some(n)) => n,
        _ => {
            return None;
        },
    };
    let ghost start = pos as int;
    let mut best: Option<(u16, u32)> = None;
    let mut i: u64 = 0;
    let ghost mut seen: Seq<u32> = Seq::empty();
    proof {
        if let Some(wires) = proposed(payload@, start, n as nat) {
            assert(seen + wires =~= wires);
        }
    }
    while i < n
        invariant
            i <= n,
            best == best_of(seen),
            highest_version(payload@) == (match proposed(payload@, pos as int, (n - i) as nat) {
                Some(rest) => best_of(seen + rest),
                None => None,
            }),
        decreases n - i,
    {
        let ghost before = seen;
        let v = get_u32(payload, &mut pos);
        if let Ok(w) = v {
            best = better_version(best, w);
            proof {
                seen = seen.push(w);
                assert(seen.drop_last() =~= before);
            }
        }
        if skip_item(payload, &mut pos).is_err() {
            return None;
        }
        proof {
            if let Some(rest) = proposed(payload@, pos as int, (n - i - 1) as nat) {
                if seen.len() > before.len() {
                    assert(before + (seq![seen.last()] + rest) =~= seen + rest);
                }
            }
        }
        i += 1;
    }
    assert(seen + Seq::<u32>::empty() =~= seen);
    best
}

/// The network magic of a proposal.
pub fn parse_handshake_magic(payload: &[u8]) -> (r: Option<u64>)
    ensures
        r == magic(payload@),
{
    let mut pos: usize = 0;
    if get_array(payload, &mut pos).is_err() {
        return None;
    }
    if get_u32(payload, &mut pos).is_err() {
        return None;
    }
    match get_map(payload, &mut pos) {
        Err(_) => {
            return None;
        },
        Ok(Some(0)) => {
            return None;
        },
        _ => {},
    }
    if get_u32(payload, &mut pos).is_err() {
        return None;
    }
    match get_array(payload, &mut pos) {
        Ok(Some(_)) => get_u64(payload, &mut pos),
        _ => None,
    }
}

/// What becomes of the proposal `b`.
pub open spec fn handshake_outcome(b: Seq<u8>) -> message::Outcome {
    match magic(b) {
        Some(m) => message::Outcome::Reply(
            message::reply_view(MINI_PROTOCOL_HANDSHAKE, accept_bytes(accepted_wire(b), m)),
        ),
        None => message::Outcome::HandshakeError(
            "could not parse network magic from handshake proposal"@,
        ),
    }
}

/// Answers a proposal of versions: the highest one that both sides speak is accepted,
/// with the network magic that the client sent. Version 16 is accepted where there is
/// none, and where the versions cannot be read: their map is of indefinite length, or an
/// entry of it has no value.
pub fn handle_handshake(payload: &[u8]) -> (r: Result<Option<Segment>, N2CServerError>)
    ensures
        message::outcome(r) == handshake_outcome(payload@),
{
    let network_magic: u64 = match parse_handshake_magic(payload) {
        Some(m) => m,
        None => {
            return Err(
                N2CServerError::HandshakeFailed(
                    String::from_str("could not parse network magic from handshake proposal"),
                ),
            );
        },
    };
    let wire_version: u32 = match parse_highest_version(payload) {
        Some(v) => v.1,
        None => 16,
    };
    let mut buf: Vec<u8> = Vec::new();
    put_array(&mut buf, 3);
    put_u32(&mut buf, 1);
    put_u32(&mut buf, wire_version);
    put_array(&mut buf, 2);
    put_u64(&mut buf, network_magic);
    put_bool(&mut buf, false);
    assert(buf@ =~= accept_bytes(wire_version, network_magic));
    Ok(Some(reply(MINI_PROTOCOL_HANDSHAKE, buf)))
}

/// Whether the numbers of the proposed versions stand in `b` from `p` on, each before an item.
pub open spec fn are_proposed(b: Seq<u8>, p: int, wires: Seq<u32>) -> bool
    decreases wires.len(),
{
    wires.len() > 0 ==> exists|q: int|
        {
            &&& #[trigger] words::reads(b, p, words::num(wires[0] as nat), q)
            &&& cbor::skip_at(b, q).0 is None
            &&& are_proposed(b, cbor::skip_at(b, q).1, wires.skip(1))
        }
}

proof fn lemma_versions_are_read(b: Seq<u8>, p: int, wires: Seq<u32>)
    requires
        are_proposed(b, p, wires),
    ensures
        proposed(b, p, wires.len()) == Some(wires),
    decreases wires.len(),
{
    if wires.len() == 0 {
        assert(wires =~= Seq::empty());
    } else {
        let q = choose|q: int|
            {
                &&& #[trigger] words::reads(b, p, words::num(wires[0] as nat), q)
                &&& cbor::skip_at(b, q).0 is None
                &&& are_proposed(b, cbor::skip_at(b, q).1, wires.skip(1))
            };
        words::lemma_number_at(b, p, wires[0] as nat, q);
        lemma_versions_are_read(b, cbor::skip_at(b, q).1, wires.skip(1));
        assert(seq![wires[0]] + wires.skip(1) =~= wires);
    }
}

/// A proposal `[0, {version: params, ..}]` is read as its versions.
pub proof fn lemma_proposal_is_read(b: Seq<u8>, p: int, wires: Seq<u32>)
    requires
        words::reads(b, 0, words::arr(2) + words::num(0) + words::dict(wires.len()), p),
        are_proposed(b, p, wires),
    ensures
        proposal_entries(b) == Some((wires.len(), p)),
        proposed(b, p, wires.len()) == Some(wires),
{
    let k = words::lemma_reads_split(
        b,
        0,
        words::arr(2) + words::num(0),
        words::dict(wires.len()),
        p,
    );
    let j = words::lemma_reads_split(b, 0, words::arr(2), words::num(0), k);
    words::lemma_array_at(b, 0, 2, j);
    words::lemma_number_at(b, j, 0, k);
    words::lemma_entries_at(b, k, wires.len(), p);
    lemma_versions_are_read(b, p, wires);
}

/// Whether the server speaks the version that is proposed by a number: 16 or 17, with or
/// without bit 15.
pub open spec fn is_spoken(wire: u32) -> bool {
    wire == 16 || wire == 17 || wire == 0x8000 + 16 || wire == 0x8000 + 17
}

/// A proposal `[0, {version: params, ..}]` whose first parameters start with a network magic is
/// accepted with the highest proposed version that the server speaks, by the number that the
/// client uses for it, and with that magic. Where none is spoken, 16 is accepted.
pub proof fn lemma_highest_version_is_accepted(b: Seq<u8>, p: int, wires: Seq<u32>, m: u64)
    requires
        words::reads(b, 0, words::arr(2) + words::num(0) + words::dict(wires.len()), p),
        are_proposed(b, p, wires),
        wires.len() > 0,
        magic(b) == Some(m),
    ensures
        exists|wire: u32|
            {
                &&& handshake_outcome(b) == message::Outcome::Reply(
                    message::reply_view(0, #[trigger] accept_bytes(wire, m)),
                )
                &&& if exists|i: int| 0 <= i < wires.len() && is_spoken(#[trigger] wires[i]) {
                    &&& wires.contains(wire)
                    &&& is_spoken(wire)
                    &&& forall|i: int|
                        0 <= i < wires.len() && is_spoken(#[trigger] wires[i]) ==> wires[i] % 0x8000
                            <= wire % 0x8000
                } else {
                    wire == 16
                }
            },
{
    lemma_proposal_is_read(b, p, wires);
    lemma_best_is_highest(wires);
    assert forall|w: u32| #[trigger] supported(w) <==> is_spoken(w) by {}
    assert forall|w: u32| #[trigger] is_spoken(w) implies logical_version(w) == w % 0x8000 by {}
    let wire = accepted_wire(b);
    assert(highest_version(b) == best_of(wires));
    assert(handshake_outcome(b) == message::Outcome::Reply(
        message::reply_view(0, accept_bytes(wire, m)),
    ));
    if best_of(wires) is Some {
        let i = choose|i: int| 0 <= i < wires.len() && supported(#[trigger] wires[i]);
        assert(is_spoken(wires[i]));
        assert(is_spoken(wire) <==> supported(wire));
        assert forall|i: int| 0 <= i < wires.len() && is_spoken(#[trigger] wires[i]) implies
            wires[i] % 0x8000 <= wire % 0x8000 by {
            assert(supported(wires[i]));
        }
    } else {
        assert forall|i: int| 0 <= i < wires.len() implies !is_spoken(#[trigger] wires[i]) by {
            assert(!supported(wires[i]));
        }
    }
}

/// The network magic is the first number of the parameters of the first version.
pub proof fn lemma_magic_is_read(b: Seq<u8>, n: nat, wire: u32, k: nat, m: u64, q: int)
    requires
        n > 0,
        words::reads(
            b,
            0,
            words::arr(2) + words::num(0) + words::dict(n) + words::num(wire as nat) + words::arr(k)
                + words::num(m as nat),
            q,
        ),
    ensures
        magic(b) == Some(m),
{
    let w1 = words::arr(2) + words::num(0);
    let w2 = w1 + words::dict(n);
    let w3 = w2 + words::num(wire as nat);
    let w4 = w3 + words::arr(k);
    let e = words::lemma_reads_split(b, 0, w4, words::num(m as nat), q);
    let d = words::lemma_reads_split(b, 0, w3, words::arr(k), e);
    let c = words::lemma_reads_split(b, 0, w2, words::num(wire as nat), d);
    let a = words::lemma_reads_split(b, 0, w1, words::dict(n), c);
    let t = words::lemma_reads_split(b, 0, words::arr(2), words::num(0), a);
    words::lemma_array_at(b, 0, 2, t);
    words::lemma_number_at(b, t, 0, a);
    words::lemma_entries_at(b, a, n, c);
    words::lemma_number_at(b, c, wire as nat, d);
    words::lemma_array_at(b, d, k, e);
    words::lemma_number_at(b, e, m as nat, q);
}

/// An acceptance is read as 1, the number of the version, and its parameters: the magic, and
/// that this is no query.
pub proof fn lemma_acceptance_is_read(wire: u32, m: u64)
    ensures
        words::spells(
            accept_bytes(wire, m),
            words::arr(3) + words::num(1) + words::num(wire as nat) + (words::arr(2) + words::num(
                m as nat,
            ) + words::truth(false)),
        ),
{
    broadcast use words::group_words;

}

/// A proposal without a network magic ends the negotiation.
pub proof fn lemma_no_magic(b: Seq<u8>)
    requires
        magic(b) is None,
    ensures
        handshake_outcome(b) == message::Outcome::HandshakeError(
            "could not parse network magic from handshake proposal"@,
        ),
{
}

} // verus!
