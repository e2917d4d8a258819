//! Version negotiation with a peer.
//!
//! The peer sends `[0, {version: params, ..}]`. The answer is `[1, version, params]`, or
//! a refusal `[2, reason]`.
use crate::cbor;
use crate::cbor::{
    at_break, get_array, get_map, get_u32, get_u64, put_array, put_bool, put_str, put_u32, put_u64,
    skip_item,
};
use crate::multiplexer::Segment;
use crate::n2n_server::message;
use crate::n2n_server::message::{read_msg_tag, reply};
use crate::n2n_server::{N2NServerError, PeerSharingMode, MINI_PROTOCOL_HANDSHAKE};
use crate::text;
use crate::text::{push_decimal, push_text};
use crate::words;
use vstd::prelude::*;

verus! {

/// The lowest version that the server speaks.
pub const N2N_MIN_VERSION: u32 = 14;

/// The highest version that the server speaks.
pub const N2N_MAX_VERSION: u32 = 16;

/// A proposed version, with the network magic of its parameters where they start with
/// one.
pub struct Proposal {
    pub version: u32,
    pub magic: Option<u64>,
}

/// The proposals of a peer, or what is wrong with them.
pub enum Proposals {
    Entries(Seq<Proposal>),
    Broken(Seq<char>),
}

/// The network magic that the parameters at `p` start with, where they are an array of
/// definite length that starts with a number.
pub open spec fn magic_at(b: Seq<u8>, p: int) -> Option<u64> {
    let a = cbor::len_at(b, p, 4);
    match a.value {
        Some(Some(_)) => match cbor::uint_at(b, a.end, u64::MAX as nat).value {
            Some(m) => Some(m as u64),
            None => None,
        },
        _ => None,
    }
}

/// At most `n` entries of a map, from `p` on. A map of indefinite length ends earlier if
/// there is a break.
pub open spec fn entries_from(b: Seq<u8>, p: int, n: nat, indefinite: bool) -> Proposals
    decreases n,
{
    let v = cbor::uint_at(b, p, u32::MAX as nat);
    let (error, end) = cbor::skip_at(b, v.end);
    if n == 0 || (indefinite && cbor::break_at(b, p)) {
        Proposals::Entries(Seq::empty())
    } else if v.value is None {
        Proposals::Broken(cbor::u32_error_text(b, p))
    } else if error is Some {
        Proposals::Broken(error->0)
    } else {
        match entries_from(b, end, (n - 1) as nat, indefinite) {
            Proposals::Entries(rest) => Proposals::Entries(
                seq![Proposal { version: v.value->0 as u32, magic: magic_at(b, v.end) }] + rest,
            ),
            broken => broken,
        }
    }
}

/// The proposals in the map at `p`. In a map of indefinite length there are fewer
/// entries than bytes in the message.
pub open spec fn proposals_at(b: Seq<u8>, p: int) -> Proposals {
    let m = cbor::len_at(b, p, 5);
    match m.value {
        Some(Some(n)) => entries_from(b, m.end, n, false),
        Some(None) => entries_from(b, m.end, b.len() + 1, true),
        None => Proposals::Broken(cbor::map_error_text(b, p)),
    }
}

/// Whether the server speaks the proposed version.
pub open spec fn spoken(p: Proposal) -> bool {
    N2N_MIN_VERSION <= p.version <= N2N_MAX_VERSION
}

/// Whether the proposal is for another network.
pub open spec fn elsewhere(p: Proposal, magic: u64) -> bool {
    p.magic is Some && p.magic != Some(magic)
}

/// The highest proposed version that the server speaks, for its own network.
pub open spec fn best_version(s: Seq<Proposal>, magic: u64) -> Option<u32>
    decreases s.len(),
{
    if s.len() == 0 {
        None
    } else {
        let best = best_version(s.drop_last(), magic);
        let p = s.last();
        if spoken(p) && !elsewhere(p, magic) && (best is None || p.version > best->0) {
            Some(p.version)
        } else {
            best
        }
    }
}

/// The last proposed version that the server speaks, but for another network.
pub open spec fn mismatched_version(s: Seq<Proposal>, magic: u64) -> Option<u32>
    decreases s.len(),
{
    if s.len() == 0 {
        None
    } else if spoken(s.last()) && elsewhere(s.last(), magic) {
        Some(s.last().version)
    } else {
        mismatched_version(s.drop_last(), magic)
    }
}

/// A version is accepted exactly where one is proposed that the server speaks and that
/// is not for another network; it is such a one, and none such is higher.
pub proof fn lemma_best_version_is_highest(s: Seq<Proposal>, magic: u64)
    ensures
        best_version(s, magic) is Some <==> exists|i: int|
            0 <= i < s.len() && spoken(#[trigger] s[i]) && !elsewhere(s[i], magic),
        best_version(s, magic) matches Some(v) ==> {
            &&& exists|i: int|
                0 <= i < s.len() && spoken(#[trigger] s[i]) && !elsewhere(s[i], magic)
                    && s[i].version == v
            &&& forall|i: int|
                0 <= i < s.len() && spoken(#[trigger] s[i]) && !elsewhere(s[i], magic)
                    ==> s[i].version <= v
        },
    decreases s.len(),
{
    if s.len() > 0 {
        let init = s.drop_last();
        lemma_best_version_is_highest(init, magic);
        assert(s[s.len() - 1] == s.last());
        assert forall|i: int| 0 <= i < init.len() implies #[trigger] s[i] == init[i] by {}
        if best_version(init, magic) is Some {
            let i = choose|i: int|
                0 <= i < init.len() && spoken(#[trigger] init[i]) && !elsewhere(init[i], magic)
                    && init[i].version == best_version(init, magic)->0;
            assert(spoken(s[i]) && !elsewhere(s[i], magic));
        }
        assert forall|i: int|
            0 <= i < s.len() && spoken(#[trigger] s[i]) && !elsewhere(s[i], magic) implies {
            &&& best_version(s, magic) is Some
            &&& s[i].version <= best_version(s, magic)->0
        } by {
            if i < init.len() {
                assert(spoken(init[i]) && !elsewhere(init[i], magic));
            }
        }
    }
}

/// The number that stands for a mode of peer sharing.
pub open spec fn sharing_number(m: PeerSharingMode) -> nat {
    match m {
        PeerSharingMode::NoPeerSharing => 0,
        PeerSharingMode::PeerSharingEnabled => 1,
    }
}

/// MsgAcceptVersion: `[1, version, [magic, initiator only, peer sharing, false]]`.
pub open spec fn accept_bytes(
    version: u32,
    magic: u64,
    initiator_and_responder: bool,
    peer_sharing: PeerSharingMode,
) -> Seq<u8> {
    cbor::array_head(3)
        + cbor::uint(1)
        + cbor::uint(version as nat)
        + (cbor::array_head(4)
            + cbor::uint(magic as nat)
            + cbor::bool_item(!initiator_and_responder)
            + cbor::uint(sharing_number(peer_sharing))
            + cbor::bool_item(false))
}

/// MsgRefuse, as every proposed version that the server speaks is for another network:
/// `[2, [2, version, text]]`.
pub open spec fn refuse_magic_bytes(version: u32, magic: u64) -> Seq<u8> {
    cbor::array_head(2)
        + cbor::uint(2)
        + (cbor::array_head(3)
            + cbor::uint(2)
            + cbor::uint(version as nat)
            + cbor::text_item(
                "networkMagic mismatch: expected "@ + text::decimal(magic as nat),
            ))
}

/// MsgRefuse, as no proposed version is spoken: `[2, [0, [14, 15, 16]]]`.
pub open spec fn refuse_version_bytes() -> Seq<u8> {
    cbor::array_head(2)
        + cbor::uint(2)
        + (cbor::array_head(2)
            + cbor::uint(0)
            + (cbor::array_head(3) + cbor::uint(14) + cbor::uint(15) + cbor::uint(16)))
}

/// What the proposals of a peer come to: the best version, and the last one that is
/// spoken but for another network.
#[derive(Debug, Clone, Copy, PartialEq, Eq, Structural)]
pub struct Choice {
    pub best: Option<u32>,
    pub mismatched: Option<u32>,
}

/// What the given proposals come to.
pub open spec fn choice_of(s: Seq<Proposal>, magic: u64) -> Choice {
    Choice { best: best_version(s, magic), mismatched: mismatched_version(s, magic) }
}

/// The answer where the proposals come to `c`.
pub open spec fn answer_bytes(
    c: Choice,
    magic: u64,
    initiator_and_responder: bool,
    peer_sharing: PeerSharingMode,
) -> Seq<u8> {
    match c.best {
        Some(v) => accept_bytes(v, magic, initiator_and_responder, peer_sharing),
        None => match c.mismatched {
            Some(v) => refuse_magic_bytes(v, magic),
            None => refuse_version_bytes(),
        },
    }
}

/// Whether the message `b` proposes a version that is accepted.
pub open spec fn accepts(b: Seq<u8>, magic: u64) -> bool {
    match message::msg_tag(b) {
        message::MsgTag::Tag(tag, end) => tag == 0 && match proposals_at(b, end) {
            Proposals::Entries(s) => best_version(s, magic) is Some,
            Proposals::Broken(_) => false,
        },
        message::MsgTag::Broken(_) => false,
    }
}

/// What the message `b` leads to.
pub open spec fn handshake_outcome(
    b: Seq<u8>,
    magic: u64,
    initiator_and_responder: bool,
    peer_sharing: PeerSharingMode,
) -> message::Outcome {
    match message::msg_tag(b) {
        message::MsgTag::Broken(m) => message::Outcome::Failed(
            message::ErrorView::HandshakeFailed(m),
        ),
        message::MsgTag::Tag(tag, end) => if tag != 0 {
            message::Outcome::Failed(
                message::ErrorView::HandshakeFailed(
                    "Expected MsgProposeVersions (0), got "@ + text::decimal(tag),
                ),
            )
        } else {
            match proposals_at(b, end) {
                Proposals::Broken(m) => message::Outcome::Failed(
                    message::ErrorView::HandshakeFailed(m),
                ),
                Proposals::Entries(s) => message::replied(
                    MINI_PROTOCOL_HANDSHAKE,
                    answer_bytes(choice_of(s, magic), magic, initiator_and_responder, peer_sharing),
                ),
            }
        },
    }
}

/// What the proposals come to with one more.
pub open spec fn considered(c: Choice, p: Proposal, magic: u64) -> Choice {
    if !spoken(p) {
        c
    } else if elsewhere(p, magic) {
        Choice { mismatched: Some(p.version), ..c }
    } else if c.best is None || p.version > c.best->0 {
        Choice { best: Some(p.version), ..c }
    } else {
        c
    }
}

proof fn lemma_considered(s: Seq<Proposal>, p: Proposal, magic: u64)
    ensures
        choice_of(s.push(p), magic) == considered(choice_of(s, magic), p, magic),
{
    assert(s.push(p).drop_last() =~= s);
    assert(s.push(p).last() == p);
}

/// Takes one more proposal into account.
pub fn consider(c: Choice, version: u32, peer_magic: Option<u64>, magic: u64) -> (r: Choice)
    ensures
        r == considered(c, (Proposal { version, magic: peer_magic }), magic),
{
    if version < N2N_MIN_VERSION || version > N2N_MAX_VERSION {
        return c;
    }
    if let Some(m) = peer_magic {
        if m != magic {
            return Choice { best: c.best, mismatched: Some(version) };
        }
    }
    match c.best {
        Some(v) if version <= v => c,
        _ => Choice { best: Some(version), mismatched: c.mismatched },
    }
}

/// Reads the proposals of a peer.
fn read_proposals(b: &[u8], start: usize, magic: u64) -> (r: Result<Choice, String>)
    ensures
        match proposals_at(b@, start as int) {
            Proposals::Entries(s) => r is Ok && r->Ok_0 == choice_of(s, magic),
            Proposals::Broken(m) => r is Err && r->Err_0@ == m,
        },
{
    let mut pos: usize = start;
    let mut remaining: Option<u64> = match get_map(b, &mut pos) {
        Ok(n) => n,
        Err(e) => {
            return Err(e);
        },
    };
    let ghost indefinite = remaining is None;
    let ghost n: nat = match remaining {
        Some(n) => n as nat,
        None => b@.len() + 1,
    };
    let ghost mut i: nat = 0;
    let ghost mut seen: Seq<Proposal> = Seq::empty();
    let mut choice = Choice { best: None, mismatched: None };
    proof {
        if let Proposals::Entries(rest) = entries_from(b@, pos as int, n, indefinite) {
            assert(seen + rest =~= rest);
        }
    }
    loop
        invariant
            i <= n,
            indefinite <==> remaining is None,
            remaining matches Some(k) ==> k == n - i,
            indefinite ==> n == b@.len() + 1 && i <= pos <= b@.len(),
            choice == choice_of(seen, magic),
            proposals_at(b@, start as int) == (match entries_from(
                b@,
                pos as int,
                (n - i) as nat,
                indefinite,
            ) {
                Proposals::Entries(rest) => Proposals::Entries(seen + rest),
                broken => broken,
            }),
        decreases n - i,
    {
        let done: bool = match remaining {
            Some(k) => k == 0,
            None => at_break(b, pos),
        };
        if done {
            proof {
                assert(seen + Seq::<Proposal>::empty() =~= seen);
            }
            return Ok(choice);
        }
        if let Some(k) = remaining {
            remaining = Some(k - 1);
        }
        let version: u32 = match get_u32(b, &mut pos) {
            Ok(v) => v,
            Err(e) => {
                return Err(e);
            },
        };
        let mut p: usize = pos;
        let peer_magic: Option<u64> = match get_array(b, &mut p) {
            Ok(Some(_)) => get_u64(b, &mut p),
            _ => None,
        };
        if let Err(e) = skip_item(b, &mut pos) {
            return Err(e);
        }
        choice = consider(choice, version, peer_magic, magic);
        proof {
            let entry = Proposal { version, magic: peer_magic };
            if let Proposals::Entries(rest) = entries_from(
                b@,
                pos as int,
                (n - i - 1) as nat,
                indefinite,
            ) {
                assert(seen + (seq![entry] + rest) =~= seen.push(entry) + rest);
            }
            lemma_considered(seen, entry, magic);
            seen = seen.push(entry);
            i = i + 1;
        }
    }
}

/// The answer to the proposals of a peer.
pub fn answer_proposals(
    choice: &Choice,
    network_magic: u64,
    initiator_and_responder: bool,
    peer_sharing: PeerSharingMode,
) -> (r: Segment)
    ensures
        r@ == message::reply_view(
            MINI_PROTOCOL_HANDSHAKE,
            answer_bytes(*choice, network_magic, initiator_and_responder, peer_sharing),
        ),
{
    let mut buf: Vec<u8> = Vec::new();
    match choice.best {
        Some(version) => {
            put_array(&mut buf, 3);
            put_u32(&mut buf, 1);
            put_u32(&mut buf, version);
            put_array(&mut buf, 4);
            put_u64(&mut buf, network_magic);
            put_bool(&mut buf, !initiator_and_responder);
            let sharing: u32 = match peer_sharing {
                PeerSharingMode::NoPeerSharing => 0,
                PeerSharingMode::PeerSharingEnabled => 1,
            };
            put_u32(&mut buf, sharing);
            put_bool(&mut buf, false);
            assert(buf@ =~= accept_bytes(
                version,
                network_magic,
                initiator_and_responder,
                peer_sharing,
            ));
        },
        None => match choice.mismatched {
            Some(version) => {
                put_array(&mut buf, 2);
                put_u32(&mut buf, 2);
                put_array(&mut buf, 3);
                put_u32(&mut buf, 2);
                put_u32(&mut buf, version);
                let mut m = String::new();
                push_text(&mut m, "networkMagic mismatch: expected ");
                push_decimal(&mut m, network_magic as u128);
                assert(m@ =~= "networkMagic mismatch: expected "@ + text::decimal(
                    network_magic as nat,
                ));
                put_str(&mut buf, m.as_str());
                assert(buf@ =~= refuse_magic_bytes(version, network_magic));
            },
            None => {
                put_array(&mut buf, 2);
                put_u32(&mut buf, 2);
                put_array(&mut buf, 2);
                put_u32(&mut buf, 0);
                put_array(&mut buf, 3);
                put_u32(&mut buf, 14);
                put_u32(&mut buf, 15);
                put_u32(&mut buf, 16);
                assert(buf@ =~= refuse_version_bytes());
            },
        },
    }
    reply(MINI_PROTOCOL_HANDSHAKE, buf)
}

/// Reads the message with which a peer proposes versions.
pub fn read_choice(payload: &[u8], network_magic: u64) -> (r: Result<Choice, N2NServerError>)
    ensures
        match message::msg_tag(payload@) {
            message::MsgTag::Broken(m) => r matches Err(e) && e@
                == message::ErrorView::HandshakeFailed(m),
            message::MsgTag::Tag(tag, end) => if tag != 0 {
                r matches Err(e) && e@ == message::ErrorView::HandshakeFailed(
                    "Expected MsgProposeVersions (0), got "@ + text::decimal(tag),
                )
            } else {
                match proposals_at(payload@, end) {
                    Proposals::Broken(m) => r matches Err(e) && e@
                        == message::ErrorView::HandshakeFailed(m),
                    Proposals::Entries(s) => r matches Ok(c) && c == choice_of(s, network_magic),
                }
            },
        },
{
    let mut pos: usize = 0;
    let tag: u32 = match read_msg_tag(payload, &mut pos) {
        Ok(tag) => tag,
        Err(e) => {
            return Err(N2NServerError::HandshakeFailed(e));
        },
    };
    if tag != 0 {
        let mut m = String::new();
        push_text(&mut m, "Expected MsgProposeVersions (0), got ");
        push_decimal(&mut m, tag as u128);
        assert(m@ =~= "Expected MsgProposeVersions (0), got "@ + text::decimal(tag as nat));
        return Err(N2NServerError::HandshakeFailed(m));
    }
    match read_proposals(payload, pos, network_magic) {
        Ok(choice) => Ok(choice),
        Err(e) => Err(N2NServerError::HandshakeFailed(e)),
    }
}

/// Answers the message with which a peer proposes versions, and says whether one of them
/// is accepted.
pub fn negotiate(
    payload: &[u8],
    network_magic: u64,
    initiator_and_responder: bool,
    peer_sharing: PeerSharingMode,
) -> (r: (Result<Option<Segment>, N2NServerError>, bool))
    ensures
        message::outcome(r.0) == handshake_outcome(
            payload@,
            network_magic,
            initiator_and_responder,
            peer_sharing,
        ),
        r.1 == accepts(payload@, network_magic),
        r.1 ==> r.0 matches Ok(Some(_)),
{
    match read_choice(payload, network_magic) {
        Ok(choice) => {
            let reply = answer_proposals(
                &choice,
                network_magic,
                initiator_and_responder,
                peer_sharing,
            );
            (Ok(Some(reply)), choice.best.is_some())
        },
        Err(e) => (Err(e), false),
    }
}

/// Answers the message with which a peer proposes versions.
pub fn handle_n2n_handshake(
    payload: &[u8],
    network_magic: u64,
    initiator_and_responder: bool,
    peer_sharing: PeerSharingMode,
) -> (r: Result<Option<Segment>, N2NServerError>)
    ensures
        message::outcome(r) == handshake_outcome(
            payload@,
            network_magic,
            initiator_and_responder,
            peer_sharing,
        ),
{
    negotiate(payload, network_magic, initiator_and_responder, peer_sharing).0
}

// ---------------------------------------------------------------------------
// Laws
// ---------------------------------------------------------------------------

/// An entry of the map in which a peer proposes versions: a version, and the item that
/// holds its parameters.
pub struct ProposedVersion {
    pub version: u32,
    pub params: Seq<u8>,
}

/// The entries, one after another.
pub open spec fn entries_bytes(s: Seq<ProposedVersion>) -> Seq<u8>
    decreases s.len(),
{
    if s.len() == 0 {
        Seq::empty()
    } else {
        cbor::uint(s[0].version as nat) + s[0].params + entries_bytes(s.skip(1))
    }
}

/// MsgProposeVersions: `[0, {version: params, ..}]`, with a map of definite or of
/// indefinite length.
pub open spec fn propose_bytes(s: Seq<ProposedVersion>, indefinite: bool) -> Seq<u8> {
    cbor::array_head(2)
        + cbor::uint(0)
        + (if indefinite {
            seq![0xbfu8]
        } else {
            cbor::map_head(s.len())
        })
        + entries_bytes(s)
        + (if indefinite {
            cbor::break_item()
        } else {
            Seq::empty()
        })
}

/// Where the first entry of such a message starts.
pub open spec fn entries_start(s: Seq<ProposedVersion>, indefinite: bool) -> int {
    if indefinite {
        3
    } else {
        2 + cbor::map_head(s.len()).len() as int
    }
}

/// Whether the parameters are items of their own in `b`, where the entries stand from `p`
/// on: skipping an item at the start of any of them moves to its end.
pub open spec fn params_are_items(b: Seq<u8>, p: int, s: Seq<ProposedVersion>) -> bool
    decreases s.len(),
{
    s.len() > 0 ==> {
        let start = p + cbor::uint(s[0].version as nat).len();
        let end = start + s[0].params.len();
        cbor::skip_at(b, start) == (None::<Seq<char>>, end) && params_are_items(b, end, s.skip(1))
    }
}

/// Whether the heads that are looked at for the network magic lie in the parameters: that
/// of the item, and where it is an array of definite length, that of its first item.
pub open spec fn shows_magic(params: Seq<u8>) -> bool {
    &&& cbor::whole_head_at(params, 0)
    &&& cbor::len_at(params, 0, 4).value matches Some(Some(_)) ==> cbor::whole_head_at(
        params,
        cbor::len_at(params, 0, 4).end,
    )
}

/// Whether the parameters are an empty array of definite length. The version of the next
/// entry, if there is one, is then taken for the network magic.
pub open spec fn is_empty_array(params: Seq<u8>) -> bool {
    cbor::whole_head_at(params, 0) && cbor::len_at(params, 0, 4) == (cbor::Read {
        value: Some(Some(0nat)),
        end: params.len() as int,
    })
}

/// Whether the `i`-th entry is taken for what it proposes: its parameters show whether
/// they start with a network magic, or are an empty array behind which nothing is taken
/// for the magic of another network.
pub open spec fn is_understood(s: Seq<ProposedVersion>, i: int, magic: u64) -> bool {
    ||| shows_magic(s[i].params)
    ||| is_empty_array(s[i].params) && (i == s.len() - 1 || s[i + 1].version == magic
        || !(N2N_MIN_VERSION <= s[i].version <= N2N_MAX_VERSION))
}

/// Whether `s` are the entries of a map in which every entry is taken for what it proposes
/// and the parameters are items of their own.
pub open spec fn well_formed(s: Seq<ProposedVersion>, indefinite: bool, magic: u64) -> bool {
    &&& s.len() <= u64::MAX
    &&& params_are_items(propose_bytes(s, indefinite), entries_start(s, indefinite), s)
    &&& forall|i: int| 0 <= i < s.len() ==> #[trigger] is_understood(s, i, magic)
}

/// What the entries propose.
pub open spec fn proposed(s: Seq<ProposedVersion>) -> Seq<Proposal> {
    s.map_values(
        |e: ProposedVersion| Proposal { version: e.version, magic: magic_at(e.params, 0) },
    )
}

/// Whether the server can accept a proposal.
pub open spec fn acceptable(p: Proposal, magic: u64) -> bool {
    spoken(p) && !elsewhere(p, magic)
}

proof fn lemma_magic_in_context(pre: Seq<u8>, params: Seq<u8>, rest: Seq<u8>)
    requires
        shows_magic(params),
    ensures
        magic_at(pre + params + rest, pre.len() as int) == magic_at(params, 0),
{
    assert((pre + params + rest)[pre.len() as int] == params[0]);
    cbor::lemma_head_in_context(pre, params, rest, 0, 4);
    let a = cbor::len_at(params, 0, 4);
    if a.value matches Some(Some(_)) {
        cbor::lemma_head_in_context(pre, params, rest, a.end, 0);
    }
}

/// Whether two proposals come to the same for a server of the given network.
spec fn same_for(p: Proposal, q: Proposal, magic: u64) -> bool {
    p.version == q.version && (spoken(p) ==> elsewhere(p, magic) == elsewhere(q, magic))
}

spec fn all_same_for(s: Seq<Proposal>, t: Seq<Proposal>, magic: u64) -> bool {
    s.len() == t.len() && forall|i: int|
        0 <= i < s.len() ==> same_for(#[trigger] s[i], t[i], magic)
}

proof fn lemma_same_choice(s: Seq<Proposal>, t: Seq<Proposal>, magic: u64)
    requires
        all_same_for(s, t, magic),
    ensures
        choice_of(s, magic) == choice_of(t, magic),
    decreases s.len(),
{
    if s.len() > 0 {
        assert(same_for(s[s.len() - 1], t[t.len() - 1], magic));
        assert(all_same_for(s.drop_last(), t.drop_last(), magic)) by {
            assert forall|i: int| 0 <= i < s.len() - 1 implies same_for(
                #[trigger] s.drop_last()[i],
                t.drop_last()[i],
                magic,
            ) by {
                assert(same_for(s[i], t[i], magic));
            }
        }
        lemma_same_choice(s.drop_last(), t.drop_last(), magic);
    }
}

proof fn lemma_empty_in_context(pre: Seq<u8>, params: Seq<u8>, rest: Seq<u8>)
    requires
        is_empty_array(params),
    ensures
        magic_at(params, 0) is None,
        rest.len() == 0 || rest[0] == 0xff ==> magic_at(pre + params + rest, pre.len() as int)
            is None,
        forall|v: u32, more: Seq<u8>|
            rest == #[trigger] (cbor::uint(v as nat) + more) ==> magic_at(
                pre + params + rest,
                pre.len() as int,
            ) == Some(v as u64),
{
    let b = pre + params + rest;
    assert(b[pre.len() as int] == params[0]);
    cbor::lemma_head_in_context(pre, params, rest, 0, 4);
    if rest.len() > 0 {
        assert(b[(pre + params).len() as int] == rest[0]);
    }
    assert forall|v: u32, more: Seq<u8>| rest == #[trigger] (cbor::uint(v as nat) + more) implies
        magic_at(b, pre.len() as int) == Some(v as u64) by {
        assert(b =~= (pre + params) + cbor::uint(v as nat) + more);
        cbor::lemma_uint_reads_back(pre + params, v as nat, u64::MAX as nat, more);
    }
}

proof fn lemma_version_reads_back(pre: Seq<u8>, version: u32, rest: Seq<u8>)
    ensures
        ({
            let v = cbor::uint(version as nat);
            let b = pre + v + rest;
            &&& cbor::uint_at(b, pre.len() as int, u32::MAX as nat) == (cbor::Read {
                value: Some(version as nat),
                end: (pre.len() + v.len()) as int,
            })
            &&& b[pre.len() as int] != 0xff
        }),
{
    cbor::lemma_uint_reads_back(pre, version as nat, u32::MAX as nat, rest);
    assert((pre + cbor::uint(version as nat) + rest)[pre.len() as int] == cbor::uint(
        version as nat,
    )[0]);
}

proof fn lemma_tail_is_understood(s: Seq<ProposedVersion>, magic: u64)
    requires
        s.len() > 0,
        forall|i: int| 0 <= i < s.len() ==> #[trigger] is_understood(s, i, magic),
    ensures
        forall|i: int| 0 <= i < s.len() - 1 ==> #[trigger] is_understood(s.skip(1), i, magic),
{
    assert forall|i: int| 0 <= i < s.len() - 1 implies #[trigger] is_understood(
        s.skip(1),
        i,
        magic,
    ) by {
        assert(is_understood(s, i + 1, magic));
        assert(s.skip(1)[i] == s[i + 1]);
    }
}

/// The magic of the first entry, whose parameters stand behind `pre`.
proof fn lemma_first_magic(pre: Seq<u8>, s: Seq<ProposedVersion>, rest: Seq<u8>, magic: u64)
    requires
        s.len() > 0,
        is_understood(s, 0, magic),
        rest.len() == 0 || rest[0] == 0xff,
    ensures
        ({
            let b = pre + s[0].params + (entries_bytes(s.skip(1)) + rest);
            same_for(
                (Proposal { version: s[0].version, magic: magic_at(b, pre.len() as int) }),
                proposed(s)[0],
                magic,
            )
        }),
{
    let tail = s.skip(1);
    let after = entries_bytes(tail) + rest;
    if shows_magic(s[0].params) {
        lemma_magic_in_context(pre, s[0].params, after);
    } else {
        lemma_empty_in_context(pre, s[0].params, after);
        if tail.len() > 0 {
            let w = cbor::uint(tail[0].version as nat);
            assert(after =~= w + (tail[0].params + entries_bytes(tail.skip(1)) + rest));
            assert(tail[0] == s[1]);
        } else {
            assert(after =~= rest);
        }
    }
}

proof fn lemma_first_same(p: Proposal, t: Seq<Proposal>, s: Seq<ProposedVersion>, magic: u64)
    requires
        s.len() > 0,
        same_for(p, proposed(s)[0], magic),
        all_same_for(t, proposed(s.skip(1)), magic),
    ensures
        all_same_for(seq![p] + t, proposed(s), magic),
{
    assert forall|i: int| 0 <= i < s.len() implies same_for(
        #[trigger] (seq![p] + t)[i],
        proposed(s)[i],
        magic,
    ) by {
        if i > 0 {
            assert(same_for(t[i - 1], proposed(s.skip(1))[i - 1], magic));
            assert(proposed(s.skip(1))[i - 1] == proposed(s)[i]);
        }
    }
}

/// The first entry, behind `pre`.
proof fn lemma_first_entry(
    b: Seq<u8>,
    pre: Seq<u8>,
    s: Seq<ProposedVersion>,
    rest: Seq<u8>,
    magic: u64,
)
    requires
        s.len() > 0,
        b == pre + entries_bytes(s) + rest,
        is_understood(s, 0, magic),
        rest.len() == 0 || rest[0] == 0xff,
    ensures
        ({
            let p = pre.len() as int;
            let v = cbor::uint(s[0].version as nat);
            &&& b[p] != 0xff
            &&& cbor::uint_at(b, p, u32::MAX as nat) == (cbor::Read {
                value: Some(s[0].version as nat),
                end: p + v.len(),
            })
            &&& same_for(
                (Proposal { version: s[0].version, magic: magic_at(b, p + v.len()) }),
                proposed(s)[0],
                magic,
            )
            &&& b == (pre + v + s[0].params) + entries_bytes(s.skip(1)) + rest
        }),
{
    let v = cbor::uint(s[0].version as nat);
    let after = entries_bytes(s.skip(1)) + rest;
    assert(b =~= pre + v + (s[0].params + after));
    lemma_version_reads_back(pre, s[0].version, s[0].params + after);
    assert(b =~= (pre + v) + s[0].params + after);
    lemma_first_magic(pre + v, s, rest, magic);
    assert(b =~= (pre + v + s[0].params) + entries_bytes(s.skip(1)) + rest);
}

proof fn lemma_one_entry(
    b: Seq<u8>,
    p: int,
    n: nat,
    indefinite: bool,
    version: u32,
    q: int,
    end: int,
    t: Seq<Proposal>,
)
    requires
        n > 0,
        b[p] != 0xff,
        cbor::uint_at(b, p, u32::MAX as nat) == (cbor::Read {
            value: Some(version as nat),
            end: q,
        }),
        cbor::skip_at(b, q) == (None::<Seq<char>>, end),
        entries_from(b, end, (n - 1) as nat, indefinite) == Proposals::Entries(t),
    ensures
        entries_from(b, p, n, indefinite) == Proposals::Entries(
            seq![Proposal { version, magic: magic_at(b, q) }] + t,
        ),
{
}

proof fn lemma_entries_read_back(
    b: Seq<u8>,
    pre: Seq<u8>,
    s: Seq<ProposedVersion>,
    rest: Seq<u8>,
    n: nat,
    indefinite: bool,
    magic: u64,
)
    requires
        b == pre + entries_bytes(s) + rest,
        if indefinite {
            n > s.len() && rest == cbor::break_item()
        } else {
            n == s.len() && rest.len() == 0
        },
        params_are_items(b, pre.len() as int, s),
        forall|i: int| 0 <= i < s.len() ==> #[trigger] is_understood(s, i, magic),
    ensures
        entries_from(b, pre.len() as int, n, indefinite) matches Proposals::Entries(t)
            && all_same_for(t, proposed(s), magic),
    decreases s.len(),
{
    let p = pre.len() as int;
    if s.len() == 0 {
        if indefinite {
            assert(b[p] == rest[0]);
        }
    } else {
        let tail = s.skip(1);
        let next = pre + cbor::uint(s[0].version as nat) + s[0].params;
        let q = p + cbor::uint(s[0].version as nat).len();
        let first = Proposal { version: s[0].version, magic: magic_at(b, q) };
        assert(is_understood(s, 0, magic));
        lemma_first_entry(b, pre, s, rest, magic);
        lemma_tail_is_understood(s, magic);
        assert(next.len() == q + s[0].params.len());
        lemma_entries_read_back(b, next, tail, rest, (n - 1) as nat, indefinite, magic);
        let t = entries_from(b, next.len() as int, (n - 1) as nat, indefinite)->Entries_0;
        lemma_one_entry(b, p, n, indefinite, s[0].version, q, next.len() as int, t);
        lemma_first_same(first, t, s, magic);
    }
}

proof fn lemma_entries_len(s: Seq<ProposedVersion>)
    ensures
        entries_bytes(s).len() >= s.len(),
    decreases s.len(),
{
    if s.len() > 0 {
        lemma_entries_len(s.skip(1));
    }
}

proof fn lemma_proposals_read_back(s: Seq<ProposedVersion>, indefinite: bool, magic: u64)
    requires
        well_formed(s, indefinite, magic),
    ensures
        message::msg_tag(propose_bytes(s, indefinite)) == message::MsgTag::Tag(0, 2),
        proposals_at(propose_bytes(s, indefinite), 2) matches Proposals::Entries(t) && choice_of(
            t,
            magic,
        ) == choice_of(proposed(s), magic),
{
    let b = propose_bytes(s, indefinite);
    let none = Seq::<u8>::empty();
    let a = cbor::array_head(2);
    let tag = cbor::uint(0);
    let m = if indefinite {
        seq![0xbfu8]
    } else {
        cbor::map_head(s.len())
    };
    let end = if indefinite {
        cbor::break_item()
    } else {
        none
    };
    let entries = entries_bytes(s);
    assert(b =~= none + a + (tag + m + entries + end));
    cbor::lemma_len_reads_back(none, 4, 2, tag + m + entries + end);
    assert(b =~= a + tag + (m + entries + end));
    cbor::lemma_uint_reads_back(a, 0, u32::MAX as nat, m + entries + end);
    if indefinite {
        assert(b[2] == m[0]);
        lemma_entries_len(s);
    } else {
        assert(b =~= (a + tag) + m + (entries + end));
        cbor::lemma_len_reads_back(a + tag, 5, s.len(), entries + end);
    }
    assert(b =~= (a + tag + m) + entries + end);
    let n = if indefinite {
        b.len() + 1
    } else {
        s.len()
    };
    lemma_entries_read_back(b, a + tag + m, s, end, n, indefinite, magic);
    let t = entries_from(b, (a + tag + m).len() as int, n, indefinite)->Entries_0;
    lemma_same_choice(t, proposed(s), magic);
}

/// The last version that is spoken but for another network is one of those proposed, and
/// there is none exactly where none such is proposed.
pub proof fn lemma_mismatched_version_was_proposed(s: Seq<Proposal>, magic: u64)
    ensures
        match mismatched_version(s, magic) {
            Some(v) => exists|i: int|
                0 <= i < s.len() && spoken(#[trigger] s[i]) && elsewhere(s[i], magic)
                    && s[i].version == v,
            None => forall|i: int|
                0 <= i < s.len() ==> !(spoken(#[trigger] s[i]) && elsewhere(s[i], magic)),
        },
    decreases s.len(),
{
    if s.len() > 0 {
        let init = s.drop_last();
        lemma_mismatched_version_was_proposed(init, magic);
        assert(s[s.len() - 1] == s.last());
        assert forall|i: int| 0 <= i < init.len() implies #[trigger] s[i] == init[i] by {}
        if !(spoken(s.last()) && elsewhere(s.last(), magic)) && mismatched_version(init, magic)
            is Some {
            let i = choose|i: int|
                0 <= i < init.len() && spoken(#[trigger] init[i]) && elsewhere(init[i], magic)
                    && init[i].version == mismatched_version(init, magic)->0;
            assert(spoken(s[i]));
        }
    }
}

/// Of several versions that are spoken but for another network, the last one counts.
pub proof fn lemma_last_mismatch_counts(s: Seq<Proposal>, magic: u64, i: int)
    requires
        0 <= i < s.len(),
        spoken(s[i]) && elsewhere(s[i], magic),
        forall|j: int| i < j < s.len() ==> !(spoken(#[trigger] s[j]) && elsewhere(s[j], magic)),
    ensures
        mismatched_version(s, magic) == Some(s[i].version),
    decreases s.len(),
{
    if i < s.len() - 1 {
        assert(!(spoken(s[s.len() - 1]) && elsewhere(s[s.len() - 1], magic)));
        assert(s.drop_last()[i] == s[i]);
        assert forall|j: int| i < j < s.drop_last().len() implies !(spoken(
            #[trigger] s.drop_last()[j],
        ) && elsewhere(s.drop_last()[j], magic)) by {
            assert(s.drop_last()[j] == s[j]);
        }
        lemma_last_mismatch_counts(s.drop_last(), magic, i);
    }
}

/// A peer that proposes versions in a map of definite or indefinite length is answered
/// with the highest one that the server speaks and that is not for another network. If
/// there is none, it is told of one that is for another network, or, where there is none
/// of those either, which versions are spoken.
pub proof fn lemma_highest_version_is_accepted(
    s: Seq<ProposedVersion>,
    indefinite: bool,
    magic: u64,
    initiator_and_responder: bool,
    peer_sharing: PeerSharingMode,
)
    requires
        well_formed(s, indefinite, magic),
    ensures
        ({
            let o = handshake_outcome(
                propose_bytes(s, indefinite),
                magic,
                initiator_and_responder,
                peer_sharing,
            );
            let t = proposed(s);
            if exists|i: int| 0 <= i < t.len() && acceptable(#[trigger] t[i], magic) {
                exists|i: int|
                    {
                        &&& 0 <= i < t.len()
                        &&& acceptable(#[trigger] t[i], magic)
                        &&& forall|j: int|
                            0 <= j < t.len() && acceptable(#[trigger] t[j], magic)
                                ==> t[j].version <= t[i].version
                        &&& o == message::replied(
                            MINI_PROTOCOL_HANDSHAKE,
                            accept_bytes(
                                t[i].version,
                                magic,
                                initiator_and_responder,
                                peer_sharing,
                            ),
                        )
                    }
            } else if exists|i: int| 0 <= i < t.len() && spoken(#[trigger] t[i]) {
                exists|i: int|
                    {
                        &&& 0 <= i < t.len()
                        &&& spoken(#[trigger] t[i])
                        &&& elsewhere(t[i], magic)
                        &&& o == message::replied(
                            MINI_PROTOCOL_HANDSHAKE,
                            refuse_magic_bytes(t[i].version, magic),
                        )
                    }
            } else {
                o == message::replied(MINI_PROTOCOL_HANDSHAKE, refuse_version_bytes())
            }
        }),
{
    let t = proposed(s);
    lemma_proposals_read_back(s, indefinite, magic);
    lemma_best_version_is_highest(t, magic);
    lemma_mismatched_version_was_proposed(t, magic);
    if best_version(t, magic) is Some {
        let i = choose|i: int|
            0 <= i < t.len() && spoken(#[trigger] t[i]) && !elsewhere(t[i], magic) && t[i].version
                == best_version(t, magic)->0;
        assert(acceptable(t[i], magic));
        assert forall|j: int| 0 <= j < t.len() && acceptable(#[trigger] t[j], magic) implies
            t[j].version <= t[i].version by {
            assert(spoken(t[j]));
        }
    } else {
        assert forall|i: int| 0 <= i < t.len() implies !acceptable(#[trigger] t[i], magic) by {
            assert(!(spoken(t[i]) && !elsewhere(t[i], magic)));
        }
    }
}

proof fn lemma_best_version_by_members(t: Seq<Proposal>, t2: Seq<Proposal>, magic: u64)
    requires
        forall|p: Proposal| #[trigger] t.contains(p) <==> t2.contains(p),
    ensures
        best_version(t, magic) == best_version(t2, magic),
{
    lemma_best_version_is_highest(t, magic);
    lemma_best_version_is_highest(t2, magic);
    if best_version(t, magic) is Some {
        let i = choose|i: int|
            0 <= i < t.len() && spoken(#[trigger] t[i]) && !elsewhere(t[i], magic) && t[i].version
                == best_version(t, magic)->0;
        assert(t.contains(t[i]));
        let k = choose|k: int| 0 <= k < t2.len() && t2[k] == t[i];
        assert(spoken(t2[k]));
    }
    if best_version(t2, magic) is Some {
        let i = choose|i: int|
            0 <= i < t2.len() && spoken(#[trigger] t2[i]) && !elsewhere(t2[i], magic)
                && t2[i].version == best_version(t2, magic)->0;
        assert(t2.contains(t2[i]));
        assert(t.contains(t2[i]));
        let k = choose|k: int| 0 <= k < t.len() && t[k] == t2[i];
        assert(spoken(t[k]));
    }
}

proof fn lemma_same_members(s: Seq<ProposedVersion>, s2: Seq<ProposedVersion>)
    requires
        s2.to_multiset() == s.to_multiset(),
    ensures
        forall|p: Proposal| #[trigger] proposed(s).contains(p) <==> proposed(s2).contains(p),
{
    broadcast use vstd::seq_lib::group_to_multiset_ensures;

    assert forall|e: ProposedVersion| #[trigger] s.contains(e) <==> s2.contains(e) by {
        assert(s.contains(e) <==> s.to_multiset().count(e) > 0);
        assert(s2.contains(e) <==> s2.to_multiset().count(e) > 0);
    }
    assert forall|p: Proposal| #[trigger] proposed(s).contains(p) implies proposed(s2).contains(
        p,
    ) by {
        let i = choose|i: int| 0 <= i < proposed(s).len() && proposed(s)[i] == p;
        assert(s.contains(s[i]));
        let k = choose|k: int| 0 <= k < s2.len() && s2[k] == s[i];
        assert(proposed(s2)[k] == p);
    }
    assert forall|p: Proposal| #[trigger] proposed(s2).contains(p) implies proposed(s).contains(
        p,
    ) by {
        let i = choose|i: int| 0 <= i < proposed(s2).len() && proposed(s2)[i] == p;
        assert(s2.contains(s2[i]));
        assert(s.contains(s2[i]));
        let k = choose|k: int| 0 <= k < s.len() && s[k] == s2[i];
        assert(proposed(s)[k] == p);
    }
}

/// The order in which a peer proposes versions, and whether the map is of definite length,
/// make no difference to which one is accepted.
pub proof fn lemma_order_of_proposals_is_free(
    s: Seq<ProposedVersion>,
    indefinite: bool,
    s2: Seq<ProposedVersion>,
    indefinite2: bool,
    magic: u64,
    initiator_and_responder: bool,
    peer_sharing: PeerSharingMode,
)
    requires
        well_formed(s, indefinite, magic),
        well_formed(s2, indefinite2, magic),
        s2.to_multiset() == s.to_multiset(),
        accepts(propose_bytes(s, indefinite), magic),
    ensures
        handshake_outcome(
            propose_bytes(s2, indefinite2),
            magic,
            initiator_and_responder,
            peer_sharing,
        ) == handshake_outcome(
            propose_bytes(s, indefinite),
            magic,
            initiator_and_responder,
            peer_sharing,
        ),
{
    lemma_same_members(s, s2);
    lemma_proposals_read_back(s, indefinite, magic);
    lemma_proposals_read_back(s2, indefinite2, magic);
    lemma_best_version_by_members(proposed(s), proposed(s2), magic);
}

/// An acceptance is read as 1, the version, and its parameters: the magic, whether the server
/// only answers, the mode of peer sharing, and that this is no query. A refusal is read as 2
/// with the reason: a version that is for another network and a text, or the versions that are
/// spoken.
pub proof fn lemma_answers_are_read(
    version: u32,
    magic: u64,
    initiator_and_responder: bool,
    peer_sharing: PeerSharingMode,
)
    ensures
        words::spells(
            accept_bytes(version, magic, initiator_and_responder, peer_sharing),
            words::arr(3) + words::num(1) + words::num(version as nat) + (words::arr(4)
                + words::num(magic as nat) + words::truth(!initiator_and_responder) + words::num(
                if peer_sharing == PeerSharingMode::PeerSharingEnabled {
                    1
                } else {
                    0
                },
            ) + words::truth(false)),
        ),
        words::spells(
            refuse_version_bytes(),
            words::arr(2) + words::num(2) + (words::arr(2) + words::num(0) + (words::arr(3)
                + words::num(14) + words::num(15) + words::num(16))),
        ),
        vstd::utf8::encode_utf8(
            "networkMagic mismatch: expected "@ + text::decimal(magic as nat),
        ).len() <= u64::MAX ==> words::spells(
            refuse_magic_bytes(version, magic),
            words::arr(2) + words::num(2) + (words::arr(3) + words::num(2) + words::num(
                version as nat,
            ) + words::txt("networkMagic mismatch: expected "@ + text::decimal(magic as nat))),
        ),
{
    broadcast use words::group_words;

}

/// The server speaks versions 14, 15 and 16. A proposal is for another network where it names a
/// magic that is not the one of the server.
pub proof fn lemma_what_is_acceptable(p: Proposal, magic: u64)
    ensures
        spoken(p) <==> p.version == 14 || p.version == 15 || p.version == 16,
        elsewhere(p, magic) <==> (p.magic matches Some(m) && m != magic),
        acceptable(p, magic) <==> (p.version == 14 || p.version == 15 || p.version == 16)
            && (p.magic matches Some(m) ==> m == magic),
{
}

/// The magic of parameters is the first number of their array, where they are one.
pub proof fn lemma_magic_is_read(params: Seq<u8>, p: int, n: nat, m: u64, q: int)
    ensures
        words::reads(params, p, words::arr(n) + words::num(m as nat), q) ==> magic_at(params, p)
            == Some(m),
        words::reads(params, p, words::num(n), q) || words::reads(params, p, words::dict(n), q)
            || words::reads(params, p, words::null(), q) ==> magic_at(params, p) is None,
{
    if words::reads(params, p, words::arr(n) + words::num(m as nat), q) {
        let k = words::lemma_reads_split(params, p, words::arr(n), words::num(m as nat), q);
        words::lemma_array_at(params, p, n, k);
        words::lemma_number_at(params, k, m as nat, q);
    } else {
        reveal_with_fuel(words::reads, 2);
    }
}

/// A message is accepted exactly where it is answered with an acceptance; one that is not is
/// answered with a refusal, or ends the connection.
pub proof fn lemma_acceptance_is_what_it_says(
    b: Seq<u8>,
    magic: u64,
    initiator_and_responder: bool,
    peer_sharing: PeerSharingMode,
)
    ensures
        ({
            let o = handshake_outcome(b, magic, initiator_and_responder, peer_sharing);
            &&& accepts(b, magic) ==> exists|v: u32|
                o == message::replied(
                    0,
                    #[trigger] accept_bytes(v, magic, initiator_and_responder, peer_sharing),
                )
            &&& !accepts(b, magic) ==> o is Failed || o == message::replied(
                0,
                refuse_version_bytes(),
            ) || exists|v: u32| o == message::replied(0, #[trigger] refuse_magic_bytes(v, magic))
        }),
{
    let o = handshake_outcome(b, magic, initiator_and_responder, peer_sharing);
    if let message::MsgTag::Tag(tag, end) = message::msg_tag(b) {
        if tag == 0 {
            if let Proposals::Entries(s) = proposals_at(b, end) {
                match best_version(s, magic) {
                    Some(v) => {
                        assert(o == message::replied(
                            0,
                            accept_bytes(v, magic, initiator_and_responder, peer_sharing),
                        ));
                    },
                    None => {
                        if let Some(v) = mismatched_version(s, magic) {
                            assert(o == message::replied(0, refuse_magic_bytes(v, magic)));
                        }
                    },
                }
            }
        }
    }
}

/// A message that is no proposal ends the connection, and the error says which message was
/// expected and which one came.
pub proof fn lemma_other_messages(
    b: Seq<u8>,
    tag: nat,
    end: int,
    magic: u64,
    initiator_and_responder: bool,
    peer_sharing: PeerSharingMode,
)
    requires
        message::msg_tag(b) == message::MsgTag::Tag(tag, end),
        tag != 0,
    ensures
        handshake_outcome(b, magic, initiator_and_responder, peer_sharing)
            == message::Outcome::Failed(
            message::ErrorView::HandshakeFailed(
                "Expected MsgProposeVersions (0), got "@ + text::decimal(tag),
            ),
        ),
{
}

} // verus!
