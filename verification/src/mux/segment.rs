//! The 8-byte header in front of every segment.
use crate::cbor;
use vstd::prelude::*;

verus! {

/// Length of a segment header.
pub const HEADER_SIZE: usize = 8;

/// The side of a conversation that sends a segment.
#[derive(Debug, Clone, Copy, PartialEq, Eq, Structural, Hash)]
pub enum Direction {
    /// Sent by the side that started the mini-protocol.
    InitiatorDir,
    /// Sent by the side that answers.
    ResponderDir,
}

impl Direction {
    /// The opposite direction.
    pub open spec fn spec_flip(self) -> Direction {
        match self {
            Direction::InitiatorDir => Direction::ResponderDir,
            Direction::ResponderDir => Direction::InitiatorDir,
        }
    }

    /// The opposite direction: what the remote side calls its initiator is our
    /// responder.
    pub fn flip(self) -> (r: Direction)
        ensures
            r == self.spec_flip(),
    {
        match self {
            Direction::InitiatorDir => Direction::ResponderDir,
            Direction::ResponderDir => Direction::InitiatorDir,
        }
    }
}

/// A segment header.
#[derive(Debug, Clone, Copy, PartialEq, Eq, Structural)]
pub struct SduHeader {
    pub timestamp: u32,
    pub protocol_id: u16,
    pub direction: Direction,
    pub payload_length: u16,
}

/// Two bytes, most significant first.
pub open spec fn be2(n: nat) -> Seq<u8> {
    seq![(n / 0x100 % 0x100) as u8, (n % 0x100) as u8]
}

/// Four bytes, most significant first.
pub open spec fn be4(n: nat) -> Seq<u8> {
    seq![
        (n / 0x100_0000 % 0x100) as u8,
        (n / 0x1_0000 % 0x100) as u8,
        (n / 0x100 % 0x100) as u8,
        (n % 0x100) as u8,
    ]
}

/// The number that the two bytes from `p` on write.
pub open spec fn be2_at(s: Seq<u8>, p: int) -> nat {
    (s[p] * 0x100 + s[p + 1]) as nat
}

/// The number that the four bytes from `p` on write.
pub open spec fn be4_at(s: Seq<u8>, p: int) -> nat {
    (s[p] * 0x100_0000 + s[p + 1] * 0x1_0000 + s[p + 2] * 0x100 + s[p + 3]) as nat
}

/// Protocol number and direction in one word: the highest bit marks a responder.
pub open spec fn protocol_word(protocol_id: u16, direction: Direction) -> nat {
    (protocol_id as nat % 0x8000) + (if direction is ResponderDir { 0x8000nat } else { 0nat })
}

/// The bytes of a header.
pub open spec fn header_bytes(h: SduHeader) -> Seq<u8> {
    be4(h.timestamp as nat) + be2(protocol_word(h.protocol_id, h.direction)) + be2(
        h.payload_length as nat,
    )
}

/// The header that the first eight bytes of `s` hold.
pub open spec fn header_at(s: Seq<u8>) -> SduHeader {
    let word = be2_at(s, 4);
    SduHeader {
        timestamp: be4_at(s, 0) as u32,
        protocol_id: (word % 0x8000) as u16,
        direction: if word >= 0x8000 {
            Direction::ResponderDir
        } else {
            Direction::InitiatorDir
        },
        payload_length: be2_at(s, 6) as u16,
    }
}

/// Two bytes read back as the number that they were written for.
proof fn lemma_be2(s: Seq<u8>, p: int, n: nat)
    requires
        n < 0x1_0000,
        s[p] == be2(n)[0],
        s[p + 1] == be2(n)[1],
    ensures
        be2_at(s, p) == n,
{
    cbor::lemma_digit(n as int, 0x100);
    cbor::lemma_digit(n as int, 1);
}

/// Four bytes read back as the number that they were written for.
proof fn lemma_be4(s: Seq<u8>, p: int, n: nat)
    requires
        n < 0x1_0000_0000,
        s[p] == be4(n)[0],
        s[p + 1] == be4(n)[1],
        s[p + 2] == be4(n)[2],
        s[p + 3] == be4(n)[3],
    ensures
        be4_at(s, p) == n,
{
    cbor::lemma_digit(n as int, 0x100_0000);
    cbor::lemma_digit(n as int, 0x1_0000);
    cbor::lemma_digit(n as int, 0x100);
    cbor::lemma_digit(n as int, 1);
}

/// A header reads back as it was written, for the protocol numbers that fit its
/// fifteen bits.
pub proof fn lemma_header_roundtrip(h: SduHeader, rest: Seq<u8>)
    requires
        h.protocol_id < 0x8000,
    ensures
        header_at(header_bytes(h) + rest) == h,
        header_bytes(h).len() == 8,
{
    let s = header_bytes(h) + rest;
    let word = protocol_word(h.protocol_id, h.direction);
    assert(s.subrange(0, 4) =~= be4(h.timestamp as nat));
    assert(s.subrange(4, 6) =~= be2(word));
    assert(s.subrange(6, 8) =~= be2(h.payload_length as nat));
    assert(s[0] == s.subrange(0, 4)[0] && s[1] == s.subrange(0, 4)[1]);
    assert(s[2] == s.subrange(0, 4)[2] && s[3] == s.subrange(0, 4)[3]);
    assert(s[4] == s.subrange(4, 6)[0] && s[5] == s.subrange(4, 6)[1]);
    assert(s[6] == s.subrange(6, 8)[0] && s[7] == s.subrange(6, 8)[1]);
    lemma_be4(s, 0, h.timestamp as nat);
    lemma_be2(s, 4, word);
    lemma_be2(s, 6, h.payload_length as nat);
}

/// The bytes of a header.
pub fn encode_header(header: &SduHeader) -> (r: [u8; 8])
    ensures
        r@ == header_bytes(*header),
{
    let t: u32 = header.timestamp;
    let word: u16 = match header.direction {
        Direction::InitiatorDir => header.protocol_id % 0x8000,
        Direction::ResponderDir => header.protocol_id % 0x8000 + 0x8000,
    };
    let n: u16 = header.payload_length;
    let r: [u8; 8] = [
        (t / 0x100_0000) as u8,
        (t / 0x1_0000 % 0x100) as u8,
        (t / 0x100 % 0x100) as u8,
        (t % 0x100) as u8,
        (word / 0x100) as u8,
        (word % 0x100) as u8,
        (n / 0x100) as u8,
        (n % 0x100) as u8,
    ];
    assert(r@ =~= header_bytes(*header));
    r
}

/// Reads the header at the start of `b`.
pub fn decode_header(b: &[u8]) -> (h: SduHeader)
    requires
        b@.len() >= 8,
    ensures
        h == header_at(b@),
{
    let t: u32 = b[0] as u32 * 0x100_0000 + b[1] as u32 * 0x1_0000 + b[2] as u32 * 0x100
        + b[3] as u32;
    let word: u16 = b[4] as u16 * 0x100 + b[5] as u16;
    let n: u16 = b[6] as u16 * 0x100 + b[7] as u16;
    SduHeader {
        timestamp: t,
        protocol_id: word % 0x8000,
        direction: if word >= 0x8000 {
            Direction::ResponderDir
        } else {
            Direction::InitiatorDir
        },
        payload_length: n,
    }
}

/// A header takes eight bytes, each number with its most significant byte first: four bytes
/// for the time stamp, two for the protocol number, of which the highest bit marks a
/// responder, and two for the length of the payload.
pub proof fn lemma_header_layout(h: SduHeader)
    requires
        h.protocol_id < 0x8000,
    ensures
        ({
            let b = header_bytes(h);
            &&& b.len() == 8
            &&& b[0] * 0x100_0000 + b[1] * 0x1_0000 + b[2] * 0x100 + b[3] == h.timestamp
            &&& b[4] * 0x100 + b[5] == h.protocol_id + if h.direction is ResponderDir {
                0x8000int
            } else {
                0int
            }
            &&& b[6] * 0x100 + b[7] == h.payload_length
        }),
{
    let b = header_bytes(h);
    lemma_be4(b, 0, h.timestamp as nat);
    lemma_be2(b, 4, protocol_word(h.protocol_id, h.direction));
    lemma_be2(b, 6, h.payload_length as nat);
}

/// Each number of a header is read from its own place.
pub proof fn lemma_header_is_read_by_place(s: Seq<u8>)
    ensures
        ({
            let h = header_at(s);
            let word = s[4] * 0x100 + s[5];
            &&& h.timestamp == s[0] * 0x100_0000 + s[1] * 0x1_0000 + s[2] * 0x100 + s[3]
            &&& word < 0x8000 ==> h.protocol_id == word && h.direction == Direction::InitiatorDir
            &&& word >= 0x8000 ==> h.protocol_id == word - 0x8000 && h.direction
                == Direction::ResponderDir
            &&& h.payload_length == s[6] * 0x100 + s[7]
        }),
{
}

/// What one side sends as the initiator the other receives as the responder, and back.
pub proof fn lemma_flip(d: Direction)
    ensures
        d.spec_flip() != d,
        d.spec_flip().spec_flip() == d,
{
}

} // verus!
