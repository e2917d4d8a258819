//! CBOR items as byte sequences, and the calls into `minicbor` that write and
//! read them.
//!
//! Writing appends to a `Vec<u8>`. Reading works on a byte slice and a position,
//! which is moved past whatever was consumed.
use vstd::prelude::*;

verus! {

// ---------------------------------------------------------------------------
// Items as byte sequences
// ---------------------------------------------------------------------------

/// Head of an item: the major type and its argument, in the shortest form.
pub open spec fn head(major: nat, n: nat) -> Seq<u8> {
    if n < 24 {
        seq![(major * 32 + n) as u8]
    } else if n <= 0xff {
        seq![(major * 32 + 24) as u8, n as u8]
    } else if n <= 0xffff {
        seq![(major * 32 + 25) as u8, (n / 0x100) as u8, (n % 0x100) as u8]
    } else if n <= 0xffff_ffff {
        seq![
            (major * 32 + 26) as u8,
            (n / 0x100_0000) as u8,
            (n / 0x1_0000 % 0x100) as u8,
            (n / 0x100 % 0x100) as u8,
            (n % 0x100) as u8,
        ]
    } else {
        seq![
            (major * 32 + 27) as u8,
            (n / 0x100_0000_0000_0000) as u8,
            (n / 0x1_0000_0000_0000 % 0x100) as u8,
            (n / 0x100_0000_0000 % 0x100) as u8,
            (n / 0x1_0000_0000 % 0x100) as u8,
            (n / 0x100_0000 % 0x100) as u8,
            (n / 0x1_0000 % 0x100) as u8,
            (n / 0x100 % 0x100) as u8,
            (n % 0x100) as u8,
        ]
    }
}

/// An unsigned integer.
pub open spec fn uint(n: nat) -> Seq<u8> {
    head(0, n)
}

/// A signed integer.
pub open spec fn sint(n: int) -> Seq<u8> {
    if n >= 0 {
        head(0, n as nat)
    } else {
        head(1, (-1 - n) as nat)
    }
}

/// A byte string of definite length.
pub open spec fn bytes_item(s: Seq<u8>) -> Seq<u8> {
    head(2, s.len()) + s
}

/// A text string of definite length.
pub open spec fn text_item(s: Seq<char>) -> Seq<u8> {
    head(3, vstd::utf8::encode_utf8(s).len()) + vstd::utf8::encode_utf8(s)
}

/// Head of an array of `n` items.
pub open spec fn array_head(n: nat) -> Seq<u8> {
    head(4, n)
}

/// Head of a map of `n` entries.
pub open spec fn map_head(n: nat) -> Seq<u8> {
    head(5, n)
}

/// A tag.
pub open spec fn tag_head(n: nat) -> Seq<u8> {
    head(6, n)
}

/// `false` or `true`.
pub open spec fn bool_item(b: bool) -> Seq<u8> {
    seq![if b { 0xf5u8 } else { 0xf4u8 }]
}

/// `null`.
pub open spec fn null_item() -> Seq<u8> {
    seq![0xf6u8]
}

/// Start of an array of indefinite length.
pub open spec fn indef_array_head() -> Seq<u8> {
    seq![0x9fu8]
}

/// The byte that ends an item of indefinite length.
pub open spec fn break_item() -> Seq<u8> {
    seq![0xffu8]
}

/// The encodings of the items of `s`, one after another.
pub open spec fn concat_map<T>(s: Seq<T>, f: spec_fn(T) -> Seq<u8>) -> Seq<u8>
    decreases s.len(),
{
    if s.len() == 0 {
        Seq::empty()
    } else {
        concat_map(s.drop_last(), f) + f(s.last())
    }
}

/// An array of definite length whose items are encoded by `f`.
pub open spec fn array_of<T>(s: Seq<T>, f: spec_fn(T) -> Seq<u8>) -> Seq<u8> {
    array_head(s.len()) + concat_map(s, f)
}

/// A map of definite length whose entries are encoded by `f`.
pub open spec fn map_of<T>(s: Seq<T>, f: spec_fn(T) -> Seq<u8>) -> Seq<u8> {
    map_head(s.len()) + concat_map(s, f)
}

/// `null` for `None`, and the encoding of the value otherwise.
pub open spec fn nullable<T>(o: Option<T>, f: spec_fn(T) -> Seq<u8>) -> Seq<u8> {
    match o {
        Some(v) => f(v),
        None => null_item(),
    }
}

/// Appending is associative.
pub broadcast proof fn lemma_append_assoc(a: Seq<u8>, b: Seq<u8>, c: Seq<u8>)
    ensures
        #[trigger] (a + (b + c)) == (a + b) + c,
{
    assert(a + (b + c) =~= (a + b) + c);
}

/// Appending nothing changes nothing.
pub broadcast proof fn lemma_append_empty(a: Seq<u8>)
    ensures
        #[trigger] (a + Seq::<u8>::empty()) == a,
{
    assert(a + Seq::<u8>::empty() =~= a);
}

/// One more item extends the concatenation at its end.
pub proof fn lemma_concat_map_step<T>(s: Seq<T>, f: spec_fn(T) -> Seq<u8>, i: int)
    requires
        0 <= i < s.len(),
    ensures
        concat_map(s.take(i + 1), f) == concat_map(s.take(i), f) + f(s[i]),
{
    assert(s.take(i + 1).drop_last() =~= s.take(i));
    assert(s.take(i + 1).last() == s[i]);
}

// ---------------------------------------------------------------------------
// Items read from a byte sequence
// ---------------------------------------------------------------------------

/// Major type of the item that starts with byte `b`.
pub open spec fn major_of(b: u8) -> nat {
    b as nat / 32
}

/// The low five bits of the item that starts with byte `b`.
pub open spec fn info_of(b: u8) -> nat {
    b as nat % 32
}

/// The number whose digits in base 256, most significant first, are the `k`
/// bytes from `p` on.
pub open spec fn be_at(b: Seq<u8>, p: int, k: nat) -> nat
    decreases k,
{
    if k == 0 {
        0
    } else {
        be_at(b, p, (k - 1) as nat) * 0x100 + b[p + k - 1] as nat
    }
}

/// Number of bytes behind the first one that hold the argument.
pub open spec fn arg_width(info: nat) -> nat {
    if info == 24 {
        1
    } else if info == 25 {
        2
    } else if info == 26 {
        4
    } else if info == 27 {
        8
    } else {
        0
    }
}

/// What reading a value at a position gives: the value, if there is one, and
/// the position after the attempt.
pub struct Read<T> {
    pub value: Option<T>,
    pub end: int,
}

/// The argument of the item whose first byte is at `p`.
pub open spec fn arg_at(b: Seq<u8>, p: int) -> Read<nat> {
    let info = info_of(b[p]);
    let width = arg_width(info);
    if info < 24 {
        Read { value: Some(info), end: p + 1 }
    } else if info > 27 || p + 1 + width > b.len() {
        Read { value: None, end: p + 1 }
    } else {
        Read { value: Some(be_at(b, p + 1, width)), end: p + 1 + width }
    }
}

/// The argument of an item of the given major type at `p`.
pub open spec fn head_at(b: Seq<u8>, p: int, major: nat) -> Read<nat> {
    if !(0 <= p < b.len()) {
        Read { value: None, end: p }
    } else if major_of(b[p]) != major {
        Read { value: None, end: p + 1 }
    } else {
        arg_at(b, p)
    }
}

/// An unsigned integer at `p` that is at most `max`.
pub open spec fn uint_at(b: Seq<u8>, p: int, max: nat) -> Read<nat> {
    let r = head_at(b, p, 0);
    match r.value {
        Some(n) if n <= max => r,
        _ => Read { value: None, end: r.end },
    }
}

/// Length of the array (major type 4) or map (major type 5) that starts at `p`:
/// `Some(None)` where the length is indefinite.
pub open spec fn len_at(b: Seq<u8>, p: int, major: nat) -> Read<Option<nat>> {
    if 0 <= p < b.len() && major_of(b[p]) == major && info_of(b[p]) == 31 {
        Read { value: Some(None), end: p + 1 }
    } else {
        let r = head_at(b, p, major);
        match r.value {
            Some(n) => Read { value: Some(Some(n)), end: r.end },
            None => Read { value: None, end: r.end },
        }
    }
}

/// A byte string of definite length at `p`.
pub open spec fn bytes_at(b: Seq<u8>, p: int) -> Read<Seq<u8>> {
    let r = head_at(b, p, 2);
    match r.value {
        Some(n) => if r.end + n <= b.len() {
            Read { value: Some(b.subrange(r.end, r.end + n)), end: r.end + n }
        } else {
            Read { value: None, end: r.end }
        },
        None => Read { value: None, end: r.end },
    }
}

/// A boolean at `p`.
pub open spec fn bool_at(b: Seq<u8>, p: int) -> Read<bool> {
    if !(0 <= p < b.len()) {
        Read { value: None, end: p }
    } else if b[p] == 0xf4 {
        Read { value: Some(false), end: p + 1 }
    } else if b[p] == 0xf5 {
        Read { value: Some(true), end: p + 1 }
    } else {
        Read { value: None, end: p + 1 }
    }
}

/// A byte at `p` that ends an item of indefinite length.
pub open spec fn break_at(b: Seq<u8>, p: int) -> bool {
    0 <= p < b.len() && b[p] == 0xff
}

/// A digit in base 256, taken off a number.
pub(crate) proof fn lemma_digit(n: int, k: int)
    requires
        k > 0,
        n >= 0,
    ensures
        n / k == n / (k * 0x100) * 0x100 + n / k % 0x100,
{
    vstd::arithmetic::div_mod::lemma_div_denominator(n, k, 0x100);
    vstd::arithmetic::div_mod::lemma_fundamental_div_mod(n / k, 0x100);
}

/// The eight digits of a number in base 256.
proof fn lemma_eight_digits(b: Seq<u8>, p: int, n: nat)
    requires
        n <= u64::MAX,
        b[p] == n / 0x100_0000_0000_0000,
        b[p + 1] == n / 0x1_0000_0000_0000 % 0x100,
        b[p + 2] == n / 0x100_0000_0000 % 0x100,
        b[p + 3] == n / 0x1_0000_0000 % 0x100,
        b[p + 4] == n / 0x100_0000 % 0x100,
        b[p + 5] == n / 0x1_0000 % 0x100,
        b[p + 6] == n / 0x100 % 0x100,
        b[p + 7] == n % 0x100,
    ensures
        be_at(b, p, 8) == n,
{
    let m = n as int;
    assert(be_at(b, p, 0) == 0);
    assert(be_at(b, p, 1) == m / 0x100_0000_0000_0000);
    lemma_digit(m, 0x1_0000_0000_0000);
    assert(be_at(b, p, 2) == m / 0x1_0000_0000_0000);
    lemma_digit(m, 0x100_0000_0000);
    assert(be_at(b, p, 3) == m / 0x100_0000_0000);
    lemma_digit(m, 0x1_0000_0000);
    assert(be_at(b, p, 4) == m / 0x1_0000_0000);
    lemma_digit(m, 0x100_0000);
    assert(be_at(b, p, 5) == m / 0x100_0000);
    lemma_digit(m, 0x1_0000);
    assert(be_at(b, p, 6) == m / 0x1_0000);
    lemma_digit(m, 0x100);
    assert(be_at(b, p, 7) == m / 0x100);
    lemma_digit(m, 1);
}

/// The four digits of a number in base 256.
proof fn lemma_four_digits(b: Seq<u8>, p: int, n: nat)
    requires
        n <= u32::MAX,
        b[p] == n / 0x100_0000,
        b[p + 1] == n / 0x1_0000 % 0x100,
        b[p + 2] == n / 0x100 % 0x100,
        b[p + 3] == n % 0x100,
    ensures
        be_at(b, p, 4) == n,
{
    let m = n as int;
    assert(be_at(b, p, 0) == 0);
    assert(be_at(b, p, 1) == m / 0x100_0000);
    lemma_digit(m, 0x1_0000);
    assert(be_at(b, p, 2) == m / 0x1_0000);
    lemma_digit(m, 0x100);
    assert(be_at(b, p, 3) == m / 0x100);
    lemma_digit(m, 1);
}

/// A head of any major type reads back as it was written, wherever it stands.
pub proof fn lemma_head_reads_back(pre: Seq<u8>, major: nat, n: nat, rest: Seq<u8>)
    requires
        major < 8,
        n <= u64::MAX,
    ensures
        head_at(pre + head(major, n) + rest, pre.len() as int, major) == (Read {
            value: Some(n),
            end: (pre + head(major, n)).len() as int,
        }),
{
    let h = head(major, n);
    let b = pre + h + rest;
    let p = pre.len() as int;
    assert(b[p] == h[0]);
    if n < 24 {
    } else if n <= 0xff {
        assert(b[p + 1] == h[1]);
        reveal_with_fuel(be_at, 2);
    } else if n <= 0xffff {
        assert(b[p + 1] == h[1]);
        assert(b[p + 2] == h[2]);
        reveal_with_fuel(be_at, 3);
    } else if n <= 0xffff_ffff {
        assert(b[p + 1] == h[1]);
        assert(b[p + 2] == h[2]);
        assert(b[p + 3] == h[3]);
        assert(b[p + 4] == h[4]);
        lemma_four_digits(b, p + 1, n);
    } else {
        assert(b[p + 1] == h[1]);
        assert(b[p + 2] == h[2]);
        assert(b[p + 3] == h[3]);
        assert(b[p + 4] == h[4]);
        assert(b[p + 5] == h[5]);
        assert(b[p + 6] == h[6]);
        assert(b[p + 7] == h[7]);
        assert(b[p + 8] == h[8]);
        lemma_eight_digits(b, p + 1, n);
    }
}

/// Whether the head of the item at `p` lies in `b` as a whole.
pub open spec fn whole_head_at(b: Seq<u8>, p: int) -> bool {
    0 <= p < b.len() && p + 1 + arg_width(info_of(b[p])) <= b.len()
}

proof fn lemma_digits_in_context(pre: Seq<u8>, s: Seq<u8>, rest: Seq<u8>, p: int, k: nat)
    requires
        0 <= p,
        p + k <= s.len(),
    ensures
        be_at(pre + s + rest, pre.len() + p, k) == be_at(s, p, k),
    decreases k,
{
    if k > 0 {
        lemma_digits_in_context(pre, s, rest, p, (k - 1) as nat);
        assert((pre + s + rest)[pre.len() + p + k - 1] == s[p + k - 1]);
    }
}

/// A head that is there as a whole reads the same, whatever stands around it.
pub proof fn lemma_head_in_context(pre: Seq<u8>, s: Seq<u8>, rest: Seq<u8>, p: int, major: nat)
    requires
        whole_head_at(s, p),
    ensures
        head_at(pre + s + rest, pre.len() + p, major).value == head_at(s, p, major).value,
        head_at(pre + s + rest, pre.len() + p, major).end == pre.len() + head_at(s, p, major).end,
{
    assert((pre + s + rest)[pre.len() + p] == s[p]);
    lemma_digits_in_context(pre, s, rest, p + 1, arg_width(info_of(s[p])));
}

/// A number reads back as it was written.
pub proof fn lemma_uint_reads_back(pre: Seq<u8>, n: nat, max: nat, rest: Seq<u8>)
    requires
        n <= max,
        n <= u64::MAX,
    ensures
        uint_at(pre + uint(n) + rest, pre.len() as int, max) == (Read {
            value: Some(n),
            end: (pre + uint(n)).len() as int,
        }),
{
    lemma_head_reads_back(pre, 0, n, rest);
}

/// The length of an array (major type 4) or a map (major type 5) reads back as it was
/// written.
pub proof fn lemma_len_reads_back(pre: Seq<u8>, major: nat, n: nat, rest: Seq<u8>)
    requires
        major < 8,
        n <= u64::MAX,
    ensures
        len_at(pre + head(major, n) + rest, pre.len() as int, major) == (Read {
            value: Some(Some(n)),
            end: (pre + head(major, n)).len() as int,
        }),
{
    lemma_head_reads_back(pre, major, n, rest);
    assert((pre + head(major, n) + rest)[pre.len() as int] == head(major, n)[0]);
}

/// A byte string reads back as it was written.
pub proof fn lemma_bytes_read_back(pre: Seq<u8>, s: Seq<u8>, rest: Seq<u8>)
    requires
        s.len() <= u64::MAX,
    ensures
        bytes_at(pre + bytes_item(s) + rest, pre.len() as int) == (Read {
            value: Some(s),
            end: (pre + bytes_item(s)).len() as int,
        }),
{
    let h = head(2, s.len());
    let b = pre + bytes_item(s) + rest;
    lemma_head_reads_back(pre, 2, s.len(), s + rest);
    assert(b =~= pre + h + (s + rest));
    let end = pre.len() + h.len();
    assert(b.subrange(end as int, (end + s.len()) as int) =~= s);
}

/// A boolean reads back as it was written.
pub proof fn lemma_bool_reads_back(pre: Seq<u8>, v: bool, rest: Seq<u8>)
    ensures
        bool_at(pre + bool_item(v) + rest, pre.len() as int) == (Read {
            value: Some(v),
            end: pre.len() as int + 1,
        }),
{
    assert((pre + bool_item(v) + rest)[pre.len() as int] == bool_item(v)[0]);
}

// ---------------------------------------------------------------------------
// Writing
// ---------------------------------------------------------------------------

/// `minicbor::Encoder::array`: appends the head of an array of `n` items.
/// Writing to a `Vec` cannot fail.
#[verifier::external_body]
pub(crate) fn put_array(buf: &mut Vec<u8>, n: u64)
    ensures
        final(buf)@ == old(buf)@ + array_head(n as nat),
{
    let _ = minicbor::Encoder::new(buf).array(n);
}

/// `minicbor::Encoder::map`: appends the head of a map of `n` entries.
#[verifier::external_body]
pub(crate) fn put_map(buf: &mut Vec<u8>, n: u64)
    ensures
        final(buf)@ == old(buf)@ + map_head(n as nat),
{
    let _ = minicbor::Encoder::new(buf).map(n);
}

/// `minicbor::Encoder::tag`: appends a tag.
#[verifier::external_body]
pub(crate) fn put_tag(buf: &mut Vec<u8>, n: u64)
    ensures
        final(buf)@ == old(buf)@ + tag_head(n as nat),
{
    let _ = minicbor::Encoder::new(buf).tag(minicbor::data::Tag::new(n));
}

/// `minicbor::Encoder::u8`: appends an unsigned integer in its shortest form.
#[verifier::external_body]
pub(crate) fn put_u8(buf: &mut Vec<u8>, n: u8)
    ensures
        final(buf)@ == old(buf)@ + uint(n as nat),
{
    let _ = minicbor::Encoder::new(buf).u8(n);
}

/// `minicbor::Encoder::u16`: appends an unsigned integer in its shortest form.
#[verifier::external_body]
pub(crate) fn put_u16(buf: &mut Vec<u8>, n: u16)
    ensures
        final(buf)@ == old(buf)@ + uint(n as nat),
{
    let _ = minicbor::Encoder::new(buf).u16(n);
}

/// `minicbor::Encoder::u32`: appends an unsigned integer in its shortest form.
#[verifier::external_body]
pub(crate) fn put_u32(buf: &mut Vec<u8>, n: u32)
    ensures
        final(buf)@ == old(buf)@ + uint(n as nat),
{
    let _ = minicbor::Encoder::new(buf).u32(n);
}

/// `minicbor::Encoder::u64`: appends an unsigned integer in its shortest form.
#[verifier::external_body]
pub(crate) fn put_u64(buf: &mut Vec<u8>, n: u64)
    ensures
        final(buf)@ == old(buf)@ + uint(n as nat),
{
    let _ = minicbor::Encoder::new(buf).u64(n);
}

/// `minicbor::Encoder::i64`: appends a signed integer in its shortest form.
#[verifier::external_body]
pub(crate) fn put_i64(buf: &mut Vec<u8>, n: i64)
    ensures
        final(buf)@ == old(buf)@ + sint(n as int),
{
    let _ = minicbor::Encoder::new(buf).i64(n);
}

/// `minicbor::Encoder::bytes`: appends a byte string of definite length.
#[verifier::external_body]
pub(crate) fn put_bytes(buf: &mut Vec<u8>, s: &[u8])
    ensures
        final(buf)@ == old(buf)@ + bytes_item(s@),
{
    let _ = minicbor::Encoder::new(buf).bytes(s);
}

/// `minicbor::Encoder::str`: appends a text string of definite length.
#[verifier::external_body]
pub(crate) fn put_str(buf: &mut Vec<u8>, s: &str)
    ensures
        final(buf)@ == old(buf)@ + text_item(s@),
{
    let _ = minicbor::Encoder::new(buf).str(s);
}

/// `minicbor::Encoder::bool`: appends a boolean.
#[verifier::external_body]
pub(crate) fn put_bool(buf: &mut Vec<u8>, b: bool)
    ensures
        final(buf)@ == old(buf)@ + bool_item(b),
{
    let _ = minicbor::Encoder::new(buf).bool(b);
}

/// `minicbor::Encoder::null`: appends `null`.
#[verifier::external_body]
pub(crate) fn put_null(buf: &mut Vec<u8>)
    ensures
        final(buf)@ == old(buf)@ + null_item(),
{
    let _ = minicbor::Encoder::new(buf).null();
}

/// `minicbor::Encoder::begin_array`: appends the start of an array of
/// indefinite length.
#[verifier::external_body]
pub(crate) fn put_begin_array(buf: &mut Vec<u8>)
    ensures
        final(buf)@ == old(buf)@ + indef_array_head(),
{
    let _ = minicbor::Encoder::new(buf).begin_array();
}

/// `minicbor::Encoder::end`: appends the byte that ends an item of indefinite
/// length.
#[verifier::external_body]
pub(crate) fn put_end(buf: &mut Vec<u8>)
    ensures
        final(buf)@ == old(buf)@ + break_item(),
{
    let _ = minicbor::Encoder::new(buf).end();
}

/// Appends bytes as they are.
pub(crate) fn put_raw(buf: &mut Vec<u8>, s: &[u8])
    ensures
        final(buf)@ == old(buf)@ + s@,
{
    buf.extend_from_slice(s);
    assert(buf@ =~= old(buf)@ + s@);
}

// ---------------------------------------------------------------------------
// Reading
// ---------------------------------------------------------------------------

/// What the error of `minicbor::Decoder::u32` at position `p` of `b` says, where
/// that call fails.
pub uninterp spec fn u32_error_text(b: Seq<u8>, p: int) -> Seq<char>;

/// What the error of `minicbor::Decoder::array` at position `p` of `b` says, where
/// that call fails.
pub uninterp spec fn array_error_text(b: Seq<u8>, p: int) -> Seq<char>;

/// What the error of `minicbor::Decoder::bytes` at position `p` of `b` says, where
/// that call fails.
pub uninterp spec fn bytes_error_text(b: Seq<u8>, p: int) -> Seq<char>;

/// What the error of `minicbor::Decoder::map` at position `p` of `b` says, where
/// that call fails.
pub uninterp spec fn map_error_text(b: Seq<u8>, p: int) -> Seq<char>;

/// What the error of `minicbor::Decoder::skip` at position `p` of `b` says, `None`
/// where it succeeds, and the position that it leaves.
pub uninterp spec fn skip_at(b: Seq<u8>, p: int) -> (Option<Seq<char>>, int);

/// `minicbor::Decoder::array`: the length of the array that starts here, `None` where
/// it is indefinite, else what the error says. The wording of the error is named and
/// not described.
#[verifier::external_body]
pub(crate) fn get_array(b: &[u8], pos: &mut usize) -> (r: Result<Option<u64>, String>)
    ensures
        ({
            let s = len_at(b@, *old(pos) as int, 4);
            &&& *final(pos) as int == s.end
            &&& r is Ok <==> s.value is Some
            &&& r is Ok ==> (r->Ok_0 is Some <==> s.value->0 is Some)
            &&& r is Ok && r->Ok_0 is Some ==> r->Ok_0->0 as nat == s.value->0->0
            &&& r is Err ==> r->Err_0@ == array_error_text(b@, *old(pos) as int)
        }),
{
    let mut d = minicbor::Decoder::new(b);
    d.set_position(*pos);
    let r = d.array();
    *pos = d.position();
    r.map_err(|e| e.to_string())
}

/// `minicbor::Decoder::map`: the length of the map that starts here, `None` where it
/// is indefinite, else what the error says. The wording of the error is named and not
/// described.
#[verifier::external_body]
pub(crate) fn get_map(b: &[u8], pos: &mut usize) -> (r: Result<Option<u64>, String>)
    ensures
        ({
            let s = len_at(b@, *old(pos) as int, 5);
            &&& *final(pos) as int == s.end
            &&& r is Ok <==> s.value is Some
            &&& r is Ok ==> (r->Ok_0 is Some <==> s.value->0 is Some)
            &&& r is Ok && r->Ok_0 is Some ==> r->Ok_0->0 as nat == s.value->0->0
            &&& r is Err ==> r->Err_0@ == map_error_text(b@, *old(pos) as int)
        }),
{
    let mut d = minicbor::Decoder::new(b);
    d.set_position(*pos);
    let r = d.map();
    *pos = d.position();
    r.map_err(|e| e.to_string())
}

/// `minicbor::Decoder::tag`: the tag here.
#[verifier::external_body]
pub(crate) fn get_tag(b: &[u8], pos: &mut usize) -> (r: Option<u64>)
    ensures
        ({
            let s = head_at(b@, *old(pos) as int, 6);
            &&& *final(pos) as int == s.end
            &&& r is Some <==> s.value is Some
            &&& r is Some ==> r->0 as nat == s.value->0
        }),
{
    let mut d = minicbor::Decoder::new(b);
    d.set_position(*pos);
    let r = d.tag();
    *pos = d.position();
    r.ok().map(|t| t.as_u64())
}

/// `minicbor::Decoder::u16`: the unsigned integer here, where it fits.
#[verifier::external_body]
pub(crate) fn get_u16(b: &[u8], pos: &mut usize) -> (r: Option<u16>)
    ensures
        ({
            let s = uint_at(b@, *old(pos) as int, u16::MAX as nat);
            &&& *final(pos) as int == s.end
            &&& r is Some <==> s.value is Some
            &&& r is Some ==> r->0 as nat == s.value->0
        }),
{
    let mut d = minicbor::Decoder::new(b);
    d.set_position(*pos);
    let r = d.u16();
    *pos = d.position();
    r.ok()
}

/// `minicbor::Decoder::u32`: the unsigned integer here, where it fits, else what
/// the error says. The wording of the error is named and not described.
#[verifier::external_body]
pub(crate) fn get_u32(b: &[u8], pos: &mut usize) -> (r: Result<u32, String>)
    ensures
        ({
            let s = uint_at(b@, *old(pos) as int, u32::MAX as nat);
            &&& *final(pos) as int == s.end
            &&& r is Ok <==> s.value is Some
            &&& r is Ok ==> r->Ok_0 as nat == s.value->0
            &&& r is Err ==> r->Err_0@ == u32_error_text(b@, *old(pos) as int)
        }),
{
    let mut d = minicbor::Decoder::new(b);
    d.set_position(*pos);
    let r = d.u32();
    *pos = d.position();
    r.map_err(|e| e.to_string())
}

/// `minicbor::Decoder::u64`: the unsigned integer here.
#[verifier::external_body]
pub(crate) fn get_u64(b: &[u8], pos: &mut usize) -> (r: Option<u64>)
    ensures
        ({
            let s = uint_at(b@, *old(pos) as int, u64::MAX as nat);
            &&& *final(pos) as int == s.end
            &&& r is Some <==> s.value is Some
            &&& r is Some ==> r->0 as nat == s.value->0
        }),
{
    let mut d = minicbor::Decoder::new(b);
    d.set_position(*pos);
    let r = d.u64();
    *pos = d.position();
    r.ok()
}

/// `minicbor::Decoder::bool`: the boolean here.
#[verifier::external_body]
pub(crate) fn get_bool(b: &[u8], pos: &mut usize) -> (r: Option<bool>)
    ensures
        ({
            let s = bool_at(b@, *old(pos) as int);
            &&& *final(pos) as int == s.end
            &&& r == s.value
        }),
{
    let mut d = minicbor::Decoder::new(b);
    d.set_position(*pos);
    let r = d.bool();
    *pos = d.position();
    r.ok()
}

/// `minicbor::Decoder::bytes`: the byte string of definite length here, else what the
/// error says. The wording of the error is named and not described.
#[verifier::external_body]
pub(crate) fn get_bytes<'a>(b: &'a [u8], pos: &mut usize) -> (r: Result<&'a [u8], String>)
    ensures
        ({
            let s = bytes_at(b@, *old(pos) as int);
            &&& *final(pos) as int == s.end
            &&& r is Ok <==> s.value is Some
            &&& r is Ok ==> r->Ok_0@ == s.value->0
            &&& r is Err ==> r->Err_0@ == bytes_error_text(b@, *old(pos) as int)
        }),
{
    let mut d = minicbor::Decoder::new(b);
    d.set_position(*pos);
    let r = d.bytes();
    *pos = d.position();
    r.map_err(|e| e.to_string())
}

/// `minicbor::Decoder::datatype`: whether the byte here ends an item of
/// indefinite length.
#[verifier::external_body]
pub(crate) fn at_break(b: &[u8], pos: usize) -> (r: bool)
    ensures
        r == break_at(b@, pos as int),
{
    let mut d = minicbor::Decoder::new(b);
    d.set_position(pos);
    matches!(d.datatype(), Ok(minicbor::data::Type::Break))
}

/// `minicbor::Decoder::skip`: moves past the item here, whatever it is, else says
/// what the error says. Where the item ends, and the wording of the error, are named
/// and not described; a successful call consumes at least one byte and stays within
/// the input, and nothing is consumed at its end.
#[verifier::external_body]
pub(crate) fn skip_item(b: &[u8], pos: &mut usize) -> (r: Result<(), String>)
    ensures
        r is Ok <==> skip_at(b@, *old(pos) as int).0 is None,
        r is Err ==> Some(r->Err_0@) == skip_at(b@, *old(pos) as int).0,
        *final(pos) as int == skip_at(b@, *old(pos) as int).1,
        r is Ok ==> *old(pos) < *final(pos) <= b@.len(),
        *old(pos) <= *final(pos),
        *old(pos) >= b@.len() ==> r is Err && *final(pos) == *old(pos),
{
    let mut d = minicbor::Decoder::new(b);
    d.set_position(*pos);
    let r = d.skip();
    *pos = d.position();
    r.map_err(|e| e.to_string())
}

} // verus!
