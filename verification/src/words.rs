//! What a reader makes of CBOR: the words that a byte sequence spells, read from left to
//! right. A word is a number, a string, a simple value, or the head of an array, a map or a
//! tag.
use crate::cbor;
use vstd::prelude::*;

verus! {

/// What a reader finds at a position.
pub enum Word {
    /// A number that is not negative.
    Number(nat),
    /// The number that is one less than the negative of this one.
    Minus(nat),
    Bytes(Seq<u8>),
    /// Text, in UTF-8.
    Text(Seq<u8>),
    /// The start of an array of so many items.
    Array(nat),
    /// The start of a map of so many entries.
    Entries(nat),
    Tag(nat),
    Truth(bool),
    Null,
    /// The start of an array that goes on up to a break.
    OpenArray,
    /// The start of a map that goes on up to a break.
    OpenEntries,
    Break,
}

/// The word at `p`, and where it ends.
pub open spec fn word_at(b: Seq<u8>, p: int) -> Option<(Word, int)> {
    if !(0 <= p < b.len()) {
        None
    } else if b[p] == 0xf4 {
        Some((Word::Truth(false), p + 1))
    } else if b[p] == 0xf5 {
        Some((Word::Truth(true), p + 1))
    } else if b[p] == 0xf6 {
        Some((Word::Null, p + 1))
    } else if b[p] == 0x9f {
        Some((Word::OpenArray, p + 1))
    } else if b[p] == 0xbf {
        Some((Word::OpenEntries, p + 1))
    } else if b[p] == 0xff {
        Some((Word::Break, p + 1))
    } else {
        let major = cbor::major_of(b[p]);
        let r = cbor::head_at(b, p, major);
        match r.value {
            None => None,
            Some(n) => if major == 0 {
                Some((Word::Number(n), r.end))
            } else if major == 1 {
                Some((Word::Minus(n), r.end))
            } else if major == 2 || major == 3 {
                if r.end + n > b.len() {
                    None
                } else if major == 2 {
                    Some((Word::Bytes(b.subrange(r.end, r.end + n)), r.end + n))
                } else {
                    Some((Word::Text(b.subrange(r.end, r.end + n)), r.end + n))
                }
            } else if major == 4 {
                Some((Word::Array(n), r.end))
            } else if major == 5 {
                Some((Word::Entries(n), r.end))
            } else if major == 6 {
                Some((Word::Tag(n), r.end))
            } else {
                None
            },
        }
    }
}

/// Whether reading from `p` gives the words `w` and then stands at `q`.
pub open spec fn reads(b: Seq<u8>, p: int, w: Seq<Word>, q: int) -> bool
    decreases w.len(),
{
    if w.len() == 0 {
        p == q
    } else {
        match word_at(b, p) {
            Some((x, end)) => x == w[0] && reads(b, end, w.skip(1), q),
            None => false,
        }
    }
}

/// Whether the bytes spell the words, and no more.
#[verifier::opaque]
pub open spec fn spells(b: Seq<u8>, w: Seq<Word>) -> bool {
    reads(b, 0, w, b.len() as int)
}

// ---------------------------------------------------------------------------
// Words
// ---------------------------------------------------------------------------

/// A number.
pub open spec fn num(n: nat) -> Seq<Word> {
    seq![Word::Number(n)]
}

/// A number that may be negative.
pub open spec fn int_of(n: int) -> Seq<Word> {
    if n >= 0 {
        seq![Word::Number(n as nat)]
    } else {
        seq![Word::Minus((-1 - n) as nat)]
    }
}

/// A byte string.
pub open spec fn bin(s: Seq<u8>) -> Seq<Word> {
    seq![Word::Bytes(s)]
}

/// A text.
pub open spec fn txt(s: Seq<char>) -> Seq<Word> {
    seq![Word::Text(vstd::utf8::encode_utf8(s))]
}

/// The start of an array.
pub open spec fn arr(n: nat) -> Seq<Word> {
    seq![Word::Array(n)]
}

/// The start of a map.
pub open spec fn dict(n: nat) -> Seq<Word> {
    seq![Word::Entries(n)]
}

/// A tag.
pub open spec fn tag(n: nat) -> Seq<Word> {
    seq![Word::Tag(n)]
}

/// `false` or `true`.
pub open spec fn truth(b: bool) -> Seq<Word> {
    seq![Word::Truth(b)]
}

/// `null`.
pub open spec fn null() -> Seq<Word> {
    seq![Word::Null]
}

/// The words of each item of `s`, one after another.
pub open spec fn each<T>(s: Seq<T>, g: spec_fn(T) -> Seq<Word>) -> Seq<Word>
    decreases s.len(),
{
    if s.len() == 0 {
        Seq::empty()
    } else {
        each(s.drop_last(), g) + g(s.last())
    }
}

/// An array of the items of `s`.
pub open spec fn arr_of<T>(s: Seq<T>, g: spec_fn(T) -> Seq<Word>) -> Seq<Word> {
    arr(s.len()) + each(s, g)
}

/// A map with the items of `s` for entries.
pub open spec fn dict_of<T>(s: Seq<T>, g: spec_fn(T) -> Seq<Word>) -> Seq<Word> {
    dict(s.len()) + each(s, g)
}

// ---------------------------------------------------------------------------
// Reading
// ---------------------------------------------------------------------------

proof fn lemma_word_in_context(pre: Seq<u8>, s: Seq<u8>, rest: Seq<u8>, p: int)
    requires
        word_at(s, p) is Some,
    ensures
        word_at(pre + s + rest, pre.len() + p) == Some(
            ((word_at(s, p)->0).0, pre.len() + (word_at(s, p)->0).1),
        ),
{
    let b = pre + s + rest;
    assert(b[pre.len() + p] == s[p]);
    let major = cbor::major_of(s[p]);
    let r = cbor::head_at(s, p, major);
    if r.value is Some {
        assert(cbor::whole_head_at(s, p));
        cbor::lemma_head_in_context(pre, s, rest, p, major);
        let n = r.value->0;
        if (major == 2 || major == 3) && r.end + n <= s.len() {
            assert(b.subrange(pre.len() + r.end, pre.len() + r.end + n) =~= s.subrange(
                r.end,
                r.end + n,
            ));
        }
    }
}

proof fn lemma_reads_in_context(pre: Seq<u8>, s: Seq<u8>, rest: Seq<u8>, p: int, w: Seq<Word>,
    q: int)
    requires
        reads(s, p, w, q),
    ensures
        reads(pre + s + rest, pre.len() + p, w, pre.len() + q),
    decreases w.len(),
{
    if w.len() > 0 {
        lemma_word_in_context(pre, s, rest, p);
        lemma_reads_in_context(pre, s, rest, (word_at(s, p)->0).1, w.skip(1), q);
    }
}

proof fn lemma_reads_on(b: Seq<u8>, p: int, v: Seq<Word>, m: int, w: Seq<Word>, q: int)
    requires
        reads(b, p, v, m),
        reads(b, m, w, q),
    ensures
        reads(b, p, v + w, q),
    decreases v.len(),
{
    if v.len() > 0 {
        lemma_reads_on(b, (word_at(b, p)->0).1, v.skip(1), m, w, q);
        assert((v + w).skip(1) =~= v.skip(1) + w);
    } else {
        assert(v + w =~= w);
    }
}

/// What is spelled one after the other is spelled together.
pub broadcast proof fn lemma_spells_append(a: Seq<u8>, b: Seq<u8>, v: Seq<Word>, w: Seq<Word>)
    requires
        spells(a, v),
        spells(b, w),
    ensures
        #[trigger] spells(a + b, v + w),
{
    reveal(spells);
    lemma_reads_in_context(Seq::empty(), a, b, 0, v, a.len() as int);
    lemma_reads_in_context(a, b, Seq::empty(), 0, w, b.len() as int);
    assert(Seq::empty() + a + b =~= a + b);
    assert(a + b + Seq::empty() =~= a + b);
    lemma_reads_on(a + b, 0, v, a.len() as int, w, (a + b).len() as int);
}

/// The same bytes spell the same words and no others.
pub proof fn lemma_spelling_is_unique(b: Seq<u8>, v: Seq<Word>, w: Seq<Word>)
    requires
        spells(b, v),
        spells(b, w),
    ensures
        v == w,
{
    reveal(spells);
    lemma_reading_is_unique(b, 0, v, w);
}

proof fn lemma_reading_is_unique(b: Seq<u8>, p: int, v: Seq<Word>, w: Seq<Word>)
    requires
        reads(b, p, v, b.len() as int),
        reads(b, p, w, b.len() as int),
    ensures
        v == w,
    decreases v.len(),
{
    if v.len() > 0 && w.len() > 0 {
        lemma_reading_is_unique(b, (word_at(b, p)->0).1, v.skip(1), w.skip(1));
        assert(v =~= seq![v[0]] + v.skip(1));
        assert(w =~= seq![w[0]] + w.skip(1));
    } else {
        assert(v =~= w);
    }
}

proof fn lemma_one_word(b: Seq<u8>, x: Word)
    requires
        word_at(b, 0) == Some((x, b.len() as int)),
    ensures
        spells(b, seq![x]),
{
    reveal(spells);
    assert(seq![x].skip(1) =~= Seq::<Word>::empty());
    reveal_with_fuel(reads, 2);
}

proof fn lemma_head_is_read(major: nat, n: nat)
    requires
        major < 7,
        n <= u64::MAX,
    ensures
        ({
            let h = cbor::head(major, n);
            &&& h.len() > 0
            &&& cbor::major_of(h[0]) == major
            &&& h[0] != 0xff && h[0] != 0x9f && h[0] != 0xbf && h[0] < 0xe0
            &&& cbor::head_at(h, 0, major) == (cbor::Read { value: Some(n), end: h.len() as int })
        }),
{
    let h = cbor::head(major, n);
    let none = Seq::<u8>::empty();
    cbor::lemma_head_reads_back(none, major, n, none);
    assert(none + h + none =~= h);
    assert(none + h =~= h);
}

/// A number is read as it was written.
pub broadcast proof fn lemma_num(n: nat)
    requires
        n <= u64::MAX,
    ensures
        #[trigger] spells(cbor::uint(n), num(n)),
{
    lemma_head_is_read(0, n);
    lemma_one_word(cbor::uint(n), Word::Number(n));
}

/// A number that may be negative is read as it was written.
pub broadcast proof fn lemma_int_of(n: int)
    requires
        -0x1_0000_0000_0000_0000 <= n <= u64::MAX,
    ensures
        #[trigger] spells(cbor::sint(n), int_of(n)),
{
    if n >= 0 {
        lemma_num(n as nat);
    } else {
        let m = (-1 - n) as nat;
        lemma_head_is_read(1, m);
        lemma_one_word(cbor::sint(n), Word::Minus(m));
    }
}

/// The head of an array is read as it was written.
pub broadcast proof fn lemma_arr(n: nat)
    requires
        n <= u64::MAX,
    ensures
        #[trigger] spells(cbor::array_head(n), arr(n)),
{
    lemma_head_is_read(4, n);
    lemma_one_word(cbor::array_head(n), Word::Array(n));
}

/// The head of a map is read as it was written.
pub broadcast proof fn lemma_dict(n: nat)
    requires
        n <= u64::MAX,
    ensures
        #[trigger] spells(cbor::map_head(n), dict(n)),
{
    lemma_head_is_read(5, n);
    lemma_one_word(cbor::map_head(n), Word::Entries(n));
}

/// A tag is read as it was written.
pub broadcast proof fn lemma_tag(n: nat)
    requires
        n <= u64::MAX,
    ensures
        #[trigger] spells(cbor::tag_head(n), tag(n)),
{
    lemma_head_is_read(6, n);
    lemma_one_word(cbor::tag_head(n), Word::Tag(n));
}

/// A byte string is read as it was written.
pub broadcast proof fn lemma_bin(s: Seq<u8>)
    requires
        s.len() <= u64::MAX,
    ensures
        #[trigger] spells(cbor::bytes_item(s), bin(s)),
{
    let h = cbor::head(2, s.len());
    let b = cbor::bytes_item(s);
    let none = Seq::<u8>::empty();
    lemma_head_is_read(2, s.len());
    assert(cbor::whole_head_at(h, 0));
    cbor::lemma_head_in_context(none, h, s, 0, 2);
    assert(none + h + s =~= b);
    assert(b[0] == h[0]);
    assert(b.subrange(h.len() as int, b.len() as int) =~= s);
    lemma_one_word(b, Word::Bytes(s));
}

/// A text is read as it was written.
pub broadcast proof fn lemma_txt(s: Seq<char>)
    requires
        vstd::utf8::encode_utf8(s).len() <= u64::MAX,
    ensures
        #[trigger] spells(cbor::text_item(s), txt(s)),
{
    let t = vstd::utf8::encode_utf8(s);
    let h = cbor::head(3, t.len());
    let b = cbor::text_item(s);
    let none = Seq::<u8>::empty();
    lemma_head_is_read(3, t.len());
    assert(cbor::whole_head_at(h, 0));
    cbor::lemma_head_in_context(none, h, t, 0, 3);
    assert(none + h + t =~= b);
    assert(b[0] == h[0]);
    assert(b.subrange(h.len() as int, b.len() as int) =~= t);
    lemma_one_word(b, Word::Text(t));
}

/// `false` and `true` are read as they were written.
pub broadcast proof fn lemma_truth(v: bool)
    ensures
        #[trigger] spells(cbor::bool_item(v), truth(v)),
{
    lemma_one_word(cbor::bool_item(v), Word::Truth(v));
}

/// `null` is read as it was written.
pub broadcast proof fn lemma_null()
    ensures
        #[trigger] spells(cbor::null_item(), null()),
{
    lemma_one_word(cbor::null_item(), Word::Null);
}

/// The start of an open array is read as it was written.
pub broadcast proof fn lemma_open()
    ensures
        #[trigger] spells(cbor::indef_array_head(), seq![Word::OpenArray]),
{
    lemma_one_word(cbor::indef_array_head(), Word::OpenArray);
}

/// The end of an open array is read as it was written.
pub broadcast proof fn lemma_break()
    ensures
        #[trigger] spells(cbor::break_item(), seq![Word::Break]),
{
    lemma_one_word(cbor::break_item(), Word::Break);
}

/// Nothing spells nothing.
pub broadcast proof fn lemma_nothing()
    ensures
        #[trigger] spells(Seq::<u8>::empty(), Seq::<Word>::empty()),
{
    reveal(spells);
}

/// Items that each spell their words spell them one after another.
pub proof fn lemma_each<T>(s: Seq<T>, f: spec_fn(T) -> Seq<u8>, g: spec_fn(T) -> Seq<Word>)
    requires
        forall|i: int| 0 <= i < s.len() ==> spells(f(#[trigger] s[i]), g(s[i])),
    ensures
        spells(cbor::concat_map(s, f), each(s, g)),
    decreases s.len(),
{
    if s.len() == 0 {
        reveal(spells);
    } else {
        let init = s.drop_last();
        assert forall|i: int| 0 <= i < init.len() implies spells(f(#[trigger] init[i]),
            g(init[i])) by {
            assert(init[i] == s[i]);
        }
        lemma_each(init, f, g);
        assert(s.last() == s[s.len() - 1]);
        lemma_spells_append(cbor::concat_map(init, f), f(s.last()), each(init, g), g(s.last()));
    }
}

/// An array of items that each spell their words.
pub proof fn lemma_arr_of<T>(s: Seq<T>, f: spec_fn(T) -> Seq<u8>, g: spec_fn(T) -> Seq<Word>)
    requires
        s.len() <= u64::MAX,
        forall|i: int| 0 <= i < s.len() ==> spells(f(#[trigger] s[i]), g(s[i])),
    ensures
        spells(cbor::array_of(s, f), arr_of(s, g)),
{
    lemma_arr(s.len());
    lemma_each(s, f, g);
    lemma_spells_append(cbor::array_head(s.len()), cbor::concat_map(s, f), arr(s.len()), each(s,
        g));
}

/// A map of entries that each spell their words.
pub proof fn lemma_dict_of<T>(s: Seq<T>, f: spec_fn(T) -> Seq<u8>, g: spec_fn(T) -> Seq<Word>)
    requires
        s.len() <= u64::MAX,
        forall|i: int| 0 <= i < s.len() ==> spells(f(#[trigger] s[i]), g(s[i])),
    ensures
        spells(cbor::map_of(s, f), dict_of(s, g)),
{
    lemma_dict(s.len());
    lemma_each(s, f, g);
    lemma_spells_append(cbor::map_head(s.len()), cbor::concat_map(s, f), dict(s.len()), each(s, g));
}

/// What reads as two parts reads as the one and then the other.
pub proof fn lemma_reads_split(b: Seq<u8>, p: int, v: Seq<Word>, w: Seq<Word>, q: int) -> (m: int)
    requires
        reads(b, p, v + w, q),
    ensures
        reads(b, p, v, m),
        reads(b, m, w, q),
    decreases v.len(),
{
    if v.len() == 0 {
        assert(v + w =~= w);
        p
    } else {
        assert((v + w)[0] == v[0]);
        assert((v + w).skip(1) =~= v.skip(1) + w);
        lemma_reads_split(b, (word_at(b, p)->0).1, v.skip(1), w, q)
    }
}

/// The words of the first item come first.
pub proof fn lemma_each_first<T>(s: Seq<T>, g: spec_fn(T) -> Seq<Word>)
    requires
        s.len() > 0,
    ensures
        each(s, g) == g(s[0]) + each(s.skip(1), g),
    decreases s.len(),
{
    let init = s.drop_last();
    if s.len() == 1 {
        reveal_with_fuel(each, 2);
        assert(s.skip(1) =~= Seq::<T>::empty());
        assert(each(s, g) =~= g(s[0]) + each(s.skip(1), g));
    } else {
        lemma_each_first(init, g);
        assert(s.skip(1).drop_last() =~= init.skip(1));
        assert(s.skip(1).last() == s.last());
        assert(each(s, g) =~= g(s[0]) + each(s.skip(1), g));
    }
}

/// A number is found where it is read.
pub proof fn lemma_number_at(b: Seq<u8>, p: int, n: nat, q: int)
    requires
        reads(b, p, num(n), q),
    ensures
        cbor::head_at(b, p, 0) == (cbor::Read { value: Some(n), end: q }),
        forall|max: nat|
            n <= max ==> #[trigger] cbor::uint_at(b, p, max) == (cbor::Read {
                value: Some(n),
                end: q,
            }),
        p < q <= b.len(),
        b[p] < 0x20,
{
    reveal_with_fuel(reads, 2);
}

/// The head of an array is found where it is read.
pub proof fn lemma_array_at(b: Seq<u8>, p: int, n: nat, q: int)
    requires
        reads(b, p, arr(n), q),
    ensures
        cbor::len_at(b, p, 4) == (cbor::Read { value: Some(Some(n)), end: q }),
        p < q <= b.len(),
        0x80 <= b[p] < 0x9f,
{
    reveal_with_fuel(reads, 2);
}

/// The head of a map is found where it is read.
pub proof fn lemma_entries_at(b: Seq<u8>, p: int, n: nat, q: int)
    requires
        reads(b, p, dict(n), q),
    ensures
        cbor::len_at(b, p, 5) == (cbor::Read { value: Some(Some(n)), end: q }),
        p < q <= b.len(),
{
    reveal_with_fuel(reads, 2);
}

/// A byte string is found where it is read.
pub proof fn lemma_bytes_at(b: Seq<u8>, p: int, s: Seq<u8>, q: int)
    requires
        reads(b, p, bin(s), q),
    ensures
        cbor::bytes_at(b, p) == (cbor::Read { value: Some(s), end: q }),
        p < q <= b.len(),
{
    reveal_with_fuel(reads, 2);
}

/// A tag is found where it is read.
pub proof fn lemma_tag_at(b: Seq<u8>, p: int, n: nat, q: int)
    requires
        reads(b, p, tag(n), q),
    ensures
        cbor::head_at(b, p, 6) == (cbor::Read { value: Some(n), end: q }),
        p < q <= b.len(),
{
    reveal_with_fuel(reads, 2);
}

/// `false` or `true` is found where it is read.
pub proof fn lemma_truth_at(b: Seq<u8>, p: int, v: bool, q: int)
    requires
        reads(b, p, truth(v), q),
    ensures
        cbor::bool_at(b, p) == (cbor::Read { value: Some(v), end: q }),
        p < q <= b.len(),
{
    reveal_with_fuel(reads, 2);
}

/// The start of an open array is found where it is read.
pub proof fn lemma_open_at(b: Seq<u8>, p: int, q: int)
    requires
        reads(b, p, seq![Word::OpenArray], q),
    ensures
        cbor::len_at(b, p, 4) == (cbor::Read { value: Some(None::<nat>), end: q }),
        q == p + 1,
        p < b.len(),
{
    reveal_with_fuel(reads, 2);
}

/// A break is found where it is read.
pub proof fn lemma_break_at(b: Seq<u8>, p: int, q: int)
    requires
        reads(b, p, seq![Word::Break], q),
    ensures
        cbor::break_at(b, p),
        q == p + 1,
{
    reveal_with_fuel(reads, 2);
}

pub broadcast group group_words {
    lemma_spells_append,
    lemma_num,
    lemma_int_of,
    lemma_arr,
    lemma_dict,
    lemma_tag,
    lemma_bin,
    lemma_txt,
    lemma_truth,
    lemma_null,
    lemma_open,
    lemma_break,
    lemma_nothing,
}

} // verus!
