//! Cutting messages into segments.
//!
//! Every channel has a queue of messages. In each round, each channel with something to
//! send gets one segment: the next piece of the message at the front of its queue. So a
//! long message keeps no other channel waiting, and the bytes of two messages of one
//! channel are never mixed. The segments of a round are gathered and written together,
//! as long as they are not too many, nor too many bytes.
use crate::cbor::put_raw;
use crate::mux::segment;
use crate::mux::segment::{encode_header, Direction, SduHeader};
use crate::mux::ChannelKey;
use vstd::prelude::*;
use vstd::slice::{slice_subrange, slice_to_vec};

verus! {

/// Most segments that are written together, and most messages that are taken on between
/// two rounds.
pub const MAX_SDUS_PER_BATCH: usize = 100;

/// The messages that wait on a channel. The first one may be the rest of a message of
/// which a part was sent.
#[derive(Debug)]
pub struct EgressQueue {
    pub key: ChannelKey,
    pub messages: Vec<Vec<u8>>,
}

/// What waits on a channel, by contents.
pub struct Waiting {
    pub key: ChannelKey,
    pub messages: Seq<Seq<u8>>,
}

/// The contents of messages.
pub open spec fn messages_view(v: Seq<Vec<u8>>) -> Seq<Seq<u8>> {
    v.map_values(|m: Vec<u8>| m@)
}

impl View for EgressQueue {
    type V = Waiting;

    open spec fn view(&self) -> Waiting {
        Waiting { key: self.key, messages: messages_view(self.messages@) }
    }
}

/// The queues.
#[derive(Debug)]
pub struct EgressTask {
    pub queues: Vec<EgressQueue>,
    /// Most bytes of a message in a segment.
    pub sdu_size: usize,
    /// Most bytes that are written together, but for a single segment that is longer.
    pub batch_size: usize,
}

impl View for EgressTask {
    type V = Seq<Waiting>;

    open spec fn view(&self) -> Seq<Waiting> {
        self.queues@.map_values(|q: EgressQueue| q@)
    }
}

/// The keys of the queues.
pub open spec fn keys(s: Seq<Waiting>) -> Seq<ChannelKey> {
    s.map_values(|w: Waiting| w.key)
}

/// Whether no channel has two queues, and no queue is empty.
pub open spec fn tidy(s: Seq<Waiting>) -> bool {
    &&& keys(s).no_duplicates()
    &&& forall|i: int| 0 <= i < s.len() ==> (#[trigger] s[i]).messages.len() > 0
}

/// The bytes of messages, one after another.
pub open spec fn joined(m: Seq<Seq<u8>>) -> Seq<u8>
    decreases m.len(),
{
    if m.len() == 0 {
        Seq::empty()
    } else {
        m[0] + joined(m.skip(1))
    }
}

/// Everything that waits on a channel, as one sequence of bytes.
pub open spec fn pending(s: Seq<Waiting>, k: ChannelKey) -> Seq<u8>
    decreases s.len(),
{
    if s.len() == 0 {
        Seq::empty()
    } else if s[0].key == k {
        joined(s[0].messages)
    } else {
        pending(s.skip(1), k)
    }
}

/// With a message more.
pub open spec fn enqueued(s: Seq<Waiting>, k: ChannelKey, m: Seq<u8>) -> Seq<Waiting>
    decreases s.len(),
{
    if s.len() == 0 {
        seq![Waiting { key: k, messages: seq![m] }]
    } else if s[0].key == k {
        s.update(0, Waiting { key: k, messages: s[0].messages.push(m) })
    } else {
        seq![s[0]] + enqueued(s.skip(1), k, m)
    }
}

/// The bytes of the front message that go into the next segment.
pub open spec fn piece(w: Waiting, sdu_size: usize) -> Seq<u8> {
    let front = w.messages[0];
    if front.len() <= sdu_size {
        front
    } else {
        front.take(sdu_size as int)
    }
}

/// The next segment of a channel. Its header holds the last 16 bits of the length.
pub open spec fn sdu(w: Waiting, sdu_size: usize, timestamp: u32) -> Seq<u8> {
    let p = piece(w, sdu_size);
    segment::header_bytes(
        SduHeader {
            timestamp,
            protocol_id: w.key.protocol_id,
            direction: w.key.direction,
            payload_length: p.len() as u16,
        },
    ) + p
}

/// What waits on a channel once the next segment was sent.
pub open spec fn sent(w: Waiting, sdu_size: usize) -> Waiting {
    let front = w.messages[0];
    Waiting {
        key: w.key,
        messages: if front.len() <= sdu_size {
            w.messages.skip(1)
        } else {
            w.messages.update(0, front.skip(sdu_size as int))
        },
    }
}

/// The queues without the empty ones.
pub open spec fn retained(s: Seq<Waiting>) -> Seq<Waiting>
    decreases s.len(),
{
    if s.len() == 0 {
        s
    } else {
        let before = retained(s.drop_last());
        if s.last().messages.len() > 0 {
            before.push(s.last())
        } else {
            before
        }
    }
}

/// What waits after a round.
pub open spec fn after_round(s: Seq<Waiting>, sdu_size: usize) -> Seq<Waiting> {
    retained(s.map_values(|w: Waiting| sent(w, sdu_size)))
}

/// The segments of a round.
pub open spec fn round_sdus(s: Seq<Waiting>, sdu_size: usize, times: Seq<u32>) -> Seq<Seq<u8>> {
    Seq::new(s.len(), |i: int| sdu(s[i], sdu_size, times[i]))
}

/// The bytes of segments, one after another.
pub open spec fn flat(s: Seq<Seq<u8>>) -> Seq<u8>
    decreases s.len(),
{
    if s.len() == 0 {
        Seq::empty()
    } else {
        flat(s.drop_last()) + s.last()
    }
}

/// Whether a segment may go into the same write as those in `batch`: there are not too
/// many of them, and together they are no more than `batch_size` bytes.
pub open spec fn joins(batch: Seq<Seq<u8>>, sdu: Seq<u8>, batch_size: usize) -> bool {
    batch.len() < MAX_SDUS_PER_BATCH && flat(batch).len() + sdu.len() <= batch_size
}

/// The batches with a segment more: in the last one if it may go there, else in a new one.
pub open spec fn with_sdu(batches: Seq<Seq<Seq<u8>>>, sdu: Seq<u8>, batch_size: usize) -> Seq<
    Seq<Seq<u8>>,
> {
    if batches.len() > 0 && joins(batches.last(), sdu, batch_size) {
        batches.drop_last().push(batches.last().push(sdu))
    } else {
        batches.push(seq![sdu])
    }
}

/// Segments gathered into batches, in order.
pub open spec fn gathered(sdus: Seq<Seq<u8>>, batch_size: usize) -> Seq<Seq<Seq<u8>>>
    decreases sdus.len(),
{
    if sdus.len() == 0 {
        Seq::empty()
    } else {
        with_sdu(gathered(sdus.drop_last(), batch_size), sdus.last(), batch_size)
    }
}

/// What is written of batches: each of them at once.
pub open spec fn written(batches: Seq<Seq<Seq<u8>>>) -> Seq<Seq<u8>> {
    batches.map_values(|b: Seq<Seq<u8>>| flat(b))
}

/// The writes of a round.
pub open spec fn round_writes(sdus: Seq<Seq<u8>>, batch_size: usize) -> Seq<Seq<u8>> {
    written(gathered(sdus, batch_size))
}

proof fn lemma_flat_one(x: Seq<u8>)
    ensures
        flat(seq![x]) == x,
{
    reveal_with_fuel(flat, 2);
    assert(seq![x].drop_last() =~= Seq::empty());
    assert(flat(seq![x]) =~= x);
}

proof fn lemma_messages_skip(v: Seq<Vec<u8>>)
    requires
        v.len() > 0,
    ensures
        messages_view(v.remove(0)) == messages_view(v).skip(1),
{
    assert(messages_view(v.remove(0)) =~= messages_view(v).skip(1));
}

proof fn lemma_enqueued_at(s: Seq<Waiting>, k: ChannelKey, m: Seq<u8>, i: int)
    requires
        0 <= i < s.len(),
        s[i].key == k,
        forall|j: int| 0 <= j < i ==> (#[trigger] s[j]).key != k,
    ensures
        enqueued(s, k, m) == s.update(i, Waiting { key: k, messages: s[i].messages.push(m) }),
    decreases i,
{
    if i > 0 {
        assert(s[0].key != k);
        assert forall|j: int| 0 <= j < i - 1 implies (#[trigger] s.skip(1)[j]).key != k by {
            assert(s.skip(1)[j] == s[j + 1]);
        }
        lemma_enqueued_at(s.skip(1), k, m, i - 1);
        assert(enqueued(s, k, m) =~= s.update(
            i,
            Waiting { key: k, messages: s[i].messages.push(m) },
        ));
    }
}

proof fn lemma_enqueued_new(s: Seq<Waiting>, k: ChannelKey, m: Seq<u8>)
    requires
        forall|j: int| 0 <= j < s.len() ==> (#[trigger] s[j]).key != k,
    ensures
        enqueued(s, k, m) == s.push(Waiting { key: k, messages: seq![m] }),
    decreases s.len(),
{
    if s.len() > 0 {
        assert(s[0].key != k);
        assert forall|j: int| 0 <= j < s.skip(1).len() implies (#[trigger] s.skip(1)[j]).key
            != k by {
            assert(s.skip(1)[j] == s[j + 1]);
        }
        lemma_enqueued_new(s.skip(1), k, m);
    }
    assert(enqueued(s, k, m) =~= s.push(Waiting { key: k, messages: seq![m] }));
}

proof fn lemma_retained_keys(s: Seq<Waiting>)
    requires
        keys(s).no_duplicates(),
    ensures
        keys(retained(s)).no_duplicates(),
        forall|k: ChannelKey| keys(retained(s)).contains(k) ==> keys(s).contains(k),
        forall|i: int| 0 <= i < retained(s).len() ==> (#[trigger] retained(s)[i]).messages.len() > 0,
    decreases s.len(),
{
    if s.len() > 0 {
        let init = s.drop_last();
        assert(keys(init) =~= keys(s).drop_last());
        assert(keys(init).no_duplicates()) by {
            assert forall|i: int, j: int|
                0 <= i < init.len() && 0 <= j < init.len() && i != j implies keys(init)[i]
                != keys(init)[j] by {
                assert(keys(s)[i] == keys(init)[i] && keys(s)[j] == keys(init)[j]);
            }
        }
        lemma_retained_keys(init);
        let before = retained(init);
        let r = retained(s);
        assert forall|k: ChannelKey| keys(init).contains(k) implies keys(s).contains(k) by {
            let i = choose|i: int| 0 <= i < keys(init).len() && keys(init)[i] == k;
            assert(keys(s)[i] == k);
        }
        assert(keys(s)[s.len() - 1] == s.last().key);
        if s.last().messages.len() > 0 {
            assert(keys(r) =~= keys(before).push(s.last().key));
            assert forall|k: ChannelKey| keys(r).contains(k) implies keys(s).contains(k) by {
                let i = choose|i: int| 0 <= i < keys(r).len() && keys(r)[i] == k;
                if i < before.len() {
                    assert(keys(before)[i] == k);
                }
            }
            assert forall|i: int, j: int|
                0 <= i < r.len() && 0 <= j < r.len() && i != j implies keys(r)[i]
                != keys(r)[j] by {
                if i == before.len() || j == before.len() {
                    let m = if i == before.len() {
                        j
                    } else {
                        i
                    };
                    assert(keys(before)[m] == keys(r)[m]);
                    assert(keys(before).contains(keys(before)[m]));
                    assert(keys(init).contains(keys(before)[m]));
                    let n = choose|n: int| 0 <= n < keys(init).len() && keys(init)[n] == keys(
                        before,
                    )[m];
                    assert(keys(s)[n] == keys(before)[m]);
                    assert(keys(s)[n] != keys(s)[s.len() - 1]);
                } else {
                    assert(keys(before)[i] == keys(r)[i] && keys(before)[j] == keys(r)[j]);
                }
            }
        }
    }
}

proof fn lemma_enqueued_tidy(s: Seq<Waiting>, k: ChannelKey, m: Seq<u8>, i: int)
    requires
        tidy(s),
        0 <= i <= s.len(),
        i < s.len() ==> s[i].key == k,
        forall|j: int| 0 <= j < i ==> (#[trigger] s[j]).key != k,
    ensures
        tidy(enqueued(s, k, m)),
{
    let r = enqueued(s, k, m);
    if i < s.len() {
        lemma_enqueued_at(s, k, m, i);
        assert(keys(r) =~= keys(s));
    } else {
        lemma_enqueued_new(s, k, m);
        assert(keys(r) =~= keys(s).push(k));
        assert forall|a: int, b: int|
            0 <= a < r.len() && 0 <= b < r.len() && a != b implies keys(r)[a] != keys(r)[b] by {
            if a == s.len() {
                assert(s[b].key != k);
            } else if b == s.len() {
                assert(s[a].key != k);
            } else {
                assert(keys(s)[a] == keys(r)[a] && keys(s)[b] == keys(r)[b]);
            }
        }
    }
}

/// Appends a segment to the last write, if it may go there, else to a new one. `count` is
/// the number of segments in the last write.
fn gather(
    writes: &mut Vec<Vec<u8>>,
    count: &mut usize,
    sdu: Vec<u8>,
    batch_size: usize,
    Ghost(batches): Ghost<Seq<Seq<Seq<u8>>>>,
)
    requires
        messages_view(old(writes)@) == written(batches),
        batches.len() > 0 ==> *old(count) == batches.last().len(),
    ensures
        messages_view(final(writes)@) == written(with_sdu(batches, sdu@, batch_size)),
        *final(count) == with_sdu(batches, sdu@, batch_size).last().len(),
{
    let n: usize = writes.len();
    let ghost before = writes@;
    proof {
        assert(messages_view(before).len() == written(batches).len());
        assert forall|j: int| 0 <= j < n implies #[trigger] before[j]@ == flat(batches[j]) by {
            assert(messages_view(before)[j] == written(batches)[j]);
        }
    }
    if n > 0 && *count < MAX_SDUS_PER_BATCH {
        let len: usize = writes[n - 1].len();
        if len <= batch_size && sdu.len() <= batch_size - len {
            let mut last: Vec<u8> = writes.remove(n - 1);
            put_raw(&mut last, sdu.as_slice());
            writes.push(last);
            *count = *count + 1;
            proof {
                let more = batches.last().push(sdu@);
                assert(more.drop_last() =~= batches.last());
                assert(messages_view(writes@) =~= written(batches.drop_last().push(more)));
            }
            return;
        }
    }
    writes.push(sdu);
    *count = 1;
    proof {
        lemma_flat_one(sdu@);
        assert(messages_view(writes@) =~= written(batches.push(seq![sdu@])));
    }
}

impl EgressTask {
    /// Whether no channel has two queues, and no queue is empty.
    pub open spec fn wf(&self) -> bool {
        tidy(self@)
    }

    /// No queues.
    pub fn new(sdu_size: usize, batch_size: usize) -> (r: EgressTask)
        ensures
            r.wf(),
            r@.len() == 0,
            r.sdu_size == sdu_size,
            r.batch_size == batch_size,
    {
        EgressTask { queues: Vec::new(), sdu_size, batch_size }
    }

    /// Whether nothing waits.
    pub fn is_idle(&self) -> (r: bool)
        ensures
            r == (self@.len() == 0),
    {
        self.queues.len() == 0
    }

    /// Puts a message at the end of the queue of a channel.
    pub fn enqueue(&mut self, protocol_id: u16, direction: Direction, message: Vec<u8>)
        requires
            old(self).wf(),
        ensures
            final(self).wf(),
            final(self)@ == enqueued(
                old(self)@,
                (ChannelKey { protocol_id, direction }),
                message@,
            ),
            final(self).sdu_size == old(self).sdu_size,
            final(self).batch_size == old(self).batch_size,
    {
        let key = ChannelKey { protocol_id, direction };
        let ghost s = self@;
        let mut i: usize = 0;
        while i < self.queues.len()
            invariant
                self@ == s,
                i <= self.queues@.len(),
                forall|j: int| 0 <= j < i ==> (#[trigger] s[j]).key != key,
                self.sdu_size == old(self).sdu_size,
                self.batch_size == old(self).batch_size,
                s == old(self)@,
                tidy(s),
                key == (ChannelKey { protocol_id, direction }),
            decreases self.queues@.len() - i,
        {
            assert(s[i as int] == self.queues@[i as int]@);
            if self.queues[i].key == key {
                let mut q = self.queues.remove(i);
                let ghost before = q.messages@;
                q.messages.push(message);
                proof {
                    assert(messages_view(q.messages@) =~= messages_view(before).push(message@));
                }
                self.queues.insert(i, q);
                proof {
                    lemma_enqueued_at(s, key, message@, i as int);
                    lemma_enqueued_tidy(s, key, message@, i as int);
                    assert(self@ =~= enqueued(s, key, message@));
                }
                return;
            }
            i += 1;
        }
        let mut messages: Vec<Vec<u8>> = Vec::new();
        messages.push(message);
        proof {
            assert(messages_view(messages@) =~= seq![message@]);
            lemma_enqueued_new(s, key, message@);
            lemma_enqueued_tidy(s, key, message@, s.len() as int);
        }
        self.queues.push(EgressQueue { key, messages });
        assert(self@ =~= enqueued(s, key, message@));
    }

    /// One round: a segment for each channel. `times` holds the time stamps of the
    /// segments. The result is what is to be written, in order.
    pub fn round(&mut self, times: &Vec<u32>) -> (r: Vec<Vec<u8>>)
        requires
            old(self).wf(),
            times@.len() >= old(self)@.len(),
        ensures
            final(self).wf(),
            final(self)@ == after_round(old(self)@, old(self).sdu_size),
            messages_view(r@) == round_writes(
                round_sdus(old(self)@, old(self).sdu_size, times@),
                old(self).batch_size,
            ),
            final(self).sdu_size == old(self).sdu_size,
            final(self).batch_size == old(self).batch_size,
    {
        let ghost s = self@;
        let sdu_size: usize = self.sdu_size;
        let batch_size: usize = self.batch_size;
        let ghost sdus = round_sdus(s, sdu_size, times@);
        let ghost f = |w: Waiting| sent(w, sdu_size);
        let ghost all = s.map_values(f);
        let mut writes: Vec<Vec<u8>> = Vec::new();
        let mut count: usize = 0;
        let mut kept: Vec<EgressQueue> = Vec::new();
        let n: usize = self.queues.len();
        let mut i: usize = 0;
        proof {
            assert(messages_view(writes@) =~= written(gathered(sdus.take(0), batch_size)));
            assert(kept@.map_values(|q: EgressQueue| q@) =~= retained(all.take(0)));
        }
        while i < n
            invariant
                i <= n,
                n == s.len(),
                tidy(s),
                s == old(self)@,
                times@.len() >= n,
                f == (|w: Waiting| sent(w, sdu_size)),
                all == s.map_values(f),
                sdus == round_sdus(s, sdu_size, times@),
                self.queues@.len() == n - i,
                forall|j: int| i <= j < n ==> #[trigger] s[j] == self.queues@[j - i]@,
                messages_view(writes@) == written(gathered(sdus.take(i as int), batch_size)),
                i > 0 ==> count == gathered(sdus.take(i as int), batch_size).last().len(),
                kept@.map_values(|q: EgressQueue| q@) == retained(all.take(i as int)),
                self.sdu_size == sdu_size,
                self.batch_size == batch_size,
            decreases n - i,
        {
            let ghost w = s[i as int];
            let ghost before = self.queues@;
            let mut q = self.queues.remove(0);
            assert(w == q@);
            assert(w.messages.len() > 0);
            let ghost msgs = q.messages@;
            let front: Vec<u8> = q.messages.remove(0);
            proof {
                lemma_messages_skip(msgs);
                assert(w.messages[0] == front@);
                assert forall|j: int| i + 1 <= j < n implies #[trigger] s[j] == self.queues@[j - i
                    - 1]@ by {
                    assert(self.queues@[j - i - 1] == before[j - i]);
                }
            }
            let len: usize = if front.len() <= sdu_size {
                front.len()
            } else {
                sdu_size
            };
            let header = SduHeader {
                timestamp: times[i],
                protocol_id: q.key.protocol_id,
                direction: q.key.direction,
                payload_length: len as u16,
            };
            let head = encode_header(&header);
            let mut bytes: Vec<u8> = Vec::new();
            put_raw(&mut bytes, head.as_slice());
            put_raw(&mut bytes, slice_subrange(front.as_slice(), 0, len));
            proof {
                assert(piece(w, sdu_size) =~= front@.subrange(0, len as int));
                assert(bytes@ =~= sdu(w, sdu_size, times@[i as int]));
                assert(sdus[i as int] == sdu(w, sdu_size, times@[i as int]));
                assert(sdus.take(i + 1).drop_last() =~= sdus.take(i as int));
                assert(sdus.take(i + 1).last() == sdus[i as int]);
            }
            if len < front.len() {
                let rest = slice_to_vec(slice_subrange(front.as_slice(), len, front.len()));
                assert(rest@ =~= front@.skip(sdu_size as int));
                q.messages.insert(0, rest);
                proof {
                    assert(messages_view(q.messages@) =~= w.messages.update(0, rest@));
                }
            }
            assert(q@.messages =~= sent(w, sdu_size).messages);
            gather(
                &mut writes,
                &mut count,
                bytes,
                batch_size,
                Ghost(gathered(sdus.take(i as int), batch_size)),
            );
            proof {
                assert(all.take(i + 1).drop_last() =~= all.take(i as int));
                assert(all.take(i + 1).last() == sent(w, sdu_size));
            }
            let ghost kept_before = kept@;
            if q.messages.len() > 0 {
                kept.push(q);
                proof {
                    assert(kept@.map_values(|q: EgressQueue| q@) =~= kept_before.map_values(
                        |q: EgressQueue| q@,
                    ).push(q@));
                }
            }
            i += 1;
        }
        proof {
            assert(sdus.take(i as int) =~= sdus);
            assert(all.take(i as int) =~= all);
            assert(keys(all) =~= keys(s));
            lemma_retained_keys(all);
        }
        self.queues = kept;
        writes
    }
}

// ---------------------------------------------------------------------------
// Laws
// ---------------------------------------------------------------------------

proof fn lemma_pending_at(s: Seq<Waiting>, i: int)
    requires
        keys(s).no_duplicates(),
        0 <= i < s.len(),
    ensures
        pending(s, s[i].key) == joined(s[i].messages),
    decreases i,
{
    if i > 0 {
        assert(keys(s)[0] != keys(s)[i]);
        let t = s.skip(1);
        assert(keys(t).no_duplicates()) by {
            assert forall|a: int, b: int|
                0 <= a < t.len() && 0 <= b < t.len() && a != b implies keys(t)[a]
                != keys(t)[b] by {
                assert(keys(t)[a] == keys(s)[a + 1] && keys(t)[b] == keys(s)[b + 1]);
            }
        }
        assert(t[i - 1] == s[i]);
        lemma_pending_at(t, i - 1);
    }
}

proof fn lemma_pending_none(s: Seq<Waiting>, k: ChannelKey)
    requires
        !keys(s).contains(k),
    ensures
        pending(s, k) == Seq::<u8>::empty(),
    decreases s.len(),
{
    if s.len() > 0 {
        assert(keys(s)[0] == s[0].key);
        let t = s.skip(1);
        assert(!keys(t).contains(k)) by {
            if keys(t).contains(k) {
                let i = choose|i: int| 0 <= i < keys(t).len() && keys(t)[i] == k;
                assert(keys(s)[i + 1] == k);
            }
        }
        lemma_pending_none(t, k);
    }
}

proof fn lemma_joined_push(m: Seq<Seq<u8>>, x: Seq<u8>)
    ensures
        joined(m.push(x)) == joined(m) + x,
    decreases m.len(),
{
    if m.len() == 0 {
        reveal_with_fuel(joined, 2);
        assert(m.push(x).skip(1) =~= Seq::empty());
        assert(joined(m.push(x)) =~= joined(m) + x);
    } else {
        assert(m.push(x).skip(1) =~= m.skip(1).push(x));
        lemma_joined_push(m.skip(1), x);
        assert(joined(m.push(x)) =~= joined(m) + x);
    }
}

/// A message is queued behind everything that waits on its channel, and changes no other
/// channel.
pub proof fn lemma_enqueue_appends(s: Seq<Waiting>, k: ChannelKey, m: Seq<u8>, x: ChannelKey)
    ensures
        pending(enqueued(s, k, m), k) == pending(s, k) + m,
        x != k ==> pending(enqueued(s, k, m), x) == pending(s, x),
    decreases s.len(),
{
    let r = enqueued(s, k, m);
    if s.len() == 0 {
        reveal_with_fuel(joined, 2);
        reveal_with_fuel(pending, 2);
        assert(r.skip(1) =~= Seq::empty());
        assert(seq![m].skip(1) =~= Seq::empty());
        assert(joined(seq![m]) =~= m);
        assert(Seq::<u8>::empty() + m =~= m);
    } else if s[0].key == k {
        lemma_joined_push(s[0].messages, m);
        assert(r.skip(1) =~= s.skip(1));
    } else {
        lemma_enqueue_appends(s.skip(1), k, m, x);
        assert(r.skip(1) =~= enqueued(s.skip(1), k, m));
    }
}

/// What a round sends on a channel: the piece of its queue, nothing where it has none.
pub open spec fn round_payload(s: Seq<Waiting>, sdu_size: usize, k: ChannelKey) -> Seq<u8>
    decreases s.len(),
{
    if s.len() == 0 {
        Seq::empty()
    } else if s[0].key == k {
        piece(s[0], sdu_size)
    } else {
        round_payload(s.skip(1), sdu_size, k)
    }
}

proof fn lemma_sent_joined(w: Waiting, sdu_size: usize)
    requires
        w.messages.len() > 0,
    ensures
        piece(w, sdu_size) + joined(sent(w, sdu_size).messages) == joined(w.messages),
{
    let front = w.messages[0];
    let after = sent(w, sdu_size).messages;
    if front.len() > sdu_size {
        assert(after.skip(1) =~= w.messages.skip(1));
        assert(front =~= front.take(sdu_size as int) + front.skip(sdu_size as int));
        assert(piece(w, sdu_size) + joined(after) =~= joined(w.messages));
    }
}

proof fn lemma_round_payload_at(s: Seq<Waiting>, sdu_size: usize, i: int)
    requires
        keys(s).no_duplicates(),
        0 <= i < s.len(),
    ensures
        round_payload(s, sdu_size, s[i].key) == piece(s[i], sdu_size),
    decreases i,
{
    if i > 0 {
        assert(keys(s)[0] != keys(s)[i]);
        let t = s.skip(1);
        assert(keys(t).no_duplicates()) by {
            assert forall|a: int, b: int|
                0 <= a < t.len() && 0 <= b < t.len() && a != b implies keys(t)[a]
                != keys(t)[b] by {
                assert(keys(t)[a] == keys(s)[a + 1] && keys(t)[b] == keys(s)[b + 1]);
            }
        }
        assert(t[i - 1] == s[i]);
        lemma_round_payload_at(t, sdu_size, i - 1);
    }
}

proof fn lemma_round_payload_none(s: Seq<Waiting>, sdu_size: usize, k: ChannelKey)
    requires
        !keys(s).contains(k),
    ensures
        round_payload(s, sdu_size, k) == Seq::<u8>::empty(),
    decreases s.len(),
{
    if s.len() > 0 {
        assert(keys(s)[0] == s[0].key);
        let t = s.skip(1);
        assert(!keys(t).contains(k)) by {
            if keys(t).contains(k) {
                let i = choose|i: int| 0 <= i < keys(t).len() && keys(t)[i] == k;
                assert(keys(s)[i + 1] == k);
            }
        }
        lemma_round_payload_none(t, sdu_size, k);
    }
}

proof fn lemma_retained_pending(s: Seq<Waiting>, k: ChannelKey)
    requires
        keys(s).no_duplicates(),
    ensures
        pending(retained(s), k) == pending(s, k),
{
    lemma_retained_keys(s);
    let r = retained(s);
    if keys(r).contains(k) {
        let j = choose|j: int| 0 <= j < keys(r).len() && keys(r)[j] == k;
        lemma_pending_at(r, j);
        lemma_retained_member(s, j);
        let i = choose|i: int| 0 <= i < s.len() && #[trigger] s[i] == r[j];
        assert(s[i] == r[j]);
        lemma_pending_at(s, i);
    } else {
        lemma_pending_none(r, k);
        if keys(s).contains(k) {
            let i = choose|i: int| 0 <= i < keys(s).len() && keys(s)[i] == k;
            lemma_pending_at(s, i);
            if s[i].messages.len() > 0 {
                lemma_retained_keeps(s, i);
                let j = choose|j: int| 0 <= j < r.len() && #[trigger] r[j] == s[i];
                assert(keys(r)[j] == k);
            }
        } else {
            lemma_pending_none(s, k);
        }
    }
}

proof fn lemma_retained_member(s: Seq<Waiting>, j: int)
    requires
        0 <= j < retained(s).len(),
    ensures
        exists|i: int| 0 <= i < s.len() && #[trigger] s[i] == retained(s)[j],
    decreases s.len(),
{
    let before = retained(s.drop_last());
    if j < before.len() {
        lemma_retained_member(s.drop_last(), j);
        let i = choose|i: int|
            0 <= i < s.drop_last().len() && #[trigger] s.drop_last()[i] == before[j];
        assert(s[i] == retained(s)[j]);
    } else {
        assert(s[s.len() - 1] == retained(s)[j]);
    }
}

proof fn lemma_retained_keeps(s: Seq<Waiting>, i: int)
    requires
        0 <= i < s.len(),
        s[i].messages.len() > 0,
    ensures
        exists|j: int| 0 <= j < retained(s).len() && #[trigger] retained(s)[j] == s[i],
    decreases s.len(),
{
    let before = retained(s.drop_last());
    if i < s.len() - 1 {
        lemma_retained_keeps(s.drop_last(), i);
        let j = choose|j: int| 0 <= j < before.len() && #[trigger] before[j] == s.drop_last()[i];
        assert(retained(s)[j] == s[i]);
    } else {
        assert(retained(s)[before.len() as int] == s[i]);
    }
}

/// A round takes from the front of each channel what it sends on it: what is sent,
/// followed by what still waits, is what waited before. So the bytes of a channel are
/// sent in the order in which its messages were queued, and none is lost or doubled.
pub proof fn lemma_round_keeps_order(s: Seq<Waiting>, sdu_size: usize, k: ChannelKey)
    requires
        tidy(s),
    ensures
        round_payload(s, sdu_size, k) + pending(after_round(s, sdu_size), k) == pending(s, k),
{
    let f = |w: Waiting| sent(w, sdu_size);
    let all = s.map_values(f);
    assert(keys(all) =~= keys(s));
    lemma_retained_pending(all, k);
    if keys(s).contains(k) {
        let i = choose|i: int| 0 <= i < keys(s).len() && keys(s)[i] == k;
        lemma_pending_at(s, i);
        lemma_pending_at(all, i);
        lemma_round_payload_at(s, sdu_size, i);
        lemma_sent_joined(s[i], sdu_size);
    } else {
        lemma_pending_none(s, k);
        lemma_pending_none(all, k);
        lemma_round_payload_none(s, sdu_size, k);
        assert(Seq::<u8>::empty() + Seq::<u8>::empty() =~= Seq::<u8>::empty());
    }
}

/// Every channel with something to send gets exactly one segment in a round, which holds
/// no more than `sdu_size` bytes of it.
pub proof fn lemma_round_is_fair(s: Seq<Waiting>, sdu_size: usize, times: Seq<u32>)
    requires
        tidy(s),
    ensures
        round_sdus(s, sdu_size, times).len() == s.len(),
        forall|i: int|
            0 <= i < s.len() ==> (#[trigger] round_sdus(s, sdu_size, times)[i]) == sdu(
                s[i],
                sdu_size,
                times[i],
            ) && piece(s[i], sdu_size).len() <= sdu_size,
{
}

proof fn lemma_with_sdu(batches: Seq<Seq<Seq<u8>>>, sdu: Seq<u8>, batch_size: usize)
    ensures
        flat(written(with_sdu(batches, sdu, batch_size))) == flat(written(batches)) + sdu,
{
    let r = with_sdu(batches, sdu, batch_size);
    if batches.len() > 0 && joins(batches.last(), sdu, batch_size) {
        let last = batches.last();
        let init = batches.drop_last();
        assert(last.push(sdu).drop_last() =~= last);
        assert(written(r).drop_last() =~= written(init));
        assert(written(batches).drop_last() =~= written(init));
        assert(written(batches).last() == flat(last));
        assert(written(r).last() == flat(last) + sdu);
        assert(flat(written(r)) =~= flat(written(batches)) + sdu);
    } else {
        lemma_flat_one(sdu);
        assert(written(r).drop_last() =~= written(batches));
        assert(written(r).last() == flat(seq![sdu]));
    }
}

/// Gathering changes nothing about the bytes: the writes of a round are its segments, in
/// order.
pub proof fn lemma_gathering_keeps_bytes(sdus: Seq<Seq<u8>>, batch_size: usize)
    ensures
        flat(round_writes(sdus, batch_size)) == flat(sdus),
    decreases sdus.len(),
{
    if sdus.len() > 0 {
        lemma_gathering_keeps_bytes(sdus.drop_last(), batch_size);
        lemma_with_sdu(gathered(sdus.drop_last(), batch_size), sdus.last(), batch_size);
    } else {
        assert(round_writes(sdus, batch_size) =~= Seq::empty());
    }
}

/// No write holds more than `batch_size` bytes, but for a single segment that is longer,
/// and none holds more than `MAX_SDUS_PER_BATCH` segments.
pub proof fn lemma_writes_are_bounded(sdus: Seq<Seq<u8>>, batch_size: usize, i: int)
    requires
        0 <= i < gathered(sdus, batch_size).len(),
    ensures
        1 <= gathered(sdus, batch_size)[i].len() <= MAX_SDUS_PER_BATCH,
        gathered(sdus, batch_size)[i].len() <= 100,
        gathered(sdus, batch_size)[i].len() == 1 || round_writes(sdus, batch_size)[i].len()
            <= batch_size,
    decreases sdus.len(),
{
    let before = gathered(sdus.drop_last(), batch_size);
    let sdu = sdus.last();
    if i < before.len() {
        lemma_writes_are_bounded(sdus.drop_last(), batch_size, i);
    }
    if before.len() > 0 && joins(before.last(), sdu, batch_size) {
        assert(before.last().push(sdu).drop_last() =~= before.last());
    }
}

/// A segment holds as much of the front message as fits, from its start; the rest of that
/// message, if any, stays in front. Its header says which channel it is of and how long it is.
pub proof fn lemma_segments_are_as_long_as_they_can_be(w: Waiting, sdu_size: usize, timestamp: u32)
    requires
        w.messages.len() > 0,
        w.messages[0].len() <= 65535 || sdu_size <= 65535,
        w.key.protocol_id < 0x8000,
        sdu_size > 0,
    ensures
        ({
            let front = w.messages[0];
            let b = sdu(w, sdu_size, timestamp);
            let n = b.len() - 8;
            let rest = sent(w, sdu_size);
            &&& n == if front.len() <= sdu_size {
                front.len() as int
            } else {
                sdu_size as int
            }
            &&& b.skip(8) == front.take(n)
            &&& segment::header_at(b) == (SduHeader {
                timestamp,
                protocol_id: w.key.protocol_id,
                direction: w.key.direction,
                payload_length: n as u16,
            })
            &&& rest.key == w.key
            &&& n == front.len() ==> rest.messages == w.messages.skip(1)
            &&& n < front.len() ==> rest.messages.len() == w.messages.len() && rest.messages[0]
                == front.skip(n) && rest.messages.skip(1) == w.messages.skip(1)
        }),
{
    let p = piece(w, sdu_size);
    let h = SduHeader {
        timestamp,
        protocol_id: w.key.protocol_id,
        direction: w.key.direction,
        payload_length: p.len() as u16,
    };
    segment::lemma_header_roundtrip(h, p);
    let b = sdu(w, sdu_size, timestamp);
    assert(b.skip(8) =~= p);
    assert(p =~= w.messages[0].take(p.len() as int));
    if p.len() < w.messages[0].len() {
        assert(sent(w, sdu_size).messages.skip(1) =~= w.messages.skip(1));
    }
}

/// A message goes behind those that wait on its channel, or starts a queue behind the others;
/// no other queue changes.
pub proof fn lemma_where_a_message_waits(s: Seq<Waiting>, k: ChannelKey, m: Seq<u8>)
    ensures
        ({
            let r = enqueued(s, k, m);
            if exists|i: int| 0 <= i < s.len() && (#[trigger] s[i]).key == k {
                exists|i: int|
                    {
                        &&& 0 <= i < s.len()
                        &&& (#[trigger] s[i]).key == k
                        &&& r == s.update(i, Waiting { key: k, messages: s[i].messages.push(m) })
                    }
            } else {
                r == s.push(Waiting { key: k, messages: seq![m] })
            }
        }),
    decreases s.len(),
{
    let r = enqueued(s, k, m);
    if s.len() == 0 {
        assert(r =~= s.push(Waiting { key: k, messages: seq![m] }));
    } else if s[0].key == k {
        assert(r == s.update(0, Waiting { key: k, messages: s[0].messages.push(m) }));
    } else {
        let t = s.skip(1);
        lemma_where_a_message_waits(t, k, m);
        if exists|i: int| 0 <= i < t.len() && (#[trigger] t[i]).key == k {
            let i = choose|i: int|
                {
                    &&& 0 <= i < t.len()
                    &&& (#[trigger] t[i]).key == k
                    &&& enqueued(t, k, m) == t.update(
                        i,
                        Waiting { key: k, messages: t[i].messages.push(m) },
                    )
                };
            assert(s[i + 1] == t[i]);
            assert(r =~= s.update(
                i + 1,
                Waiting { key: k, messages: s[i + 1].messages.push(m) },
            ));
        } else {
            assert forall|i: int| 0 <= i < s.len() implies (#[trigger] s[i]).key != k by {
                if i > 0 {
                    assert(t[i - 1] == s[i]);
                }
            }
            assert(r =~= s.push(Waiting { key: k, messages: seq![m] }));
        }
    }
}

/// A write is closed only where it is full: it holds as many segments as it may, or the next
/// one would make it too long.
pub proof fn lemma_writes_are_not_closed_early(sdus: Seq<Seq<u8>>, batch_size: usize, i: int)
    requires
        0 <= i < gathered(sdus, batch_size).len() - 1,
    ensures
        ({
            let g = gathered(sdus, batch_size);
            &&& g[i + 1].len() > 0
            &&& g[i].len() == MAX_SDUS_PER_BATCH || flat(g[i]).len() + g[i + 1][0].len()
                > batch_size
        }),
    decreases sdus.len(),
{
    let g = gathered(sdus, batch_size);
    let before = gathered(sdus.drop_last(), batch_size);
    let x = sdus.last();
    lemma_writes_are_bounded(sdus, batch_size, i);
    lemma_writes_are_bounded(sdus, batch_size, i + 1);
    if i + 1 < before.len() {
        lemma_writes_are_not_closed_early(sdus.drop_last(), batch_size, i);
        lemma_writes_are_bounded(sdus.drop_last(), batch_size, i + 1);
        if before.len() > 0 && joins(before.last(), x, batch_size) {
            if i + 1 == before.len() - 1 {
                assert(g[i + 1] == before.last().push(x));
                assert(g[i + 1][0] == before.last()[0]);
            }
        }
    } else {
        assert(i == before.len() - 1);
        assert(g[i + 1] == seq![x]);
    }
}

} // verus!
