//! A small most-recently-used cache of decoded images.
use crate::text::same_text;
use vstd::prelude::*;

verus! {

/// How many decoded images the cache keeps.
pub const DECODE_CACHE_CAP: usize = 4;

/// What a decoded image is known by: its path, and its file's length and time of modification, so
/// that an edited file is decoded again. The time is in nanoseconds since the epoch, where the
/// platform reports one.
#[derive(Debug)]
pub struct CacheKey {
    pub path: String,
    pub len: u64,
    pub mtime: Option<i128>,
}

/// What a [`CacheKey`] holds.
#[verifier::ext_equal]
pub ghost struct Key {
    pub path: Seq<char>,
    pub len: u64,
    pub mtime: Option<i128>,
}

impl View for CacheKey {
    type V = Key;

    open spec fn view(&self) -> Key {
        Key { path: self.path@, len: self.len, mtime: self.mtime }
    }
}

impl CacheKey {
    /// Whether two keys name the same state of the same file.
    pub fn same(&self, other: &CacheKey) -> (r: bool)
        ensures
            r == (self@ == other@),
    {
        same_text(self.path.as_str(), other.path.as_str()) && self.len == other.len && match (
            self.mtime,
            other.mtime,
        ) {
            (Some(a), Some(b)) => a == b,
            (None, None) => true,
            _ => false,
        }
    }
}

/// The cache, most recent first.
#[derive(Debug)]
pub struct DecodeCache<I> {
    pub entries: Vec<(CacheKey, I)>,
}

/// Whether an entry has another key.
pub open spec fn other_than<I>(key: Key) -> spec_fn((Key, I)) -> bool {
    |e: (Key, I)| e.0 != key
}

/// The cache after an image came in: the image first, then what was there under other keys, as far
/// as there is room.
pub open spec fn inserted<I>(entries: Seq<(Key, I)>, key: Key, image: I) -> Seq<(Key, I)> {
    let all = seq![(key, image)] + entries.filter(other_than(key));
    if all.len() > DECODE_CACHE_CAP {
        all.take(DECODE_CACHE_CAP as int)
    } else {
        all
    }
}

/// The first entry of a key, from `i` on.
pub open spec fn found<I>(entries: Seq<(Key, I)>, key: Key, i: int) -> Option<int>
    decreases entries.len() - i,
{
    if i < 0 || i >= entries.len() {
        None
    } else if entries[i].0 == key {
        Some(i)
    } else {
        found(entries, key, i + 1)
    }
}

/// The entries with the one at `p` moved to the front.
pub open spec fn promoted<I>(entries: Seq<(Key, I)>, p: int) -> Seq<(Key, I)> {
    seq![entries[p]] + entries.remove(p)
}

/// What an entry holds.
pub open spec fn entry<I>(e: (CacheKey, I)) -> (Key, I) {
    (e.0@, e.1)
}

impl<I> View for DecodeCache<I> {
    type V = Seq<(Key, I)>;

    open spec fn view(&self) -> Seq<(Key, I)> {
        Seq::new(self.entries@.len(), |i: int| entry(self.entries@[i]))
    }
}

impl<I> DecodeCache<I> {
    /// There is room for every image, and no two are of one key.
    pub open spec fn wf(self) -> bool {
        bounded(self@)
    }
}

/// At most as many entries as the cache keeps, no two of one key.
pub open spec fn bounded<I>(entries: Seq<(Key, I)>) -> bool {
    &&& entries.len() <= DECODE_CACHE_CAP
    &&& forall|i: int, j: int|
        0 <= i < j < entries.len() ==> (#[trigger] entries[i]).0 != (#[trigger] entries[j]).0
}

impl<I> DecodeCache<I> {
    /// An empty cache.
    pub fn new() -> (r: Self)
        ensures
            r@ == Seq::<(Key, I)>::empty(),
            r.wf(),
    {
        let r: DecodeCache<I> = DecodeCache { entries: Vec::new() };
        assert(r@ =~= Seq::<(Key, I)>::empty());
        r
    }

    /// The image of a key, which becomes the most recent; `None` where there is none, and nothing
    /// changes.
    pub fn get(&mut self, key: &CacheKey) -> (r: Option<&I>)
        requires
            old(self).wf(),
        ensures
            final(self).wf(),
            match found(old(self)@, key@, 0) {
                Some(p) => {
                    &&& r == Some(&old(self)@[p].1)
                    &&& final(self)@ == promoted(old(self)@, p)
                },
                None => r is None && final(self)@ == old(self)@,
            },
    {
        let ghost before = self@;
        let mut i: usize = 0;
        while i < self.entries.len()
            invariant
                self@ == before,
                before == old(self)@,
                bounded(before),
                i <= self.entries@.len(),
                found(before, key@, 0) == found(before, key@, i as int),
            decreases self.entries.len() - i,
        {
            assert(before[i as int].0 == self.entries@[i as int].0@);
            if self.entries[i].0.same(key) {
                let e: (CacheKey, I) = self.entries.remove(i);
                self.entries.insert(0, e);
                proof {
                    assert(self@ =~= promoted(before, i as int));
                    law_promotion_keeps_the_images(before, i as int);
                }
                return Some(&self.entries[0].1);
            }
            i += 1;
        }
        None
    }

    /// Takes an image in as the most recent, in place of one of the same key; the least recent
    /// leaves where there is no room.
    pub fn insert(&mut self, key: CacheKey, image: I)
        requires
            old(self).wf(),
        ensures
            final(self).wf(),
            final(self)@ == inserted(old(self)@, key@, image),
    {
        let ghost before = self@;
        let ghost keep = other_than::<I>(key@);
        let ghost mut seen: int = 0;
        let mut i: usize = 0;
        proof {
            assert(before.take(0).filter(keep) =~= Seq::empty());
            assert(self@ =~= before.take(0).filter(keep) + before.skip(0));
        }
        while i < self.entries.len()
            invariant
                0 <= seen <= before.len(),
                keep == other_than::<I>(key@),
                i == before.take(seen).filter(keep).len(),
                self@ == before.take(seen).filter(keep) + before.skip(seen),
            decreases self.entries.len() - i,
        {
            let ghost was = self@;
            let ghost kept = before.take(seen).filter(keep);
            assert(self@[i as int] == before[seen]);
            assert(self.entries@[i as int].0@ == before[seen].0);
            proof {
                assert(before.take(seen + 1).drop_last() =~= before.take(seen));
                assert(before.take(seen + 1).last() == before[seen]);
                reveal(Seq::filter);
            }
            if self.entries[i].0.same(&key) {
                self.entries.remove(i);
                assert(self@ =~= was.remove(i as int));
                assert(self@ =~= before.take(seen + 1).filter(keep) + before.skip(seen + 1));
            } else {
                i += 1;
                assert(self@ =~= before.take(seen + 1).filter(keep) + before.skip(seen + 1));
            }
            proof {
                seen = seen + 1;
            }
        }
        proof {
            assert(before.skip(seen).len() == 0);
            assert(before.take(seen) =~= before);
            assert(self@ =~= before.filter(keep));
        }
        let ghost rest = self@;
        let ghost first = (key@, image);
        self.entries.insert(0, (key, image));
        assert(self@ =~= seq![first] + rest);
        let ghost all = self@;
        self.entries.truncate(DECODE_CACHE_CAP);
        proof {
            if all.len() > DECODE_CACHE_CAP {
                assert(self@ =~= all.take(DECODE_CACHE_CAP as int));
            } else {
                assert(self@ =~= all);
            }
            law_insertion_keeps_the_bound(before, first.0, image);
            assert(self@ == inserted(before, first.0, image));
        }
    }
}

/// Filtering keeps distinct keys distinct and drops the key filtered out.
proof fn lemma_filter_distinct<I>(entries: Seq<(Key, I)>, key: Key)
    requires
        forall|i: int, j: int|
            0 <= i < j < entries.len() ==> (#[trigger] entries[i]).0 != (#[trigger] entries[j]).0,
    ensures
        ({
            let f = entries.filter(other_than(key));
            &&& f.len() <= entries.len()
            &&& forall|i: int, j: int|
                0 <= i < j < f.len() ==> (#[trigger] f[i]).0 != (#[trigger] f[j]).0
            &&& forall|i: int| 0 <= i < f.len() ==> (#[trigger] f[i]).0 != key
            &&& forall|i: int| 0 <= i < f.len() ==> entries.contains(#[trigger] f[i])
        }),
    decreases entries.len(),
{
    reveal(Seq::filter);
    if entries.len() > 0 {
        let front = entries.drop_last();
        lemma_filter_distinct(front, key);
        let g = front.filter(other_than(key));
        let f = entries.filter(other_than(key));
        assert forall|i: int| 0 <= i < f.len() implies entries.contains(#[trigger] f[i]) by {
            if i < g.len() {
                assert(front.contains(g[i]));
                let k = choose|k: int| 0 <= k < front.len() && front[k] == g[i];
                assert(entries[k] == f[i]);
            } else {
                assert(entries[entries.len() - 1] == f[i]);
            }
        }
        assert forall|i: int, j: int| 0 <= i < j < f.len() implies (#[trigger] f[i]).0 != (
        #[trigger] f[j]).0 by {
            if j == g.len() {
                assert(front.contains(g[i]));
                let k = choose|k: int| 0 <= k < front.len() && front[k] == g[i];
                assert(entries[k].0 != entries[entries.len() - 1].0);
            } else {
                assert(f[i] == g[i] && f[j] == g[j]);
            }
        }
    }
}

/// Taking an image in keeps the cache within its bound, with no two images of one key.
pub proof fn law_insertion_keeps_the_bound<I>(entries: Seq<(Key, I)>, key: Key, image: I)
    requires
        bounded(entries),
    ensures
        bounded(inserted(entries, key, image)),
{
    lemma_filter_distinct(entries, key);
}

/// An image that was just taken in is what the next lookup of its key finds, first of all.
pub proof fn law_insert_then_get<I>(entries: Seq<(Key, I)>, key: Key, image: I)
    ensures
        found(inserted(entries, key, image), key, 0) == Some(0int),
        inserted(entries, key, image)[0].1 == image,
{
}

/// A lookup changes no image and loses none: it only reorders.
pub proof fn law_promotion_keeps_the_images<I>(entries: Seq<(Key, I)>, p: int)
    requires
        0 <= p < entries.len(),
    ensures
        promoted(entries, p).len() == entries.len(),
        promoted(entries, p)[0] == entries[p],
        forall|e: (Key, I)| #[trigger]
            promoted(entries, p).contains(e) <==> #[trigger] entries.contains(e),
        bounded(entries) ==> bounded(promoted(entries, p)),
{
    let q = promoted(entries, p);
    assert forall|i: int| 0 <= i < q.len() implies #[trigger] q[i] == entries[if i == 0 {
        p
    } else if i <= p {
        i - 1
    } else {
        i
    }] by {}
    assert forall|e: (Key, I)| #[trigger] q.contains(e) <==> #[trigger] entries.contains(e) by {
        if q.contains(e) {
            let i = choose|i: int| 0 <= i < q.len() && q[i] == e;
            assert(q[i] == entries[if i == 0 {
                p
            } else if i <= p {
                i - 1
            } else {
                i
            }]);
        }
        if entries.contains(e) {
            let i = choose|i: int| 0 <= i < entries.len() && entries[i] == e;
            let j = if i == p {
                0
            } else if i < p {
                i + 1
            } else {
                i
            };
            assert(q[j] == e);
        }
    }
    if bounded(entries) {
        assert forall|i: int, j: int| 0 <= i < j < q.len() implies (#[trigger] q[i]).0 != (
        #[trigger] q[j]).0 by {
            let a = if i == 0 {
                p
            } else if i <= p {
                i - 1
            } else {
                i
            };
            let b = if j <= p {
                j - 1
            } else {
                j
            };
            assert(q[i] == entries[a] && q[j] == entries[b]);
            assert(a != b);
            if a < b {
                assert(entries[a].0 != entries[b].0);
            } else {
                assert(entries[b].0 != entries[a].0);
            }
        }
    }
}

/// A full cache of other images loses its least recent one and no other when an image comes in.
pub proof fn law_least_recent_leaves<I>(entries: Seq<(Key, I)>, key: Key, image: I)
    requires
        entries.len() == DECODE_CACHE_CAP,
        forall|i: int| 0 <= i < entries.len() ==> (#[trigger] entries[i]).0 != key,
    ensures
        inserted(entries, key, image) == seq![(key, image)] + entries.drop_last(),
{
    lemma_filter_keeps(entries, key);
    assert(inserted(entries, key, image) =~= seq![(key, image)] + entries.drop_last());
}

proof fn lemma_filter_keeps<I>(entries: Seq<(Key, I)>, key: Key)
    requires
        forall|i: int| 0 <= i < entries.len() ==> (#[trigger] entries[i]).0 != key,
    ensures
        entries.filter(other_than(key)) == entries,
    decreases entries.len(),
{
    reveal(Seq::filter);
    if entries.len() > 0 {
        lemma_filter_keeps(entries.drop_last(), key);
        assert(entries.drop_last().push(entries.last()) =~= entries);
    } else {
        assert(entries.filter(other_than(key)) =~= entries);
    }
}

/// Taking an image in touches no other while there is room: every image under another key stays,
/// behind the new one and in the order they were in, and the one under the same key is gone.
pub proof fn law_other_images_stay_in_order<I>(entries: Seq<(Key, I)>, key: Key, image: I)
    requires
        bounded(entries),
        entries.len() < DECODE_CACHE_CAP,
    ensures
        ({
            let after = inserted(entries, key, image);
            &&& after[0] == (key, image)
            &&& after.skip(1) == entries.filter(other_than(key))
            &&& forall|e: (Key, I)| #[trigger]
                entries.contains(e) && e.0 != key ==> after.contains(e)
        }),
{
    let kept = entries.filter(other_than(key));
    let all = seq![(key, image)] + kept;
    entries.lemma_filter_len(other_than(key));
    assert(all.skip(1) =~= kept);
    assert forall|e: (Key, I)| #[trigger] entries.contains(e) && e.0 != key implies all.contains(
        e,
    ) by {
        let j = choose|j: int| 0 <= j < entries.len() && entries[j] == e;
        entries.lemma_filter_contains(other_than(key), j);
        let i = choose|i: int| 0 <= i < kept.len() && kept[i] == e;
        assert(all[i + 1] == e);
    }
}

} // verus!
