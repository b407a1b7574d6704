//! A pool of sample buffers that are used again.

use crate::number::{Double, Single};
use crate::text::same_text;
use vstd::prelude::*;

verus! {

/// What tells the buffers of a pool apart.
#[derive(Debug, Hash, Eq, PartialEq)]
pub struct BufferKey {
    /// The number of elements.
    pub size: usize,
    /// The element type.
    pub dtype: String,
    /// What the buffer is for.
    pub tag: Option<String>,
}

/// A key as plain values: size, element type and tag.
pub type KeyView = (usize, Seq<char>, Option<Seq<char>>);

impl View for BufferKey {
    type V = KeyView;

    open spec fn view(&self) -> KeyView {
        (
            self.size,
            self.dtype@,
            match self.tag {
                Some(tag) => Some(tag@),
                None => None,
            },
        )
    }
}

impl Clone for BufferKey {
    fn clone(&self) -> (r: Self)
        ensures
            r@ == self@,
    {
        let tag: Option<String> = match &self.tag {
            Some(tag) => Some(tag.clone()),
            None => None,
        };
        BufferKey { size: self.size, dtype: self.dtype.clone(), tag }
    }
}

impl BufferKey {
    /// A key for buffers of single-precision values.
    pub fn single(size: usize) -> (r: Self)
        ensures
            r@ == (size, "f32"@, None::<Seq<char>>),
    {
        BufferKey { size, dtype: "f32".to_owned(), tag: None }
    }

    /// A key for buffers of double-precision values.
    pub fn double(size: usize) -> (r: Self)
        ensures
            r@ == (size, "f64"@, None::<Seq<char>>),
    {
        BufferKey { size, dtype: "f64".to_owned(), tag: None }
    }

    /// The key with a tag.
    pub fn with_tag(self, tag: String) -> (r: Self)
        ensures
            r@ == (self.size, self.dtype@, Some(tag@)),
    {
        BufferKey { size: self.size, dtype: self.dtype, tag: Some(tag) }
    }

    fn same_key(&self, other: &Self) -> (r: bool)
        ensures
            r == (self@ == other@),
    {
        let same_tag: bool = match (&self.tag, &other.tag) {
            (Some(a), Some(b)) => same_text(a.as_str(), b.as_str()),
            (None, None) => true,
            _ => false,
        };
        self.size == other.size && same_text(self.dtype.as_str(), other.dtype.as_str())
            && same_tag
    }
}

/// A buffer that was taken from a pool.
#[derive(Debug)]
pub struct PooledBuffer<T> {
    data: Vec<T>,
    key: BufferKey,
}

impl<T> PooledBuffer<T> {
    /// The elements.
    pub closed spec fn elements(&self) -> Seq<T> {
        self.data@
    }

    /// The key that the buffer was taken under.
    pub closed spec fn taken_under(&self) -> KeyView {
        self.key@
    }

    /// The elements.
    pub fn data(&self) -> (r: &[T])
        ensures
            r@ == self.elements(),
    {
        self.data.as_slice()
    }

    /// The elements, to change them.
    pub fn data_mut(&mut self) -> (r: &mut [T])
        ensures
            r@ == old(self).elements(),
            final(self).elements() == final(r)@,
            final(self).taken_under() == old(self).taken_under(),
    {
        self.data.as_mut_slice()
    }

    /// Writes an element.
    pub fn set(&mut self, index: usize, value: T)
        requires
            index < old(self).elements().len(),
        ensures
            final(self).elements() == old(self).elements().update(index as int, value),
            final(self).taken_under() == old(self).taken_under(),
    {
        self.data.set(index, value);
    }

    /// The number of elements.
    pub fn len(&self) -> (n: usize)
        ensures
            n == self.elements().len(),
    {
        self.data.len()
    }

    /// Whether there are no elements.
    pub fn is_empty(&self) -> (r: bool)
        ensures
            r == (self.elements().len() == 0),
    {
        self.data.len() == 0
    }

    /// The elements as a vector of their own; they do not go back to the
    /// pool.
    pub fn into_vec(self) -> (r: Vec<T>)
        ensures
            r@ == self.elements(),
    {
        self.data
    }
}

/// Stacks of buffers, one for each key that buffers came back under.
struct Shelf<T> {
    keys: Vec<BufferKey>,
    stacks: Vec<Vec<Vec<T>>>,
}

impl<T> Shelf<T> {
    spec fn wf(&self) -> bool {
        &&& self.keys@.len() == self.stacks@.len()
        &&& forall|i: int, j: int|
            0 <= i < self.keys@.len() && 0 <= j < self.keys@.len() && i != j
                ==> #[trigger] self.keys@[i]@ != #[trigger] self.keys@[j]@
    }

    spec fn place_of(&self, key: KeyView) -> Option<int> {
        if exists|i: int| 0 <= i < self.keys@.len() && #[trigger] self.keys@[i]@ == key {
            Some(choose|i: int| 0 <= i < self.keys@.len() && #[trigger] self.keys@[i]@ == key)
        } else {
            None
        }
    }

    spec fn stack(&self, key: KeyView) -> Seq<Vec<T>> {
        match self.place_of(key) {
            Some(i) => self.stacks@[i]@,
            None => Seq::empty(),
        }
    }

    proof fn place_is(&self, i: int)
        requires
            self.wf(),
            0 <= i < self.keys@.len(),
        ensures
            self.place_of(self.keys@[i]@) == Some(i),
    {
    }

    fn new() -> (r: Self)
        ensures
            r.wf(),
            forall|k: KeyView| r.stack(k) == Seq::<Vec<T>>::empty(),
            r.keys@.len() == 0,
    {
        Shelf { keys: Vec::new(), stacks: Vec::new() }
    }

    fn find(&self, key: &BufferKey) -> (r: Option<usize>)
        requires
            self.wf(),
        ensures
            match r {
                Some(i) => i < self.keys@.len() && self.place_of(key@) == Some(i as int),
                None => self.place_of(key@) is None,
            },
    {
        let mut i: usize = 0;
        while i < self.keys.len()
            invariant
                i <= self.keys@.len(),
                self.wf(),
                forall|k: int| 0 <= k < i ==> #[trigger] self.keys@[k]@ != key@,
            decreases self.keys@.len() - i,
        {
            if self.keys[i].same_key(key) {
                proof {
                    self.place_is(i as int);
                }
                return Some(i);
            }
            i += 1;
        }
        None
    }

    fn take(&mut self, key: &BufferKey) -> (r: Option<Vec<T>>)
        requires
            old(self).wf(),
        ensures
            final(self).wf(),
            match r {
                Some(buffer) => {
                    &&& old(self).stack(key@).len() > 0
                    &&& buffer == old(self).stack(key@).last()
                    &&& final(self).stack(key@) == old(self).stack(key@).drop_last()
                },
                None => old(self).stack(key@).len() == 0 && final(self).stack(key@).len() == 0,
            },
            forall|k: KeyView| k != key@ ==> final(self).stack(k) == old(self).stack(k),
            final(self).total() == old(self).total() - if r is Some {
                1int
            } else {
                0
            },
    {
        match self.find(key) {
            Some(i) => {
                let ghost before = self.stacks@;
                let r: Option<Vec<T>> = self.stacks[i].pop();
                proof {
                    self.place_is(i as int);
                    assert(self.stacks@ =~= before.update(i as int, self.stacks@[i as int]));
                    assert forall|k: KeyView| k != key@ implies self.stack(k) == old(self).stack(
                        k,
                    ) by {
                        assert(self.place_of(k) == old(self).place_of(k));
                        if self.place_of(k) is Some {
                            assert(self.keys@[self.place_of(k)->0]@ == k);
                        }
                    }
                    total_update(before, i as int, self.stacks@[i as int]);
                }
                r
            },
            None => None,
        }
    }

    fn put(&mut self, key: BufferKey, buffer: Vec<T>, limit: usize) -> (kept: bool)
        requires
            old(self).wf(),
        ensures
            final(self).wf(),
            kept == (old(self).stack(key@).len() < limit),
            final(self).stack(key@) == if kept {
                old(self).stack(key@).push(buffer)
            } else {
                old(self).stack(key@)
            },
            forall|k: KeyView| k != key@ ==> final(self).stack(k) == old(self).stack(k),
            final(self).total() == old(self).total() + if kept {
                1int
            } else {
                0
            },
    {
        let ghost name = key@;
        let found: Option<usize> = self.find(&key);
        let i: usize = match found {
            Some(i) => i,
            None => {
                self.keys.push(key);
                let none: Vec<Vec<T>> = Vec::new();
                self.stacks.push(none);
                proof {
                    let n = self.keys@.len() - 1;
                    assert(old(self).place_of(name) is None);
                    assert forall|k: int| 0 <= k < n implies #[trigger] self.keys@[k]@ != name by {
                        assert(old(self).keys@[k] == self.keys@[k]);
                    }
                    assert(self.wf());
                    total_push(old(self).stacks@, self.stacks@[n]);
                }
                self.keys.len() - 1
            },
        };
        let ghost mid = *self;
        proof {
            self.place_is(i as int);
            assert forall|k: KeyView| k != name implies #[trigger] mid.stack(k) == old(self).stack(
                k,
            ) by {
                if old(self).place_of(k) is Some {
                    let j = old(self).place_of(k)->0;
                    assert(old(self).keys@[j] == mid.keys@[j]);
                    mid.place_is(j);
                } else if mid.place_of(k) is Some {
                    let j = mid.place_of(k)->0;
                    assert(mid.keys@[j]@ == k);
                    if found is None {
                        assert(j < old(self).keys@.len());
                    }
                    assert(old(self).keys@[j] == mid.keys@[j]);
                }
            }
            assert(mid.stack(name) == old(self).stack(name));
        }
        if self.stacks[i].len() < limit {
            self.stacks[i].push(buffer);
            proof {
                self.place_is(i as int);
                assert(self.stacks@ =~= mid.stacks@.update(i as int, self.stacks@[i as int]));
                total_update(mid.stacks@, i as int, self.stacks@[i as int]);
                assert forall|k: KeyView| k != name implies #[trigger] self.stack(k) == mid.stack(
                    k,
                ) by {
                    assert(self.place_of(k) == mid.place_of(k));
                    if self.place_of(k) is Some {
                        assert(self.keys@[self.place_of(k)->0]@ == k);
                    }
                }
            }
            true
        } else {
            false
        }
    }

    spec fn total(&self) -> int {
        total(self.stacks@)
    }

    fn count(&self) -> (n: usize)
        requires
            self.wf(),
            self.total() <= usize::MAX,
        ensures
            n == self.total(),
    {
        let mut n: usize = 0;
        let mut i: usize = 0;
        assert(self.stacks@.take(0) =~= Seq::<Vec<Vec<T>>>::empty());
        while i < self.stacks.len()
            invariant
                i <= self.stacks@.len(),
                n == total(self.stacks@.take(i as int)),
                total(self.stacks@) <= usize::MAX,
            decreases self.stacks@.len() - i,
        {
            proof {
                assert(self.stacks@.take(i + 1).drop_last() =~= self.stacks@.take(i as int));
                total_prefix(self.stacks@, i + 1);
            }
            n = n + self.stacks[i].len();
            i += 1;
        }
        assert(self.stacks@.take(i as int) =~= self.stacks@);
        n
    }
}

spec fn total<T>(stacks: Seq<Vec<Vec<T>>>) -> int
    decreases stacks.len(),
{
    if stacks.len() == 0 {
        0
    } else {
        total(stacks.drop_last()) + stacks.last()@.len()
    }
}

proof fn total_push<T>(stacks: Seq<Vec<Vec<T>>>, one: Vec<Vec<T>>)
    ensures
        total(stacks.push(one)) == total(stacks) + one@.len(),
{
    assert(stacks.push(one).drop_last() =~= stacks);
}

proof fn total_prefix<T>(stacks: Seq<Vec<Vec<T>>>, i: int)
    requires
        0 <= i <= stacks.len(),
    ensures
        0 <= total(stacks.take(i)) <= total(stacks),
    decreases stacks.len(),
{
    if i < stacks.len() {
        total_prefix(stacks.drop_last(), i);
        assert(stacks.drop_last().take(i) =~= stacks.take(i));
    } else {
        assert(stacks.take(i) =~= stacks);
        if stacks.len() > 0 {
            total_prefix(stacks.drop_last(), i - 1);
            assert(stacks.drop_last().take(i - 1) =~= stacks.drop_last());
        }
    }
}

proof fn total_update<T>(stacks: Seq<Vec<Vec<T>>>, i: int, one: Vec<Vec<T>>)
    requires
        0 <= i < stacks.len(),
    ensures
        total(stacks.update(i, one)) == total(stacks) - stacks[i]@.len() + one@.len(),
    decreases stacks.len(),
{
    let after = stacks.update(i, one);
    if i == stacks.len() - 1 {
        assert(after.drop_last() =~= stacks.drop_last());
    } else {
        total_update(stacks.drop_last(), i, one);
        assert(after.drop_last() =~= stacks.drop_last().update(i, one));
    }
}

/// What a pool has done so far.
#[derive(Debug, Clone, Copy, PartialEq, Eq, Structural)]
pub struct PoolStats {
    /// Buffers that were made.
    pub total_allocations: usize,
    /// Buffers that were used again.
    pub total_reuses: usize,
    /// Buffers that came back.
    pub total_returns: usize,
    /// Buffers that came back and were not kept.
    pub total_discards: usize,
}

impl Default for PoolStats {
    fn default() -> (r: Self)
        ensures
            r == (PoolStats {
                total_allocations: 0,
                total_reuses: 0,
                total_returns: 0,
                total_discards: 0,
            }),
    {
        PoolStats { total_allocations: 0, total_reuses: 0, total_returns: 0, total_discards: 0 }
    }
}

/// The number of buffers that a pool keeps under one key by default.
pub const DEFAULT_BUFFERS_PER_KEY: usize = 16;

/// A pool of buffers. Buffers that come back under a key are handed out again
/// under that key, the last one first.
pub struct TensorPool {
    singles: Shelf<Single>,
    doubles: Shelf<Double>,
    max_buffers_per_key: usize,
    stats: PoolStats,
}

impl TensorPool {
    /// The single-precision buffers kept under a key, oldest first.
    pub closed spec fn kept_singles(&self, key: KeyView) -> Seq<Vec<Single>> {
        self.singles.stack(key)
    }

    /// The double-precision buffers kept under a key, oldest first.
    pub closed spec fn kept_doubles(&self, key: KeyView) -> Seq<Vec<Double>> {
        self.doubles.stack(key)
    }

    /// The number of buffers kept under each key at most.
    pub closed spec fn limit(&self) -> nat {
        self.max_buffers_per_key as nat
    }

    /// The number of buffers kept under all keys.
    pub closed spec fn kept_in_all(&self) -> int {
        self.singles.total() + self.doubles.total()
    }

    /// What the pool has done so far.
    pub closed spec fn counts(&self) -> PoolStats {
        self.stats
    }

    /// Under no key are more buffers kept than the limit allows.
    pub closed spec fn wf(&self) -> bool {
        &&& self.singles.wf()
        &&& self.doubles.wf()
        &&& forall|k: KeyView| (#[trigger] self.singles.stack(k)).len() <= self.limit()
        &&& forall|k: KeyView| (#[trigger] self.doubles.stack(k)).len() <= self.limit()
    }

    /// Every buffer that is kept or was used again came back, and every one
    /// that came back was kept, used again or discarded.
    pub open spec fn balanced(&self) -> bool {
        self.counts().total_returns == self.counts().total_reuses + self.counts().total_discards
            + self.kept_in_all()
    }

    /// What taking a single-precision buffer does: zeros are handed out, in the
    /// last buffer kept under the key or else in a new one.
    pub open spec fn takes_single(
        &self,
        key: KeyView,
        elements: Seq<Single>,
        after: &Self,
    ) -> bool {
        &&& elements == Seq::new(key.0 as nat, |i: int| Single { bits: 0 })
        &&& after.limit() == self.limit()
        &&& if self.kept_singles(key).len() > 0 {
            &&& after.kept_singles(key) == self.kept_singles(key).drop_last()
            &&& after.kept_in_all() == self.kept_in_all() - 1
            &&& after.counts() == (PoolStats {
                total_reuses: (self.counts().total_reuses + 1) as usize,
                ..self.counts()
            })
        } else {
            &&& after.kept_singles(key) == self.kept_singles(key)
            &&& after.kept_in_all() == self.kept_in_all()
            &&& after.counts() == (PoolStats {
                total_allocations: (self.counts().total_allocations + 1) as usize,
                ..self.counts()
            })
        }
        &&& forall|k: KeyView|
            k != key ==> #[trigger] after.kept_singles(k) == self.kept_singles(k)
        &&& forall|k: KeyView| #[trigger] after.kept_doubles(k) == self.kept_doubles(k)
    }

    /// What giving a single-precision buffer back does: an empty one is passed
    /// over, and one whose key names another element type, or whose key has
    /// no room left, is discarded.
    pub open spec fn receives_single(
        &self,
        key: KeyView,
        elements: Seq<Single>,
        after: &Self,
    ) -> bool {
        let before = self.kept_singles(key);
        let kept = key.1 == "f32"@ && before.len() < self.limit();
        &&& after.limit() == self.limit()
        &&& if elements.len() == 0 {
            &&& after.counts() == self.counts()
            &&& after.kept_singles(key) == before
            &&& after.kept_in_all() == self.kept_in_all()
        } else {
            &&& after.counts() == (PoolStats {
                total_returns: (self.counts().total_returns + 1) as usize,
                total_discards: (self.counts().total_discards + if kept {
                    0int
                } else {
                    1
                }) as usize,
                ..self.counts()
            })
            &&& if kept {
                &&& after.kept_singles(key).len() == before.len() + 1
                &&& after.kept_singles(key).drop_last() == before
                &&& after.kept_singles(key).last()@ == elements
                &&& after.kept_in_all() == self.kept_in_all() + 1
            } else {
                &&& after.kept_singles(key) == before
                &&& after.kept_in_all() == self.kept_in_all()
            }
        }
        &&& forall|k: KeyView|
            k != key ==> #[trigger] after.kept_singles(k) == self.kept_singles(k)
        &&& forall|k: KeyView| #[trigger] after.kept_doubles(k) == self.kept_doubles(k)
    }

    /// What taking a double-precision buffer does: zeros are handed out, in the
    /// last buffer kept under the key or else in a new one.
    pub open spec fn takes_double(
        &self,
        key: KeyView,
        elements: Seq<Double>,
        after: &Self,
    ) -> bool {
        &&& elements == Seq::new(key.0 as nat, |i: int| Double { bits: 0 })
        &&& after.limit() == self.limit()
        &&& if self.kept_doubles(key).len() > 0 {
            &&& after.kept_doubles(key) == self.kept_doubles(key).drop_last()
            &&& after.kept_in_all() == self.kept_in_all() - 1
            &&& after.counts() == (PoolStats {
                total_reuses: (self.counts().total_reuses + 1) as usize,
                ..self.counts()
            })
        } else {
            &&& after.kept_doubles(key) == self.kept_doubles(key)
            &&& after.kept_in_all() == self.kept_in_all()
            &&& after.counts() == (PoolStats {
                total_allocations: (self.counts().total_allocations + 1) as usize,
                ..self.counts()
            })
        }
        &&& forall|k: KeyView|
            k != key ==> #[trigger] after.kept_doubles(k) == self.kept_doubles(k)
        &&& forall|k: KeyView| #[trigger] after.kept_singles(k) == self.kept_singles(k)
    }

    /// What giving a double-precision buffer back does: an empty one is passed
    /// over, and one whose key names another element type, or whose key has
    /// no room left, is discarded.
    pub open spec fn receives_double(
        &self,
        key: KeyView,
        elements: Seq<Double>,
        after: &Self,
    ) -> bool {
        let before = self.kept_doubles(key);
        let kept = key.1 == "f64"@ && before.len() < self.limit();
        &&& after.limit() == self.limit()
        &&& if elements.len() == 0 {
            &&& after.counts() == self.counts()
            &&& after.kept_doubles(key) == before
            &&& after.kept_in_all() == self.kept_in_all()
        } else {
            &&& after.counts() == (PoolStats {
                total_returns: (self.counts().total_returns + 1) as usize,
                total_discards: (self.counts().total_discards + if kept {
                    0int
                } else {
                    1
                }) as usize,
                ..self.counts()
            })
            &&& if kept {
                &&& after.kept_doubles(key).len() == before.len() + 1
                &&& after.kept_doubles(key).drop_last() == before
                &&& after.kept_doubles(key).last()@ == elements
                &&& after.kept_in_all() == self.kept_in_all() + 1
            } else {
                &&& after.kept_doubles(key) == before
                &&& after.kept_in_all() == self.kept_in_all()
            }
        }
        &&& forall|k: KeyView|
            k != key ==> #[trigger] after.kept_doubles(k) == self.kept_doubles(k)
        &&& forall|k: KeyView| #[trigger] after.kept_singles(k) == self.kept_singles(k)
    }

    /// No key keeps more than the limit.
    pub proof fn within_limit(&self, key: KeyView)
        requires
            self.wf(),
        ensures
            self.kept_singles(key).len() <= self.limit(),
            self.kept_doubles(key).len() <= self.limit(),
    {
    }

    /// A pool with the default limit.
    pub fn new() -> (r: Self)
        ensures
            r.wf(),
            r.balanced(),
            r.limit() == DEFAULT_BUFFERS_PER_KEY,
            r.kept_in_all() == 0,
            r.counts() == (PoolStats {
                total_allocations: 0,
                total_reuses: 0,
                total_returns: 0,
                total_discards: 0,
            }),
            forall|k: KeyView| (#[trigger] r.kept_singles(k)).len() == 0,
            forall|k: KeyView| (#[trigger] r.kept_doubles(k)).len() == 0,
    {
        Self::with_capacity(DEFAULT_BUFFERS_PER_KEY)
    }

    /// A pool that keeps at most the given number of buffers under each key.
    pub fn with_capacity(max_buffers_per_key: usize) -> (r: Self)
        ensures
            r.wf(),
            r.balanced(),
            r.limit() == max_buffers_per_key,
            r.kept_in_all() == 0,
            r.counts() == (PoolStats {
                total_allocations: 0,
                total_reuses: 0,
                total_returns: 0,
                total_discards: 0,
            }),
            forall|k: KeyView| (#[trigger] r.kept_singles(k)).len() == 0,
            forall|k: KeyView| (#[trigger] r.kept_doubles(k)).len() == 0,
    {
        let r: Self = TensorPool {
            singles: Shelf::new(),
            doubles: Shelf::new(),
            max_buffers_per_key,
            stats: PoolStats::default(),
        };
        r
    }

    /// Takes a buffer of single-precision zeros.
    pub fn acquire_f32(&mut self, key: BufferKey) -> (r: PooledBuffer<Single>)
        requires
            old(self).wf(),
            old(self).counts().total_allocations < usize::MAX,
            old(self).counts().total_reuses < usize::MAX,
        ensures
            final(self).wf(),
            old(self).balanced() ==> final(self).balanced(),
            r.taken_under() == key@,
            old(self).takes_single(key@, r.elements(), final(self)),
    {
        let found: Option<Vec<Single>> = self.singles.take(&key);
        let size: usize = key.size;
        let data: Vec<Single> = match found {
            Some(kept) => {
                let mut data: Vec<Single> = kept;
                self.stats.total_reuses += 1;
                data.clear();
                data.resize(size, Single::zero());
                data
            },
            None => {
                self.stats.total_allocations += 1;
                vec![Single::zero(); size]
            },
        };
        assert(data@ =~= Seq::new(size as nat, |i: int| Single { bits: 0 }));
        proof {
            assert forall|k: KeyView| (#[trigger] self.singles.stack(k)).len()
                <= self.limit() by {
                assert(old(self).singles.stack(k).len() <= old(self).limit());
                if k != key@ {
                    assert(self.singles.stack(k) == old(self).singles.stack(k));
                }
            }
            if old(self).kept_singles(key@).len() == 0 {
                assert(self.kept_singles(key@) =~= old(self).kept_singles(key@));
            }
        }
        PooledBuffer { data, key }
    }

    /// Takes a buffer of double-precision zeros.
    pub fn acquire_f64(&mut self, key: BufferKey) -> (r: PooledBuffer<Double>)
        requires
            old(self).wf(),
            old(self).counts().total_allocations < usize::MAX,
            old(self).counts().total_reuses < usize::MAX,
        ensures
            final(self).wf(),
            old(self).balanced() ==> final(self).balanced(),
            r.taken_under() == key@,
            old(self).takes_double(key@, r.elements(), final(self)),
    {
        let found: Option<Vec<Double>> = self.doubles.take(&key);
        let size: usize = key.size;
        let data: Vec<Double> = match found {
            Some(kept) => {
                let mut data: Vec<Double> = kept;
                self.stats.total_reuses += 1;
                data.clear();
                data.resize(size, Double::zero());
                data
            },
            None => {
                self.stats.total_allocations += 1;
                vec![Double::zero(); size]
            },
        };
        assert(data@ =~= Seq::new(size as nat, |i: int| Double { bits: 0 }));
        proof {
            assert forall|k: KeyView| (#[trigger] self.doubles.stack(k)).len()
                <= self.limit() by {
                assert(old(self).doubles.stack(k).len() <= old(self).limit());
                if k != key@ {
                    assert(self.doubles.stack(k) == old(self).doubles.stack(k));
                }
            }
            if old(self).kept_doubles(key@).len() == 0 {
                assert(self.kept_doubles(key@) =~= old(self).kept_doubles(key@));
            }
        }
        PooledBuffer { data, key }
    }

    /// Gives a buffer of single-precision values back. An empty one is passed
    /// over; one whose key names another element type, or whose key has no
    /// room left, is discarded.
    pub fn release_f32(&mut self, buffer: PooledBuffer<Single>)
        requires
            old(self).wf(),
            old(self).counts().total_returns < usize::MAX,
            old(self).counts().total_discards < usize::MAX,
        ensures
            final(self).wf(),
            old(self).balanced() ==> final(self).balanced(),
            old(self).receives_single(buffer.taken_under(), buffer.elements(), final(self)),
    {
        if buffer.data.len() == 0 {
            return;
        }
        self.stats.total_returns += 1;
        let key: BufferKey = buffer.key;
        let data: Vec<Single> = buffer.data;
        let ghost name = key@;
        if same_text(key.dtype.as_str(), "f32") {
            let limit: usize = self.max_buffers_per_key;
            if !self.singles.put(key, data, limit) {
                self.stats.total_discards += 1;
            }
            proof {
                assert forall|k: KeyView| (#[trigger] self.singles.stack(k)).len()
                    <= self.limit() by {
                    assert(old(self).singles.stack(k).len() <= old(self).limit());
                    if k != name {
                        assert(self.singles.stack(k) == old(self).singles.stack(k));
                    }
                }
                let before = old(self).kept_singles(name);
                if before.len() < old(self).limit() {
                    assert(self.kept_singles(name).drop_last() =~= before);
                }
            }
        } else {
            self.stats.total_discards += 1;
        }
    }

    /// Gives a buffer of double-precision values back. An empty one is passed
    /// over; one whose key names another element type, or whose key has no
    /// room left, is discarded.
    pub fn release_f64(&mut self, buffer: PooledBuffer<Double>)
        requires
            old(self).wf(),
            old(self).counts().total_returns < usize::MAX,
            old(self).counts().total_discards < usize::MAX,
        ensures
            final(self).wf(),
            old(self).balanced() ==> final(self).balanced(),
            old(self).receives_double(buffer.taken_under(), buffer.elements(), final(self)),
    {
        if buffer.data.len() == 0 {
            return;
        }
        self.stats.total_returns += 1;
        let key: BufferKey = buffer.key;
        let data: Vec<Double> = buffer.data;
        let ghost name = key@;
        if same_text(key.dtype.as_str(), "f64") {
            let limit: usize = self.max_buffers_per_key;
            if !self.doubles.put(key, data, limit) {
                self.stats.total_discards += 1;
            }
            proof {
                assert forall|k: KeyView| (#[trigger] self.doubles.stack(k)).len()
                    <= self.limit() by {
                    assert(old(self).doubles.stack(k).len() <= old(self).limit());
                    if k != name {
                        assert(self.doubles.stack(k) == old(self).doubles.stack(k));
                    }
                }
                let before = old(self).kept_doubles(name);
                if before.len() < old(self).limit() {
                    assert(self.kept_doubles(name).drop_last() =~= before);
                }
            }
        } else {
            self.stats.total_discards += 1;
        }
    }

    /// Forgets all kept buffers.
    pub fn clear(&mut self)
        requires
            old(self).wf(),
        ensures
            final(self).wf(),
            final(self).limit() == old(self).limit(),
            final(self).counts() == old(self).counts(),
            final(self).kept_in_all() == 0,
            forall|k: KeyView| (#[trigger] final(self).kept_singles(k)).len() == 0,
            forall|k: KeyView| (#[trigger] final(self).kept_doubles(k)).len() == 0,
    {
        self.singles = Shelf::new();
        self.doubles = Shelf::new();
    }

    /// What the pool has done so far.
    pub fn stats(&self) -> (r: PoolStats)
        ensures
            r == self.counts(),
    {
        self.stats
    }

    /// The number of buffers that are kept.
    pub fn pooled_count(&self) -> (n: usize)
        requires
            self.wf(),
            self.kept_in_all() <= usize::MAX,
        ensures
            n == self.kept_in_all(),
    {
        proof {
            total_prefix(self.singles.stacks@, 0);
            total_prefix(self.doubles.stacks@, 0);
        }
        self.singles.count() + self.doubles.count()
    }
}

impl Default for TensorPool {
    fn default() -> (r: Self)
        ensures
            r.wf(),
            r.balanced(),
            r.limit() == DEFAULT_BUFFERS_PER_KEY,
            r.kept_in_all() == 0,
            r.counts() == (PoolStats {
                total_allocations: 0,
                total_reuses: 0,
                total_returns: 0,
                total_discards: 0,
            }),
            forall|k: KeyView| (#[trigger] r.kept_singles(k)).len() == 0,
            forall|k: KeyView| (#[trigger] r.kept_doubles(k)).len() == 0,
    {
        Self::new()
    }
}

/// A buffer that was given back is used again: taking a buffer under its key
/// hands out zeros without making one, and leaves the pool as it was.
pub proof fn released_buffer_is_reused(
    before: TensorPool,
    key: KeyView,
    given: Seq<Single>,
    between: TensorPool,
    taken: Seq<Single>,
    after: TensorPool,
)
    requires
        key.1 == "f32"@,
        given.len() > 0,
        before.kept_singles(key).len() < before.limit(),
        before.counts().total_returns < usize::MAX,
        before.counts().total_reuses < usize::MAX,
        before.receives_single(key, given, &between),
        between.takes_single(key, taken, &after),
    ensures
        taken == Seq::new(key.0 as nat, |i: int| Single { bits: 0 }),
        after.counts().total_allocations == before.counts().total_allocations,
        after.counts().total_reuses == before.counts().total_reuses + 1,
        after.counts().total_returns == before.counts().total_returns + 1,
        after.counts().total_discards == before.counts().total_discards,
        forall|k: KeyView| #[trigger] after.kept_singles(k) == before.kept_singles(k),
{
    assert forall|k: KeyView| #[trigger] after.kept_singles(k) == before.kept_singles(k) by {
        assert(k != key ==> between.kept_singles(k) == before.kept_singles(k));
    }
}

} // verus!
