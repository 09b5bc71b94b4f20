use vstd::prelude::*;
use vstd::set_lib::*;

verus! {

/// The smallest key at or above the number of stored entries that no entry uses.
/// New mesh primitives are given this key.
pub open spec fn fresh_index(used: Set<usize>) -> usize {
    choose|k: usize|
        #![trigger used.contains(k)]
        k >= used.len() && !used.contains(k) && forall|j: usize| used.len() <= j < k ==> used.contains(j)
}

/// Values stored under small integer keys, one slot per key.
#[derive(Clone, Debug)]
pub struct Arena<T> {
    slots: Vec<Option<T>>,
    count: usize,
}

proof fn lemma_least_free(used: Set<usize>, lo: usize, k: usize)
    requires
        lo <= k,
        !used.contains(k),
    ensures
        exists|w: usize| lo <= w <= k && !used.contains(w) && forall|j: usize| lo <= j < w ==> used.contains(j),
    decreases k - lo,
{
    if lo == k || !used.contains(lo) {
        assert(forall|j: usize| lo <= j < lo ==> used.contains(j));
    } else {
        lemma_least_free(used, (lo + 1) as usize, k);
        let w = choose|w: usize|
            lo + 1 <= w <= k && !used.contains(w) && forall|j: usize| lo + 1 <= j < w ==> used.contains(j);
        assert(forall|j: usize| lo <= j < w ==> used.contains(j));
    }
}

/// Among fewer than half of all keys, the fresh index exists, is unused, and every
/// key from the number of used keys up to it is used.
pub proof fn lemma_fresh_index(used: Set<usize>)
    requires
        used.finite(),
        used.len() < usize::MAX / 2,
    ensures
        fresh_index(used) >= used.len(),
        !used.contains(fresh_index(used)),
        forall|j: usize| used.len() <= j < fresh_index(used) ==> used.contains(j),
        fresh_index(used) < usize::MAX / 2 * 2,
{
    let lo = used.len() as usize;
    let hi = (2 * used.len()) as usize;
    let r = Set::<usize>::range(lo, (hi + 1) as usize);
    <usize as FiniteRange>::range_properties(lo, (hi + 1) as usize);
    if forall|j: usize| r.contains(j) ==> used.contains(j) {
        assert(r.subset_of(used));
        lemma_len_subset(r, used);
        assert(false);
    }
    let free = choose|j: usize| r.contains(j) && !used.contains(j);
    lemma_least_free(used, lo, free);
    let w = choose|w: usize|
        lo <= w <= free && !used.contains(w) && forall|j: usize| lo <= j < w ==> used.contains(j);
    let c = fresh_index(used);
    if c != w {
        if c < w {
            assert(used.contains(c));
        } else {
            assert(used.contains(w));
        }
    }
}

/// When the used keys are exactly those below `n`, the fresh index is `n`.
pub proof fn lemma_fresh_index_of_range(used: Set<usize>, n: usize)
    requires
        forall|k: usize| used.contains(k) <==> k < n,
        n < usize::MAX / 2,
    ensures
        used.finite(),
        used.len() == n,
        fresh_index(used) == n,
{
    <usize as FiniteRange>::range_properties(0, n);
    assert(used =~= Set::<usize>::range(0, n));
    lemma_fresh_index(used);
    if fresh_index(used) > n {
        assert(used.contains(n));
    }
}

impl<T: Copy> Arena<T> {
    /// The stored entries, by key.
    pub closed spec fn view(&self) -> Map<usize, T> {
        Map::new(
            |k: usize| (k as int) < self.slots@.len() && self.slots@[k as int] is Some,
            |k: usize| self.slots@[k as int]->Some_0,
        )
    }

    /// One past the largest key that a slot exists for.
    pub closed spec fn extent(&self) -> nat {
        self.slots@.len()
    }

    pub closed spec fn wf(&self) -> bool {
        &&& self.slots@.len() < usize::MAX
        &&& self.count == self.view().dom().len()
    }

    proof fn lemma_bounded(&self)
        requires
            self.slots@.len() < usize::MAX,
        ensures
            self.view().dom().finite(),
            self.view().dom().len() <= self.slots@.len(),
            forall|k: usize| #[trigger] self.view().dom().contains(k) ==> k < self.slots@.len(),
    {
        let n = self.slots@.len() as usize;
        let r = Set::<usize>::range(0, n);
        <usize as FiniteRange>::range_properties(0, n);
        assert forall|k: usize| self.view().dom().contains(k) implies r.contains(k) by {}
        lemma_len_subset(self.view().dom(), r);
    }

    /// The keys are finite and all below the extent.
    pub proof fn lemma_finite(&self)
        requires
            self.wf(),
        ensures
            self.view().dom().finite(),
            self.view().dom().len() <= self.extent(),
            self.extent() < usize::MAX,
            forall|k: usize| #[trigger] self.view().dom().contains(k) ==> k < self.extent(),
    {
        self.lemma_bounded();
    }

    /// The fresh key of the entries exists and lies at or below the extent.
    pub proof fn lemma_fresh_key(&self)
        requires
            self.wf(),
        ensures
            ({
                let k = fresh_index(self.view().dom());
                &&& k >= self.view().dom().len()
                &&& !self.view().dom().contains(k)
                &&& forall|j: usize| self.view().dom().len() <= j < k ==> self.view().dom().contains(j)
                &&& k <= self.extent()
            }),
    {
        self.lemma_bounded();
        let m = self.view();
        let lo = m.dom().len() as usize;
        let hi = self.slots@.len() as usize;
        assert(!m.dom().contains(hi));
        lemma_least_free(m.dom(), lo, hi);
        let w = choose|w: usize|
            lo <= w <= hi && !m.dom().contains(w) && forall|j: usize| lo <= j < w ==> m.dom().contains(j);
        let c = fresh_index(m.dom());
        if c != w {
            if c < w {
                assert(m.dom().contains(c));
            } else {
                assert(m.dom().contains(w));
            }
        }
    }

    /// While fewer than half of all keys are in use, the fresh key can still be stored.
    pub proof fn lemma_fresh_key_small(&self)
        requires
            self.wf(),
            self.view().dom().len() < usize::MAX / 2,
        ensures
            fresh_index(self.view().dom()) < usize::MAX / 2 * 2,
    {
        self.lemma_fresh_key();
        let m = self.view();
        let lo = m.dom().len() as usize;
        let k = fresh_index(m.dom());
        let r = Set::<usize>::range(lo, k);
        <usize as FiniteRange>::range_properties(lo, k);
        self.lemma_bounded();
        assert forall|j: usize| r.contains(j) implies m.dom().contains(j) by {}
        assert(r.subset_of(m.dom()));
        lemma_len_subset(r, m.dom());
    }

    pub fn new() -> (r: Arena<T>)
        ensures
            r.wf(),
            r.view() == Map::<usize, T>::empty(),
            r.extent() == 0,
    {
        let r = Arena { slots: Vec::new(), count: 0 };
        assert(r.view() =~= Map::<usize, T>::empty());
        r
    }

    pub fn with_capacity(capacity: usize) -> (r: Arena<T>)
        ensures
            r.wf(),
            r.view() == Map::<usize, T>::empty(),
            r.extent() == 0,
    {
        let r = Arena { slots: Vec::with_capacity(capacity), count: 0 };
        assert(r.view() =~= Map::<usize, T>::empty());
        r
    }

    pub fn len(&self) -> (r: usize)
        requires
            self.wf(),
        ensures
            r == self.view().dom().len(),
    {
        self.count
    }

    pub fn contains(&self, key: usize) -> (r: bool)
        ensures
            r == self.view().dom().contains(key),
    {
        key < self.slots.len() && self.slots[key].is_some()
    }

    pub fn get(&self, key: usize) -> (r: Option<T>)
        ensures
            r == (if self.view().dom().contains(key) {
                Some(self.view()[key])
            } else {
                None
            }),
    {
        if key < self.slots.len() {
            self.slots[key]
        } else {
            None
        }
    }

    /// The entry stored under a key.
    pub fn get_ref(&self, key: usize) -> (r: &T)
        requires
            self.view().dom().contains(key),
        ensures
            *r == self.view()[key],
    {
        match &self.slots[key] {
            Some(v) => v,
            None => {
                assert(false);
                &self.slots[key].as_ref().unwrap()
            },
        }
    }

    pub fn insert(&mut self, key: usize, value: T)
        requires
            old(self).wf(),
            key < usize::MAX - 1,
        ensures
            final(self).wf(),
            final(self).view() == old(self).view().insert(key, value),
            final(self).extent() as int == if key < old(self).extent() {
                old(self).extent() as int
            } else {
                key + 1
            },
    {
        let ghost old_view = self.view();
        let ghost old_len = self.slots@.len();
        while self.slots.len() <= key
            invariant
                self.view() == old_view,
                self.count == old_view.dom().len(),
                key < usize::MAX - 1,
                old_len <= self.slots@.len() <= if key < old_len { old_len as int } else { key as int + 1 },
                old_len < usize::MAX,
            decreases key + 1 - self.slots.len(),
        {
            self.slots.push(None);
            assert(self.view() =~= old_view);
        }
        proof {
            self.lemma_bounded();
        }
        let was_free = self.slots[key].is_none();
        self.slots.set(key, Some(value));
        assert(self.view() =~= old_view.insert(key, value));
        proof {
            self.lemma_bounded();
        }
        if was_free {
            assert(!old_view.dom().contains(key));
            assert(self.view().dom() =~= old_view.dom().insert(key));
            self.count = self.count + 1;
        } else {
            assert(self.view().dom() =~= old_view.dom());
        }
    }

    pub fn remove(&mut self, key: usize) -> (r: Option<T>)
        requires
            old(self).wf(),
        ensures
            final(self).wf(),
            final(self).view() == old(self).view().remove(key),
            final(self).extent() == old(self).extent(),
            r == (if old(self).view().dom().contains(key) {
                Some(old(self).view()[key])
            } else {
                None
            }),
    {
        let ghost old_view = self.view();
        proof {
            self.lemma_bounded();
        }
        if key < self.slots.len() {
            let r = self.slots[key];
            if r.is_some() {
                self.slots.set(key, None);
                assert(self.view() =~= old_view.remove(key));
                assert(self.view().dom() =~= old_view.dom().remove(key));
                self.count = self.count - 1;
            } else {
                assert(self.view() =~= old_view.remove(key));
            }
            r
        } else {
            assert(self.view() =~= old_view.remove(key));
            None
        }
    }

    /// The smallest key at or above the number of entries that no entry uses.
    pub fn fresh(&self) -> (r: usize)
        requires
            self.wf(),
        ensures
            r == fresh_index(self.view().dom()),
            r <= self.extent(),
    {
        proof {
            self.lemma_bounded();
            self.lemma_fresh_key();
        }
        let mut k = self.count;
        while k < self.slots.len() && self.slots[k].is_some()
            invariant
                self.wf(),
                self.count <= k <= self.slots@.len() || k == self.count,
                forall|j: usize| self.count <= j < k ==> self.view().dom().contains(j),
            decreases self.slots@.len() - k,
        {
            k = k + 1;
        }
        assert(!self.view().dom().contains(k));
        proof {
            let c = fresh_index(self.view().dom());
            if c != k {
                if c < k {
                    assert(self.view().dom().contains(c));
                } else {
                    assert(self.view().dom().contains(k));
                }
            }
        }
        k
    }

    /// All keys in use, in increasing order.
    pub fn keys(&self) -> (r: Vec<usize>)
        ensures
            forall|i: int, j: int| 0 <= i < j < r@.len() ==> r@[i] < r@[j],
            forall|k: usize| self.view().dom().contains(k) <==> r@.contains(k),
            r@.len() == self.view().dom().len(),
    {
        let mut r: Vec<usize> = Vec::new();
        let mut i: usize = 0;
        while i < self.slots.len()
            invariant
                i <= self.slots@.len(),
                forall|a: int, b: int| 0 <= a < b < r@.len() ==> r@[a] < r@[b],
                forall|a: int| 0 <= a < r@.len() ==> r@[a] < i,
                forall|k: usize| r@.contains(k) <==> (k < i && self.view().dom().contains(k)),
            decreases self.slots@.len() - i,
        {
            let ghost old_r = r@;
            assert(self.view().dom().contains(i) == self.slots@[i as int] is Some);
            if self.slots[i].is_some() {
                r.push(i);
                assert forall|k: usize| r@.contains(k) <==> (k < i + 1 && self.view().dom().contains(k)) by {
                    if old_r.contains(k) {
                        let a = choose|a: int| 0 <= a < old_r.len() && old_r[a] == k;
                        assert(r@[a] == k);
                    }
                    if k == i {
                        assert(r@[r@.len() - 1] == k);
                    }
                    if r@.contains(k) {
                        let a = choose|a: int| 0 <= a < r@.len() && r@[a] == k;
                        if a < old_r.len() {
                            assert(old_r[a] == k);
                            assert(old_r.contains(k));
                        }
                    }
                }
            } else {
                assert forall|k: usize| r@.contains(k) <==> (k < i + 1 && self.view().dom().contains(k)) by {
                    assert(old_r.contains(k) <==> (k < i && self.view().dom().contains(k)));
                }
            }
            i = i + 1;
        }
        proof {
            assert(r@.no_duplicates()) by {
                assert forall|a: int, b: int| 0 <= a < r@.len() && 0 <= b < r@.len() && a != b implies r@[a] != r@[b] by {
                    if a < b {
                        assert(r@[a] < r@[b]);
                    } else {
                        assert(r@[b] < r@[a]);
                    }
                }
            }
            r@.unique_seq_to_set();
            assert(r@.to_set() =~= self.view().dom());
        }
        r
    }
}

} // verus!
