use vstd::prelude::*;

verus! {

/// An indexed store with a free list: keys of removed entries are handed out
/// again, and no two live entries share a key.
#[derive(Debug)]
pub struct Slab<T> {
    slots: Vec<Option<T>>,
    free: Vec<usize>,
}

impl<T> Slab<T> {
    /// The live entries, by key.
    pub closed spec fn view(&self) -> Map<usize, T> {
        Map::new(
            |k: usize| k < self.slots@.len() && self.slots@[k as int] is Some,
            |k: usize| self.slots@[k as int]->Some_0,
        )
    }

    /// The key the next `insert` hands out: the most recently freed one, or
    /// else a key never used.
    pub closed spec fn next_key(&self) -> usize {
        if self.free@.len() > 0 {
            self.free@.last()
        } else {
            self.slots@.len() as usize
        }
    }

    /// Every free key points at an empty slot, and no key is free twice.
    pub closed spec fn wf(&self) -> bool {
        &&& forall|i: int|
            0 <= i < self.free@.len() ==> #[trigger] self.free@[i] < self.slots@.len()
                && self.slots@[self.free@[i] as int] is None
        &&& forall|i: int, j: int|
            0 <= i < j < self.free@.len() ==> #[trigger] self.free@[i] != #[trigger] self.free@[j]
    }

    pub fn new() -> (r: Self)
        ensures
            r.wf(),
            r@ == Map::<usize, T>::empty(),
            r.next_key() == 0,
    {
        let r = Slab { slots: Vec::new(), free: Vec::new() };
        assert(r@ =~= Map::<usize, T>::empty());
        r
    }

    /// Stores `v` under a key that is not live, reusing a freed key if any.
    pub fn insert(&mut self, v: T) -> (k: usize)
        requires
            old(self).wf(),
        ensures
            final(self).wf(),
            !old(self)@.contains_key(k),
            final(self)@ == old(self)@.insert(k, v),
            k == old(self).next_key(),
    {
        if self.free.len() > 0 {
            let k = self.free.pop().unwrap();
            assert(self.free@ == old(self).free@.drop_last());
            assert(old(self).free@[old(self).free@.len() - 1] == k);
            let mut cell = Some(v);
            std::mem::swap(&mut self.slots[k], &mut cell);
            proof {
                assert forall|i: int| 0 <= i < self.free@.len() implies #[trigger] self.free@[i]
                    < self.slots@.len() && self.slots@[self.free@[i] as int] is None by {
                    assert(old(self).free@[i] != old(self).free@[old(self).free@.len() - 1]);
                }
                assert forall|i: int, j: int| 0 <= i < j < self.free@.len() implies #[trigger] self.free@[i]
                    != #[trigger] self.free@[j] by {
                    assert(old(self).free@[i] != old(self).free@[j]);
                }
                assert(self@ =~= old(self)@.insert(k, v));
            }
            k
        } else {
            let k = self.slots.len();
            self.slots.push(Some(v));
            proof {
                assert(self@ =~= old(self)@.insert(k, v));
            }
            k
        }
    }

    /// Takes the entry under `k` out, if it is live; the key becomes free.
    pub fn remove(&mut self, k: usize) -> (r: Option<T>)
        requires
            old(self).wf(),
        ensures
            final(self).wf(),
            final(self)@ == old(self)@.remove(k),
            old(self)@.contains_key(k) ==> r == Some(old(self)@[k]),
            !old(self)@.contains_key(k) ==> r is None,
            old(self)@.contains_key(k) ==> final(self).next_key() == k,
    {
        if k < self.slots.len() && self.slots[k].is_some() {
            let mut cell: Option<T> = None;
            std::mem::swap(&mut self.slots[k], &mut cell);
            proof {
                assert forall|i: int| 0 <= i < self.free@.len() implies self.free@[i] != k by {
                    assert(old(self).slots@[old(self).free@[i] as int] is None);
                }
            }
            self.free.push(k);
            proof {
                assert forall|i: int| 0 <= i < self.free@.len() implies #[trigger] self.free@[i]
                    < self.slots@.len() && self.slots@[self.free@[i] as int] is None by {
                    if i < old(self).free@.len() {
                        assert(self.free@[i] == old(self).free@[i]);
                    }
                }
                assert forall|i: int, j: int| 0 <= i < j < self.free@.len() implies #[trigger] self.free@[i]
                    != #[trigger] self.free@[j] by {
                    if j < old(self).free@.len() {
                        assert(old(self).free@[i] != old(self).free@[j]);
                    } else {
                        assert(self.free@[j] == k);
                        assert(old(self).free@[i] != k);
                    }
                }
                assert(self@ =~= old(self)@.remove(k));
            }
            cell
        } else {
            assert(self@ =~= old(self)@.remove(k));
            None
        }
    }

    /// One past the largest key ever handed out: every live key is below it.
    pub fn bound(&self) -> (r: usize)
        ensures
            forall|k: usize| #[trigger] self@.contains_key(k) ==> k < r,
    {
        self.slots.len()
    }

    /// Whether `k` is live.
    pub fn contains(&self, k: usize) -> (r: bool)
        ensures
            r == self@.contains_key(k),
    {
        k < self.slots.len() && self.slots[k].is_some()
    }

    /// The entry under `k`, if it is live.
    pub fn get(&self, k: usize) -> (r: Option<&T>)
        ensures
            self@.contains_key(k) ==> r == Some(&self@[k]),
            !self@.contains_key(k) ==> r is None,
    {
        if k < self.slots.len() {
            match &self.slots[k] {
                Some(v) => Some(v),
                None => None,
            }
        } else {
            None
        }
    }

    /// Puts `v` under the live key `k` and hands back what was there.
    pub fn replace(&mut self, k: usize, v: T) -> (r: T)
        requires
            old(self).wf(),
            old(self)@.contains_key(k),
        ensures
            final(self).wf(),
            final(self)@ == old(self)@.insert(k, v),
            r == old(self)@[k],
    {
        let mut cell = Some(v);
        std::mem::swap(&mut self.slots[k], &mut cell);
        proof {
            assert forall|i: int| 0 <= i < self.free@.len() implies self.free@[i] != k by {
                assert(old(self).slots@[old(self).free@[i] as int] is None);
            }
            assert(self@ =~= old(self)@.insert(k, v));
        }
        cell.unwrap()
    }
}

} // verus!
