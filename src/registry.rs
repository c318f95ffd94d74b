//! A table of resources addressed by small positive integer handles. Handles
//! are handed out in increasing order from 1 and never reused.
//!
//! The entries are a vector kept in handle order rather than a hash map: the
//! table must list its live handles in increasing order, and a hash map's walk
//! order is unspecified, whereas appending fresh, larger handles keeps the
//! vector sorted with nothing to sort. The tables hold a handful of entries, so
//! the linear lookup costs nothing that matters.
use vstd::prelude::*;

verus! {

/// Resources of one kind under their handles, oldest first.
pub struct Registry<T> {
    entries: Vec<(i32, T)>,
    next_id: i32,
}

/// Whether some live entry has handle `h`.
pub open spec fn has_handle<T>(entries: Seq<(i32, T)>, h: i32) -> bool {
    exists|i: int| 0 <= i < entries.len() && #[trigger] entries[i].0 == h
}

/// The live handles, oldest first.
pub open spec fn handles<T>(entries: Seq<(i32, T)>) -> Seq<i32> {
    entries.map_values(|e: (i32, T)| e.0)
}

impl<T> Registry<T> {
    /// The live entries, oldest first.
    pub closed spec fn entries(&self) -> Seq<(i32, T)> {
        self.entries@
    }

    /// The handle that the next insertion will receive.
    pub closed spec fn next(&self) -> int {
        self.next_id as int
    }

    /// Handles strictly increase, all below the next one and at least 1.
    pub open spec fn wf(&self) -> bool {
        &&& 1 <= self.next() <= i32::MAX
        &&& self.entries().len() < self.next()
        &&& forall|i: int| 0 <= i < self.entries().len() ==> 1 <= #[trigger] self.entries()[i].0 < self.next()
        &&& forall|i: int, j: int|
            0 <= i < j < self.entries().len() ==> #[trigger] self.entries()[i].0 < #[trigger] self.entries()[j].0
    }

    /// An empty table whose first handle will be 1.
    pub fn new() -> (r: Self)
        ensures
            r.wf(),
            r.entries().len() == 0,
            r.next() == 1,
    {
        Registry { entries: Vec::new(), next_id: 1 }
    }

    /// Stores `v` under a fresh handle and returns it; once every positive `i32`
    /// has been handed out, stores nothing and returns -1.
    pub fn insert(&mut self, v: T) -> (h: i32)
        requires
            old(self).wf(),
        ensures
            final(self).wf(),
            old(self).next() < i32::MAX ==> {
                &&& h == old(self).next()
                &&& final(self).entries() == old(self).entries().push((h, v))
                &&& final(self).next() == old(self).next() + 1
            },
            old(self).next() == i32::MAX ==> h == -1 && final(self).entries() == old(self).entries()
                && final(self).next() == old(self).next(),
    {
        if self.next_id == i32::MAX {
            return -1;
        }
        let id = self.next_id;
        self.entries.push((id, v));
        self.next_id = id + 1;
        id
    }

    /// Position of handle `h`, if it is live.
    fn find(&self, h: i32) -> (r: Option<usize>)
        requires
            self.wf(),
        ensures
            r is None <==> !has_handle(self.entries(), h),
            r matches Some(i) ==> i < self.entries().len() && self.entries()[i as int].0 == h,
    {
        let mut i: usize = 0;
        while i < self.entries.len()
            invariant
                i <= self.entries@.len(),
                forall|j: int| 0 <= j < i ==> #[trigger] self.entries@[j].0 != h,
            decreases self.entries@.len() - i,
        {
            if self.entries[i].0 == h {
                return Some(i);
            }
            i += 1;
        }
        None
    }

    /// Whether `h` names a live entry.
    pub fn contains(&self, h: i32) -> (r: bool)
        requires
            self.wf(),
        ensures
            r == has_handle(self.entries(), h),
    {
        self.find(h).is_some()
    }

    /// The resource under `h`, or `None` for an unknown or removed handle.
    pub fn get(&self, h: i32) -> (r: Option<&T>)
        requires
            self.wf(),
        ensures
            r is Some <==> has_handle(self.entries(), h),
            r matches Some(v) ==> exists|i: int|
                0 <= i < self.entries().len() && #[trigger] self.entries()[i] == (h, *v),
    {
        match self.find(h) {
            Some(i) => {
                let r = &self.entries[i].1;
                assert(self.entries()[i as int] == (h, *r));
                Some(r)
            },
            None => None,
        }
    }

    /// Removes the entry under `h`; false when there is none. Other handles and
    /// the next handle are unaffected.
    pub fn remove(&mut self, h: i32) -> (r: bool)
        requires
            old(self).wf(),
        ensures
            final(self).wf(),
            final(self).next() == old(self).next(),
            r == has_handle(old(self).entries(), h),
            r ==> exists|i: int|
                0 <= i < old(self).entries().len() && #[trigger] old(self).entries()[i].0 == h
                    && final(self).entries() == old(self).entries().remove(i),
            !r ==> final(self).entries() == old(self).entries(),
            !has_handle(final(self).entries(), h),
    {
        match self.find(h) {
            Some(i) => {
                let ghost before = self.entries@;
                self.entries.remove(i);
                assert(self.entries@ == before.remove(i as int));
                assert forall|a: int, b: int|
                    0 <= a < b < self.entries@.len() implies #[trigger] self.entries@[a].0
                        < #[trigger] self.entries@[b].0 by {
                    let a0 = if a < i { a } else { a + 1 };
                    let b0 = if b < i { b } else { b + 1 };
                    assert(before[a0].0 < before[b0].0);
                }
                assert forall|k: int| 0 <= k < self.entries@.len() implies #[trigger] self.entries@[k].0 != h by {
                    let k0 = if k < i { k } else { k + 1 };
                    assert(before[k0].0 != before[i as int].0);
                }
                true
            },
            None => false,
        }
    }

    /// The number of live entries.
    pub fn len(&self) -> (r: usize)
        ensures
            r == self.entries().len(),
    {
        self.entries.len()
    }

    /// The first `max` live handles in increasing order (all of them when
    /// there are fewer).
    pub fn ids(&self, max: usize) -> (r: Vec<i32>)
        requires
            self.wf(),
        ensures
            r@ == handles(self.entries()).take(
                if max < self.entries().len() { max as int } else { self.entries().len() as int },
            ),
            forall|i: int, j: int| 0 <= i < j < r@.len() ==> r@[i] < r@[j],
    {
        let n = if max < self.entries.len() { max } else { self.entries.len() };
        let mut r: Vec<i32> = Vec::with_capacity(n);
        let mut i: usize = 0;
        while i < n
            invariant
                i <= n,
                n <= self.entries@.len(),
                r@ =~= handles(self.entries@).take(i as int),
            decreases n - i,
        {
            r.push(self.entries[i].0);
            i += 1;
            assert(r@ =~= handles(self.entries@).take(i as int));
        }
        r
    }
}

} // verus!
