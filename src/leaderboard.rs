//! An ordered set of `(price, bid id)` entries, kept sorted by price and then id.
use vstd::prelude::*;

use crate::pricing::Balance;

verus! {

/// One entry of a leaderboard: a price and the id of the bid it belongs to.
pub type Entry = (Balance, u64);

/// Lexicographic order: by price, then by bid id.
pub open spec fn entry_lt(a: Entry, b: Entry) -> bool {
    a.0 < b.0 || (a.0 == b.0 && a.1 < b.1)
}

fn entry_less(a: &Entry, b: &Entry) -> (r: bool)
    ensures
        r == entry_lt(*a, *b),
{
    a.0 < b.0 || (a.0 == b.0 && a.1 < b.1)
}

pub struct Leaderboard {
    entries: Vec<Entry>,
}

impl View for Leaderboard {
    type V = Set<Entry>;

    closed spec fn view(&self) -> Set<Entry> {
        Set::new(|e: Entry| self.entries@.contains(e))
    }
}

impl Leaderboard {
    /// Entries are strictly increasing, hence distinct.
    pub closed spec fn wf(&self) -> bool {
        forall|i: int, j: int|
            0 <= i < j < self.entries@.len() ==> entry_lt(
                #[trigger] self.entries@[i],
                #[trigger] self.entries@[j],
            )
    }

    pub fn new() -> (r: Self)
        ensures
            r.wf(),
            r@ == Set::<Entry>::empty(),
    {
        let r = Leaderboard { entries: Vec::new() };
        assert(r@ =~= Set::<Entry>::empty());
        r
    }

    /// First position whose entry is not below `k`.
    fn position(&self, k: &Entry) -> (i: usize)
        requires
            self.wf(),
        ensures
            i <= self.entries@.len(),
            forall|j: int| 0 <= j < i ==> entry_lt(#[trigger] self.entries@[j], *k),
            i < self.entries@.len() ==> !entry_lt(self.entries@[i as int], *k),
            forall|j: int| i < j < self.entries@.len() ==> entry_lt(*k, #[trigger] self.entries@[j]),
    {
        let mut i: usize = 0;
        while i < self.entries.len() && entry_less(&self.entries[i], k)
            invariant
                self.wf(),
                i <= self.entries@.len(),
                forall|j: int| 0 <= j < i ==> entry_lt(#[trigger] self.entries@[j], *k),
            decreases self.entries@.len() - i,
        {
            i = i + 1;
        }
        i
    }

    pub fn contains(&self, k: &Entry) -> (r: bool)
        requires
            self.wf(),
        ensures
            r == self@.contains(*k),
    {
        let i = self.position(k);
        if i < self.entries.len() && (self.entries[i].0 == k.0 && self.entries[i].1 == k.1) {
            true
        } else {
            proof {
                if self.entries@.contains(*k) {
                    let j = self.entries@.index_of(*k);
                    assert(self.entries@[j] == *k);
                }
            }
            false
        }
    }

    /// Adds `k`; returns whether it was absent.
    pub fn insert(&mut self, k: Entry) -> (r: bool)
        requires
            old(self).wf(),
        ensures
            final(self).wf(),
            final(self)@ == old(self)@.insert(k),
            r == !old(self)@.contains(k),
    {
        let i = self.position(&k);
        if i < self.entries.len() && (self.entries[i].0 == k.0 && self.entries[i].1 == k.1) {
            assert(self@.insert(k) =~= self@);
            false
        } else {
            proof {
                if self.entries@.contains(k) {
                    let j = self.entries@.index_of(k);
                    assert(self.entries@[j] == k);
                }
            }
            let ghost before = self.entries@;
            self.entries.insert(i, k);
            proof {
                assert(self.entries@ == before.insert(i as int, k));
                assert forall|a: int, b: int|
                    0 <= a < b < self.entries@.len() implies entry_lt(
                        #[trigger] self.entries@[a],
                        #[trigger] self.entries@[b],
                    ) by {
                    if b < i {
                    } else if b == i {
                        assert(self.entries@[a] == before[a]);
                    } else if a < i {
                        assert(self.entries@[b] == before[b - 1]);
                        if i < before.len() {
                            assert(entry_lt(k, before[b - 1]) || b - 1 == i);
                        }
                    } else if a == i {
                        assert(self.entries@[b] == before[b - 1]);
                    } else {
                        assert(self.entries@[a] == before[a - 1]);
                        assert(self.entries@[b] == before[b - 1]);
                    }
                }
                assert forall|e: Entry| self@.contains(e) <==> old(self)@.insert(k).contains(e) by {
                    if self.entries@.contains(e) {
                        let j = self.entries@.index_of(e);
                        if j < i {
                            assert(before[j] == e);
                        } else if j > i {
                            assert(before[j - 1] == e);
                        }
                    }
                    if before.contains(e) {
                        let j = before.index_of(e);
                        if j < i {
                            assert(self.entries@[j] == e);
                        } else {
                            assert(self.entries@[j + 1] == e);
                        }
                    }
                    if e == k {
                        assert(self.entries@[i as int] == k);
                    }
                }
                assert(self@ =~= old(self)@.insert(k));
            }
            true
        }
    }

    /// Removes `k`; returns whether it was present.
    pub fn remove(&mut self, k: &Entry) -> (r: bool)
        requires
            old(self).wf(),
        ensures
            final(self).wf(),
            final(self)@ == old(self)@.remove(*k),
            r == old(self)@.contains(*k),
    {
        let i = self.position(k);
        if i < self.entries.len() && (self.entries[i].0 == k.0 && self.entries[i].1 == k.1) {
            let ghost before = self.entries@;
            self.entries.remove(i);
            proof {
                assert(self.entries@ == before.remove(i as int));
                assert forall|a: int, b: int|
                    0 <= a < b < self.entries@.len() implies entry_lt(
                        #[trigger] self.entries@[a],
                        #[trigger] self.entries@[b],
                    ) by {
                    if b < i {
                    } else if a < i {
                        assert(self.entries@[b] == before[b + 1]);
                    } else {
                        assert(self.entries@[a] == before[a + 1]);
                        assert(self.entries@[b] == before[b + 1]);
                    }
                }
                assert forall|e: Entry| self@.contains(e) <==> old(self)@.remove(*k).contains(e) by {
                    if self.entries@.contains(e) {
                        let j = self.entries@.index_of(e);
                        if j < i {
                            assert(before[j] == e);
                        } else {
                            assert(before[j + 1] == e);
                        }
                    }
                    if before.contains(e) && e != *k {
                        let j = before.index_of(e);
                        if j < i {
                            assert(self.entries@[j] == e);
                        } else {
                            assert(j != i);
                            assert(self.entries@[j - 1] == e);
                        }
                    }
                }
                assert(self@ =~= old(self)@.remove(*k));
            }
            true
        } else {
            proof {
                if self.entries@.contains(*k) {
                    let j = self.entries@.index_of(*k);
                    assert(self.entries@[j] == *k);
                }
            }
            assert(self@.remove(*k) =~= self@);
            false
        }
    }

    /// The entries whose price lies in `lo..=hi`, in increasing order.
    pub fn range(&self, lo: Balance, hi: Balance) -> (r: Vec<Entry>)
        requires
            self.wf(),
        ensures
            forall|e: Entry| #[trigger] r@.contains(e) <==> (self@.contains(e) && lo <= e.0 <= hi),
            forall|i: int, j: int|
                0 <= i < j < r@.len() ==> entry_lt(#[trigger] r@[i], #[trigger] r@[j]),
    {
        let mut r: Vec<Entry> = Vec::new();
        let mut i: usize = 0;
        while i < self.entries.len()
            invariant
                self.wf(),
                i <= self.entries@.len(),
                forall|e: Entry| #[trigger]
                    r@.contains(e) <==> (self.entries@.take(i as int).contains(e) && lo <= e.0
                        <= hi),
                forall|a: int, b: int|
                    0 <= a < b < r@.len() ==> entry_lt(#[trigger] r@[a], #[trigger] r@[b]),
                forall|a: int| 0 <= a < r@.len() ==> exists|j: int| 0 <= j < i && #[trigger] r@[a] == self.entries@[j],
            decreases self.entries@.len() - i,
        {
            let e = self.entries[i];
            let ghost before = r@;
            let ghost t = self.entries@.take(i as int);
            let ghost t1 = self.entries@.take(i + 1);
            if lo <= e.0 && e.0 <= hi {
                r.push(e);
            }
            proof {
                assert(t1 =~= t.push(e));
                assert forall|x: Entry| #[trigger] t1.contains(x) <==> t.contains(x) || x == e by {
                    if t1.contains(x) && x != e {
                        let j = t1.index_of(x);
                        assert(t[j] == x);
                    }
                    if t.contains(x) {
                        let j = t.index_of(x);
                        assert(t1[j] == x);
                    }
                    if x == e {
                        assert(t1[i as int] == x);
                    }
                }
                if lo <= e.0 && e.0 <= hi {
                    assert(r@ == before.push(e));
                    assert forall|x: Entry| #[trigger] r@.contains(x) <==> before.contains(x) || x == e by {
                        if r@.contains(x) && x != e {
                            let j = r@.index_of(x);
                            assert(before[j] == x);
                        }
                        if before.contains(x) {
                            let j = before.index_of(x);
                            assert(r@[j] == x);
                        }
                        if x == e {
                            assert(r@[before.len() as int] == x);
                        }
                    }
                    assert forall|a: int| 0 <= a < before.len() implies entry_lt(before[a], e) by {
                        let j = choose|j: int| 0 <= j < i && #[trigger] before[a] == self.entries@[j];
                        assert(before[a] == self.entries@[j]);
                    }
                    assert forall|a: int| 0 <= a < r@.len() implies exists|j: int| 0 <= j < i + 1 && #[trigger] r@[a] == self.entries@[j] by {
                        if a < before.len() {
                            let j = choose|j: int| 0 <= j < i && #[trigger] before[a] == self.entries@[j];
                            assert(r@[a] == self.entries@[j]);
                        } else {
                            assert(r@[a] == self.entries@[i as int]);
                        }
                    }
                }
            }
            i = i + 1;
        }
        assert(self.entries@.take(i as int) =~= self.entries@);
        r
    }
}

} // verus!
