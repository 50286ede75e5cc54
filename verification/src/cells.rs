//! The sparse live-cell state: a set of coordinates, stored as a
//! duplicate-free vector and viewed in specifications as a `Set`.

use crate::topology::{in_grid, Coord};
use vstd::prelude::*;

verus! {

/// The set of currently-alive coordinates. Absence means dead.
pub struct CellSet {
    cells: Vec<Coord>,
}

impl View for CellSet {
    type V = Set<Coord>;

    closed spec fn view(&self) -> Set<Coord> {
        self.cells@.to_set()
    }
}

impl CellSet {
    /// The backing vector holds each member exactly once.
    pub closed spec fn wf(&self) -> bool {
        self.cells@.no_duplicates()
    }

    /// An empty set.
    pub fn new() -> (r: CellSet)
        ensures
            r.wf(),
            r@ == Set::<Coord>::empty(),
    {
        let r = CellSet { cells: Vec::new() };
        proof {
            assert(r.cells@.to_set() =~= Set::<Coord>::empty());
        }
        r
    }

    /// Membership test.
    pub fn contains(&self, c: Coord) -> (r: bool)
        ensures
            r == self@.contains(c),
    {
        let n = self.cells.len();
        let mut k: usize = 0;
        while k < n
            invariant
                k <= n,
                n == self.cells@.len(),
                forall|i: int| 0 <= i < k ==> self.cells@[i] != c,
            decreases n - k,
        {
            if self.cells[k].0 == c.0 && self.cells[k].1 == c.1 {
                assert(self.cells@.contains(c));
                return true;
            }
            k += 1;
        }
        assert(!self.cells@.contains(c));
        false
    }

    /// Adds `c`; no effect if it is already a member.
    pub fn insert(&mut self, c: Coord)
        requires
            old(self).wf(),
        ensures
            final(self).wf(),
            final(self)@ == old(self)@.insert(c),
    {
        broadcast use vstd::set::group_set_axioms;

        if !self.contains(c) {
            let ghost prev = self.cells@;
            self.cells.push(c);
            proof {
                assert forall|p: Coord| self.cells@.contains(p) implies prev.contains(p) || p
                    == c by {
                    let k = choose|k: int| 0 <= k < self.cells@.len() && self.cells@[k] == p;
                    if k < prev.len() {
                        assert(prev[k] == p);
                    }
                }
                assert forall|p: Coord| prev.contains(p) implies self.cells@.contains(p) by {
                    let k = choose|k: int| 0 <= k < prev.len() && prev[k] == p;
                    assert(self.cells@[k] == p);
                }
                assert(self.cells@[self.cells@.len() - 1] == c);
                assert(self.cells@.to_set() =~= prev.to_set().insert(c));
            }
        } else {
            proof {
                assert(self.cells@.to_set() =~= self.cells@.to_set().insert(c));
            }
        }
    }

    /// Adds a coordinate known not to be a member yet, without scanning.
    pub fn insert_new(&mut self, c: Coord)
        requires
            old(self).wf(),
            !old(self)@.contains(c),
        ensures
            final(self).wf(),
            final(self)@ == old(self)@.insert(c),
    {
        broadcast use vstd::set::group_set_axioms;

        let ghost prev = self.cells@;
        assert(!prev.contains(c));
        self.cells.push(c);
        proof {
            assert forall|p: Coord| self.cells@.contains(p) implies prev.contains(p) || p == c by {
                let k = choose|k: int| 0 <= k < self.cells@.len() && self.cells@[k] == p;
                if k < prev.len() {
                    assert(prev[k] == p);
                }
            }
            assert forall|p: Coord| prev.contains(p) implies self.cells@.contains(p) by {
                let k = choose|k: int| 0 <= k < prev.len() && prev[k] == p;
                assert(self.cells@[k] == p);
            }
            assert(self.cells@[self.cells@.len() - 1] == c);
            assert(self.cells@.to_set() =~= prev.to_set().insert(c));
        }
    }

    /// Removes `c`; no effect if it is not a member.
    pub fn remove(&mut self, c: Coord)
        requires
            old(self).wf(),
        ensures
            final(self).wf(),
            final(self)@ == old(self)@.remove(c),
    {
        broadcast use vstd::set::group_set_axioms;

        let ghost prev = self.cells@;
        let n = self.cells.len();
        let mut kept: Vec<Coord> = Vec::new();
        let mut k: usize = 0;
        while k < n
            invariant
                k <= n,
                n == prev.len(),
                self.cells@ == prev,
                prev.no_duplicates(),
                forall|p: Coord| #[trigger]
                    kept@.contains(p) <==> (exists|i: int| 0 <= i < k && prev[i] == p) && p != c,
                kept@.no_duplicates(),
            decreases n - k,
        {
            let q = self.cells[k];
            if !(q.0 == c.0 && q.1 == c.1) {
                let ghost kprev = kept@;
                assert(!kept@.contains(q)) by {
                    if kept@.contains(q) {
                        let i = choose|i: int| 0 <= i < k && prev[i] == q;
                        assert(prev[i] == prev[k as int]);
                    }
                }
                kept.push(q);
                proof {
                    assert forall|p: Coord| kept@.contains(p) implies kprev.contains(p) || p
                        == q by {
                        let j = choose|j: int| 0 <= j < kept@.len() && kept@[j] == p;
                        if j < kprev.len() {
                            assert(kprev[j] == p);
                        }
                    }
                    assert(kept@[kept@.len() - 1] == q);
                    assert forall|p: Coord| #[trigger]
                        kept@.contains(p) <==> (exists|i: int| 0 <= i < k + 1 && prev[i] == p) && p
                        != c by {
                        if kept@.contains(p) {
                            if kprev.contains(p) {
                                let i = choose|i: int| 0 <= i < k && prev[i] == p;
                                assert(0 <= i < k + 1 && prev[i] == p);
                            } else {
                                assert(p == q);
                                assert(prev[k as int] == p);
                            }
                        }
                        if (exists|i: int| 0 <= i < k + 1 && prev[i] == p) && p != c {
                            let i = choose|i: int| 0 <= i < k + 1 && prev[i] == p;
                            if i < k {
                                assert(kprev.contains(p));
                                let j = choose|j: int| 0 <= j < kprev.len() && kprev[j] == p;
                                assert(kept@[j] == p);
                            } else {
                                assert(p == q);
                            }
                        }
                    }
                }
            } else {
                proof {
                    assert(q == c);
                    assert forall|p: Coord| #[trigger]
                        kept@.contains(p) <==> (exists|i: int| 0 <= i < k + 1 && prev[i] == p) && p
                        != c by {
                        if (exists|i: int| 0 <= i < k + 1 && prev[i] == p) && p != c {
                            let i = choose|i: int| 0 <= i < k + 1 && prev[i] == p;
                            assert(i < k);
                        }
                    }
                }
            }
            k += 1;
        }
        self.cells = kept;
        proof {
            assert forall|p: Coord| prev.contains(p) && p != c implies (exists|i: int|
                0 <= i < n && prev[i] == p) by {
                let i = choose|i: int| 0 <= i < prev.len() && prev[i] == p;
            }
            assert(self.cells@.to_set() =~= prev.to_set().remove(c));
        }
    }

    /// Empties the set.
    pub fn clear(&mut self)
        ensures
            final(self).wf(),
            final(self)@ == Set::<Coord>::empty(),
    {
        self.cells = Vec::new();
        proof {
            assert(self.cells@.to_set() =~= Set::<Coord>::empty());
        }
    }

    /// The number of live cells.
    pub fn len(&self) -> (r: usize)
        requires
            self.wf(),
        ensures
            r == self@.len(),
    {
        proof {
            self.cells@.unique_seq_to_set();
        }
        self.cells.len()
    }

    /// The members of the set, each exactly once, in insertion order.
    pub fn as_list(&self) -> (r: &Vec<Coord>)
        requires
            self.wf(),
        ensures
            r@.to_set() == self@,
            r@.no_duplicates(),
    {
        &self.cells
    }

    /// The subset of members that lie inside a `w` by `h` grid.
    pub fn restrict(&self, w: usize, h: usize) -> (r: CellSet)
        requires
            self.wf(),
        ensures
            r.wf(),
            forall|p: Coord| #[trigger] r@.contains(p) <==> self@.contains(p) && in_grid(w, h, p),
    {
        let n = self.cells.len();
        let mut kept: Vec<Coord> = Vec::new();
        let mut k: usize = 0;
        while k < n
            invariant
                k <= n,
                n == self.cells@.len(),
                self.cells@.no_duplicates(),
                forall|p: Coord| #[trigger]
                    kept@.contains(p) <==> (exists|i: int| 0 <= i < k && self.cells@[i] == p)
                        && in_grid(w, h, p),
                kept@.no_duplicates(),
            decreases n - k,
        {
            let q = self.cells[k];
            if q.0 < w && q.1 < h {
                let ghost kprev = kept@;
                assert(!kept@.contains(q)) by {
                    if kept@.contains(q) {
                        let i = choose|i: int| 0 <= i < k && self.cells@[i] == q;
                        assert(self.cells@[i] == self.cells@[k as int]);
                    }
                }
                kept.push(q);
                proof {
                    assert forall|p: Coord| kept@.contains(p) implies kprev.contains(p) || p
                        == q by {
                        let j = choose|j: int| 0 <= j < kept@.len() && kept@[j] == p;
                        if j < kprev.len() {
                            assert(kprev[j] == p);
                        }
                    }
                    assert(kept@[kept@.len() - 1] == q);
                    assert forall|p: Coord| #[trigger]
                        kept@.contains(p) <==> (exists|i: int|
                            0 <= i < k + 1 && self.cells@[i] == p) && in_grid(w, h, p) by {
                        if kept@.contains(p) {
                            if kprev.contains(p) {
                                let i = choose|i: int| 0 <= i < k && self.cells@[i] == p;
                                assert(0 <= i < k + 1 && self.cells@[i] == p);
                            } else {
                                assert(p == q);
                                assert(self.cells@[k as int] == p);
                            }
                        }
                        if (exists|i: int| 0 <= i < k + 1 && self.cells@[i] == p) && in_grid(
                            w,
                            h,
                            p,
                        ) {
                            let i = choose|i: int| 0 <= i < k + 1 && self.cells@[i] == p;
                            if i < k {
                                assert(kprev.contains(p));
                                let j = choose|j: int| 0 <= j < kprev.len() && kprev[j] == p;
                                assert(kept@[j] == p);
                            } else {
                                assert(p == q);
                            }
                        }
                    }
                }
            } else {
                proof {
                    assert forall|p: Coord| #[trigger]
                        kept@.contains(p) <==> (exists|i: int|
                            0 <= i < k + 1 && self.cells@[i] == p) && in_grid(w, h, p) by {
                        if (exists|i: int| 0 <= i < k + 1 && self.cells@[i] == p) && in_grid(
                            w,
                            h,
                            p,
                        ) {
                            let i = choose|i: int| 0 <= i < k + 1 && self.cells@[i] == p;
                            assert(i < k);
                        }
                    }
                }
            }
            k += 1;
        }
        let r = CellSet { cells: kept };
        proof {
            assert forall|p: Coord| r@.contains(p) <==> self@.contains(p) && in_grid(w, h, p) by {
                if self@.contains(p) && in_grid(w, h, p) {
                    let i = choose|i: int| 0 <= i < self.cells@.len() && self.cells@[i] == p;
                }
            }
        }
        r
    }
}

} // verus!
