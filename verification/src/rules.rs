//! The B3/S23 rule and the synchronous generation step, as specifications,
//! together with the counting lemmas that relate executable neighbor
//! counting to set intersection.

use crate::topology::{in_grid, neighbor_set, valid_dims, Coord};
use vstd::prelude::*;

verus! {

/// One cell's fate: a live cell survives on 2 or 3 live neighbors, a dead
/// cell is born on exactly 3.
pub open spec fn cell_next(alive: bool, n: int) -> bool {
    if alive {
        2 <= n && n <= 3
    } else {
        n == 3
    }
}

/// The number of members of `live` among the neighbors of `c`.
pub open spec fn live_nbr_count(w: usize, h: usize, live: Set<Coord>, c: Coord) -> int {
    live.intersect(neighbor_set(w, h, c)).len() as int
}

/// The whole next generation, computed from a snapshot of `live`:
/// exactly the in-grid cells whose fate under the rule is to be alive.
pub open spec fn next_gen(w: usize, h: usize, live: Set<Coord>) -> Set<Coord> {
    Set::new(
        |p: Coord| in_grid(w, h, p) && cell_next(live.contains(p), live_nbr_count(w, h, live, p)),
    )
}

/// `n` generations after `live`.
pub open spec fn step_n(w: usize, h: usize, live: Set<Coord>, n: nat) -> Set<Coord>
    decreases n,
{
    if n == 0 {
        live
    } else {
        next_gen(w, h, step_n(w, h, live, (n - 1) as nat))
    }
}

/// How many elements of the sequence `s` are members of `live`.
pub open spec fn count_in(live: Set<Coord>, s: Seq<Coord>) -> int
    decreases s.len(),
{
    if s.len() == 0 {
        0
    } else {
        count_in(live, s.drop_last()) + if live.contains(s.last()) {
            1int
        } else {
            0int
        }
    }
}

/// Counting over a duplicate-free sequence is the cardinality of the
/// intersection of `live` with the sequence's set of elements.
pub proof fn lemma_count_in_is_intersect(live: Set<Coord>, s: Seq<Coord>)
    requires
        s.no_duplicates(),
    ensures
        count_in(live, s) == live.intersect(s.to_set()).len(),
        live.intersect(s.to_set()).finite(),
    decreases s.len(),
{
    broadcast use vstd::set::group_set_axioms;
    broadcast use vstd::seq_lib::seq_to_set_is_finite;

    if s.len() == 0 {
        assert(live.intersect(s.to_set()) =~= Set::<Coord>::empty());
    } else {
        let s0 = s.drop_last();
        let x = s.last();
        assert(s0.no_duplicates());
        lemma_count_in_is_intersect(live, s0);
        assert(!s0.contains(x)) by {
            if s0.contains(x) {
                let i = choose|i: int| 0 <= i < s0.len() && s0[i] == x;
                assert(s[i] == s[s.len() - 1]);
            }
        }
        assert forall|p: Coord| s.contains(p) implies s0.contains(p) || p == x by {
            let i = choose|i: int| 0 <= i < s.len() && s[i] == p;
            if i < s0.len() {
                assert(s0[i] == p);
            }
        }
        assert forall|p: Coord| s0.contains(p) implies s.contains(p) by {
            let i = choose|i: int| 0 <= i < s0.len() && s0[i] == p;
            assert(s[i] == p);
        }
        assert(s.contains(x)) by {
            assert(s[s.len() - 1] == x);
        }
        if live.contains(x) {
            assert(live.intersect(s.to_set()) =~= live.intersect(s0.to_set()).insert(x));
            assert(!live.intersect(s0.to_set()).contains(x));
        } else {
            assert(live.intersect(s.to_set()) =~= live.intersect(s0.to_set()));
        }
    }
}

/// The cardinality of the intersection of a three-element set with `ns`,
/// as a sum of membership indicators.
pub proof fn lemma_inter_count_3(l1: Coord, l2: Coord, l3: Coord, ns: Set<Coord>)
    requires
        l1 != l2,
        l1 != l3,
        l2 != l3,
    ensures
        set![l1, l2, l3].intersect(ns).len() == (if ns.contains(l1) {
            1int
        } else {
            0int
        }) + (if ns.contains(l2) {
            1int
        } else {
            0int
        }) + (if ns.contains(l3) {
            1int
        } else {
            0int
        }),
        set![l1, l2, l3].intersect(ns).finite(),
{
    broadcast use vstd::set::group_set_axioms;

    let s0 = Set::<Coord>::empty();
    let s1 = s0.insert(l1);
    let s2 = s1.insert(l2);
    let s3 = s2.insert(l3);
    assert(s0.intersect(ns) =~= Set::<Coord>::empty());
    if ns.contains(l1) {
        assert(s1.intersect(ns) =~= s0.intersect(ns).insert(l1));
    } else {
        assert(s1.intersect(ns) =~= s0.intersect(ns));
    }
    if ns.contains(l2) {
        assert(s2.intersect(ns) =~= s1.intersect(ns).insert(l2));
        assert(!s1.intersect(ns).contains(l2));
    } else {
        assert(s2.intersect(ns) =~= s1.intersect(ns));
    }
    if ns.contains(l3) {
        assert(s3.intersect(ns) =~= s2.intersect(ns).insert(l3));
        assert(!s2.intersect(ns).contains(l3));
    } else {
        assert(s3.intersect(ns) =~= s2.intersect(ns));
    }
    assert(set![l1, l2, l3] =~= s3);
}

/// The cardinality of the intersection of a four-element set with `ns`,
/// as a sum of membership indicators.
pub proof fn lemma_inter_count_4(l1: Coord, l2: Coord, l3: Coord, l4: Coord, ns: Set<Coord>)
    requires
        l1 != l2,
        l1 != l3,
        l1 != l4,
        l2 != l3,
        l2 != l4,
        l3 != l4,
    ensures
        set![l1, l2, l3, l4].intersect(ns).len() == (if ns.contains(l1) {
            1int
        } else {
            0int
        }) + (if ns.contains(l2) {
            1int
        } else {
            0int
        }) + (if ns.contains(l3) {
            1int
        } else {
            0int
        }) + (if ns.contains(l4) {
            1int
        } else {
            0int
        }),
        set![l1, l2, l3, l4].intersect(ns).finite(),
{
    broadcast use vstd::set::group_set_axioms;

    let s3 = set![l1, l2, l3];
    let s4 = s3.insert(l4);
    lemma_inter_count_3(l1, l2, l3, ns);
    if ns.contains(l4) {
        assert(s4.intersect(ns) =~= s3.intersect(ns).insert(l4));
        assert(!s3.intersect(ns).contains(l4));
    } else {
        assert(s4.intersect(ns) =~= s3.intersect(ns));
    }
    assert(set![l1, l2, l3, l4] =~= s4);
}

/// A configuration that one step leaves unchanged is unchanged by any
/// number of steps.
pub proof fn lemma_still_life_persists(w: usize, h: usize, live: Set<Coord>, n: nat)
    requires
        next_gen(w, h, live) == live,
    ensures
        step_n(w, h, live, n) == live,
    decreases n,
{
    if n > 0 {
        lemma_still_life_persists(w, h, live, (n - 1) as nat);
    }
}

/// Law: an all-dead grid stays empty after any number of ticks.
pub proof fn lemma_empty_grid_stable(w: usize, h: usize, n: nat)
    requires
        valid_dims(w, h),
    ensures
        step_n(w, h, Set::<Coord>::empty(), n) == Set::<Coord>::empty(),
{
    broadcast use vstd::set::group_set_axioms;

    let none = Set::<Coord>::empty();
    assert forall|p: Coord| !next_gen(w, h, none).contains(p) by {
        assert(none.intersect(neighbor_set(w, h, p)) =~= none);
        assert(live_nbr_count(w, h, none, p) == 0);
    }
    assert(next_gen(w, h, none) =~= none);
    lemma_still_life_persists(w, h, none, n);
}

} // verus!
