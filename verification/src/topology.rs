//! Grid topology: toroidal wraparound adjacency.
//!
//! A coordinate's neighbors are the wrapped images of the eight relative
//! offsets `(-1..1) x (-1..1)` minus the zero offset. On an axis of size 1
//! or 2 several offsets collapse to the same coordinate, so the neighbor
//! list is deduplicated; when width or height is 1 a cell is (once) its own
//! neighbor, which is retained.

use vstd::prelude::*;

verus! {

/// A cell position as (column, row).
pub type Coord = (usize, usize);

/// Dimensions are valid when both sides are at least one cell.
pub open spec fn valid_dims(w: usize, h: usize) -> bool {
    1 <= w && 1 <= h
}

/// `c` lies inside a `w` by `h` grid.
pub open spec fn in_grid(w: usize, h: usize, c: Coord) -> bool {
    c.0 < w && c.1 < h
}

/// One step towards zero along an axis of size `s`, wrapping toroidally.
pub open spec fn wrap_dec(x: usize, s: usize) -> usize {
    if x == 0 {
        (s - 1) as usize
    } else {
        (x - 1) as usize
    }
}

/// One step away from zero along an axis of size `s`, wrapping toroidally.
pub open spec fn wrap_inc(x: usize, s: usize) -> usize {
    if x + 1 == s {
        0
    } else {
        (x + 1) as usize
    }
}

/// `a` is within one toroidal step of `b` (or equal to it) on an axis of size `s`.
pub open spec fn near(a: usize, b: usize, s: usize) -> bool {
    a == b || a == wrap_dec(b, s) || a == wrap_inc(b, s)
}

/// The set of neighbors of `c`: the wrapped images of the eight nonzero
/// offsets. Duplicates collapse because this is a set.
pub open spec fn neighbor_set(w: usize, h: usize, c: Coord) -> Set<Coord> {
    set![
        (wrap_dec(c.0, w), wrap_dec(c.1, h)),
        (c.0, wrap_dec(c.1, h)),
        (wrap_inc(c.0, w), wrap_dec(c.1, h)),
        (wrap_dec(c.0, w), c.1),
        (wrap_inc(c.0, w), c.1),
        (wrap_dec(c.0, w), wrap_inc(c.1, h)),
        (c.0, wrap_inc(c.1, h)),
        (wrap_inc(c.0, w), wrap_inc(c.1, h)),
    ]
}

/// Strict lexicographic order on coordinates, columns first.
pub open spec fn lex_lt(p: Coord, q: Coord) -> bool {
    p.0 < q.0 || (p.0 == q.0 && p.1 < q.1)
}

/// `s` is a canonical neighbor list for `c`: duplicate-free, sorted in
/// strictly increasing lexicographic order, and holding exactly the
/// members of `neighbor_set`.
pub open spec fn nlist_ok(w: usize, h: usize, c: Coord, s: Seq<Coord>) -> bool {
    &&& forall|p: Coord| s.contains(p) <==> neighbor_set(w, h, c).contains(p)
    &&& s.no_duplicates()
    &&& forall|i: int, j: int| 0 <= i < j < s.len() ==> lex_lt(s[i], s[j])
}

/// Membership in the neighbor set, characterized by per-axis closeness:
/// `p` is a neighbor of `c` exactly when each component is within one
/// wrapped step of the corresponding component of `c`, and `p` is not `c`
/// itself unless an axis of size 1 makes a cell its own neighbor.
pub proof fn lemma_neighbor_char(w: usize, h: usize, c: Coord, p: Coord)
    requires
        valid_dims(w, h),
        in_grid(w, h, c),
    ensures
        neighbor_set(w, h, c).contains(p) <==> (near(p.0, c.0, w) && near(p.1, c.1, h) && (w
            == 1 || h == 1 || p != c)),
{
    broadcast use vstd::set::group_set_axioms;

    let ns = neighbor_set(w, h, c);
    if near(p.0, c.0, w) && near(p.1, c.1, h) && (w == 1 || h == 1 || p != c) {
        if p.0 == c.0 && p.1 == c.1 {
            // Only reachable when w == 1 or h == 1, where some nonzero
            // offset wraps back onto c itself.
            if w == 1 {
                assert(wrap_dec(c.0, w) == c.0);
                assert(ns.contains((wrap_dec(c.0, w), c.1)));
            } else {
                assert(h == 1);
                assert(wrap_dec(c.1, h) == c.1);
                assert(ns.contains((c.0, wrap_dec(c.1, h))));
            }
        } else if p.0 == c.0 {
            assert(p.1 == wrap_dec(c.1, h) || p.1 == wrap_inc(c.1, h));
            assert(ns.contains(p));
        } else if p.1 == c.1 {
            assert(ns.contains(p));
        } else {
            assert(ns.contains(p));
        }
    }
    if ns.contains(p) {
        assert(near(p.0, c.0, w) && near(p.1, c.1, h));
        if p == c {
            // c is one of the eight wrapped offsets only if some axis
            // has size 1.
            if w != 1 && h != 1 {
                assert(wrap_dec(c.0, w) != c.0 && wrap_inc(c.0, w) != c.0);
                assert(wrap_dec(c.1, h) != c.1 && wrap_inc(c.1, h) != c.1);
                assert(false);
            }
        }
    }
}

/// Both wrapped steps undo each other and stay inside the axis.
pub proof fn lemma_wrap_inverse(x: usize, s: usize)
    requires
        x < s,
    ensures
        wrap_dec(x, s) < s,
        wrap_inc(x, s) < s,
        wrap_inc(wrap_dec(x, s), s) == x,
        wrap_dec(wrap_inc(x, s), s) == x,
{
}

/// Closeness along an axis is symmetric.
pub proof fn lemma_near_symmetric(a: usize, b: usize, s: usize)
    requires
        a < s,
        b < s,
    ensures
        near(a, b, s) == near(b, a, s),
{
    lemma_wrap_inverse(a, s);
    lemma_wrap_inverse(b, s);
}

/// Law: the neighbor relation is symmetric. If `n` is a neighbor of `c`,
/// then `c` is a neighbor of `n`.
pub proof fn lemma_neighbor_symmetry(w: usize, h: usize, c: Coord, n: Coord)
    requires
        valid_dims(w, h),
        in_grid(w, h, c),
        neighbor_set(w, h, c).contains(n),
    ensures
        in_grid(w, h, n),
        neighbor_set(w, h, n).contains(c),
{
    lemma_neighbor_char(w, h, c, n);
    lemma_wrap_inverse(c.0, w);
    lemma_wrap_inverse(c.1, h);
    assert(n.0 < w && n.1 < h);
    lemma_neighbor_char(w, h, n, c);
    lemma_near_symmetric(n.0, c.0, w);
    lemma_near_symmetric(n.1, c.1, h);
}

/// Law: on a grid at least 3 wide and 3 tall every cell has exactly 8
/// distinct neighbors; on narrower or shorter grids the wrapped offsets
/// collapse and the (deduplicated) neighbor set is strictly smaller.
pub proof fn lemma_neighbor_count_bound(w: usize, h: usize, c: Coord)
    requires
        valid_dims(w, h),
        in_grid(w, h, c),
    ensures
        neighbor_set(w, h, c).finite(),
        w >= 3 && h >= 3 ==> neighbor_set(w, h, c).len() == 8,
        w < 3 || h < 3 ==> neighbor_set(w, h, c).len() < 8,
{
    broadcast use vstd::set::group_set_axioms;

    let cd = wrap_dec(c.0, w);
    let ci = wrap_inc(c.0, w);
    let rd = wrap_dec(c.1, h);
    let ri = wrap_inc(c.1, h);
    let e1 = (cd, rd);
    let e2 = (c.0, rd);
    let e3 = (ci, rd);
    let e4 = (cd, c.1);
    let e5 = (ci, c.1);
    let e6 = (cd, ri);
    let e7 = (c.0, ri);
    let e8 = (ci, ri);
    let s0 = Set::<Coord>::empty();
    let s1 = s0.insert(e1);
    let s2 = s1.insert(e2);
    let s3 = s2.insert(e3);
    let s4 = s3.insert(e4);
    let s5 = s4.insert(e5);
    let s6 = s5.insert(e6);
    let s7 = s6.insert(e7);
    let s8 = s7.insert(e8);
    assert(neighbor_set(w, h, c) =~= s8);
    if w >= 3 && h >= 3 {
        // The three column values and the three row values are pairwise
        // distinct, so all eight pairs are distinct.
        assert(cd != c.0 && ci != c.0 && cd != ci);
        assert(rd != c.1 && ri != c.1 && rd != ri);
        assert(!s0.contains(e1) && s1.len() == 1);
        assert(!s1.contains(e2) && s2.len() == 2);
        assert(!s2.contains(e3) && s3.len() == 3);
        assert(!s3.contains(e4) && s4.len() == 4);
        assert(!s4.contains(e5) && s5.len() == 5);
        assert(!s5.contains(e6) && s6.len() == 6);
        assert(!s6.contains(e7) && s7.len() == 7);
        assert(!s7.contains(e8) && s8.len() == 8);
    } else {
        // Some wrapped offsets coincide, so at least one insertion adds
        // nothing and fewer than 8 elements remain.
        assert(s1.len() == 1);
        assert(s2.len() <= 2);
        assert(s3.len() <= 3);
        assert(s4.len() <= 4);
        assert(s5.len() <= 5);
        assert(s6.len() <= 6);
        assert(s7.len() <= 7);
        assert(s8.len() <= 8);
        if w < 3 {
            // wrap_dec and wrap_inc agree on an axis of size 1 or 2.
            assert(cd == ci);
            assert(e3 == e1 && s2.contains(e3));
            assert(s3.len() <= 2);
            assert(s4.len() <= 3);
            assert(e5 == e4 && s4.contains(e5));
            assert(s5.len() <= 3);
            assert(s6.len() <= 4);
            assert(s7.len() <= 5);
            assert(e8 == e6 && s7.contains(e8));
            assert(s8.len() <= 5);
        } else {
            assert(h < 3);
            assert(rd == ri);
            assert(e6 == e1 && s5.contains(e6));
            assert(e7 == e2 && s6.contains(e7));
            assert(e8 == e3 && s7.contains(e8));
            assert(s8.len() <= 5);
        }
    }
}

/// The distinct values within one wrapped step of `x`, in increasing order.
fn axis_candidates(x: usize, s: usize) -> (r: Vec<usize>)
    requires
        x < s,
    ensures
        forall|i: int, j: int| 0 <= i < j < r@.len() ==> r@[i] < r@[j],
        forall|v: usize| r@.contains(v) <==> near(v, x, s),
        r@.len() == if s == 1 {
            1int
        } else if s == 2 {
            2int
        } else {
            3int
        },
{
    if s == 1 {
        let r = vec![x];
        assert(forall|v: usize| r@.contains(v) ==> v == x);
        assert(r@[0] == x);
        r
    } else if s == 2 {
        let r = vec![0usize, 1usize];
        assert(r@[0] == 0 && r@[1] == 1);
        assert(forall|v: usize| r@.contains(v) ==> v == 0 || v == 1);
        assert forall|v: usize| near(v, x, s) implies r@.contains(v) by {
            assert(v == 0 || v == 1);
            assert(r@[v as int] == v);
        }
        r
    } else if x == 0 {
        let r = vec![0usize, 1usize, s - 1];
        assert(r@[0] == 0 && r@[1] == 1 && r@[2] == s - 1);
        assert(forall|v: usize| r@.contains(v) ==> v == 0 || v == 1 || v == s - 1);
        r
    } else if x == s - 1 {
        let r = vec![0usize, s - 2, s - 1];
        assert(r@[0] == 0 && r@[1] == s - 2 && r@[2] == s - 1);
        assert(forall|v: usize| r@.contains(v) ==> v == 0 || v == s - 2 || v == s - 1);
        r
    } else {
        let r = vec![x - 1, x, x + 1];
        assert(r@[0] == x - 1 && r@[1] == x && r@[2] == x + 1);
        assert(forall|v: usize| r@.contains(v) ==> v == x - 1 || v == x || v == x + 1);
        r
    }
}

/// The neighbors of `(col, row)` on a `w` by `h` torus, as a duplicate-free
/// list sorted in increasing lexicographic order (columns first).
#[verifier::loop_isolation(false)]
pub fn neighbors_of(w: usize, h: usize, col: usize, row: usize) -> (r: Vec<Coord>)
    requires
        valid_dims(w, h),
        col < w,
        row < h,
    ensures
        nlist_ok(w, h, (col, row), r@),
        r@.to_set() == neighbor_set(w, h, (col, row)),
        r@.len() == neighbor_set(w, h, (col, row)).len(),
{
    broadcast use vstd::set::group_set_axioms;

    let cols = axis_candidates(col, w);
    let rows = axis_candidates(row, h);
    let skip = w > 1 && h > 1;
    let mut out: Vec<Coord> = Vec::new();
    let mut i: usize = 0;
    while i < cols.len()
        invariant
            i <= cols.len(),
            forall|i1: int, j1: int| 0 <= i1 < j1 < out@.len() ==> lex_lt(out@[i1], out@[j1]),
            forall|p: Coord| #[trigger]
                out@.contains(p) <==> exists|a: int, b: int|
                    0 <= a < i && 0 <= b < rows@.len() && p == (cols@[a], rows@[b]) && !(skip && p
                        == (col, row)),
        decreases cols.len() - i,
    {
        let mut j: usize = 0;
        while j < rows.len()
            invariant
                i < cols.len(),
                j <= rows.len(),
                forall|i1: int, j1: int| 0 <= i1 < j1 < out@.len() ==> lex_lt(out@[i1], out@[j1]),
                forall|p: Coord| #[trigger]
                    out@.contains(p) <==> exists|a: int, b: int|
                        (0 <= a < i && 0 <= b < rows@.len() || a == i && 0 <= b < j) && p == (
                        cols@[a],
                        rows@[b],
                        ) && !(skip && p == (col, row)),
            decreases rows.len() - j,
        {
            let q = (cols[i], rows[j]);
            if !(skip && q.0 == col && q.1 == row) {
                // Every element already present comes from an earlier pair
                // of axis indices, hence is lexicographically smaller.
                assert forall|k: int| 0 <= k < out@.len() implies lex_lt(out@[k], q) by {
                    assert(out@.contains(out@[k]));
                    let (a, b): (int, int) = choose|a: int, b: int|
                        (0 <= a < i && 0 <= b < rows@.len() || a == i && 0 <= b < j) && out@[k] == (
                        cols@[a],
                        rows@[b],
                        ) && !(skip && out@[k] == (col, row));
                    if a < i {
                        assert(cols@[a] < cols@[i as int]);
                    } else {
                        assert(rows@[b] < rows@[j as int]);
                    }
                }
                let ghost prev = out@;
                out.push(q);
                assert forall|p: Coord| #[trigger] out@.contains(p) implies (prev.contains(p) || p
                    == q) by {
                    let k = choose|k: int| 0 <= k < out@.len() && out@[k] == p;
                    if k < prev.len() {
                        assert(prev[k] == p);
                    }
                }
                assert(out@[out@.len() - 1] == q);
                assert forall|p: Coord| prev.contains(p) implies #[trigger] out@.contains(p) by {
                    let k = choose|k: int| 0 <= k < prev.len() && prev[k] == p;
                    assert(out@[k] == p);
                }
            }
            j += 1;
        }
        i += 1;
    }
    // The processed pairs now cover the whole product of the two axis
    // candidate lists; translate that into membership in the neighbor set.
    assert forall|p: Coord| out@.contains(p) <==> neighbor_set(w, h, (col, row)).contains(p) by {
        lemma_neighbor_char(w, h, (col, row), p);
        if out@.contains(p) {
            assert(cols@.contains(p.0) && rows@.contains(p.1)) by {
                let (a, b): (int, int) = choose|a: int, b: int|
                    0 <= a < cols@.len() && 0 <= b < rows@.len() && p == (cols@[a], rows@[b]) && !(
                    skip && p == (col, row));
                assert(cols@[a] == p.0 && rows@[b] == p.1);
            }
        }
        if neighbor_set(w, h, (col, row)).contains(p) {
            assert(near(p.0, col, w) && near(p.1, row, h) && !(skip && p == (col, row)));
            assert(cols@.contains(p.0) && rows@.contains(p.1));
            let a = choose|a: int| 0 <= a < cols@.len() && cols@[a] == p.0;
            let b = choose|b: int| 0 <= b < rows@.len() && rows@[b] == p.1;
            assert(p == (cols@[a], rows@[b]));
            assert(out@.contains(p));
        }
    }
    assert(out@.no_duplicates()) by {
        assert forall|i1: int, j1: int|
            0 <= i1 < out@.len() && 0 <= j1 < out@.len() && i1 != j1 implies out@[i1] != out@[j1] by {
            if i1 < j1 {
                assert(lex_lt(out@[i1], out@[j1]));
            } else {
                assert(lex_lt(out@[j1], out@[i1]));
            }
        }
    }
    assert(out@.to_set() =~= neighbor_set(w, h, (col, row)));
    proof {
        out@.unique_seq_to_set();
    }
    out
}

} // verus!
