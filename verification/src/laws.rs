//! Proved configuration laws of the generation step: a 2x2 block is a
//! still life, and the 3-cell blinker oscillates with period 2.

use crate::rules::{
    lemma_inter_count_3, lemma_inter_count_4, lemma_still_life_persists, live_nbr_count, next_gen,
    step_n,
};
use crate::topology::{
    in_grid, lemma_neighbor_char, lemma_wrap_inverse, neighbor_set, wrap_inc, Coord,
};
use vstd::prelude::*;

verus! {

/// A 2x2 block of live cells whose lower-left corner is `(x, y)`; the
/// other corners wrap toroidally when the block touches an edge.
pub open spec fn block_cells(w: usize, h: usize, x: usize, y: usize) -> Set<Coord> {
    set![
        (x, y),
        (wrap_inc(x, w), y),
        (x, wrap_inc(y, h)),
        (wrap_inc(x, w), wrap_inc(y, h)),
    ]
}

proof fn lemma_block_one_step(w: usize, h: usize, x: usize, y: usize)
    requires
        4 <= w,
        4 <= h,
        x < w,
        y < h,
    ensures
        next_gen(w, h, block_cells(w, h, x, y)) == block_cells(w, h, x, y),
{
    broadcast use vstd::set::group_set_axioms;

    let b = block_cells(w, h, x, y);
    let x1 = wrap_inc(x, w);
    let y1 = wrap_inc(y, h);
    let l1 = (x, y);
    let l2 = (x1, y);
    let l3 = (x, y1);
    let l4 = (x1, y1);
    lemma_wrap_inverse(x, w);
    lemma_wrap_inverse(y, h);
    assert(x1 != x && y1 != y);
    assert forall|p: Coord| next_gen(w, h, b).contains(p) == b.contains(p) by {
        if in_grid(w, h, p) {
            lemma_inter_count_4(l1, l2, l3, l4, neighbor_set(w, h, p));
            lemma_neighbor_char(w, h, p, l1);
            lemma_neighbor_char(w, h, p, l2);
            lemma_neighbor_char(w, h, p, l3);
            lemma_neighbor_char(w, h, p, l4);
            if b.contains(p) {
                // Each block cell has the other three as neighbors and no
                // other live neighbor, so it survives with count 3.
                assert(live_nbr_count(w, h, b, p) == 3);
            } else {
                // For any other cell the count factors per axis, so it is
                // 0, 1, 2 or 4 -- never the 3 needed for a birth.
                assert(live_nbr_count(w, h, b, p) != 3);
            }
        } else {
            assert(!b.contains(p));
        }
    }
    assert(next_gen(w, h, b) =~= b);
}

/// Law: a 2x2 block of live cells on a grid at least 4 wide and 4 tall is
/// a still life -- it remains unchanged after any number of ticks.
pub proof fn lemma_block_still_life(w: usize, h: usize, x: usize, y: usize, n: nat)
    requires
        4 <= w,
        4 <= h,
        x < w,
        y < h,
    ensures
        step_n(w, h, block_cells(w, h, x, y), n) == block_cells(w, h, x, y),
{
    lemma_block_one_step(w, h, x, y);
    lemma_still_life_persists(w, h, block_cells(w, h, x, y), n);
}

/// The horizontal 3-cell blinker in row 2.
pub open spec fn blinker_row() -> Set<Coord> {
    set![(1usize, 2usize), (2usize, 2usize), (3usize, 2usize)]
}

/// The vertical 3-cell blinker in column 2.
pub open spec fn blinker_col() -> Set<Coord> {
    set![(2usize, 1usize), (2usize, 2usize), (2usize, 3usize)]
}

proof fn lemma_blinker_row_step(w: usize, h: usize)
    requires
        5 <= w,
        5 <= h,
    ensures
        next_gen(w, h, blinker_row()) == blinker_col(),
{
    broadcast use vstd::set::group_set_axioms;

    let row = blinker_row();
    let r1 = (1usize, 2usize);
    let r2 = (2usize, 2usize);
    let r3 = (3usize, 2usize);
    assert forall|p: Coord| next_gen(w, h, row).contains(p) == blinker_col().contains(p) by {
        if in_grid(w, h, p) {
            lemma_inter_count_3(r1, r2, r3, neighbor_set(w, h, p));
            lemma_neighbor_char(w, h, p, r1);
            lemma_neighbor_char(w, h, p, r2);
            lemma_neighbor_char(w, h, p, r3);
        } else {
            assert(!blinker_col().contains(p));
        }
    }
    assert(next_gen(w, h, row) =~= blinker_col());
}

proof fn lemma_blinker_col_step(w: usize, h: usize)
    requires
        5 <= w,
        5 <= h,
    ensures
        next_gen(w, h, blinker_col()) == blinker_row(),
{
    broadcast use vstd::set::group_set_axioms;

    let col = blinker_col();
    let c1 = (2usize, 1usize);
    let c2 = (2usize, 2usize);
    let c3 = (2usize, 3usize);
    assert forall|p: Coord| next_gen(w, h, col).contains(p) == blinker_row().contains(p) by {
        if in_grid(w, h, p) {
            lemma_inter_count_3(c1, c2, c3, neighbor_set(w, h, p));
            lemma_neighbor_char(w, h, p, c1);
            lemma_neighbor_char(w, h, p, c2);
            lemma_neighbor_char(w, h, p, c3);
        } else {
            assert(!blinker_row().contains(p));
        }
    }
    assert(next_gen(w, h, col) =~= blinker_row());
}

/// Law: on a grid at least 5x5 the horizontal blinker in row 2 becomes the
/// vertical blinker in column 2 after one tick and returns to the original
/// horizontal triple after a second tick.
pub proof fn lemma_blinker_period(w: usize, h: usize)
    requires
        5 <= w,
        5 <= h,
    ensures
        next_gen(w, h, blinker_row()) == blinker_col(),
        next_gen(w, h, blinker_col()) == blinker_row(),
        step_n(w, h, blinker_row(), 2) == blinker_row(),
{
    lemma_blinker_row_step(w, h);
    lemma_blinker_col_step(w, h);
    assert(step_n(w, h, blinker_row(), 1) == next_gen(w, h, step_n(w, h, blinker_row(), 0)));
    assert(step_n(w, h, blinker_row(), 2) == next_gen(w, h, step_n(w, h, blinker_row(), 1)));
}

} // verus!
