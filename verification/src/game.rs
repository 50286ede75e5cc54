//! The simulation engine: grid state, the precomputed neighbor index, the
//! neighbor-counting pass and the rule-application pass, orchestrated by
//! `tick`.

use crate::cells::CellSet;
use crate::rules::{cell_next, count_in, lemma_count_in_is_intersect, live_nbr_count, next_gen};
use crate::topology::{
    in_grid, lemma_neighbor_count_bound, neighbor_set, neighbors_of, nlist_ok, valid_dims, Coord,
};
use vstd::pervasive::VecAdditionalExecFns;
use vstd::prelude::*;

verus! {

/// The errors the engine can report.
#[derive(Clone, Copy, Debug, PartialEq, Eq, Structural)]
pub enum GameError {
    /// `initialize` or `reset` was given a width or height below 1.
    InvalidDimensionsError,
    /// `tick` or `live_cells` was called before any `initialize`.
    InvalidStateError,
}

/// Relies on rand::random::<bool>: one draw from the thread-local
/// generator, each outcome with probability one half. Nothing can be
/// promised of the outcome, so this has no contract.
#[verifier::external_body]
fn random_bool() -> bool {
    rand::random::<bool>()
}

/// The flat index of coordinate `c` in row-major order on a grid `w` wide.
pub open spec fn gidx(w: usize, c: Coord) -> int {
    (c.1 as int) * (w as int) + (c.0 as int)
}

pub proof fn lemma_gidx_bounds(w: usize, h: usize, c: Coord)
    requires
        in_grid(w, h, c),
    ensures
        0 <= gidx(w, c) < (w as int) * (h as int),
{
    assert(0 <= (c.1 as int) * (w as int) + (c.0 as int) < (w as int) * (h as int))
        by (nonlinear_arith)
        requires
            (c.0 as int) < (w as int),
            (c.1 as int) < (h as int),
            0 <= (c.0 as int),
            0 <= (c.1 as int),
    ;
}

pub proof fn lemma_gidx_injective(w: usize, h: usize, c: Coord, d: Coord)
    requires
        in_grid(w, h, c),
        in_grid(w, h, d),
        gidx(w, c) == gidx(w, d),
    ensures
        c == d,
{
    assert(c.0 == d.0 && c.1 == d.1) by (nonlinear_arith)
        requires
            (c.0 as int) < (w as int),
            (d.0 as int) < (w as int),
            0 <= (c.0 as int),
            0 <= (d.0 as int),
            (c.1 as int) * (w as int) + (c.0 as int) == (d.1 as int) * (w as int) + (d.0 as int),
    ;
}

proof fn lemma_grid_area_bound(w: usize, h: usize)
    requires
        w <= 0xffff,
        h <= 0xffff,
    ensures
        (w as int) * (h as int) <= 0xfffe_0001,
{
    assert((w as int) * (h as int) <= 0xfffe_0001) by (nonlinear_arith)
        requires
            (w as int) <= 0xffff,
            (h as int) <= 0xffff,
            0 <= (w as int),
            0 <= (h as int),
    ;
}

/// The game state: an uninitialized engine, or a ready grid with its
/// dimensions, live-cell set, neighbor counts, and precomputed neighbor
/// index.
pub struct Game {
    initialized: bool,
    width: usize,
    height: usize,
    live_cells: CellSet,
    neighbors_count: Vec<u8>,
    neighbors_map: Vec<Vec<Coord>>,
}

impl Game {
    /// Whether `initialize` has run.
    pub closed spec fn is_ready(&self) -> bool {
        self.initialized
    }

    /// The grid width in cells (0 before initialization).
    pub closed spec fn grid_width(&self) -> usize {
        self.width
    }

    /// The grid height in cells (0 before initialization).
    pub closed spec fn grid_height(&self) -> usize {
        self.height
    }

    /// The set of live coordinates.
    pub closed spec fn live_set(&self) -> Set<Coord> {
        self.live_cells@
    }

    /// The stored neighbor count of `c` from the latest counting pass.
    pub closed spec fn count_at(&self, c: Coord) -> int {
        self.neighbors_count@[gidx(self.width, c)] as int
    }

    /// Internal invariant: the live set is duplicate-free and in bounds,
    /// the counts cover the whole grid, and the neighbor index holds the
    /// canonical neighbor list of every coordinate.
    pub closed spec fn wf(&self) -> bool {
        &&& self.live_cells.wf()
        &&& if self.initialized {
            &&& valid_dims(self.width, self.height)
            &&& self.width <= 0xffff
            &&& self.height <= 0xffff
            &&& forall|p: Coord|
                self.live_cells@.contains(p) ==> in_grid(self.width, self.height, p)
            &&& self.neighbors_count@.len() == (self.width as int) * (self.height as int)
            &&& self.neighbors_map@.len() == (self.width as int) * (self.height as int)
            &&& forall|p: Coord|
                in_grid(self.width, self.height, p) ==> nlist_ok(
                    self.width,
                    self.height,
                    p,
                    #[trigger] self.neighbors_map@[gidx(self.width, p)]@,
                )
        } else {
            &&& self.width == 0
            &&& self.height == 0
            &&& self.live_cells@ == Set::<Coord>::empty()
            &&& self.neighbors_count@.len() == 0
            &&& self.neighbors_map@.len() == 0
        }
    }

    /// An engine on which `initialize` has not yet run.
    pub fn new() -> (r: Game)
        ensures
            r.wf(),
            !r.is_ready(),
            r.live_set() == Set::<Coord>::empty(),
    {
        Game {
            initialized: false,
            width: 0,
            height: 0,
            live_cells: CellSet::new(),
            neighbors_count: Vec::new(),
            neighbors_map: Vec::new(),
        }
    }

    /// A random seed: each in-grid coordinate is drawn alive with
    /// probability one half, independently. Empty when either dimension is
    /// below 1. Only membership bounds can be promised of the outcome.
    #[verifier::loop_isolation(false)]
    pub fn create_random_grid(grid_size: (i32, i32)) -> (r: CellSet)
        ensures
            r.wf(),
            forall|p: Coord| #[trigger]
                r@.contains(p) ==> grid_size.0 >= 1 && grid_size.1 >= 1 && in_grid(
                    grid_size.0 as usize,
                    grid_size.1 as usize,
                    p,
                ),
    {
        let mut r = CellSet::new();
        if grid_size.0 < 1 || grid_size.1 < 1 {
            return r;
        }
        let w = grid_size.0 as usize;
        let h = grid_size.1 as usize;
        let mut row: usize = 0;
        while row < h
            invariant
                row <= h,
                r.wf(),
                forall|p: Coord| #[trigger]
                    r@.contains(p) ==> in_grid(w, h, p) && (p.1 as int) < row,
            decreases h - row,
        {
            let mut col: usize = 0;
            while col < w
                invariant
                    col <= w,
                    row < h,
                    r.wf(),
                    forall|p: Coord| #[trigger]
                        r@.contains(p) ==> in_grid(w, h, p) && ((p.1 as int) < row || (p.1 as int)
                            == row && (p.0 as int) < col),
                decreases w - col,
            {
                if random_bool() {
                    assert(!r@.contains((col, row)));
                    r.insert_new((col, row));
                }
                col += 1;
            }
            row += 1;
        }
        r
    }

    /// The canonical neighbor index for a `w` by `h` grid: for every
    /// coordinate, its deduplicated, sorted neighbor list, in row-major
    /// order.
    #[verifier::loop_isolation(false)]
    fn build_neighbor_map(w: usize, h: usize) -> (r: Vec<Vec<Coord>>)
        requires
            valid_dims(w, h),
            w <= 0xffff,
            h <= 0xffff,
        ensures
            r@.len() == (w as int) * (h as int),
            forall|p: Coord|
                in_grid(w, h, p) ==> nlist_ok(w, h, p, #[trigger] r@[gidx(w, p)]@),
    {
        let mut map: Vec<Vec<Coord>> = Vec::new();
        let mut row: usize = 0;
        while row < h
            invariant
                row <= h,
                map@.len() == (row as int) * (w as int),
                forall|p: Coord|
                    in_grid(w, h, p) && gidx(w, p) < map@.len() ==> nlist_ok(
                        w,
                        h,
                        p,
                        #[trigger] map@[gidx(w, p)]@,
                    ),
            decreases h - row,
        {
            let mut col: usize = 0;
            while col < w
                invariant
                    col <= w,
                    row < h,
                    map@.len() == (row as int) * (w as int) + (col as int),
                    forall|p: Coord|
                        in_grid(w, h, p) && gidx(w, p) < map@.len() ==> nlist_ok(
                            w,
                            h,
                            p,
                            #[trigger] map@[gidx(w, p)]@,
                        ),
                decreases w - col,
            {
                let lst = neighbors_of(w, h, col, row);
                let ghost prev = map@;
                map.push(lst);
                proof {
                    assert(gidx(w, (col, row)) == prev.len());
                    assert forall|p: Coord| in_grid(w, h, p) && gidx(w, p) < map@.len() implies
                        nlist_ok(w, h, p, #[trigger] map@[gidx(w, p)]@) by {
                        if gidx(w, p) == prev.len() {
                            lemma_gidx_injective(w, h, p, (col, row));
                        } else {
                            lemma_gidx_bounds(w, h, p);
                            assert(map@[gidx(w, p)] == prev[gidx(w, p)]);
                        }
                    }
                }
                col += 1;
            }
            proof {
                assert((row as int) * (w as int) + (w as int) == ((row as int) + 1) * (w as int))
                    by (nonlinear_arith);
            }
            row += 1;
        }
        proof {
            assert((h as int) * (w as int) == (w as int) * (h as int)) by (nonlinear_arith);
            assert forall|p: Coord| in_grid(w, h, p) implies gidx(w, p) < map@.len() by {
                lemma_gidx_bounds(w, h, p);
            }
        }
        map
    }

    /// A counts vector covering the whole grid, all zero.
    #[verifier::loop_isolation(false)]
    fn build_zero_counts(w: usize, h: usize) -> (r: Vec<u8>)
        requires
            valid_dims(w, h),
            w <= 0xffff,
            h <= 0xffff,
        ensures
            r@.len() == (w as int) * (h as int),
            forall|i: int| 0 <= i < r@.len() ==> r@[i] == 0,
    {
        let mut counts: Vec<u8> = Vec::new();
        let mut row: usize = 0;
        while row < h
            invariant
                row <= h,
                counts@.len() == (row as int) * (w as int),
                forall|i: int| 0 <= i < counts@.len() ==> counts@[i] == 0,
            decreases h - row,
        {
            let mut col: usize = 0;
            while col < w
                invariant
                    col <= w,
                    row < h,
                    counts@.len() == (row as int) * (w as int) + (col as int),
                    forall|i: int| 0 <= i < counts@.len() ==> counts@[i] == 0,
                decreases w - col,
            {
                counts.push(0);
                col += 1;
            }
            proof {
                assert((row as int) * (w as int) + (w as int) == ((row as int) + 1) * (w as int))
                    by (nonlinear_arith);
            }
            row += 1;
        }
        proof {
            assert((h as int) * (w as int) == (w as int) * (h as int)) by (nonlinear_arith);
        }
        counts
    }

    /// Builds a ready engine: validates the dimensions, precomputes the
    /// neighbor index, and seeds the live set with the in-grid members of
    /// `seed` (the injected randomness outcome, see `create_random_grid`).
    /// A side of the grid may be at most 0xffff cells, so that the
    /// per-cell tables are addressable on any target.
    pub fn initialize(grid_size: (i32, i32), seed: &CellSet) -> (r: Result<Game, GameError>)
        requires
            seed.wf(),
            grid_size.0 <= 0xffff,
            grid_size.1 <= 0xffff,
        ensures
            match r {
                Ok(g) => {
                    &&& grid_size.0 >= 1 && grid_size.1 >= 1
                    &&& g.wf()
                    &&& g.is_ready()
                    &&& g.grid_width() == grid_size.0 as usize
                    &&& g.grid_height() == grid_size.1 as usize
                    &&& forall|p: Coord| #[trigger]
                        g.live_set().contains(p) <==> seed@.contains(p) && in_grid(
                            g.grid_width(),
                            g.grid_height(),
                            p,
                        )
                    &&& forall|p: Coord|
                        in_grid(g.grid_width(), g.grid_height(), p) ==> g.count_at(p) == 0
                },
                Err(e) => {
                    &&& e == GameError::InvalidDimensionsError
                    &&& (grid_size.0 < 1 || grid_size.1 < 1)
                },
            },
    {
        if grid_size.0 < 1 || grid_size.1 < 1 {
            return Err(GameError::InvalidDimensionsError);
        }
        let width = grid_size.0 as usize;
        let height = grid_size.1 as usize;
        let neighbors_map = Self::build_neighbor_map(width, height);
        let neighbors_count = Self::build_zero_counts(width, height);
        let live_cells = seed.restrict(width, height);
        let g = Game { initialized: true, width, height, live_cells, neighbors_count, neighbors_map };
        proof {
            assert forall|p: Coord| in_grid(width, height, p) implies g.count_at(p) == 0 by {
                lemma_gidx_bounds(width, height, p);
            }
        }
        Ok(g)
    }

    /// Re-initializes in place with possibly new dimensions, rebuilding
    /// the neighbor index; the engine is unchanged when the dimensions are
    /// rejected.
    pub fn reset(&mut self, grid_size: (i32, i32), seed: &CellSet) -> (r: Result<(), GameError>)
        requires
            old(self).wf(),
            seed.wf(),
            grid_size.0 <= 0xffff,
            grid_size.1 <= 0xffff,
        ensures
            final(self).wf(),
            match r {
                Ok(()) => {
                    &&& grid_size.0 >= 1 && grid_size.1 >= 1
                    &&& final(self).is_ready()
                    &&& final(self).grid_width() == grid_size.0 as usize
                    &&& final(self).grid_height() == grid_size.1 as usize
                    &&& forall|p: Coord| #[trigger]
                        final(self).live_set().contains(p) <==> seed@.contains(p) && in_grid(
                            final(self).grid_width(),
                            final(self).grid_height(),
                            p,
                        )
                    &&& forall|p: Coord|
                        in_grid(final(self).grid_width(), final(self).grid_height(), p) ==> final(self).count_at(p) == 0
                },
                Err(e) => {
                    &&& e == GameError::InvalidDimensionsError
                    &&& (grid_size.0 < 1 || grid_size.1 < 1)
                    &&& same_observations(*old(self), *final(self))
                },
            },
    {
        match Self::initialize(grid_size, seed) {
            Ok(g) => {
                *self = g;
                Ok(())
            },
            Err(e) => Err(e),
        }
    }

    /// The grid dimensions as (width, height); (0, 0) before
    /// initialization.
    pub fn dimensions(&self) -> (r: (usize, usize))
        ensures
            r.0 == self.grid_width(),
            r.1 == self.grid_height(),
    {
        (self.width, self.height)
    }

    /// A read-only view of the live-cell set, for rendering.
    pub fn live_cells(&self) -> (r: Result<&CellSet, GameError>)
        requires
            self.wf(),
        ensures
            match r {
                Ok(cs) => {
                    &&& self.is_ready()
                    &&& cs.wf()
                    &&& cs@ == self.live_set()
                },
                Err(e) => {
                    &&& e == GameError::InvalidStateError
                    &&& !self.is_ready()
                },
            },
    {
        if !self.initialized {
            return Err(GameError::InvalidStateError);
        }
        Ok(&self.live_cells)
    }

    /// Whether the cell at `(col, row)` is currently alive.
    pub fn is_alive(&self, col: usize, row: usize) -> (r: bool)
        ensures
            r == self.live_set().contains((col, row)),
    {
        self.live_cells.contains((col, row))
    }

    /// The neighbors of `(input_col, input_row)`, as a duplicate-free list
    /// sorted in increasing lexicographic order.
    pub fn get_neighbors(&self, input_col: usize, input_row: usize) -> (r: Vec<Coord>)
        requires
            self.wf(),
            self.is_ready(),
            input_col < self.grid_width(),
            input_row < self.grid_height(),
        ensures
            nlist_ok(self.grid_width(), self.grid_height(), (input_col, input_row), r@),
            r@.len() == neighbor_set(
                self.grid_width(),
                self.grid_height(),
                (input_col, input_row),
            ).len(),
    {
        neighbors_of(self.width, self.height, input_col, input_row)
    }

    /// Rebuilds the neighbor index from the current dimensions. A ready
    /// engine already keeps the index current, so this changes no
    /// observable state; it mirrors an explicit build step of the engine's
    /// callers.
    pub fn create_neighbor_map(&mut self)
        requires
            old(self).wf(),
        ensures
            final(self).wf(),
            same_observations(*old(self), *final(self)),
    {
        if !self.initialized {
            return ;
        }
        let map = Self::build_neighbor_map(self.width, self.height);
        self.neighbors_map = map;
    }

    /// The counting pass: stores, for every coordinate, how many of its
    /// neighbors are currently alive. Reads only a snapshot of the live
    /// set and does not change it.
    #[verifier::loop_isolation(false)]
    pub fn count_neighbors(&mut self)
        requires
            old(self).wf(),
        ensures
            final(self).wf(),
            final(self).is_ready() == old(self).is_ready(),
            final(self).grid_width() == old(self).grid_width(),
            final(self).grid_height() == old(self).grid_height(),
            final(self).live_set() == old(self).live_set(),
            old(self).is_ready() ==> forall|p: Coord|
                in_grid(old(self).grid_width(), old(self).grid_height(), p) ==> final(self).count_at(p) == live_nbr_count(
                    old(self).grid_width(),
                    old(self).grid_height(),
                    old(self).live_set(),
                    p,
                ),
            !old(self).is_ready() ==> same_observations(*old(self), *final(self)),
    {
        if !self.initialized {
            return ;
        }
        let w = self.width;
        let h = self.height;
        let ghost live = self.live_cells@;
        let mut counts: Vec<u8> = Vec::new();
        let mut row: usize = 0;
        while row < h
            invariant
                row <= h,
                counts@.len() == (row as int) * (w as int),
                forall|p: Coord|
                    in_grid(w, h, p) && gidx(w, p) < counts@.len() ==> (
                    #[trigger] counts@[gidx(w, p)]) as int == live_nbr_count(w, h, live, p),
            decreases h - row,
        {
            let mut col: usize = 0;
            while col < w
                invariant
                    col <= w,
                    row < h,
                    counts@.len() == (row as int) * (w as int) + (col as int),
                    forall|p: Coord|
                        in_grid(w, h, p) && gidx(w, p) < counts@.len() ==> (
                        #[trigger] counts@[gidx(w, p)]) as int == live_nbr_count(w, h, live, p),
                decreases w - col,
            {
                proof {
                    lemma_gidx_bounds(w, h, (col, row));
                    lemma_grid_area_bound(w, h);
                    assert(gidx(w, (col, row)) == (row as int) * (w as int) + (col as int));
                    assert(0 <= (row as int) * (w as int) + (col as int) < (w as int) * (
                    h as int));
                }
                let idx = row * w + col;
                let lst = &self.neighbors_map[idx];
                proof {
                    assert(nlist_ok(w, h, (col, row), lst@));
                    lemma_neighbor_count_bound(w, h, (col, row));
                    lst@.unique_seq_to_set();
                    assert(lst@.to_set() =~= neighbor_set(w, h, (col, row)));
                    assert(lst@.len() <= 8);
                }
                let mut n: u8 = 0;
                let mut k: usize = 0;
                while k < lst.len()
                    invariant
                        k <= lst@.len(),
                        n as int == count_in(live, lst@.take(k as int)),
                        n <= k,
                    decreases lst@.len() - k,
                {
                    let ghost kpre = k as int;
                    if self.live_cells.contains(lst[k]) {
                        n += 1;
                    }
                    k += 1;
                    proof {
                        assert(lst@.take(kpre + 1).drop_last() =~= lst@.take(kpre));
                        assert(lst@.take(kpre + 1).last() == lst@[kpre]);
                    }
                }
                proof {
                    assert(lst@.take(lst@.len() as int) =~= lst@);
                    lemma_count_in_is_intersect(live, lst@);
                    assert(live.intersect(lst@.to_set()) == live.intersect(
                        neighbor_set(w, h, (col, row)),
                    ));
                    assert(n as int == live_nbr_count(w, h, live, (col, row)));
                }
                let ghost prev = counts@;
                counts.push(n);
                proof {
                    assert(gidx(w, (col, row)) == prev.len());
                    assert forall|p: Coord|
                        in_grid(w, h, p) && gidx(w, p) < counts@.len() implies (
                    #[trigger] counts@[gidx(w, p)]) as int == live_nbr_count(w, h, live, p) by {
                        if gidx(w, p) == prev.len() {
                            lemma_gidx_injective(w, h, p, (col, row));
                        } else {
                            lemma_gidx_bounds(w, h, p);
                            assert(counts@[gidx(w, p)] == prev[gidx(w, p)]);
                        }
                    }
                }
                col += 1;
            }
            proof {
                assert((row as int) * (w as int) + (w as int) == ((row as int) + 1) * (w as int))
                    by (nonlinear_arith);
            }
            row += 1;
        }
        proof {
            assert((h as int) * (w as int) == (w as int) * (h as int)) by (nonlinear_arith);
            assert forall|p: Coord| in_grid(w, h, p) implies gidx(w, p) < counts@.len() by {
                lemma_gidx_bounds(w, h, p);
            }
        }
        self.neighbors_count = counts;
    }

    /// The rule-application pass: builds the next generation as a fresh
    /// set from the current live set and the stored neighbor counts, then
    /// replaces the live set wholesale, so no mid-pass mutation can affect
    /// any cell's fate.
    #[verifier::loop_isolation(false)]
    pub fn apply_rules(&mut self)
        requires
            old(self).wf(),
        ensures
            final(self).wf(),
            final(self).is_ready() == old(self).is_ready(),
            final(self).grid_width() == old(self).grid_width(),
            final(self).grid_height() == old(self).grid_height(),
            forall|p: Coord| final(self).count_at(p) == old(self).count_at(p),
            old(self).is_ready() ==> forall|p: Coord| #[trigger]
                final(self).live_set().contains(p) <==> in_grid(
                    old(self).grid_width(),
                    old(self).grid_height(),
                    p,
                ) && cell_next(old(self).live_set().contains(p), old(self).count_at(p)),
            !old(self).is_ready() ==> final(self).live_set() == old(self).live_set(),
    {
        if !self.initialized {
            return ;
        }
        let w = self.width;
        let h = self.height;
        let mut next: CellSet = CellSet::new();
        let mut row: usize = 0;
        while row < h
            invariant
                row <= h,
                next.wf(),
                forall|p: Coord| #[trigger]
                    next@.contains(p) <==> in_grid(w, h, p) && (p.1 as int) < row && cell_next(
                        self.live_set().contains(p),
                        self.count_at(p),
                    ),
            decreases h - row,
        {
            let mut col: usize = 0;
            while col < w
                invariant
                    col <= w,
                    row < h,
                    next.wf(),
                    forall|p: Coord| #[trigger]
                        next@.contains(p) <==> in_grid(w, h, p) && ((p.1 as int) < row || (
                        p.1 as int) == row && (p.0 as int) < col) && cell_next(
                            self.live_set().contains(p),
                            self.count_at(p),
                        ),
                decreases w - col,
            {
                proof {
                    lemma_gidx_bounds(w, h, (col, row));
                    lemma_grid_area_bound(w, h);
                    assert(gidx(w, (col, row)) == (row as int) * (w as int) + (col as int));
                    assert(0 <= (row as int) * (w as int) + (col as int) < (w as int) * (
                    h as int));
                }
                let idx = row * w + col;
                let alive = self.live_cells.contains((col, row));
                let n = self.neighbors_count[idx];
                let fate = if alive {
                    n == 2 || n == 3
                } else {
                    n == 3
                };
                if fate {
                    assert(!next@.contains((col, row)));
                    next.insert_new((col, row));
                }
                col += 1;
            }
            row += 1;
        }
        self.live_cells = next;
    }

    /// One tick: the counting pass over a snapshot of the current
    /// generation, then the rule pass, replacing the live set with exactly
    /// the next generation. Fails before initialization.
    pub fn tick(&mut self) -> (r: Result<(), GameError>)
        requires
            old(self).wf(),
        ensures
            final(self).wf(),
            old(self).is_ready() ==> {
                &&& r == Ok::<(), GameError>(())
                &&& final(self).is_ready()
                &&& final(self).grid_width() == old(self).grid_width()
                &&& final(self).grid_height() == old(self).grid_height()
                &&& final(self).live_set() == next_gen(
                    old(self).grid_width(),
                    old(self).grid_height(),
                    old(self).live_set(),
                )
            },
            !old(self).is_ready() ==> {
                &&& r == Err::<(), GameError>(GameError::InvalidStateError)
                &&& same_observations(*old(self), *final(self))
            },
    {
        if !self.initialized {
            return Err(GameError::InvalidStateError);
        }
        let ghost w = self.width;
        let ghost h = self.height;
        let ghost live0 = self.live_cells@;
        self.count_neighbors();
        self.apply_rules();
        proof {
            assert forall|p: Coord| #[trigger] self.live_set().contains(p) == next_gen(
                w,
                h,
                live0,
            ).contains(p) by {
                if in_grid(w, h, p) {
                    assert(self.live_set().contains(p) <==> cell_next(
                        live0.contains(p),
                        live_nbr_count(w, h, live0, p),
                    ));
                }
            }
            assert(self.live_set() =~= next_gen(w, h, live0));
        }
        Ok(())
    }

    /// Marks the in-grid cell `(col, row)` alive; out-of-range coordinates
    /// and an uninitialized engine are left untouched.
    pub fn insert_live_cell(&mut self, col: usize, row: usize)
        requires
            old(self).wf(),
        ensures
            final(self).wf(),
            final(self).is_ready() == old(self).is_ready(),
            final(self).grid_width() == old(self).grid_width(),
            final(self).grid_height() == old(self).grid_height(),
            forall|p: Coord| final(self).count_at(p) == old(self).count_at(p),
            (old(self).is_ready() && col < old(self).grid_width() && row < old(self).grid_height()) ==> final(self).live_set() == old(self).live_set().insert((col, row)),
            !(old(self).is_ready() && col < old(self).grid_width() && row < old(self).grid_height()) ==> final(self).live_set() == old(self).live_set(),
    {
        if self.initialized && col < self.width && row < self.height {
            self.live_cells.insert((col, row));
        }
    }

    /// Marks the cell `(col, row)` dead; an uninitialized engine is left
    /// untouched.
    pub fn remove_live_cell(&mut self, col: usize, row: usize)
        requires
            old(self).wf(),
        ensures
            final(self).wf(),
            final(self).is_ready() == old(self).is_ready(),
            final(self).grid_width() == old(self).grid_width(),
            final(self).grid_height() == old(self).grid_height(),
            forall|p: Coord| final(self).count_at(p) == old(self).count_at(p),
            old(self).is_ready() ==> final(self).live_set() == old(self).live_set().remove(
                (col, row),
            ),
            !old(self).is_ready() ==> final(self).live_set() == old(self).live_set(),
    {
        if self.initialized {
            self.live_cells.remove((col, row));
        }
    }

    /// Kills every cell.
    pub fn clear_live_cells(&mut self)
        requires
            old(self).wf(),
        ensures
            final(self).wf(),
            final(self).is_ready() == old(self).is_ready(),
            final(self).grid_width() == old(self).grid_width(),
            final(self).grid_height() == old(self).grid_height(),
            forall|p: Coord| final(self).count_at(p) == old(self).count_at(p),
            final(self).live_set() == Set::<Coord>::empty(),
    {
        self.live_cells.clear();
    }

    /// The stored neighbor count of `(col, row)` from the latest counting
    /// pass (0 right after initialization).
    pub fn neighbor_count_of(&self, col: usize, row: usize) -> (r: u8)
        requires
            self.wf(),
            self.is_ready(),
            col < self.grid_width(),
            row < self.grid_height(),
        ensures
            r as int == self.count_at((col, row)),
    {
        proof {
            lemma_gidx_bounds(self.width, self.height, (col, row));
            lemma_grid_area_bound(self.width, self.height);
            assert(gidx(self.width, (col, row)) == (row as int) * (self.width as int) + (
            col as int));
        }
        self.neighbors_count[row * self.width + col]
    }

    /// Overrides the stored neighbor count of the in-grid cell
    /// `(col, row)`; out-of-range coordinates and an uninitialized engine
    /// are left untouched.
    pub fn set_neighbor_count(&mut self, col: usize, row: usize, n: u8)
        requires
            old(self).wf(),
        ensures
            final(self).wf(),
            final(self).is_ready() == old(self).is_ready(),
            final(self).grid_width() == old(self).grid_width(),
            final(self).grid_height() == old(self).grid_height(),
            final(self).live_set() == old(self).live_set(),
            (old(self).is_ready() && col < old(self).grid_width() && row < old(self).grid_height()) ==> {
                &&& final(self).count_at((col, row)) == n as int
                &&& forall|p: Coord|
                    in_grid(old(self).grid_width(), old(self).grid_height(), p) && p != (
                    col,
                    row,
                    ) ==> final(self).count_at(p) == old(self).count_at(p)
            },
            !(old(self).is_ready() && col < old(self).grid_width() && row < old(self).grid_height()) ==> forall|p: Coord|
                final(self).count_at(p) == old(self).count_at(p),
    {
        if self.initialized && col < self.width && row < self.height {
            proof {
                lemma_gidx_bounds(self.width, self.height, (col, row));
                lemma_grid_area_bound(self.width, self.height);
                assert(gidx(self.width, (col, row)) == (row as int) * (self.width as int) + (
                col as int));
            }
            let idx = row * self.width + col;
            self.neighbors_count.set(idx, n);
            proof {
                assert forall|p: Coord|
                    in_grid(self.width, self.height, p) && p != (col, row) implies self.count_at(p)
                    == old(self).count_at(p) by {
                    lemma_gidx_bounds(self.width, self.height, p);
                    if gidx(self.width, p) == idx {
                        lemma_gidx_injective(self.width, self.height, p, (col, row));
                    }
                }
            }
        }
    }
}

/// Everything the engine exposes is unchanged between `a` and `b`.
pub open spec fn same_observations(a: Game, b: Game) -> bool {
    &&& a.is_ready() == b.is_ready()
    &&& a.grid_width() == b.grid_width()
    &&& a.grid_height() == b.grid_height()
    &&& a.live_set() == b.live_set()
    &&& forall|p: Coord| a.count_at(p) == b.count_at(p)
}

} // verus!
