//! The grid engine: cell storage, the directional comparison, the merge pass,
//! and the bounded compaction pass.

use crate::tiles::{
    flagged_tiles, lemma_flagged_all_false, lemma_flagged_merge, lemma_flagged_move,
    lemma_round_complete, lemma_round_rel_merge, lemma_tiles_contains, lemma_tiles_update,
    lemma_total_pair, lemma_total_update, merge_round_inv, one_merge_round, round_rel_n, tiles,
    total,
};
use vstd::pervasive::VecAdditionalExecFns;
use vstd::prelude::*;

verus! {

broadcast use vstd::multiset::group_multiset_axioms;

/// The direction a move slides the tiles in.
#[derive(Clone, Copy, Debug)]
pub enum Direction {
    Right,
    Left,
    Up,
    Down,
}

/// The outcome of comparing a cell to its directional neighbour: the cell is
/// blocked, may move onto an empty neighbour, or may merge with an equal one.
#[derive(Clone, Copy, Debug, PartialEq, Eq, Structural)]
pub enum MergeStatus {
    Blocked,
    Move(usize, usize),
    Merge(usize, usize),
}

/// Rejected board configuration: a dimension was zero.
#[derive(Clone, Copy, Debug, PartialEq, Eq, Structural)]
pub enum ConfigError {
    ZeroDimension,
}

/// A fixed-size rectangular grid of cells, stored row-major; `0` is empty.
#[derive(Debug)]
pub struct TwoDimBoard {
    cells: Vec<u16>,
    width: usize,
    height: usize,
}

/// The coordinate one step from `(x, y)` in direction `d`; steps below zero
/// leave the grid, so any negative component reads as out of bounds.
pub open spec fn spec_neighbor(d: Direction, x: int, y: int) -> (int, int) {
    match d {
        Direction::Right => (x + 1, y),
        Direction::Left => (x - 1, y),
        Direction::Up => (x, y - 1),
        Direction::Down => (x, y + 1),
    }
}

pub open spec fn in_bounds(w: int, h: int, x: int, y: int) -> bool {
    0 <= x < w && 0 <= y < h
}

impl TwoDimBoard {
    #[verifier::type_invariant]
    spec fn wf(&self) -> bool {
        &&& self.width >= 1
        &&& self.height >= 1
        &&& self.cells@.len() == self.width * self.height
    }

    /// The cell values, row-major: cell `(x, y)` is entry `y * width + x`.
    pub closed spec fn grid(&self) -> Seq<u16> {
        self.cells@
    }

    pub closed spec fn w(&self) -> int {
        self.width as int
    }

    pub closed spec fn h(&self) -> int {
        self.height as int
    }

    /// The cell value at `(x, y)`, as the specification sees it.
    pub open spec fn cell(&self, x: int, y: int) -> u16 {
        self.grid()[y * self.w() + x]
    }

    /// The board's width in cells. Also lets the caller see that the storage
    /// is exactly width times height, with both dimensions at least one.
    pub fn width(&self) -> (r: usize)
        ensures
            r as int == self.w(),
            self.grid().len() == self.w() * self.h(),
            self.w() >= 1,
            self.h() >= 1,
    {
        proof {
            use_type_invariant(self);
        }
        self.width
    }

    /// The board's height in cells. Also lets the caller see that the storage
    /// is exactly width times height, with both dimensions at least one.
    pub fn height(&self) -> (r: usize)
        ensures
            r as int == self.h(),
            self.grid().len() == self.w() * self.h(),
            self.w() >= 1,
            self.h() >= 1,
    {
        proof {
            use_type_invariant(self);
        }
        self.height
    }

    /// Allocates a `width` by `height` board of empty cells; zero dimensions
    /// are rejected.
    pub fn new(width: usize, height: usize) -> (r: Result<TwoDimBoard, ConfigError>)
        requires
            width * height <= usize::MAX,
        ensures
            match r {
                Ok(b) => {
                    &&& b.w() == width
                    &&& b.h() == height
                    &&& b.grid().len() == width * height
                    &&& forall|k: int| 0 <= k < b.grid().len() ==> b.grid()[k] == 0
                    &&& width >= 1 && height >= 1
                },
                Err(e) => e == ConfigError::ZeroDimension && (width == 0 || height == 0),
            },
    {
        if width == 0 || height == 0 {
            return Err(ConfigError::ZeroDimension);
        }
        let n = width * height;
        let mut cells: Vec<u16> = Vec::new();
        while cells.len() < n
            invariant
                cells@.len() <= n,
                forall|k: int| 0 <= k < cells@.len() ==> cells@[k] == 0,
            decreases n - cells@.len(),
        {
            cells.push(0);
        }
        Ok(TwoDimBoard { cells, width, height })
    }

    /// The cell value at `(x, y)`, or nothing when the coordinate lies outside
    /// the grid. Never faults.
    pub fn get(&self, x: usize, y: usize) -> (r: Option<u16>)
        ensures
            in_bounds(self.w(), self.h(), x as int, y as int) ==> r == Some(self.cell(
                x as int,
                y as int,
            )),
            !in_bounds(self.w(), self.h(), x as int, y as int) ==> r is None,
    {
        proof {
            use_type_invariant(self);
        }
        if x < self.width && y < self.height {
            let n = self.cells.len();
            proof {
                lemma_flat_index_bound(x as int, y as int, self.w(), self.h());
            }
            assert(y * self.width + x < n);
            Some(self.cells[y * self.width + x])
        } else {
            None
        }
    }

    /// A mutable handle on the cell at `(x, y)`, or nothing when the
    /// coordinate lies outside the grid. Never faults.
    pub fn get_mut(&mut self, x: usize, y: usize) -> (r: Option<&mut u16>)
        ensures
            in_bounds(old(self).w(), old(self).h(), x as int, y as int) ==> (r matches Some(p)
                && *p == old(self).grid()[flat_index(old(self).w(), x as int, y as int)]
                && final(self).grid() == old(self).grid().update(
                    flat_index(old(self).w(), x as int, y as int),
                    *final(p),
                )
                && final(self).w() == old(self).w()
                && final(self).h() == old(self).h()),
            !in_bounds(old(self).w(), old(self).h(), x as int, y as int) ==> (r is None
                && final(self).grid() == old(self).grid()
                && final(self).w() == old(self).w()
                && final(self).h() == old(self).h()),
    {
        proof {
            use_type_invariant(&*self);
        }
        if x < self.width && y < self.height {
            let n = self.cells.len();
            proof {
                lemma_flat_index_bound(x as int, y as int, self.w(), self.h());
            }
            assert(y * self.width + x < n);
            Some(&mut self.cells[y * self.width + x])
        } else {
            None
        }
    }

    /// Compares the cell at `coord1` to the cell at `coord2`: blocked when
    /// either lies outside the grid, a move when the second is empty, a merge
    /// when the two hold the same value.
    fn cmp_status(&self, coord1: (usize, usize), coord2: (usize, usize)) -> (r: MergeStatus)
        ensures
            r == spec_cmp_status(
                self.grid(),
                self.w(),
                self.h(),
                (coord1.0 as int, coord1.1 as int),
                (coord2.0 as int, coord2.1 as int),
            ),
    {
        let curr = match self.get(coord1.0, coord1.1) {
            Some(e) => e,
            None => return MergeStatus::Blocked,
        };
        let next = match self.get(coord2.0, coord2.1) {
            Some(e) => e,
            None => return MergeStatus::Blocked,
        };
        if next == 0 {
            MergeStatus::Move(coord2.0, coord2.1)
        } else if curr == next {
            MergeStatus::Merge(coord2.0, coord2.1)
        } else {
            MergeStatus::Blocked
        }
    }

    /// Compares the cell at `coord` to its neighbour one step in `direction`;
    /// a step below zero leaves the grid and blocks.
    fn directional_cmp_status(&self, direction: &Direction, coord: (usize, usize)) -> (r:
        MergeStatus)
        ensures
            r == spec_status(
                self.grid(),
                self.w(),
                self.h(),
                *direction,
                coord.0 as int,
                coord.1 as int,
            ),
    {
        match direction {
            Direction::Down => {
                let next_y = match coord.1.checked_add(1) {
                    Some(e) => e,
                    None => return MergeStatus::Blocked,
                };
                self.cmp_status(coord, (coord.0, next_y))
            },
            Direction::Right => {
                let next_x = match coord.0.checked_add(1) {
                    Some(e) => e,
                    None => return MergeStatus::Blocked,
                };
                self.cmp_status(coord, (next_x, coord.1))
            },
            Direction::Up => {
                let next_y = match coord.1.checked_sub(1) {
                    Some(e) => e,
                    None => return MergeStatus::Blocked,
                };
                self.cmp_status(coord, (coord.0, next_y))
            },
            Direction::Left => {
                let next_x = match coord.0.checked_sub(1) {
                    Some(e) => e,
                    None => return MergeStatus::Blocked,
                };
                self.cmp_status(coord, (next_x, coord.1))
            },
        }
    }

    /// One merge-pass step: compares the cell at `(x, y)` to its neighbour in
    /// `direction` and merges onto it, slides onto it, or leaves it, as the
    /// comparison directs. A cell whose tile merged earlier in this pass
    /// carries a flag, a flag travels with a sliding tile, and a flagged
    /// source or target blocks a further merge, so every tile merges at most
    /// once per pass. The step never changes the grid's sum; it either leaves
    /// the unmerged and merged tile parts alone or moves exactly one pair of
    /// equal unmerged tiles into the merged part as their sum; and on an
    /// empty or blocked cell it changes nothing.
    #[verifier::rlimit(60)]
    fn merge_cell(&mut self, flags: &mut Vec<bool>, direction: &Direction, x: usize, y: usize)
        requires
            in_bounds(old(self).w(), old(self).h(), x as int, y as int),
            total(old(self).grid()) <= u16::MAX,
            flags_ok(old(self).grid(), old(flags)@),
        ensures
            final(self).w() == old(self).w(),
            final(self).h() == old(self).h(),
            final(self).grid().len() == old(self).grid().len(),
            total(final(self).grid()) == total(old(self).grid()),
            flags_ok(final(self).grid(), final(flags)@),
            (flagged_tiles(final(self).grid(), final(flags)@, false) == flagged_tiles(
                old(self).grid(),
                old(flags)@,
                false,
            ) && flagged_tiles(final(self).grid(), final(flags)@, true) == flagged_tiles(
                old(self).grid(),
                old(flags)@,
                true,
            )) || (exists|u: u16|
                flagged_tiles(old(self).grid(), old(flags)@, false).count(u) >= 2 && flagged_tiles(
                    final(self).grid(),
                    final(flags)@,
                    false,
                ) == flagged_tiles(old(self).grid(), old(flags)@, false).remove(u).remove(u)
                    && flagged_tiles(final(self).grid(), final(flags)@, true) == flagged_tiles(
                    old(self).grid(),
                    old(flags)@,
                    true,
                ).insert((u + u) as u16)),
            old(self).cell(x as int, y as int) == 0 || spec_status(
                old(self).grid(),
                old(self).w(),
                old(self).h(),
                *direction,
                x as int,
                y as int,
            ) == MergeStatus::Blocked ==> (final(self).grid() == old(self).grid() && final(flags)@
                == old(flags)@),
            final(self).grid() == spec_merge_step(
                old(self).grid(),
                old(flags)@,
                old(self).w(),
                old(self).h(),
                *direction,
                x as int,
                y as int,
            ).0,
            final(flags)@ == spec_merge_step(
                old(self).grid(),
                old(flags)@,
                old(self).w(),
                old(self).h(),
                *direction,
                x as int,
                y as int,
            ).1,
    {
        let ghost g0 = self.grid();
        let ghost f0 = flags@;
        let ghost w = self.w();
        let ghost h = self.h();
        let ghost ci = flat_index(w, x as int, y as int);
        proof {
            use_type_invariant(&*self);
            lemma_flat_index_bound(x as int, y as int, w, h);
        }
        let n = flags.len();
        assert(y * self.width + x < n);
        let ci_e = y * self.width + x;
        let merge_status: MergeStatus = self.directional_cmp_status(direction, (x, y));
        match merge_status {
            MergeStatus::Merge(tx, ty) => {
                let ghost ti = flat_index(w, tx as int, ty as int);
                proof {
                    lemma_flat_index_bound(tx as int, ty as int, w, h);
                    assert(tx as int != x as int || ty as int != y as int);
                    lemma_flat_index_distinct(w, h, x as int, y as int, tx as int, ty as int);
                }
                assert(ty * self.width + tx < n);
                let ti_e = ty * self.width + tx;
                if flags[ci_e] || flags[ti_e] {
                    // one of the tiles already merged this pass: no second merge
                } else {
                    proof {
                        lemma_total_pair(g0, ci, ti);
                    }
                    self.handle_merge((x, y), (tx, ty));
                    flags.set(ti_e, true);
                    proof {
                        lemma_total_update(g0, ci, 0u16);
                        lemma_total_update(g0.update(ci, 0u16), ti, (g0[ci] + g0[ti]) as u16);
                        lemma_flagged_merge(g0, f0, ci, ti);
                    }
                }
            },
            MergeStatus::Move(tx, ty) => {
                let ghost ti = flat_index(w, tx as int, ty as int);
                proof {
                    lemma_flat_index_bound(tx as int, ty as int, w, h);
                    assert(tx as int != x as int || ty as int != y as int);
                    lemma_flat_index_distinct(w, h, x as int, y as int, tx as int, ty as int);
                }
                assert(ty * self.width + tx < n);
                let ti_e = ty * self.width + tx;
                self.handle_move((x, y), (tx, ty));
                let fc = flags[ci_e];
                flags.set(ci_e, false);
                flags.set(ti_e, fc);
                proof {
                    lemma_total_update(g0, ci, 0u16);
                    lemma_total_update(g0.update(ci, 0u16), ti, g0[ci]);
                    lemma_flagged_move(g0, f0, ci, ti);
                    if g0[ci] == 0 {
                        assert(self.grid() =~= g0);
                        assert(flags@ =~= f0);
                    }
                }
            },
            MergeStatus::Blocked => {},
        }
    }

    /// One merge-pass step together with its bookkeeping against the grid `g0`
    /// the pass started from: `g0`'s tiles stay split into the grid's
    /// unmerged tiles plus one disjoint pair per merged tile, and a pass over
    /// a settled grid changes nothing.
    fn merge_step_at(
        &mut self,
        flags: &mut Vec<bool>,
        direction: &Direction,
        x: usize,
        y: usize,
        Ghost(g0): Ghost<Seq<u16>>,
    )
        requires
            in_bounds(old(self).w(), old(self).h(), x as int, y as int),
            total(g0) <= u16::MAX,
            total(old(self).grid()) == total(g0),
            flags_ok(old(self).grid(), old(flags)@),
            merge_round_inv(tiles(g0), old(self).grid(), old(flags)@),
            settled(g0, old(self).w(), old(self).h(), *direction) ==> old(self).grid() == g0,
        ensures
            final(self).w() == old(self).w(),
            final(self).h() == old(self).h(),
            final(self).grid().len() == old(self).grid().len(),
            total(final(self).grid()) == total(g0),
            flags_ok(final(self).grid(), final(flags)@),
            merge_round_inv(tiles(g0), final(self).grid(), final(flags)@),
            settled(g0, old(self).w(), old(self).h(), *direction) ==> final(self).grid() == g0,
            final(self).grid() == spec_merge_step(
                old(self).grid(),
                old(flags)@,
                old(self).w(),
                old(self).h(),
                *direction,
                x as int,
                y as int,
            ).0,
            final(flags)@ == spec_merge_step(
                old(self).grid(),
                old(flags)@,
                old(self).w(),
                old(self).h(),
                *direction,
                x as int,
                y as int,
            ).1,
    {
        let ghost g_pre = self.grid();
        let ghost f_pre = flags@;
        let ghost w0 = self.w();
        let ghost h0 = self.h();
        self.merge_cell(flags, direction, x, y);
        proof {
            let un_pre = flagged_tiles(g_pre, f_pre, false);
            let mk_pre = flagged_tiles(g_pre, f_pre, true);
            let un_post = flagged_tiles(self.grid(), flags@, false);
            let mk_post = flagged_tiles(self.grid(), flags@, true);
            let n0 = choose|n: nat| round_rel_n(tiles(g0), un_pre, mk_pre, n);
            if un_post == un_pre && mk_post == mk_pre {
                assert(round_rel_n(tiles(g0), un_post, mk_post, n0));
            } else {
                let u = choose|u: u16|
                    un_pre.count(u) >= 2 && un_post == un_pre.remove(u).remove(u) && mk_post
                        == mk_pre.insert((u + u) as u16);
                lemma_round_rel_merge(tiles(g0), un_pre, mk_pre, n0, u);
            }
            if settled(g0, w0, h0, *direction) {
                assert(g0[flat_index(w0, x as int, y as int)] == 0 || spec_status(
                    g0,
                    w0,
                    h0,
                    *direction,
                    x as int,
                    y as int,
                ) == MergeStatus::Blocked);
            }
        }
    }

    /// The merge pass of a move: every cell is compared to its neighbour in
    /// `direction` exactly once — columns walked left to right for Right and
    /// Up, right to left for Down and Left — and each comparison merges,
    /// slides, or leaves the cell. Cells that merge are flagged for the rest
    /// of the pass, the flag travelling with a sliding tile, and a flagged
    /// tile never merges again, so the pass performs one round of merges of
    /// disjoint pairs of equal tiles. The pass preserves the grid's sum and
    /// leaves a settled board untouched.
    pub fn merge_pass(&mut self, direction: Direction)
        requires
            total(old(self).grid()) <= u16::MAX,
        ensures
            final(self).w() == old(self).w(),
            final(self).h() == old(self).h(),
            final(self).grid().len() == old(self).grid().len(),
            total(final(self).grid()) == total(old(self).grid()),
            one_merge_round(tiles(old(self).grid()), tiles(final(self).grid())),
            settled(old(self).grid(), old(self).w(), old(self).h(), direction)
                ==> final(self).grid() == old(self).grid(),
            final(self).grid() == spec_merge_pass(
                old(self).grid(),
                old(self).w(),
                old(self).h(),
                direction,
            ),
    {
        let ghost g0 = self.grid();
        let ghost w0 = self.w();
        let ghost h0 = self.h();
        proof {
            use_type_invariant(&*self);
        }
        let n = self.cells.len();
        let mut flags: Vec<bool> = Vec::new();
        while flags.len() < n
            invariant
                flags@.len() <= n,
                forall|k: int| 0 <= k < flags@.len() ==> !flags@[k],
            decreases n - flags@.len(),
        {
            flags.push(false);
        }
        let ghost f_init = flags@;
        proof {
            assert(f_init =~= all_false(g0.len()));
            lemma_flagged_all_false(g0, f_init);
            assert(round_rel_n(
                tiles(g0),
                flagged_tiles(g0, f_init, false),
                flagged_tiles(g0, f_init, true),
                0,
            ));
        }
        match direction {
            Direction::Right | Direction::Up => {
                let mut x: usize = 0;
                while x < self.width
                    invariant
                        x <= self.width,
                        self.w() == w0,
                        self.h() == h0,
                        self.grid().len() == g0.len(),
                        total(g0) <= u16::MAX,
                        total(self.grid()) == total(g0),
                        flags_ok(self.grid(), flags@),
                        merge_round_inv(tiles(g0), self.grid(), flags@),
                        settled(g0, w0, h0, direction) ==> self.grid() == g0,
                        self.grid() == spec_merge_cols_asc(g0, f_init, w0, h0, direction, x as nat).0,
                        flags@ == spec_merge_cols_asc(g0, f_init, w0, h0, direction, x as nat).1,
                    decreases self.w() - x,
                {
                    let ghost base_g = self.grid();
                    let ghost base_f = flags@;
                    let mut y: usize = 0;
                    while y < self.height
                        invariant
                            x < self.width,
                            y <= self.height,
                            self.w() == w0,
                            self.h() == h0,
                            self.grid().len() == g0.len(),
                            total(g0) <= u16::MAX,
                            total(self.grid()) == total(g0),
                            flags_ok(self.grid(), flags@),
                            merge_round_inv(tiles(g0), self.grid(), flags@),
                            settled(g0, w0, h0, direction) ==> self.grid() == g0,
                            base_g == spec_merge_cols_asc(g0, f_init, w0, h0, direction, x as nat).0,
                            base_f == spec_merge_cols_asc(g0, f_init, w0, h0, direction, x as nat).1,
                            self.grid() == spec_merge_col(base_g, base_f, w0, h0, direction, x as int, y as nat).0,
                            flags@ == spec_merge_col(base_g, base_f, w0, h0, direction, x as int, y as nat).1,
                        decreases self.h() - y,
                    {
                        self.merge_step_at(&mut flags, &direction, x, y, Ghost(g0));
                        y = y + 1;
                    }
                    x = x + 1;
                }
            },
            Direction::Down | Direction::Left => {
                let mut x: usize = self.width;
                while x > 0
                    invariant
                        x <= self.width,
                        self.w() == w0,
                        self.h() == h0,
                        self.grid().len() == g0.len(),
                        total(g0) <= u16::MAX,
                        total(self.grid()) == total(g0),
                        flags_ok(self.grid(), flags@),
                        merge_round_inv(tiles(g0), self.grid(), flags@),
                        settled(g0, w0, h0, direction) ==> self.grid() == g0,
                        self.grid() == spec_merge_cols_desc(g0, f_init, w0, h0, direction, (w0 - x) as nat).0,
                        flags@ == spec_merge_cols_desc(g0, f_init, w0, h0, direction, (w0 - x) as nat).1,
                    decreases x,
                {
                    x = x - 1;
                    let ghost base_g = self.grid();
                    let ghost base_f = flags@;
                    let mut y: usize = 0;
                    while y < self.height
                        invariant
                            x < self.width,
                            y <= self.height,
                            self.w() == w0,
                            self.h() == h0,
                            self.grid().len() == g0.len(),
                            total(g0) <= u16::MAX,
                            total(self.grid()) == total(g0),
                            flags_ok(self.grid(), flags@),
                            merge_round_inv(tiles(g0), self.grid(), flags@),
                            settled(g0, w0, h0, direction) ==> self.grid() == g0,
                            base_g == spec_merge_cols_desc(g0, f_init, w0, h0, direction, (w0 - x - 1) as nat).0,
                            base_f == spec_merge_cols_desc(g0, f_init, w0, h0, direction, (w0 - x - 1) as nat).1,
                            self.grid() == spec_merge_col(base_g, base_f, w0, h0, direction, x as int, y as nat).0,
                            flags@ == spec_merge_col(base_g, base_f, w0, h0, direction, x as int, y as nat).1,
                        decreases self.h() - y,
                    {
                        self.merge_step_at(&mut flags, &direction, x, y, Ghost(g0));
                        y = y + 1;
                    }
                }
            },
        }
        proof {
            lemma_round_complete(tiles(g0), self.grid(), flags@);
        }
    }

    /// One compaction step: acts only on a `Move` outcome, sliding the cell at
    /// `(x, y)` onto its empty neighbour. Merge outcomes are deliberately
    /// ignored here — merges happen once, in the merge pass — so compaction
    /// never changes the tile multiset, and a cell that cannot move is left
    /// untouched.
    fn compress_inner(&mut self, x: usize, y: usize, direction: &Direction)
        requires
            in_bounds(old(self).w(), old(self).h(), x as int, y as int),
        ensures
            final(self).w() == old(self).w(),
            final(self).h() == old(self).h(),
            final(self).grid().len() == old(self).grid().len(),
            total(final(self).grid()) == total(old(self).grid()),
            tiles(final(self).grid()) == tiles(old(self).grid()),
            old(self).cell(x as int, y as int) == 0 || !(spec_status(
                old(self).grid(),
                old(self).w(),
                old(self).h(),
                *direction,
                x as int,
                y as int,
            ) is Move) ==> final(self).grid() == old(self).grid(),
            final(self).grid() == spec_compress_step(
                old(self).grid(),
                old(self).w(),
                old(self).h(),
                *direction,
                x as int,
                y as int,
            ),
    {
        let ghost g0 = self.grid();
        let ghost w = self.w();
        let ghost h = self.h();
        let ghost ci = flat_index(w, x as int, y as int);
        proof {
            use_type_invariant(&*self);
            lemma_flat_index_bound(x as int, y as int, w, h);
        }
        let status: MergeStatus = self.directional_cmp_status(direction, (x, y));
        match status {
            MergeStatus::Merge(_, _) => {},
            MergeStatus::Move(tx, ty) => {
                let ghost ti = flat_index(w, tx as int, ty as int);
                proof {
                    lemma_flat_index_bound(tx as int, ty as int, w, h);
                    assert(tx as int != x as int || ty as int != y as int);
                    lemma_flat_index_distinct(w, h, x as int, y as int, tx as int, ty as int);
                }
                self.handle_move((x, y), (tx, ty));
                proof {
                    let v = g0[ci];
                    let g1 = g0.update(ci, 0u16);
                    if v != 0 {
                        lemma_tiles_contains(g0, ci);
                    }
                    lemma_tiles_update(g0, ci, 0u16);
                    lemma_tiles_update(g1, ti, v);
                    lemma_total_update(g0, ci, 0u16);
                    lemma_total_update(g1, ti, v);
                    assert(tiles(self.grid()) =~= tiles(g0));
                    if v == 0 {
                        assert(self.grid() =~= g0);
                    }
                }
            },
            MergeStatus::Blocked => {},
        }
    }

    /// The compaction pass of a move: scans the whole board once per cell of
    /// extent along the move axis, letting every slid tile advance one further
    /// position per scan, so any tile can traverse the full board. Only `Move`
    /// outcomes act; the tile multiset is exactly preserved, and a board on
    /// which no tile can move — compaction's fixed point — is left untouched.
    pub fn compress(&mut self, direction: &Direction)
        ensures
            final(self).w() == old(self).w(),
            final(self).h() == old(self).h(),
            final(self).grid().len() == old(self).grid().len(),
            total(final(self).grid()) == total(old(self).grid()),
            tiles(final(self).grid()) == tiles(old(self).grid()),
            move_settled(old(self).grid(), old(self).w(), old(self).h(), *direction)
                ==> final(self).grid() == old(self).grid(),
            final(self).grid() == spec_compress(
                old(self).grid(),
                old(self).w(),
                old(self).h(),
                *direction,
                spec_extent(old(self).w(), old(self).h(), *direction) as nat,
            ),
    {
        let ghost g0 = self.grid();
        let ghost w0 = self.w();
        let ghost h0 = self.h();
        proof {
            use_type_invariant(&*self);
        }
        let reps: usize = match direction {
            Direction::Right | Direction::Left => self.width,
            Direction::Up | Direction::Down => self.height,
        };
        let mut rep: usize = 0;
        while rep < reps
            invariant
                rep <= reps,
                reps as int == spec_extent(w0, h0, *direction),
                self.w() == w0,
                self.h() == h0,
                self.grid().len() == g0.len(),
                total(self.grid()) == total(g0),
                tiles(self.grid()) == tiles(g0),
                move_settled(g0, w0, h0, *direction) ==> self.grid() == g0,
                self.grid() == spec_compress(g0, w0, h0, *direction, rep as nat),
            decreases reps - rep,
        {
            let ghost gs = self.grid();
            match direction {
                Direction::Down | Direction::Left => {
                    let mut x: usize = self.width;
                    while x > 0
                        invariant
                            x <= self.width,
                            self.w() == w0,
                            self.h() == h0,
                            self.grid().len() == g0.len(),
                            total(self.grid()) == total(g0),
                            tiles(self.grid()) == tiles(g0),
                            move_settled(g0, w0, h0, *direction) ==> self.grid() == g0,
                            self.grid() == spec_compress_cols_desc(gs, w0, h0, *direction, (w0 - x) as nat),
                        decreases x,
                    {
                        x = x - 1;
                        let ghost base = self.grid();
                        let mut y: usize = 0;
                        while y < self.height
                            invariant
                                x < self.width,
                                y <= self.height,
                                self.w() == w0,
                                self.h() == h0,
                                self.grid().len() == g0.len(),
                                total(self.grid()) == total(g0),
                                tiles(self.grid()) == tiles(g0),
                                move_settled(g0, w0, h0, *direction) ==> self.grid() == g0,
                                base == spec_compress_cols_desc(gs, w0, h0, *direction, (w0 - x - 1) as nat),
                                self.grid() == spec_compress_col(base, w0, h0, *direction, x as int, y as nat),
                            decreases self.h() - y,
                        {
                            self.compress_step_at(x, y, direction, Ghost(g0));
                            y = y + 1;
                        }
                    }
                    proof {
                        assert(self.grid() == spec_compress_scan(gs, w0, h0, *direction));
                    }
                },
                Direction::Right => {
                    let mut x: usize = 0;
                    while x < self.width
                        invariant
                            x <= self.width,
                            self.w() == w0,
                            self.h() == h0,
                            self.grid().len() == g0.len(),
                            total(self.grid()) == total(g0),
                            tiles(self.grid()) == tiles(g0),
                            move_settled(g0, w0, h0, *direction) ==> self.grid() == g0,
                            self.grid() == spec_compress_cols_asc(gs, w0, h0, *direction, x as nat),
                        decreases self.w() - x,
                    {
                        let ghost base = self.grid();
                        let mut y: usize = 0;
                        while y < self.height
                            invariant
                                x < self.width,
                                y <= self.height,
                                self.w() == w0,
                                self.h() == h0,
                                self.grid().len() == g0.len(),
                                total(self.grid()) == total(g0),
                                tiles(self.grid()) == tiles(g0),
                                move_settled(g0, w0, h0, *direction) ==> self.grid() == g0,
                                base == spec_compress_cols_asc(gs, w0, h0, *direction, x as nat),
                                self.grid() == spec_compress_col(base, w0, h0, *direction, x as int, y as nat),
                            decreases self.h() - y,
                        {
                            self.compress_step_at(x, y, direction, Ghost(g0));
                            y = y + 1;
                        }
                        x = x + 1;
                    }
                    proof {
                        assert(self.grid() == spec_compress_scan(gs, w0, h0, *direction));
                    }
                },
                Direction::Up => {
                    let mut y: usize = 0;
                    while y < self.height
                        invariant
                            y <= self.height,
                            self.w() == w0,
                            self.h() == h0,
                            self.grid().len() == g0.len(),
                            total(self.grid()) == total(g0),
                            tiles(self.grid()) == tiles(g0),
                            move_settled(g0, w0, h0, *direction) ==> self.grid() == g0,
                            self.grid() == spec_compress_rows_asc(gs, w0, h0, *direction, y as nat),
                        decreases self.h() - y,
                    {
                        let ghost base = self.grid();
                        let mut x: usize = 0;
                        while x < self.width
                            invariant
                                y < self.height,
                                x <= self.width,
                                self.w() == w0,
                                self.h() == h0,
                                self.grid().len() == g0.len(),
                                total(self.grid()) == total(g0),
                                tiles(self.grid()) == tiles(g0),
                                move_settled(g0, w0, h0, *direction) ==> self.grid() == g0,
                                base == spec_compress_rows_asc(gs, w0, h0, *direction, y as nat),
                                self.grid() == spec_compress_row(base, w0, h0, *direction, y as int, x as nat),
                            decreases self.w() - x,
                        {
                            self.compress_step_at(x, y, direction, Ghost(g0));
                            x = x + 1;
                        }
                        y = y + 1;
                    }
                    proof {
                        assert(self.grid() == spec_compress_scan(gs, w0, h0, *direction));
                    }
                },
            }
            rep = rep + 1;
        }
    }

    /// One compaction step together with its bookkeeping against the grid `g0`
    /// the compaction started from: the tiles stay exactly those of `g0`, and
    /// compaction of a grid at its fixed point changes nothing.
    fn compress_step_at(
        &mut self,
        x: usize,
        y: usize,
        direction: &Direction,
        Ghost(g0): Ghost<Seq<u16>>,
    )
        requires
            in_bounds(old(self).w(), old(self).h(), x as int, y as int),
            tiles(old(self).grid()) == tiles(g0),
            total(old(self).grid()) == total(g0),
            move_settled(g0, old(self).w(), old(self).h(), *direction) ==> old(self).grid() == g0,
        ensures
            final(self).w() == old(self).w(),
            final(self).h() == old(self).h(),
            final(self).grid().len() == old(self).grid().len(),
            tiles(final(self).grid()) == tiles(g0),
            total(final(self).grid()) == total(g0),
            move_settled(g0, old(self).w(), old(self).h(), *direction) ==> final(self).grid()
                == g0,
            final(self).grid() == spec_compress_step(
                old(self).grid(),
                old(self).w(),
                old(self).h(),
                *direction,
                x as int,
                y as int,
            ),
    {
        let ghost w0 = self.w();
        let ghost h0 = self.h();
        self.compress_inner(x, y, direction);
        proof {
            if move_settled(g0, w0, h0, *direction) {
                assert(g0[flat_index(w0, x as int, y as int)] == 0 || !(spec_status(
                    g0,
                    w0,
                    h0,
                    *direction,
                    x as int,
                    y as int,
                ) is Move));
            }
        }
    }

    /// Applies one full move in `direction`: the directional merge pass, then
    /// the bounded compaction pass. The move never invents or loses tile
    /// values — the tiles afterwards are the tiles before with a disjoint set
    /// of equal pairs each replaced by its sum, so no tile merges more than
    /// once per move — and a board already settled in that direction is left
    /// byte-for-byte unchanged.
    pub fn apply_move(&mut self, direction: Direction)
        requires
            total(old(self).grid()) <= u16::MAX,
        ensures
            final(self).w() == old(self).w(),
            final(self).h() == old(self).h(),
            final(self).grid().len() == old(self).grid().len(),
            total(final(self).grid()) == total(old(self).grid()),
            one_merge_round(tiles(old(self).grid()), tiles(final(self).grid())),
            settled(old(self).grid(), old(self).w(), old(self).h(), direction)
                ==> final(self).grid() == old(self).grid(),
            final(self).grid() == spec_apply_move(
                old(self).grid(),
                old(self).w(),
                old(self).h(),
                direction,
            ),
    {
        let ghost g0 = self.grid();
        let ghost w0 = self.w();
        let ghost h0 = self.h();
        self.merge_pass(direction);
        proof {
            if settled(g0, w0, h0, direction) {
                assert forall|x: int, y: int| in_bounds(w0, h0, x, y) implies g0[flat_index(
                    w0,
                    x,
                    y,
                )] == 0 || !(spec_status(g0, w0, h0, direction, x, y) is Move) by {
                    assert(g0[flat_index(w0, x, y)] == 0 || spec_status(g0, w0, h0, direction, x, y)
                        == MergeStatus::Blocked);
                }
                assert(move_settled(g0, w0, h0, direction));
            }
        }
        self.compress(&direction);
    }

    /// Slides the value at `curr` onto the cell at `to`, leaving `curr` empty.
    fn handle_move(&mut self, curr: (usize, usize), to: (usize, usize))
        requires
            in_bounds(old(self).w(), old(self).h(), curr.0 as int, curr.1 as int),
            in_bounds(old(self).w(), old(self).h(), to.0 as int, to.1 as int),
        ensures
            final(self).w() == old(self).w(),
            final(self).h() == old(self).h(),
            final(self).grid() == moved(
                old(self).grid(),
                flat_index(old(self).w(), curr.0 as int, curr.1 as int),
                flat_index(old(self).w(), to.0 as int, to.1 as int),
            ),
    {
        proof {
            if curr.0 != to.0 || curr.1 != to.1 {
                lemma_flat_index_distinct(
                    self.w(),
                    self.h(),
                    curr.0 as int,
                    curr.1 as int,
                    to.0 as int,
                    to.1 as int,
                );
            }
        }
        match self.get_mut(curr.0, curr.1) {
            Some(first_cell) => {
                let a = *first_cell;
                *first_cell = 0;
                match self.get_mut(to.0, to.1) {
                    Some(second_cell) => {
                        *second_cell = a;
                    },
                    None => {
                        proof {
                            assert(false);
                        }
                    },
                }
            },
            None => {
                proof {
                    assert(false);
                }
            },
        }
    }

    /// Merges the value at `curr` into the equal value at `to` by addition,
    /// leaving `curr` empty.
    fn handle_merge(&mut self, curr: (usize, usize), to: (usize, usize))
        requires
            in_bounds(old(self).w(), old(self).h(), curr.0 as int, curr.1 as int),
            in_bounds(old(self).w(), old(self).h(), to.0 as int, to.1 as int),
            curr != to,
            old(self).cell(curr.0 as int, curr.1 as int) + old(self).cell(to.0 as int, to.1 as int)
                <= u16::MAX,
        ensures
            final(self).w() == old(self).w(),
            final(self).h() == old(self).h(),
            final(self).grid() == merged(
                old(self).grid(),
                flat_index(old(self).w(), curr.0 as int, curr.1 as int),
                flat_index(old(self).w(), to.0 as int, to.1 as int),
            ),
    {
        proof {
            use_type_invariant(&*self);
            lemma_flat_index_distinct(
                self.w(),
                self.h(),
                curr.0 as int,
                curr.1 as int,
                to.0 as int,
                to.1 as int,
            );
            lemma_flat_index_bound(curr.0 as int, curr.1 as int, self.w(), self.h());
            lemma_flat_index_bound(to.0 as int, to.1 as int, self.w(), self.h());
        }
        match self.get_mut(curr.0, curr.1) {
            Some(first_cell) => {
                let a = *first_cell;
                *first_cell = 0;
                match self.get_mut(to.0, to.1) {
                    Some(second_cell) => {
                        *second_cell = a + *second_cell;
                    },
                    None => {
                        proof {
                            assert(false);
                        }
                    },
                }
            },
            None => {
                proof {
                    assert(false);
                }
            },
        }
    }
}

/// The row-major storage index of coordinate `(x, y)` in a grid `w` cells wide.
pub open spec fn flat_index(w: int, x: int, y: int) -> int {
    y * w + x
}

/// The comparison of a source cell `c1` against a neighbour cell `c2`: out of
/// bounds blocks, an empty neighbour invites a move, an equal one a merge.
pub open spec fn spec_cmp_status(
    g: Seq<u16>,
    w: int,
    h: int,
    c1: (int, int),
    c2: (int, int),
) -> MergeStatus {
    if !in_bounds(w, h, c1.0, c1.1) || !in_bounds(w, h, c2.0, c2.1) {
        MergeStatus::Blocked
    } else if g[flat_index(w, c2.0, c2.1)] == 0 {
        MergeStatus::Move(c2.0 as usize, c2.1 as usize)
    } else if g[flat_index(w, c1.0, c1.1)] == g[flat_index(w, c2.0, c2.1)] {
        MergeStatus::Merge(c2.0 as usize, c2.1 as usize)
    } else {
        MergeStatus::Blocked
    }
}

/// The comparison of the cell at `(x, y)` against its neighbour in direction `d`.
pub open spec fn spec_status(g: Seq<u16>, w: int, h: int, d: Direction, x: int, y: int) -> MergeStatus {
    spec_cmp_status(g, w, h, (x, y), spec_neighbor(d, x, y))
}

/// No cell of the grid can move or merge in direction `d`: the board is fully
/// compacted and merged that way, and a move leaves it untouched.
pub open spec fn settled(g: Seq<u16>, w: int, h: int, d: Direction) -> bool {
    forall|x: int, y: int|
        in_bounds(w, h, x, y) ==> g[flat_index(w, x, y)] == 0 || spec_status(g, w, h, d, x, y)
            == MergeStatus::Blocked
}

/// No cell of the grid can move in direction `d`: compaction that way has
/// reached its fixed point.
pub open spec fn move_settled(g: Seq<u16>, w: int, h: int, d: Direction) -> bool {
    forall|x: int, y: int|
        in_bounds(w, h, x, y) ==> g[flat_index(w, x, y)] == 0 || !(spec_status(
            g,
            w,
            h,
            d,
            x,
            y,
        ) is Move)
}

/// The grid after the value at index `ci` slid onto the empty cell `ti`.
pub open spec fn moved(g: Seq<u16>, ci: int, ti: int) -> Seq<u16> {
    g.update(ci, 0).update(ti, g[ci])
}

/// The grid after the value at index `ci` merged into the equal value at `ti`.
pub open spec fn merged(g: Seq<u16>, ci: int, ti: int) -> Seq<u16> {
    g.update(ci, 0).update(ti, (g[ci] + g[ti]) as u16)
}

/// Cells that merged during the current pass carry a `true` flag; a flag
/// rides along when a tile slides, so it follows the tile.
pub open spec fn all_false(n: nat) -> Seq<bool> {
    Seq::new(n, |k: int| false)
}

/// Only a non-empty cell may carry the merged-this-pass flag.
pub open spec fn flags_ok(g: Seq<u16>, f: Seq<bool>) -> bool {
    f.len() == g.len() && (forall|k: int| 0 <= k < f.len() ==> (f[k] ==> g[k] != 0))
}

/// The grid and its merged-this-pass flags after one merge-pass step at
/// `(x, y)`: a slide onto the empty directional neighbour (the flag travels
/// with the tile), a merge onto an equal neighbour (the target is flagged) —
/// unless either cell already merged this pass, which blocks the merge — or
/// no change when the cell is blocked.
pub open spec fn spec_merge_step(
    g: Seq<u16>,
    f: Seq<bool>,
    w: int,
    h: int,
    d: Direction,
    x: int,
    y: int,
) -> (Seq<u16>, Seq<bool>) {
    match spec_status(g, w, h, d, x, y) {
        MergeStatus::Blocked => (g, f),
        MergeStatus::Move(tx, ty) => (
            moved(g, flat_index(w, x, y), flat_index(w, tx as int, ty as int)),
            f.update(flat_index(w, x, y), false).update(
                flat_index(w, tx as int, ty as int),
                f[flat_index(w, x, y)],
            ),
        ),
        MergeStatus::Merge(tx, ty) => if f[flat_index(w, x, y)] || f[flat_index(
            w,
            tx as int,
            ty as int,
        )] {
            (g, f)
        } else {
            (
                merged(g, flat_index(w, x, y), flat_index(w, tx as int, ty as int)),
                f.update(flat_index(w, tx as int, ty as int), true),
            )
        },
    }
}

/// The grid after one compaction step at `(x, y)`: a slide onto the empty
/// directional neighbour, and no change otherwise — in particular a merge
/// outcome is ignored during compaction.
pub open spec fn spec_compress_step(
    g: Seq<u16>,
    w: int,
    h: int,
    d: Direction,
    x: int,
    y: int,
) -> Seq<u16> {
    match spec_status(g, w, h, d, x, y) {
        MergeStatus::Move(tx, ty) => moved(g, flat_index(w, x, y), flat_index(w, tx as int, ty as int)),
        _ => g,
    }
}

/// The grid after the merge pass has handled the first `n` cells of column
/// `x`, top to bottom.
pub open spec fn spec_merge_col(
    g: Seq<u16>,
    f: Seq<bool>,
    w: int,
    h: int,
    d: Direction,
    x: int,
    n: nat,
) -> (Seq<u16>, Seq<bool>)
    decreases n,
{
    if n == 0 {
        (g, f)
    } else {
        let prev = spec_merge_col(g, f, w, h, d, x, (n - 1) as nat);
        spec_merge_step(prev.0, prev.1, w, h, d, x, n - 1)
    }
}

/// The grid after the merge pass has handled the leftmost `n` whole columns,
/// left to right.
pub open spec fn spec_merge_cols_asc(
    g: Seq<u16>,
    f: Seq<bool>,
    w: int,
    h: int,
    d: Direction,
    n: nat,
) -> (Seq<u16>, Seq<bool>)
    decreases n,
{
    if n == 0 {
        (g, f)
    } else {
        let prev = spec_merge_cols_asc(g, f, w, h, d, (n - 1) as nat);
        spec_merge_col(prev.0, prev.1, w, h, d, n - 1, h as nat)
    }
}

/// The grid after the merge pass has handled the rightmost `n` whole columns,
/// right to left.
pub open spec fn spec_merge_cols_desc(
    g: Seq<u16>,
    f: Seq<bool>,
    w: int,
    h: int,
    d: Direction,
    n: nat,
) -> (Seq<u16>, Seq<bool>)
    decreases n,
{
    if n == 0 {
        (g, f)
    } else {
        let prev = spec_merge_cols_desc(g, f, w, h, d, (n - 1) as nat);
        spec_merge_col(prev.0, prev.1, w, h, d, w - n, h as nat)
    }
}

/// The whole merge pass: every cell handled once starting with no cell
/// flagged, columns walked left to right for Right and Up, right to left for
/// Down and Left.
pub open spec fn spec_merge_pass(g: Seq<u16>, w: int, h: int, d: Direction) -> Seq<u16> {
    match d {
        Direction::Right | Direction::Up => spec_merge_cols_asc(
            g,
            all_false(g.len()),
            w,
            h,
            d,
            w as nat,
        ).0,
        Direction::Down | Direction::Left => spec_merge_cols_desc(
            g,
            all_false(g.len()),
            w,
            h,
            d,
            w as nat,
        ).0,
    }
}

/// The grid after one compaction scan has handled the first `n` cells of
/// column `x`, top to bottom.
pub open spec fn spec_compress_col(
    g: Seq<u16>,
    w: int,
    h: int,
    d: Direction,
    x: int,
    n: nat,
) -> Seq<u16>
    decreases n,
{
    if n == 0 {
        g
    } else {
        spec_compress_step(spec_compress_col(g, w, h, d, x, (n - 1) as nat), w, h, d, x, n - 1)
    }
}

/// The grid after one compaction scan has handled the leftmost `n` whole
/// columns, left to right.
pub open spec fn spec_compress_cols_asc(g: Seq<u16>, w: int, h: int, d: Direction, n: nat) -> Seq<
    u16,
>
    decreases n,
{
    if n == 0 {
        g
    } else {
        spec_compress_col(
            spec_compress_cols_asc(g, w, h, d, (n - 1) as nat),
            w,
            h,
            d,
            n - 1,
            h as nat,
        )
    }
}

/// The grid after one compaction scan has handled the rightmost `n` whole
/// columns, right to left.
pub open spec fn spec_compress_cols_desc(g: Seq<u16>, w: int, h: int, d: Direction, n: nat) -> Seq<
    u16,
>
    decreases n,
{
    if n == 0 {
        g
    } else {
        spec_compress_col(
            spec_compress_cols_desc(g, w, h, d, (n - 1) as nat),
            w,
            h,
            d,
            w - n,
            h as nat,
        )
    }
}

/// The grid after one compaction scan has handled the first `n` cells of row
/// `y`, left to right.
pub open spec fn spec_compress_row(
    g: Seq<u16>,
    w: int,
    h: int,
    d: Direction,
    y: int,
    n: nat,
) -> Seq<u16>
    decreases n,
{
    if n == 0 {
        g
    } else {
        spec_compress_step(spec_compress_row(g, w, h, d, y, (n - 1) as nat), w, h, d, n - 1, y)
    }
}

/// The grid after one compaction scan has handled the topmost `n` whole rows,
/// top to bottom.
pub open spec fn spec_compress_rows_asc(g: Seq<u16>, w: int, h: int, d: Direction, n: nat) -> Seq<
    u16,
>
    decreases n,
{
    if n == 0 {
        g
    } else {
        spec_compress_row(
            spec_compress_rows_asc(g, w, h, d, (n - 1) as nat),
            w,
            h,
            d,
            n - 1,
            w as nat,
        )
    }
}

/// One full compaction scan of the whole board in direction `d`, cell by cell
/// in the scan's order.
pub open spec fn spec_compress_scan(g: Seq<u16>, w: int, h: int, d: Direction) -> Seq<u16> {
    match d {
        Direction::Right => spec_compress_cols_asc(g, w, h, d, w as nat),
        Direction::Down | Direction::Left => spec_compress_cols_desc(g, w, h, d, w as nat),
        Direction::Up => spec_compress_rows_asc(g, w, h, d, h as nat),
    }
}

/// `k` compaction scans in direction `d`, one after another.
pub open spec fn spec_compress(g: Seq<u16>, w: int, h: int, d: Direction, k: nat) -> Seq<u16>
    decreases k,
{
    if k == 0 {
        g
    } else {
        spec_compress_scan(spec_compress(g, w, h, d, (k - 1) as nat), w, h, d)
    }
}

/// The board's extent along the axis of direction `d`: the number of
/// compaction scans one move performs.
pub open spec fn spec_extent(w: int, h: int, d: Direction) -> int {
    match d {
        Direction::Right | Direction::Left => w,
        Direction::Up | Direction::Down => h,
    }
}

/// The grid a full move in direction `d` leaves behind: the merge pass, then
/// as many compaction scans as the board extends along the move axis.
pub open spec fn spec_apply_move(g: Seq<u16>, w: int, h: int, d: Direction) -> Seq<u16> {
    spec_compress(spec_merge_pass(g, w, h, d), w, h, d, spec_extent(w, h, d) as nat)
}

/// Distinct coordinates of a grid have distinct row-major indices.
pub proof fn lemma_flat_index_distinct(w: int, h: int, x1: int, y1: int, x2: int, y2: int)
    by (nonlinear_arith)
    requires
        0 <= x1 < w,
        0 <= y1 < h,
        0 <= x2 < w,
        0 <= y2 < h,
        x1 != x2 || y1 != y2,
    ensures
        flat_index(w, x1, y1) != flat_index(w, x2, y2),
{
}

/// A coordinate inside a `w` by `h` grid has its row-major index inside the
/// grid's storage.
pub proof fn lemma_flat_index_bound(x: int, y: int, w: int, h: int)
    by (nonlinear_arith)
    requires
        0 <= x < w,
        0 <= y < h,
    ensures
        0 <= y * w + x < w * h,
{
}

} // verus!
