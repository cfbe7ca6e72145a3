//! The tile spawner: the collaborator that, after each move, places one fresh
//! tile on a randomly chosen empty cell of the board.

use crate::board::{flat_index, in_bounds, lemma_flat_index_bound, TwoDimBoard};
use crate::tiles::{lemma_tiles_update, tiles};
use rand::Rng;
use vstd::prelude::*;

verus! {

/// Relies on rand::Rng::gen_range (on rand::thread_rng's generator) over the
/// range `0..n`: the drawn value lies below `n`; the range must be non-empty.
#[verifier::external_body]
fn random_below(n: usize) -> (r: usize)
    requires
        n > 0,
    ensures
        r < n,
{
    rand::thread_rng().gen_range(0..n)
}

/// A game: the board together with the spawning of fresh tiles.
pub struct Game {
    pub board: TwoDimBoard,
}

impl Game {
    /// Spawns one tile on an empty cell chosen uniformly at random: a `2` with
    /// probability 0.8, a `4` otherwise. A board with no empty cell is left
    /// unchanged. Exactly one cell changes, from `0` to the spawned value, so
    /// the tile multiset grows by exactly that one tile.
    pub fn add_tile(&mut self)
        ensures
            final(self).board.w() == old(self).board.w(),
            final(self).board.h() == old(self).board.h(),
            (forall|k: int|
                0 <= k < old(self).board.grid().len() ==> old(self).board.grid()[k] != 0)
                ==> final(self).board.grid() == old(self).board.grid(),
            (exists|k: int|
                0 <= k < old(self).board.grid().len() && old(self).board.grid()[k] == 0) ==> (
            exists|k: int, v: u16|
                0 <= k < old(self).board.grid().len() && old(self).board.grid()[k] == 0 && (v == 2
                    || v == 4) && final(self).board.grid() == old(self).board.grid().update(k, v)
                    && tiles(final(self).board.grid()) == tiles(old(self).board.grid()).insert(v)),
    {
        let w = self.board.width();
        let h = self.board.height();
        let ghost g0 = self.board.grid();
        let mut empty_coords: Vec<(usize, usize)> = Vec::new();
        let mut y: usize = 0;
        while y < h
            invariant
                y <= h,
                w as int == self.board.w(),
                h as int == self.board.h(),
                self.board.grid() == g0,
                g0.len() == w as int * h as int,
                forall|j: int|
                    0 <= j < empty_coords@.len() ==> (in_bounds(
                        w as int,
                        h as int,
                        empty_coords@[j].0 as int,
                        empty_coords@[j].1 as int,
                    ) && g0[flat_index(
                        w as int,
                        empty_coords@[j].0 as int,
                        empty_coords@[j].1 as int,
                    )] == 0),
                empty_coords@.len() == 0 ==> forall|xx: int, yy: int|
                    0 <= yy < y && 0 <= xx < w ==> g0[flat_index(w as int, xx, yy)] != 0,
            decreases h - y,
        {
            let mut x: usize = 0;
            while x < w
                invariant
                    x <= w,
                    y < h,
                    w as int == self.board.w(),
                    h as int == self.board.h(),
                    self.board.grid() == g0,
                    g0.len() == w as int * h as int,
                    forall|j: int|
                        0 <= j < empty_coords@.len() ==> (in_bounds(
                            w as int,
                            h as int,
                            empty_coords@[j].0 as int,
                            empty_coords@[j].1 as int,
                        ) && g0[flat_index(
                            w as int,
                            empty_coords@[j].0 as int,
                            empty_coords@[j].1 as int,
                        )] == 0),
                    empty_coords@.len() == 0 ==> forall|xx: int, yy: int|
                        (0 <= yy < y && 0 <= xx < w) || (yy == y && 0 <= xx < x) ==> g0[flat_index(
                            w as int,
                            xx,
                            yy,
                        )] != 0,
                decreases w - x,
            {
                let cell = self.board.get(x, y);
                match cell {
                    Some(value) => {
                        if value == 0 {
                            empty_coords.push((x, y));
                        }
                    },
                    None => {
                        proof {
                            assert(false);
                        }
                    },
                }
                x = x + 1;
            }
            y = y + 1;
        }
        if empty_coords.len() == 0 {
            proof {
                assert forall|k: int| 0 <= k < g0.len() implies g0[k] != 0 by {
                    lemma_flat_index_coords(k, w as int, h as int);
                }
            }
            return ;
        }
        let i = random_below(empty_coords.len());
        let coord = empty_coords[i];
        let roll = random_below(5);
        let value: u16 = if roll < 4 {
            2
        } else {
            4
        };
        let ghost k = flat_index(w as int, coord.0 as int, coord.1 as int);
        proof {
            lemma_flat_index_bound(coord.0 as int, coord.1 as int, w as int, h as int);
        }
        match self.board.get_mut(coord.0, coord.1) {
            Some(e) => {
                *e = value;
            },
            None => {
                proof {
                    assert(false);
                }
            },
        }
        proof {
            lemma_tiles_update(g0, k, value);
            assert(0 <= k < g0.len() && g0[k] == 0 && (value == 2 || value == 4) && self.board.grid()
                == g0.update(k, value) && tiles(self.board.grid()) == tiles(g0).insert(value));
        }
    }
}

/// Any storage index of a `w` by `h` grid is the row-major index of the
/// coordinate it decomposes into by division and remainder.
pub proof fn lemma_flat_index_coords(k: int, w: int, h: int)
    by (nonlinear_arith)
    requires
        w >= 1,
        h >= 1,
        0 <= k < w * h,
    ensures
        in_bounds(w, h, k % w, k / w),
        flat_index(w, k % w, k / w) == k,
{
}

} // verus!
