//! Ghost model of a board's tile population.
//!
//! A grid is modelled as a flat sequence of cell values; the tiles it carries
//! are the multiset of its non-zero entries, split by a parallel sequence of
//! flags into the tiles that already merged during the current pass and those
//! that have not. The lemmas here relate point updates of the two sequences to
//! those multisets, and define what it means for one tile population to arise
//! from another by a single round of merges of disjoint equal pairs.

use vstd::multiset::Multiset;
use vstd::prelude::*;

verus! {

broadcast use vstd::multiset::group_multiset_axioms;

/// The multiset of non-zero cell values of a grid.
pub open spec fn tiles(s: Seq<u16>) -> Multiset<u16>
    decreases s.len(),
{
    if s.len() == 0 {
        Multiset::empty()
    } else if s.last() == 0 {
        tiles(s.drop_last())
    } else {
        tiles(s.drop_last()).insert(s.last())
    }
}

/// The sum of all cell values of a grid.
pub open spec fn total(s: Seq<u16>) -> int
    decreases s.len(),
{
    if s.len() == 0 {
        0
    } else {
        total(s.drop_last()) + s.last()
    }
}

/// How one point update changes the tile multiset: the old value leaves
/// (when it was a tile) and the new value enters (when it is one).
pub open spec fn replace_tile(m: Multiset<u16>, was: u16, now: u16) -> Multiset<u16> {
    let without = if was == 0 {
        m
    } else {
        m.remove(was)
    };
    if now == 0 {
        without
    } else {
        without.insert(now)
    }
}

/// The tiles at cells whose merged-this-pass flag equals `b`: the part of a
/// grid's tile population that has already merged (`true`), or has not
/// (`false`).
pub open spec fn flagged_tiles(g: Seq<u16>, f: Seq<bool>, b: bool) -> Multiset<u16>
    decreases g.len(),
{
    if g.len() == 0 {
        Multiset::empty()
    } else if g.last() != 0 && f.last() == b {
        flagged_tiles(g.drop_last(), f.drop_last(), b).insert(g.last())
    } else {
        flagged_tiles(g.drop_last(), f.drop_last(), b)
    }
}

/// `rem` splits into the tiles `un` plus one pair `(u, u)` for each merged
/// sum `u + u` in `mk`, using at most `n` pairs: `mk` arises from `rem` by
/// merging disjoint pairs, and `un` is what those merges left untouched.
pub open spec fn round_rel_n(
    rem: Multiset<u16>,
    un: Multiset<u16>,
    mk: Multiset<u16>,
    n: nat,
) -> bool
    decreases n,
{
    (mk == Multiset::<u16>::empty() && rem == un) || (n > 0 && exists|u: u16|
        rem.count(u) >= 2 && mk.count((u + u) as u16) >= 1 && round_rel_n(
            rem.remove(u).remove(u),
            un,
            mk.remove((u + u) as u16),
            (n - 1) as nat,
        ))
}

/// `b` is `a` with a disjoint set of equal-valued pairs each replaced by that
/// pair's sum: one round of simultaneous merges, in which every tile of `a`
/// merges at most once and no merged result merges again.
pub open spec fn one_merge_round(a: Multiset<u16>, b: Multiset<u16>) -> bool {
    exists|mk: Multiset<u16>, n: nat| mk.subset_of(b) && round_rel_n(a, b.sub(mk), mk, n)
}

/// The merge pass's running shape: the tiles the pass started from split into
/// the grid's still-unmerged tiles plus one pair for each merged tile it
/// carries.
pub open spec fn merge_round_inv(t0: Multiset<u16>, g: Seq<u16>, f: Seq<bool>) -> bool {
    exists|n: nat| round_rel_n(t0, flagged_tiles(g, f, false), flagged_tiles(g, f, true), n)
}

/// A non-zero cell contributes its value to the tile multiset.
pub proof fn lemma_tiles_contains(s: Seq<u16>, i: int)
    requires
        0 <= i < s.len(),
        s[i] != 0,
    ensures
        tiles(s).count(s[i]) >= 1,
    decreases s.len(),
{
    if i < s.len() - 1 {
        lemma_tiles_contains(s.drop_last(), i);
    }
}

/// Updating one cell replaces its contribution to the tile multiset.
pub proof fn lemma_tiles_update(s: Seq<u16>, i: int, v: u16)
    requires
        0 <= i < s.len(),
    ensures
        tiles(s.update(i, v)) == replace_tile(tiles(s), s[i], v),
    decreases s.len(),
{
    let s2 = s.update(i, v);
    if i == s.len() - 1 {
        assert(s2.drop_last() =~= s.drop_last());
        assert(tiles(s2) =~= replace_tile(tiles(s), s[i], v));
    } else {
        lemma_tiles_update(s.drop_last(), i, v);
        assert(s2.drop_last() =~= s.drop_last().update(i, v));
        assert(s2.last() == s.last());
        if s[i] != 0 {
            lemma_tiles_contains(s.drop_last(), i);
        }
        assert(tiles(s2) =~= replace_tile(tiles(s), s[i], v));
    }
}

/// Updating one cell shifts the grid's sum by the difference of values.
pub proof fn lemma_total_update(s: Seq<u16>, i: int, v: u16)
    requires
        0 <= i < s.len(),
    ensures
        total(s.update(i, v)) == total(s) - s[i] + v,
    decreases s.len(),
{
    let s2 = s.update(i, v);
    if i == s.len() - 1 {
        assert(s2.drop_last() =~= s.drop_last());
    } else {
        lemma_total_update(s.drop_last(), i, v);
        assert(s2.drop_last() =~= s.drop_last().update(i, v));
        assert(s2.last() == s.last());
    }
}

/// An all-empty grid sums to zero.
pub proof fn lemma_total_all_zero(s: Seq<u16>)
    requires
        forall|k: int| 0 <= k < s.len() ==> s[k] == 0,
    ensures
        total(s) == 0,
    decreases s.len(),
{
    if s.len() > 0 {
        lemma_total_all_zero(s.drop_last());
    }
}

/// A grid of unsigned cells has a non-negative sum.
pub proof fn lemma_total_nonneg(s: Seq<u16>)
    ensures
        total(s) >= 0,
    decreases s.len(),
{
    if s.len() > 0 {
        lemma_total_nonneg(s.drop_last());
    }
}

/// A grid's sum dominates each single cell.
pub proof fn lemma_total_element(s: Seq<u16>, i: int)
    requires
        0 <= i < s.len(),
    ensures
        s[i] <= total(s),
        total(s) >= 0,
    decreases s.len(),
{
    if i == s.len() - 1 {
        lemma_total_nonneg(s.drop_last());
    } else {
        lemma_total_element(s.drop_last(), i);
    }
}

/// A grid's sum dominates any two distinct cells together.
pub proof fn lemma_total_pair(s: Seq<u16>, i: int, j: int)
    requires
        0 <= i < s.len(),
        0 <= j < s.len(),
        i != j,
    ensures
        s[i] + s[j] <= total(s),
    decreases s.len(),
{
    if i == s.len() - 1 {
        lemma_total_element(s.drop_last(), j);
    } else if j == s.len() - 1 {
        lemma_total_element(s.drop_last(), i);
    } else {
        lemma_total_pair(s.drop_last(), i, j);
    }
}

/// A grid's tiles split into its still-unmerged and its merged parts.
pub proof fn lemma_flagged_split(g: Seq<u16>, f: Seq<bool>)
    requires
        g.len() == f.len(),
    ensures
        tiles(g) == flagged_tiles(g, f, false).add(flagged_tiles(g, f, true)),
    decreases g.len(),
{
    if g.len() == 0 {
        assert(tiles(g) =~= flagged_tiles(g, f, false).add(flagged_tiles(g, f, true)));
    } else {
        lemma_flagged_split(g.drop_last(), f.drop_last());
        assert(tiles(g) =~= flagged_tiles(g, f, false).add(flagged_tiles(g, f, true)));
    }
}

/// With no flags set, every tile is unmerged and the merged part is empty.
pub proof fn lemma_flagged_all_false(g: Seq<u16>, f: Seq<bool>)
    requires
        g.len() == f.len(),
        forall|k: int| 0 <= k < f.len() ==> !f[k],
    ensures
        flagged_tiles(g, f, false) == tiles(g),
        flagged_tiles(g, f, true) == Multiset::<u16>::empty(),
    decreases g.len(),
{
    if g.len() > 0 {
        lemma_flagged_all_false(g.drop_last(), f.drop_last());
    }
}

/// A non-zero cell whose flag is `b` contributes its value to that part.
pub proof fn lemma_flagged_contains(g: Seq<u16>, f: Seq<bool>, i: int, b: bool)
    requires
        g.len() == f.len(),
        0 <= i < g.len(),
        g[i] != 0,
        f[i] == b,
    ensures
        flagged_tiles(g, f, b).count(g[i]) >= 1,
    decreases g.len(),
{
    if i < g.len() - 1 {
        lemma_flagged_contains(g.drop_last(), f.drop_last(), i, b);
    }
}

/// Two distinct non-zero cells of equal value and equal flag `b` contribute
/// the value twice to that part.
pub proof fn lemma_flagged_contains_two(g: Seq<u16>, f: Seq<bool>, i: int, j: int, b: bool)
    requires
        g.len() == f.len(),
        0 <= i < g.len(),
        0 <= j < g.len(),
        i != j,
        g[i] == g[j],
        g[i] != 0,
        f[i] == b,
        f[j] == b,
    ensures
        flagged_tiles(g, f, b).count(g[i]) >= 2,
    decreases g.len(),
{
    if i == g.len() - 1 {
        lemma_flagged_contains(g.drop_last(), f.drop_last(), j, b);
    } else if j == g.len() - 1 {
        lemma_flagged_contains(g.drop_last(), f.drop_last(), i, b);
    } else {
        lemma_flagged_contains_two(g.drop_last(), f.drop_last(), i, j, b);
    }
}

/// Updating one cell's value replaces its contribution to the part its flag
/// selects, and leaves the other part alone.
pub proof fn lemma_flagged_update_val(g: Seq<u16>, f: Seq<bool>, i: int, v: u16, b: bool)
    requires
        g.len() == f.len(),
        0 <= i < g.len(),
    ensures
        flagged_tiles(g.update(i, v), f, b) == replace_tile(
            flagged_tiles(g, f, b),
            if f[i] == b {
                g[i]
            } else {
                0
            },
            if f[i] == b {
                v
            } else {
                0
            },
        ),
    decreases g.len(),
{
    let g2 = g.update(i, v);
    if i == g.len() - 1 {
        assert(g2.drop_last() =~= g.drop_last());
        assert(flagged_tiles(g2, f, b) =~= replace_tile(
            flagged_tiles(g, f, b),
            if f[i] == b {
                g[i]
            } else {
                0
            },
            if f[i] == b {
                v
            } else {
                0
            },
        ));
    } else {
        lemma_flagged_update_val(g.drop_last(), f.drop_last(), i, v, b);
        assert(g2.drop_last() =~= g.drop_last().update(i, v));
        assert(g2.last() == g.last());
        if g[i] != 0 && f[i] == b {
            lemma_flagged_contains(g.drop_last(), f.drop_last(), i, b);
        }
        assert(flagged_tiles(g2, f, b) =~= replace_tile(
            flagged_tiles(g, f, b),
            if f[i] == b {
                g[i]
            } else {
                0
            },
            if f[i] == b {
                v
            } else {
                0
            },
        ));
    }
}

/// Updating one cell's flag moves its contribution between the two parts.
pub proof fn lemma_flagged_update_flag(g: Seq<u16>, f: Seq<bool>, i: int, nf: bool, b: bool)
    requires
        g.len() == f.len(),
        0 <= i < g.len(),
    ensures
        flagged_tiles(g, f.update(i, nf), b) == replace_tile(
            flagged_tiles(g, f, b),
            if f[i] == b {
                g[i]
            } else {
                0
            },
            if nf == b {
                g[i]
            } else {
                0
            },
        ),
    decreases g.len(),
{
    let f2 = f.update(i, nf);
    if i == g.len() - 1 {
        assert(f2.drop_last() =~= f.drop_last());
        if g[i] != 0 && f[i] == b && nf == b {
            lemma_flagged_contains(g, f, i, b);
        }
        assert(flagged_tiles(g, f2, b) =~= replace_tile(
            flagged_tiles(g, f, b),
            if f[i] == b {
                g[i]
            } else {
                0
            },
            if nf == b {
                g[i]
            } else {
                0
            },
        ));
    } else {
        lemma_flagged_update_flag(g.drop_last(), f.drop_last(), i, nf, b);
        assert(f2.drop_last() =~= f.drop_last().update(i, nf));
        assert(f2.last() == f.last());
        if g[i] != 0 && f[i] == b {
            lemma_flagged_contains(g.drop_last(), f.drop_last(), i, b);
        }
        assert(flagged_tiles(g, f2, b) =~= replace_tile(
            flagged_tiles(g, f, b),
            if f[i] == b {
                g[i]
            } else {
                0
            },
            if nf == b {
                g[i]
            } else {
                0
            },
        ));
    }
}

/// A slide — the value and its flag travel from cell `ci` to the empty,
/// unflagged cell `ti` — changes neither the unmerged nor the merged tiles.
pub proof fn lemma_flagged_move(g: Seq<u16>, f: Seq<bool>, ci: int, ti: int)
    requires
        g.len() == f.len(),
        0 <= ci < g.len(),
        0 <= ti < g.len(),
        ci != ti,
        g[ti] == 0,
        !f[ti],
        f[ci] ==> g[ci] != 0,
    ensures
        flagged_tiles(
            g.update(ci, 0u16).update(ti, g[ci]),
            f.update(ci, false).update(ti, f[ci]),
            false,
        ) == flagged_tiles(g, f, false),
        flagged_tiles(
            g.update(ci, 0u16).update(ti, g[ci]),
            f.update(ci, false).update(ti, f[ci]),
            true,
        ) == flagged_tiles(g, f, true),
{
    let v = g[ci];
    let g1 = g.update(ci, 0u16);
    let g2 = g1.update(ti, v);
    let f1 = f.update(ci, false);
    if v != 0 {
        lemma_flagged_contains(g, f, ci, f[ci]);
    }
    lemma_flagged_update_val(g, f, ci, 0u16, false);
    lemma_flagged_update_val(g, f, ci, 0u16, true);
    lemma_flagged_update_val(g1, f, ti, v, false);
    lemma_flagged_update_val(g1, f, ti, v, true);
    lemma_flagged_update_flag(g2, f, ci, false, false);
    lemma_flagged_update_flag(g2, f, ci, false, true);
    lemma_flagged_update_flag(g2, f1, ti, f[ci], false);
    lemma_flagged_update_flag(g2, f1, ti, f[ci], true);
    assert(flagged_tiles(g2, f1.update(ti, f[ci]), false) =~= flagged_tiles(g, f, false));
    assert(flagged_tiles(g2, f1.update(ti, f[ci]), true) =~= flagged_tiles(g, f, true));
}

/// A merge — two equal unflagged tiles at `ci` and `ti` become their sum at
/// `ti`, which is flagged — moves one pair from the unmerged tiles to one sum
/// among the merged ones.
pub proof fn lemma_flagged_merge(g: Seq<u16>, f: Seq<bool>, ci: int, ti: int)
    requires
        g.len() == f.len(),
        0 <= ci < g.len(),
        0 <= ti < g.len(),
        ci != ti,
        g[ci] == g[ti],
        g[ci] != 0,
        g[ci] + g[ti] <= u16::MAX,
        !f[ci],
        !f[ti],
    ensures
        flagged_tiles(g, f, false).count(g[ci]) >= 2,
        flagged_tiles(
            g.update(ci, 0u16).update(ti, (g[ci] + g[ti]) as u16),
            f.update(ti, true),
            false,
        ) == flagged_tiles(g, f, false).remove(g[ci]).remove(g[ci]),
        flagged_tiles(
            g.update(ci, 0u16).update(ti, (g[ci] + g[ti]) as u16),
            f.update(ti, true),
            true,
        ) == flagged_tiles(g, f, true).insert((g[ci] + g[ti]) as u16),
{
    let u = g[ci];
    let sum = (g[ci] + g[ti]) as u16;
    let g1 = g.update(ci, 0u16);
    let g2 = g1.update(ti, sum);
    lemma_flagged_contains_two(g, f, ci, ti, false);
    lemma_flagged_update_val(g, f, ci, 0u16, false);
    lemma_flagged_update_val(g, f, ci, 0u16, true);
    lemma_flagged_update_val(g1, f, ti, sum, false);
    lemma_flagged_update_val(g1, f, ti, sum, true);
    lemma_flagged_update_flag(g2, f, ti, true, false);
    lemma_flagged_update_flag(g2, f, ti, true, true);
    assert(flagged_tiles(g2, f.update(ti, true), false) =~= flagged_tiles(g, f, false).remove(
        u,
    ).remove(u));
    assert(flagged_tiles(g2, f.update(ti, true), true) =~= flagged_tiles(g, f, true).insert(sum));
}

/// One more disjoint pair of unmerged tiles joins the merge round.
pub proof fn lemma_round_rel_merge(
    rem: Multiset<u16>,
    un: Multiset<u16>,
    mk: Multiset<u16>,
    n: nat,
    u: u16,
)
    requires
        round_rel_n(rem, un, mk, n),
        un.count(u) >= 2,
    ensures
        round_rel_n(rem, un.remove(u).remove(u), mk.insert((u + u) as u16), n + 1),
    decreases n,
{
    let s = (u + u) as u16;
    if mk == Multiset::<u16>::empty() && rem == un {
        assert(mk.insert(s).remove(s) =~= mk);
        assert(rem.remove(u).remove(u) =~= un.remove(u).remove(u));
        assert(round_rel_n(rem.remove(u).remove(u), un.remove(u).remove(u), mk, n));
        assert(mk.insert(s).count(s) >= 1);
    } else {
        let w = choose|w: u16|
            rem.count(w) >= 2 && mk.count((w + w) as u16) >= 1 && round_rel_n(
                rem.remove(w).remove(w),
                un,
                mk.remove((w + w) as u16),
                (n - 1) as nat,
            );
        let sw = (w + w) as u16;
        lemma_round_rel_merge(rem.remove(w).remove(w), un, mk.remove(sw), (n - 1) as nat, u);
        assert(mk.insert(s).remove(sw) =~= mk.remove(sw).insert(s));
        assert(mk.insert(s).count(sw) >= 1);
        assert(round_rel_n(rem, un.remove(u).remove(u), mk.insert(s), n + 1));
    }
}

/// A finished merge pass performed exactly one round of simultaneous merges.
pub proof fn lemma_round_complete(t0: Multiset<u16>, g: Seq<u16>, f: Seq<bool>)
    requires
        g.len() == f.len(),
        merge_round_inv(t0, g, f),
    ensures
        one_merge_round(t0, tiles(g)),
{
    lemma_flagged_split(g, f);
    let un = flagged_tiles(g, f, false);
    let mk = flagged_tiles(g, f, true);
    let n = choose|n: nat| round_rel_n(t0, un, mk, n);
    assert(mk.subset_of(tiles(g)));
    assert(tiles(g).sub(mk) =~= un);
}

} // verus!
