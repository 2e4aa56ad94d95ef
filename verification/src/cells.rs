//! Per-cell reading of the gravity sub-steps: boundary equivalence.
//!
//! The window of an interior pass is a 192-column strip. The lemmas here
//! restate each diagonal sub-step's bit formulas as one uniform rule over
//! absolute strip columns, with no mention of the chunk seams: cutting a
//! configuration into chunks leaves every fall decision and every landing
//! exactly where the uncut configuration has them.

use vstd::prelude::*;

use crate::bits::{bit_at, lemma_bit_facts};
use crate::chunk::{LAST_BIT, FIRST_BIT, down_fall};
use crate::gravity::{TriView, tri_down, tri_dl, tri_dr, tri_row, tri_steps, tri_step};
use crate::boundary::{EdgeTri, AdjSim, edge_down, edge_dl, edge_dl_mask, edge_dr, edge_dr_mask};

verus! {

/// Occupancy of strip column `c` at row `y`: the right copy holds columns
/// 0 to 63, the resolved chunk 64 to 127, the left copy 128 to 191.
pub open spec fn strip_occ(t: TriView, y: int, c: int) -> bool {
    if c < 64 {
        bit_at(t.right.occ[y], c as u64)
    } else if c < 128 {
        bit_at(t.mid.occ[y], (c - 64) as u64)
    } else {
        bit_at(t.left.occ[y], (c - 128) as u64)
    }
}

/// Mobility of strip column `c` at row `y`.
pub open spec fn strip_mob(t: TriView, y: int, c: int) -> bool {
    if c < 64 {
        bit_at(t.right.mob[y], c as u64)
    } else if c < 128 {
        bit_at(t.mid.mob[y], (c - 64) as u64)
    } else {
        bit_at(t.left.mob[y], (c - 128) as u64)
    }
}

/// The uniform left-diagonal rule for one strip cell: mobile, not against
/// the strip's end, the cell beside it free, the diagonal target free.
pub open spec fn strip_dl_fall(t: TriView, y: int, c: int) -> bool {
    &&& 0 <= c < 191
    &&& strip_mob(t, y, c)
    &&& !strip_occ(t, y, c + 1)
    &&& !strip_occ(t, y - 1, c + 1)
}

/// The uniform right-diagonal rule for one strip cell.
pub open spec fn strip_dr_fall(t: TriView, y: int, c: int) -> bool {
    &&& 0 < c < 192
    &&& strip_mob(t, y, c)
    &&& !strip_occ(t, y, c - 1)
    &&& !strip_occ(t, y - 1, c - 1)
}

/// Law of boundary equivalence, left-diagonal sub-step: over the whole
/// strip the chunked masks compute the uniform per-cell rule, and every
/// fall lands one column over on the row below, across chunk seams exactly
/// as within a chunk.
pub proof fn lemma_tri_dl_cells(t: TriView, y: int)
    requires
        t.mid.occ.len() == 64 && t.mid.mob.len() == 64,
        t.left.occ.len() == 64 && t.left.mob.len() == 64,
        t.right.occ.len() == 64 && t.right.mob.len() == 64,
        1 <= y < 64,
    ensures
        forall|c: int|
            0 <= c < 192 ==> #[trigger] strip_occ(tri_dl(t, y), y, c) == (strip_occ(t, y, c)
                && !strip_dl_fall(t, y, c)),
        forall|c: int|
            0 <= c < 192 ==> #[trigger] strip_mob(tri_dl(t, y), y, c) == (strip_mob(t, y, c)
                && !strip_dl_fall(t, y, c)),
        forall|c: int|
            0 <= c < 192 ==> #[trigger] strip_occ(tri_dl(t, y), y - 1, c) == (strip_occ(t, y - 1, c)
                || strip_dl_fall(t, y, c - 1)),
        forall|c: int|
            0 <= c < 192 ==> #[trigger] strip_mob(tri_dl(t, y), y - 1, c) == (strip_mob(t, y - 1, c)
                || strip_dl_fall(t, y, c - 1)),
{
    lemma_bit_facts();
    let fr = t.right.dl_mask(y, t.mid.occ[y] << 63, t.mid.occ[y - 1] << 63);
    let fm = t.mid.dl_mask(y, t.left.occ[y] << 63, t.left.occ[y - 1] << 63);
    let fl = t.left.dl_mask(y, LAST_BIT, LAST_BIT);
    let u = tri_dl(t, y);
    assert(bit_at(LAST_BIT, 63) && (forall|i: u64| i < 63 ==> !bit_at(LAST_BIT, i))) by (bit_vector);

    assert forall|c: int| 0 <= c < 192 implies #[trigger] dl_fall_word(t, y, c) == strip_dl_fall(
        t,
        y,
        c,
    ) by {
        if c < 64 {
            assert(bit_at(fr, c as u64) == strip_dl_fall(t, y, c));
        } else if c < 128 {
            assert(bit_at(fm, (c - 64) as u64) == strip_dl_fall(t, y, c));
        } else {
            assert(bit_at(fl, (c - 128) as u64) == strip_dl_fall(t, y, c));
        }
    }

    assert forall|c: int| 0 <= c < 192 implies {
        &&& #[trigger] strip_occ(u, y, c) == (strip_occ(t, y, c) && !strip_dl_fall(t, y, c))
        &&& strip_mob(u, y, c) == (strip_mob(t, y, c) && !strip_dl_fall(t, y, c))
        &&& strip_occ(u, y - 1, c) == (strip_occ(t, y - 1, c) || strip_dl_fall(t, y, c - 1))
        &&& strip_mob(u, y - 1, c) == (strip_mob(t, y - 1, c) || strip_dl_fall(t, y, c - 1))
    } by {
        assert(dl_fall_word(t, y, c) == strip_dl_fall(t, y, c));
        if c >= 1 {
            assert(dl_fall_word(t, y, c - 1) == strip_dl_fall(t, y, c - 1));
        }
    }
}

/// Law of boundary equivalence, right-diagonal sub-step, mirroring the
/// left-diagonal law.
pub proof fn lemma_tri_dr_cells(t: TriView, y: int)
    requires
        t.mid.occ.len() == 64 && t.mid.mob.len() == 64,
        t.left.occ.len() == 64 && t.left.mob.len() == 64,
        t.right.occ.len() == 64 && t.right.mob.len() == 64,
        1 <= y < 64,
    ensures
        forall|c: int|
            0 <= c < 192 ==> #[trigger] strip_occ(tri_dr(t, y), y, c) == (strip_occ(t, y, c)
                && !strip_dr_fall(t, y, c)),
        forall|c: int|
            0 <= c < 192 ==> #[trigger] strip_mob(tri_dr(t, y), y, c) == (strip_mob(t, y, c)
                && !strip_dr_fall(t, y, c)),
        forall|c: int|
            0 <= c < 192 ==> #[trigger] strip_occ(tri_dr(t, y), y - 1, c) == (strip_occ(t, y - 1, c)
                || strip_dr_fall(t, y, c + 1)),
        forall|c: int|
            0 <= c < 192 ==> #[trigger] strip_mob(tri_dr(t, y), y - 1, c) == (strip_mob(t, y - 1, c)
                || strip_dr_fall(t, y, c + 1)),
{
    lemma_bit_facts();
    let fl = t.left.dr_mask(y, t.mid.occ[y] >> 63, t.mid.occ[y - 1] >> 63);
    let fm = t.mid.dr_mask(y, t.right.occ[y] >> 63, t.right.occ[y - 1] >> 63);
    let fr = t.right.dr_mask(y, FIRST_BIT, FIRST_BIT);
    let u = tri_dr(t, y);
    assert(bit_at(FIRST_BIT, 0) && (forall|i: u64| 0 < i < 64 ==> !bit_at(FIRST_BIT, i)))
        by (bit_vector);

    assert forall|c: int| 0 <= c < 192 implies #[trigger] dr_fall_word(t, y, c) == strip_dr_fall(
        t,
        y,
        c,
    ) by {
        if c < 64 {
            assert(bit_at(fr, c as u64) == strip_dr_fall(t, y, c));
        } else if c < 128 {
            assert(bit_at(fm, (c - 64) as u64) == strip_dr_fall(t, y, c));
        } else {
            assert(bit_at(fl, (c - 128) as u64) == strip_dr_fall(t, y, c));
        }
    }

    assert forall|c: int| 0 <= c < 192 implies {
        &&& #[trigger] strip_occ(u, y, c) == (strip_occ(t, y, c) && !strip_dr_fall(t, y, c))
        &&& strip_mob(u, y, c) == (strip_mob(t, y, c) && !strip_dr_fall(t, y, c))
        &&& strip_occ(u, y - 1, c) == (strip_occ(t, y - 1, c) || strip_dr_fall(t, y, c + 1))
        &&& strip_mob(u, y - 1, c) == (strip_mob(t, y - 1, c) || strip_dr_fall(t, y, c + 1))
    } by {
        assert(dr_fall_word(t, y, c) == strip_dr_fall(t, y, c));
        if c < 191 {
            assert(dr_fall_word(t, y, c + 1) == strip_dr_fall(t, y, c + 1));
        }
    }
}

/// All six mask sequences of the window hold their 64 rows.
pub open spec fn strip_lens(t: TriView) -> bool {
    &&& t.mid.occ.len() == 64 && t.mid.mob.len() == 64
    &&& t.left.occ.len() == 64 && t.left.mob.len() == 64
    &&& t.right.occ.len() == 64 && t.right.mob.len() == 64
}

/// Per-cell reading of the straight-fall sub-step; it reads and writes one
/// column at a time and never crosses a seam.
pub proof fn lemma_tri_down_cells(t: TriView, y: int)
    requires
        strip_lens(t),
        1 <= y < 64,
    ensures
        strip_lens(tri_down(t, y)),
        forall|c: int|
            0 <= c < 192 ==> #[trigger] strip_occ(tri_down(t, y), y, c) == (strip_occ(t, y, c) && !(
            strip_mob(t, y, c) && !strip_occ(t, y - 1, c))),
        forall|c: int|
            0 <= c < 192 ==> #[trigger] strip_mob(tri_down(t, y), y, c) == (strip_mob(t, y, c) && !(
            strip_mob(t, y, c) && !strip_occ(t, y - 1, c))),
        forall|c: int|
            0 <= c < 192 ==> #[trigger] strip_occ(tri_down(t, y), y - 1, c) == (strip_occ(
                t,
                y - 1,
                c,
            ) || (strip_mob(t, y, c) && !strip_occ(t, y - 1, c))),
        forall|c: int|
            0 <= c < 192 ==> #[trigger] strip_mob(tri_down(t, y), y - 1, c) == (strip_mob(
                t,
                y - 1,
                c,
            ) || (strip_mob(t, y, c) && !strip_occ(t, y - 1, c))),
        forall|j: int, c: int|
            0 <= j < 64 && j != y && j != y - 1 && 0 <= c < 192 ==> #[trigger] strip_occ(
                tri_down(t, y),
                j,
                c,
            ) == strip_occ(t, j, c) && strip_mob(tri_down(t, y), j, c) == strip_mob(t, j, c),
{
    lemma_bit_facts();
}

/// The diagonal sub-steps touch only rows `y` and `y - 1`, and their length
/// bookkeeping carries over.
pub proof fn lemma_tri_diag_frame(t: TriView, y: int)
    requires
        strip_lens(t),
        1 <= y < 64,
    ensures
        strip_lens(tri_dl(t, y)),
        strip_lens(tri_dr(t, y)),
        forall|j: int, c: int|
            0 <= j < 64 && j != y && j != y - 1 && 0 <= c < 192 ==> #[trigger] strip_occ(
                tri_dl(t, y),
                j,
                c,
            ) == strip_occ(t, j, c) && strip_mob(tri_dl(t, y), j, c) == strip_mob(t, j, c),
        forall|j: int, c: int|
            0 <= j < 64 && j != y && j != y - 1 && 0 <= c < 192 ==> #[trigger] strip_occ(
                tri_dr(t, y),
                j,
                c,
            ) == strip_occ(t, j, c) && strip_mob(tri_dr(t, y), j, c) == strip_mob(t, j, c),
{
}

/// One whole row resolution of the window: row `y` only loses particles,
/// and row `y - 1` gains only particles that were mobile in row `y` at most
/// one column away — measured in strip columns, across seams.
pub proof fn lemma_tri_row_bounds(t: TriView, y: int, state: bool)
    requires
        strip_lens(t),
        1 <= y < 64,
    ensures
        strip_lens(tri_row(t, y, state)),
        forall|c: int|
            0 <= c < 192 && #[trigger] strip_occ(tri_row(t, y, state), y, c) ==> strip_occ(t, y, c),
        forall|c: int|
            0 <= c < 192 && #[trigger] strip_mob(tri_row(t, y, state), y, c) ==> strip_mob(t, y, c),
        forall|c: int|
            0 <= c < 192 && #[trigger] strip_occ(tri_row(t, y, state), y - 1, c) ==> strip_occ(
                t,
                y - 1,
                c,
            ) || strip_mob(t, y, c) || (c >= 1 && strip_mob(t, y, c - 1)) || (c < 191 && strip_mob(
                t,
                y,
                c + 1,
            )),
        forall|j: int, c: int|
            0 <= j < 64 && j != y && j != y - 1 && 0 <= c < 192 ==> #[trigger] strip_occ(
                tri_row(t, y, state),
                j,
                c,
            ) == strip_occ(t, j, c) && strip_mob(tri_row(t, y, state), j, c) == strip_mob(t, j, c),
{
    let t1 = tri_down(t, y);
    lemma_tri_down_cells(t, y);
    if (y % 2 == 0) != state {
        let t2 = tri_dl(t1, y);
        lemma_tri_dl_cells(t1, y);
        lemma_tri_diag_frame(t1, y);
        lemma_tri_dr_cells(t2, y);
        lemma_tri_diag_frame(t2, y);
    } else {
        let t2 = tri_dr(t1, y);
        lemma_tri_dr_cells(t1, y);
        lemma_tri_diag_frame(t1, y);
        lemma_tri_dl_cells(t2, y);
        lemma_tri_diag_frame(t2, y);
    }
}

proof fn lemma_tri_steps_bounds(t: TriView, state: bool, n: int)
    requires
        strip_lens(t),
        1 <= n <= 64,
    ensures
        ({
            let s = tri_steps(t, state, n);
            &&& strip_lens(s)
            &&& forall|j: int, c: int|
                n <= j < 64 && 0 <= c < 192 ==> #[trigger] strip_occ(s, j, c) == strip_occ(t, j, c)
                    && strip_mob(s, j, c) == strip_mob(t, j, c)
            &&& forall|c: int|
                0 <= c < 192 && #[trigger] strip_occ(s, n - 1, c) ==> strip_occ(t, n - 1, c)
            &&& forall|j: int, c: int|
                0 <= j < n - 1 && 0 <= c < 192 && #[trigger] strip_occ(s, j, c) ==> strip_occ(
                    t,
                    j,
                    c,
                ) || strip_mob(t, j + 1, c) || (c >= 1 && strip_mob(t, j + 1, c - 1)) || (c < 191
                    && strip_mob(t, j + 1, c + 1))
        }),
    decreases n,
{
    if n > 1 {
        lemma_tri_steps_bounds(t, state, n - 1);
        let s0 = tri_steps(t, state, n - 1);
        lemma_tri_row_bounds(s0, n - 1, state);
        let s = tri_steps(t, state, n);
        assert(s == tri_row(s0, n - 1, state));
        assert forall|j: int, c: int| n <= j < 64 && 0 <= c < 192 implies #[trigger] strip_occ(
            s,
            j,
            c,
        ) == strip_occ(t, j, c) && strip_mob(s, j, c) == strip_mob(t, j, c) by {
            assert(strip_occ(s, j, c) == strip_occ(s0, j, c) && strip_mob(s, j, c) == strip_mob(
                s0,
                j,
                c,
            ));
        }
        assert forall|c: int| 0 <= c < 192 && #[trigger] strip_occ(s, n - 1, c) implies strip_occ(
            t,
            n - 1,
            c,
        ) by {
            assert(strip_occ(s0, n - 1, c) == strip_occ(t, n - 1, c));
        }
        assert forall|j: int, c: int|
            0 <= j < n - 1 && 0 <= c < 192 && #[trigger] strip_occ(s, j, c) implies strip_occ(
            t,
            j,
            c,
        ) || strip_mob(t, j + 1, c) || (c >= 1 && strip_mob(t, j + 1, c - 1)) || (c < 191
            && strip_mob(t, j + 1, c + 1)) by {
            if j == n - 2 {
                assert(strip_occ(s0, n - 1, c) == strip_occ(t, n - 1, c));
                assert(strip_mob(s0, n - 1, c) == strip_mob(t, n - 1, c));
                if c >= 1 {
                    assert(strip_occ(s0, n - 1, c - 1) == strip_occ(t, n - 1, c - 1));
                    assert(strip_mob(s0, n - 1, c - 1) == strip_mob(t, n - 1, c - 1));
                }
                if c < 191 {
                    assert(strip_occ(s0, n - 1, c + 1) == strip_occ(t, n - 1, c + 1));
                    assert(strip_mob(s0, n - 1, c + 1) == strip_mob(t, n - 1, c + 1));
                }
            } else {
                assert(strip_occ(s, j, c) == strip_occ(s0, j, c));
            }
        }
    }
}

/// Law of the one-row fall bound for the whole window: after one interior
/// pass, every occupied strip cell was, at the start of the pass, either
/// already occupied or mobile one row above at most one column away —
/// whether or not a chunk seam lies in between. A particle thus falls at
/// most one row per pass, and combines a vertical with at most one
/// horizontal move.
pub proof fn lemma_tri_step_no_double_fall(t: TriView, state: bool)
    requires
        strip_lens(t),
    ensures
        forall|j: int, c: int|
            0 <= j < 63 && 0 <= c < 192 && #[trigger] strip_occ(tri_step(t, state), j, c)
                ==> strip_occ(t, j, c) || strip_mob(t, j + 1, c) || (c >= 1 && strip_mob(
                t,
                j + 1,
                c - 1,
            )) || (c < 191 && strip_mob(t, j + 1, c + 1)),
        forall|c: int|
            0 <= c < 192 && #[trigger] strip_occ(tri_step(t, state), 63, c) ==> strip_occ(t, 63, c),
{
    lemma_tri_steps_bounds(t, state, 64);
}

/// Occupancy of the row directly below a chunk's bottom row, by the
/// chunk's own column numbering `j`. The two below chunks sit offset by
/// half a width: columns 32 and up lie in the below-left top row, columns
/// below 32 in the below-right top row, which also extend 32 columns past
/// either side of the chunk.
pub open spec fn below_occ(t: EdgeTri, j: int) -> bool {
    if j >= 32 {
        bit_at(t.dl.occ[63], (j - 32) as u64)
    } else {
        bit_at(t.dr.occ[63], (j + 32) as u64)
    }
}

/// Mobility of the row directly below, by the chunk's column numbering.
pub open spec fn below_mob(t: EdgeTri, j: int) -> bool {
    if j >= 32 {
        bit_at(t.dl.mob[63], (j - 32) as u64)
    } else {
        bit_at(t.dr.mob[63], (j + 32) as u64)
    }
}

/// Law of the half-width alignment, straight fall: column `j` of the
/// bottom row falls exactly when it is mobile and the cell directly below
/// it is free, and it lands directly below, whichever of the two offset
/// chunks holds that cell.
pub proof fn lemma_edge_down_cells(t: EdgeTri)
    requires
        t.mid.occ.len() == 64 && t.mid.mob.len() == 64,
        t.dl.occ.len() == 64 && t.dl.mob.len() == 64,
        t.dr.occ.len() == 64 && t.dr.mob.len() == 64,
    ensures
        forall|j: int|
            0 <= j < 64 ==> #[trigger] bit_at(edge_down(t).mid.occ[0], j as u64) == (bit_at(
                t.mid.occ[0],
                j as u64,
            ) && !(bit_at(t.mid.mob[0], j as u64) && !below_occ(t, j))),
        forall|j: int|
            -32 <= j < 96 ==> #[trigger] below_occ(edge_down(t), j) == (below_occ(t, j) || (0 <= j
                < 64 && bit_at(t.mid.mob[0], j as u64) && !below_occ(t, j))),
        forall|j: int|
            -32 <= j < 96 ==> #[trigger] below_mob(edge_down(t), j) == (below_mob(t, j) || (0 <= j
                < 64 && bit_at(t.mid.mob[0], j as u64) && !below_occ(t, j))),
{
    lemma_bit_facts();
    let f = down_fall(t.mid.mob[0], (t.dl.occ[63] << 32) | (t.dr.occ[63] >> 32));
    assert forall|j: int| 0 <= j < 64 implies #[trigger] bit_at(f, j as u64) == (bit_at(
        t.mid.mob[0],
        j as u64,
    ) && !below_occ(t, j)) by {
        assert(bit_at((t.dl.occ[63] << 32) | (t.dr.occ[63] >> 32), j as u64) == below_occ(t, j));
    }
}

/// Law of the half-width alignment, left-diagonal fall across both
/// boundaries: column `j` falls exactly when it is mobile and both the
/// cell beside it (read from the neighbor's working copy past the chunk's
/// edge) and the diagonal target below are free; the landing site is one
/// column over in the below row, whichever chunk holds it.
pub proof fn lemma_edge_dl_cells(t: EdgeTri, sim: AdjSim)
    requires
        t.mid.occ.len() == 64 && t.mid.mob.len() == 64,
        t.dl.occ.len() == 64 && t.dl.mob.len() == 64,
        t.dr.occ.len() == 64 && t.dr.mob.len() == 64,
    ensures
        forall|j: int|
            0 <= j < 64 ==> #[trigger] bit_at(edge_dl_mask(t, sim), j as u64) == (bit_at(
                t.mid.mob[0],
                j as u64,
            ) && !(if j + 1 < 64 {
                bit_at(t.mid.occ[0], (j + 1) as u64)
            } else {
                bit_at(sim.masks.some_mask, 0)
            }) && !(below_occ(t, j + 1) || (j + 1 == 64 && bit_at(sim.down_some_mask, 0)))),
        forall|j: int|
            -32 <= j < 96 ==> #[trigger] below_occ(edge_dl(t, sim), j) == (below_occ(t, j) || (1
                <= j < 65 && bit_at(edge_dl_mask(t, sim), (j - 1) as u64))),
        forall|j: int|
            -32 <= j < 96 ==> #[trigger] below_mob(edge_dl(t, sim), j) == (below_mob(t, j) || (1
                <= j < 65 && bit_at(edge_dl_mask(t, sim), (j - 1) as u64))),
{
    lemma_bit_facts();
}

/// Law of the half-width alignment, right-diagonal fall across both
/// boundaries, mirroring the left-diagonal law.
pub proof fn lemma_edge_dr_cells(t: EdgeTri, sim: AdjSim)
    requires
        t.mid.occ.len() == 64 && t.mid.mob.len() == 64,
        t.dl.occ.len() == 64 && t.dl.mob.len() == 64,
        t.dr.occ.len() == 64 && t.dr.mob.len() == 64,
    ensures
        forall|j: int|
            0 <= j < 64 ==> #[trigger] bit_at(edge_dr_mask(t, sim), j as u64) == (bit_at(
                t.mid.mob[0],
                j as u64,
            ) && !(if j >= 1 {
                bit_at(t.mid.occ[0], (j - 1) as u64)
            } else {
                bit_at(sim.masks.some_mask, 63)
            }) && !(below_occ(t, j - 1) || (j - 1 == -1 && bit_at(sim.down_some_mask, 63)))),
        forall|j: int|
            -32 <= j < 96 ==> #[trigger] below_occ(edge_dr(t, sim), j) == (below_occ(t, j) || (-1
                <= j < 63 && bit_at(edge_dr_mask(t, sim), (j + 1) as u64))),
        forall|j: int|
            -32 <= j < 96 ==> #[trigger] below_mob(edge_dr(t, sim), j) == (below_mob(t, j) || (-1
                <= j < 63 && bit_at(edge_dr_mask(t, sim), (j + 1) as u64))),
{
    lemma_bit_facts();
}

/// Bit `c` of the fall word of the member holding strip column `c`, in the
/// right-diagonal sub-step of row `y`.
pub open spec fn dr_fall_word(t: TriView, y: int, c: int) -> bool {
    let fl = t.left.dr_mask(y, t.mid.occ[y] >> 63, t.mid.occ[y - 1] >> 63);
    let fm = t.mid.dr_mask(y, t.right.occ[y] >> 63, t.right.occ[y - 1] >> 63);
    let fr = t.right.dr_mask(y, FIRST_BIT, FIRST_BIT);
    if c < 64 {
        bit_at(fr, c as u64)
    } else if c < 128 {
        bit_at(fm, (c - 64) as u64)
    } else {
        bit_at(fl, (c - 128) as u64)
    }
}

/// Bit `c` of the fall word of the member holding strip column `c`, in the
/// left-diagonal sub-step of row `y`.
pub open spec fn dl_fall_word(t: TriView, y: int, c: int) -> bool {
    let fr = t.right.dl_mask(y, t.mid.occ[y] << 63, t.mid.occ[y - 1] << 63);
    let fm = t.mid.dl_mask(y, t.left.occ[y] << 63, t.left.occ[y - 1] << 63);
    let fl = t.left.dl_mask(y, LAST_BIT, LAST_BIT);
    if c < 64 {
        bit_at(fr, c as u64)
    } else if c < 128 {
        bit_at(fm, (c - 64) as u64)
    } else {
        bit_at(fl, (c - 128) as u64)
    }
}

} // verus!
