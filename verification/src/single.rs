//! One tick of a free-standing chunk: gravity inside a closed 64x64 box.
//!
//! The box's edges act as walls, so nothing enters or leaves. This is the
//! interior pass of `gravity.rs` confined to one chunk, and it is where the
//! per-tick laws — mass conservation and the one-row fall bound — are
//! stated in their purest form.

use vstd::prelude::*;

use crate::chunk::{Chunk, ChunkView, LEN, LAST_BIT, FIRST_BIT, down_fall};
use crate::bits::lemma_pc_le_1;

verus! {

/// Full resolution of row `y` in a closed chunk: straight fall, then the
/// two diagonal sub-steps in an order that alternates with row parity and
/// tick phase.
pub open spec fn single_row(c: ChunkView, y: int, state: bool) -> ChunkView {
    let c1 = c.spec_down(y);
    if (y % 2 == 0) != state {
        c1.spec_dl(y, LAST_BIT, LAST_BIT).spec_dr(y, FIRST_BIT, FIRST_BIT)
    } else {
        c1.spec_dr(y, FIRST_BIT, FIRST_BIT).spec_dl(y, LAST_BIT, LAST_BIT)
    }
}

/// Rows `1 .. n` of a closed chunk resolved in ascending order.
pub open spec fn single_steps(c: ChunkView, state: bool, n: int) -> ChunkView
    decreases n,
{
    if n <= 1 {
        c
    } else {
        single_row(single_steps(c, state, n - 1), n - 1, state)
    }
}

/// One whole tick of a closed chunk: rows 1 through 63, bottom up.
pub open spec fn single_tick(c: ChunkView, state: bool) -> ChunkView {
    single_steps(c, state, 64)
}

impl Chunk {
    /// Straight fall of row `y` in a free-standing chunk.
    pub fn down(&mut self, y: usize)
        requires
            1 <= y < 64,
        ensures
            final(self)@ == old(self)@.spec_down(y as int),
    {
        self.down_nz(y);
    }

    /// Left-diagonal fall of row `y` against the chunk's own wall.
    pub fn down_left(&mut self, y: usize)
        requires
            1 <= y < 64,
        ensures
            final(self)@ == old(self)@.spec_dl(y as int, LAST_BIT, LAST_BIT),
    {
        let gravity_mask = self.gravity_masks[y];
        let left_some_mask = (self.some_masks[y] >> 1) | LAST_BIT;
        let down_left_some_mask = (self.some_masks[y - 1] >> 1) | LAST_BIT;

        let fall_mask = gravity_mask & !left_some_mask & !down_left_some_mask;

        self.some_masks[y] = self.some_masks[y] & !fall_mask;
        self.gravity_masks[y] = self.gravity_masks[y] & !fall_mask;

        self.some_masks[y - 1] = self.some_masks[y - 1] | (fall_mask << 1);
        self.gravity_masks[y - 1] = self.gravity_masks[y - 1] | (fall_mask << 1);
    }

    /// Right-diagonal fall of row `y` against the chunk's own wall.
    pub fn down_right(&mut self, y: usize)
        requires
            1 <= y < 64,
        ensures
            final(self)@ == old(self)@.spec_dr(y as int, FIRST_BIT, FIRST_BIT),
    {
        let gravity_mask = self.gravity_masks[y];
        let right_some_mask = (self.some_masks[y] << 1) | FIRST_BIT;
        let down_right_some_mask = (self.some_masks[y - 1] << 1) | FIRST_BIT;

        let fall_mask = gravity_mask & !right_some_mask & !down_right_some_mask;

        self.some_masks[y] = self.some_masks[y] & !fall_mask;
        self.gravity_masks[y] = self.gravity_masks[y] & !fall_mask;

        self.some_masks[y - 1] = self.some_masks[y - 1] | (fall_mask >> 1);
        self.gravity_masks[y - 1] = self.gravity_masks[y - 1] | (fall_mask >> 1);
    }

    /// One whole tick of this chunk as a closed box.
    ///
    /// `state` is the tick's phase flag; the caller flips it between ticks
    /// so that no diagonal direction is systematically preferred.
    pub fn tick_single(&mut self, state: bool)
        ensures
            final(self)@ == single_tick(old(self)@, state),
    {
        let ghost c0 = self@;
        let mut y: usize = 1;
        while y < LEN
            invariant
                1 <= y <= LEN,
                self@ == single_steps(c0, state, y as int),
            decreases LEN - y,
        {
            self.down(y);

            if (y % 2 == 0) ^ state {
                self.down_left(y);
                self.down_right(y);
            } else {
                self.down_right(y);
                self.down_left(y);
            }

            proof {
                assert(single_steps(c0, state, y as int + 1) == single_row(
                    single_steps(c0, state, y as int),
                    y as int,
                    state,
                ));
            }
            y = y + 1;
        }
    }
}

/// One row resolution of a closed chunk keeps it well-formed and conserves
/// its mass: the walls let nothing cross.
pub proof fn lemma_single_row_ok(c: ChunkView, y: int, state: bool)
    requires
        c.wf(),
        1 <= y < 64,
    ensures
        single_row(c, y, state).wf(),
        single_row(c, y, state).mass() == c.mass(),
{
    let c1 = c.spec_down(y);
    c.lemma_spec_down_ok(y);
    lemma_pc_le_1(0);
    if (y % 2 == 0) != state {
        c1.lemma_spec_dl_ok(y, LAST_BIT, LAST_BIT);
        c1.spec_dl(y, LAST_BIT, LAST_BIT).lemma_spec_dr_ok(y, FIRST_BIT, FIRST_BIT);
    } else {
        c1.lemma_spec_dr_ok(y, FIRST_BIT, FIRST_BIT);
        c1.spec_dr(y, FIRST_BIT, FIRST_BIT).lemma_spec_dl_ok(y, LAST_BIT, LAST_BIT);
    }
}

proof fn lemma_single_steps_ok(c: ChunkView, state: bool, n: int)
    requires
        c.wf(),
        n <= 64,
    ensures
        single_steps(c, state, n).wf(),
        single_steps(c, state, n).mass() == c.mass(),
    decreases n,
{
    if n > 1 {
        lemma_single_steps_ok(c, state, n - 1);
        lemma_single_row_ok(single_steps(c, state, n - 1), n - 1, state);
    }
}

/// Laws of the closed-chunk tick: it conserves the chunk's total particle
/// count, and it keeps the mobility mask inside the occupancy mask.
pub proof fn lemma_tick_single_conserves(c: ChunkView, state: bool)
    requires
        c.wf(),
    ensures
        single_tick(c, state).wf(),
        single_tick(c, state).mass() == c.mass(),
{
    lemma_single_steps_ok(c, state, 64);
}

/// One row resolution touches only rows `y` and `y - 1`: row `y` only loses
/// particles, and row `y - 1` gains only particles that were mobile in row
/// `y`, landed at most one column away.
proof fn lemma_single_row_bounds(c: ChunkView, y: int, state: bool)
    requires
        c.occ.len() == 64,
        c.mob.len() == 64,
        1 <= y < 64,
    ensures
        ({
            let s = single_row(c, y, state);
            &&& forall|j: int|
                0 <= j < 64 && j != y && j != y - 1 ==> s.occ[j] == c.occ[j] && s.mob[j] == c.mob[j]
            &&& s.occ[y] & !c.occ[y] == 0
            &&& s.mob[y] & !c.mob[y] == 0
            &&& s.occ[y - 1] & !(c.occ[y - 1] | c.mob[y] | (c.mob[y] << 1) | (c.mob[y] >> 1)) == 0
        }),
{
    let m = c.mob[y];
    let oy = c.occ[y];
    let ob = c.occ[y - 1];
    let f0 = down_fall(m, ob);
    let c1 = c.spec_down(y);
    if (y % 2 == 0) != state {
        let f1 = c1.dl_mask(y, LAST_BIT, LAST_BIT);
        let c2 = c1.spec_dl(y, LAST_BIT, LAST_BIT);
        let f2 = c2.dr_mask(y, FIRST_BIT, FIRST_BIT);
        assert((((oy & !f0) & !f1) & !f2) & !oy == 0 && (((m & !f0) & !f1) & !f2) & !m == 0 && (((ob
            | f0) | (f1 << 1)) | (f2 >> 1)) & !(ob | m | (m << 1) | (m >> 1)) == 0) by (bit_vector)
            requires
                f0 == m & !ob,
                f1 == (m & !f0) & !(((oy & !f0) >> 1) | LAST_BIT) & !((((ob | f0)) >> 1)
                    | LAST_BIT),
                f2 == ((m & !f0) & !f1) & !((((oy & !f0) & !f1) << 1) | FIRST_BIT) & !((((ob | f0)
                    | (f1 << 1)) << 1) | FIRST_BIT),
        ;
    } else {
        let f1 = c1.dr_mask(y, FIRST_BIT, FIRST_BIT);
        let c2 = c1.spec_dr(y, FIRST_BIT, FIRST_BIT);
        let f2 = c2.dl_mask(y, LAST_BIT, LAST_BIT);
        assert((((oy & !f0) & !f1) & !f2) & !oy == 0 && (((m & !f0) & !f1) & !f2) & !m == 0 && (((ob
            | f0) | (f1 >> 1)) | (f2 << 1)) & !(ob | m | (m << 1) | (m >> 1)) == 0) by (bit_vector)
            requires
                f0 == m & !ob,
                f1 == (m & !f0) & !(((oy & !f0) << 1) | FIRST_BIT) & !((((ob | f0)) << 1)
                    | FIRST_BIT),
                f2 == ((m & !f0) & !f1) & !((((oy & !f0) & !f1) >> 1) | LAST_BIT) & !((((ob | f0)
                    | (f1 >> 1)) >> 1) | LAST_BIT),
        ;
    }
}

/// Subset bounds carry through a union with a fixed remainder.
proof fn lemma_sub_chain(a: u64, b: u64, d: u64, m: u64, s1: u64, s2: u64)
    by (bit_vector)
    requires
        a & !(b | m | s1 | s2) == 0,
        b & !d == 0,
    ensures
        a & !(d | m | s1 | s2) == 0,
{
}

proof fn lemma_single_steps_bounds(c: ChunkView, state: bool, n: int)
    requires
        c.occ.len() == 64,
        c.mob.len() == 64,
        1 <= n <= 64,
    ensures
        ({
            let s = single_steps(c, state, n);
            &&& s.occ.len() == 64
            &&& s.mob.len() == 64
            &&& forall|j: int| n <= j < 64 ==> s.occ[j] == c.occ[j] && s.mob[j] == c.mob[j]
            &&& s.occ[n - 1] & !c.occ[n - 1] == 0
            &&& forall|j: int|
                0 <= j < n - 1 ==> s.occ[j] & !(c.occ[j] | c.mob[j + 1] | (c.mob[j + 1] << 1) | (
                c.mob[j + 1] >> 1)) == 0
        }),
    decreases n,
{
    if n == 1 {
        assert(forall|x: u64| x & !x == 0) by (bit_vector);
    } else {
        lemma_single_steps_bounds(c, state, n - 1);
        let s0 = single_steps(c, state, n - 1);
        let s = single_steps(c, state, n);
        lemma_single_row_bounds(s0, n - 1, state);
        assert(s0.occ[n - 1] == c.occ[n - 1] && s0.mob[n - 1] == c.mob[n - 1]);
        assert(s.occ[n - 1] & !c.occ[n - 1] == 0);
        lemma_sub_chain(
            s.occ[n - 2],
            s0.occ[n - 2],
            c.occ[n - 2],
            c.mob[n - 1],
            c.mob[n - 1] << 1,
            c.mob[n - 1] >> 1,
        );
    }
}

/// Law of the one-row fall bound: after one tick of a closed chunk, every
/// occupied column of a row was, at the start of the tick, either already
/// occupied in that row or mobile one row above it at most one column away.
/// A particle thus ends the tick at most one row below where it started.
pub proof fn lemma_tick_single_no_double_fall(c: ChunkView, state: bool)
    requires
        c.occ.len() == 64,
        c.mob.len() == 64,
    ensures
        forall|j: int|
            0 <= j < 63 ==> single_tick(c, state).occ[j] & !(c.occ[j] | c.mob[j + 1] | (c.mob[j + 1]
                << 1) | (c.mob[j + 1] >> 1)) == 0,
        single_tick(c, state).occ[63] & !c.occ[63] == 0,
{
    lemma_single_steps_bounds(c, state, 64);
}

} // verus!
