//! Interior gravity pass: resolves rows 1 through 63 of a chunk for one tick.
//!
//! A chunk is resolved together with working copies of its horizontal
//! neighbors. The copies evolve under the same rule as the chunk itself, so
//! every occupancy question about a cell just outside the chunk is answered
//! exactly as the neighbor's own pass answers it, and the pass writes nothing
//! into any other chunk: it is safe to run one such pass per chunk in
//! parallel over read-only neighbor snapshots. Beyond the three-chunk window
//! the pass treats the plane as occupied, so the window exchanges no mass
//! with the outside.

use vstd::prelude::*;

use crate::chunk::{Chunk, ChunkView, LEN, LAST_BIT, FIRST_BIT};
use crate::bits::lemma_pc_le_1;

verus! {

/// The three-chunk window of one interior pass: the resolved chunk and the
/// working copies of its left and right neighbors.
#[verifier::ext_equal]
pub ghost struct TriView {
    pub mid: ChunkView,
    pub left: ChunkView,
    pub right: ChunkView,
}

/// All three window members are well-formed.
pub open spec fn tri_wf(t: TriView) -> bool {
    t.mid.wf() && t.left.wf() && t.right.wf()
}

/// Total particle count of the window.
pub open spec fn tri_mass(t: TriView) -> nat {
    t.mid.mass() + t.left.mass() + t.right.mass()
}

/// Straight-fall sub-step of row `y`: each member resolves independently.
pub open spec fn tri_down(t: TriView, y: int) -> TriView {
    TriView { mid: t.mid.spec_down(y), left: t.left.spec_down(y), right: t.right.spec_down(y) }
}

/// Left-diagonal sub-step of row `y`, simultaneous over the whole window.
///
/// Every fall mask is taken from the state at the start of the sub-step; a
/// column crossing a chunk edge (bit 63) lands in bit 0 of the next member.
/// The leftmost member falls against a wall.
pub open spec fn tri_dl(t: TriView, y: int) -> TriView {
    let fr = t.right.dl_mask(y, t.mid.occ[y] << 63, t.mid.occ[y - 1] << 63);
    let fm = t.mid.dl_mask(y, t.left.occ[y] << 63, t.left.occ[y - 1] << 63);
    TriView {
        right: t.right.spec_dl(y, t.mid.occ[y] << 63, t.mid.occ[y - 1] << 63),
        mid: t.mid.spec_dl(y, t.left.occ[y] << 63, t.left.occ[y - 1] << 63).land(y - 1, fr >> 63),
        left: t.left.spec_dl(y, LAST_BIT, LAST_BIT).land(y - 1, fm >> 63),
    }
}

/// Right-diagonal sub-step of row `y`, simultaneous over the whole window.
///
/// A column crossing a chunk edge (bit 0) lands in bit 63 of the next
/// member; the rightmost member falls against a wall.
pub open spec fn tri_dr(t: TriView, y: int) -> TriView {
    let fl = t.left.dr_mask(y, t.mid.occ[y] >> 63, t.mid.occ[y - 1] >> 63);
    let fm = t.mid.dr_mask(y, t.right.occ[y] >> 63, t.right.occ[y - 1] >> 63);
    TriView {
        left: t.left.spec_dr(y, t.mid.occ[y] >> 63, t.mid.occ[y - 1] >> 63),
        mid: t.mid.spec_dr(y, t.right.occ[y] >> 63, t.right.occ[y - 1] >> 63).land(y - 1, fl << 63),
        right: t.right.spec_dr(y, FIRST_BIT, FIRST_BIT).land(y - 1, fm << 63),
    }
}

/// Full resolution of row `y`: straight fall, then the two diagonal
/// sub-steps in an order that alternates with row parity and tick phase.
pub open spec fn tri_row(t: TriView, y: int, state: bool) -> TriView {
    let t1 = tri_down(t, y);
    if (y % 2 == 0) != state {
        tri_dr(tri_dl(t1, y), y)
    } else {
        tri_dl(tri_dr(t1, y), y)
    }
}

/// Rows `1 .. n` resolved in ascending order.
pub open spec fn tri_steps(t: TriView, state: bool, n: int) -> TriView
    decreases n,
{
    if n <= 1 {
        t
    } else {
        tri_row(tri_steps(t, state, n - 1), n - 1, state)
    }
}

/// One whole interior pass: rows 1 through 63, bottom up.
pub open spec fn tri_step(t: TriView, state: bool) -> TriView {
    tri_steps(t, state, 64)
}

/// The straight-fall sub-step keeps the window well-formed and conserves
/// its mass.
pub proof fn lemma_tri_down_ok(t: TriView, y: int)
    requires
        tri_wf(t),
        1 <= y < 64,
    ensures
        tri_wf(tri_down(t, y)),
        tri_mass(tri_down(t, y)) == tri_mass(t),
{
    t.mid.lemma_spec_down_ok(y);
    t.left.lemma_spec_down_ok(y);
    t.right.lemma_spec_down_ok(y);
}

/// The left-diagonal sub-step keeps the window well-formed and conserves its
/// mass: every column that leaves one member lands in the next, and the wall
/// at the window's edge lets nothing out.
pub proof fn lemma_tri_dl_ok(t: TriView, y: int)
    requires
        tri_wf(t),
        1 <= y < 64,
    ensures
        tri_wf(tri_dl(t, y)),
        tri_mass(tri_dl(t, y)) == tri_mass(t),
{
    let fr = t.right.dl_mask(y, t.mid.occ[y] << 63, t.mid.occ[y - 1] << 63);
    let fm = t.mid.dl_mask(y, t.left.occ[y] << 63, t.left.occ[y - 1] << 63);
    let fl = t.left.dl_mask(y, LAST_BIT, LAST_BIT);
    t.right.lemma_spec_dl_ok(y, t.mid.occ[y] << 63, t.mid.occ[y - 1] << 63);
    t.mid.lemma_spec_dl_ok(y, t.left.occ[y] << 63, t.left.occ[y - 1] << 63);
    t.left.lemma_spec_dl_ok(y, LAST_BIT, LAST_BIT);

    let mid1 = t.mid.spec_dl(y, t.left.occ[y] << 63, t.left.occ[y - 1] << 63);
    let left1 = t.left.spec_dl(y, LAST_BIT, LAST_BIT);

    // The columns crossing into a member land on cells it knows to be free.
    let rm = t.right.mob[y];
    let ro = t.right.occ[y];
    let rb = t.right.occ[y - 1];
    let mo = t.mid.occ[y];
    let mb = t.mid.occ[y - 1];
    assert((fr >> 63) & (mb | (fm << 1)) == 0) by (bit_vector)
        requires
            fr == rm & !((ro >> 1) | (mo << 63)) & !((rb >> 1) | (mb << 63)),
    ;
    let mm = t.mid.mob[y];
    let lo = t.left.occ[y];
    let lb = t.left.occ[y - 1];
    assert((fm >> 63) & (lb | (fl << 1)) == 0) by (bit_vector)
        requires
            fm == mm & !((mo >> 1) | (lo << 63)) & !((mb >> 1) | (lb << 63)),
    ;
    mid1.lemma_land_wf(y - 1, fr >> 63);
    mid1.lemma_land_mass(y - 1, fr >> 63);
    left1.lemma_land_wf(y - 1, fm >> 63);
    left1.lemma_land_mass(y - 1, fm >> 63);
    lemma_pc_le_1(0);
}

/// The right-diagonal sub-step keeps the window well-formed and conserves
/// its mass, mirroring the left-diagonal sub-step.
pub proof fn lemma_tri_dr_ok(t: TriView, y: int)
    requires
        tri_wf(t),
        1 <= y < 64,
    ensures
        tri_wf(tri_dr(t, y)),
        tri_mass(tri_dr(t, y)) == tri_mass(t),
{
    let fl = t.left.dr_mask(y, t.mid.occ[y] >> 63, t.mid.occ[y - 1] >> 63);
    let fm = t.mid.dr_mask(y, t.right.occ[y] >> 63, t.right.occ[y - 1] >> 63);
    let fr = t.right.dr_mask(y, FIRST_BIT, FIRST_BIT);
    t.left.lemma_spec_dr_ok(y, t.mid.occ[y] >> 63, t.mid.occ[y - 1] >> 63);
    t.mid.lemma_spec_dr_ok(y, t.right.occ[y] >> 63, t.right.occ[y - 1] >> 63);
    t.right.lemma_spec_dr_ok(y, FIRST_BIT, FIRST_BIT);

    let mid1 = t.mid.spec_dr(y, t.right.occ[y] >> 63, t.right.occ[y - 1] >> 63);
    let right1 = t.right.spec_dr(y, FIRST_BIT, FIRST_BIT);

    let lm = t.left.mob[y];
    let lo = t.left.occ[y];
    let lb = t.left.occ[y - 1];
    let mo = t.mid.occ[y];
    let mb = t.mid.occ[y - 1];
    assert((fl << 63) & (mb | (fm >> 1)) == 0) by (bit_vector)
        requires
            fl == lm & !((lo << 1) | (mo >> 63)) & !((lb << 1) | (mb >> 63)),
    ;
    let mm = t.mid.mob[y];
    let ro = t.right.occ[y];
    let rb = t.right.occ[y - 1];
    assert((fm << 63) & (rb | (fr >> 1)) == 0) by (bit_vector)
        requires
            fm == mm & !((mo << 1) | (ro >> 63)) & !((mb << 1) | (rb >> 63)),
    ;
    mid1.lemma_land_wf(y - 1, fl << 63);
    mid1.lemma_land_mass(y - 1, fl << 63);
    right1.lemma_land_wf(y - 1, fm << 63);
    right1.lemma_land_mass(y - 1, fm << 63);
    lemma_pc_le_1(0);
}

/// One full row resolution keeps the window well-formed and conserves its
/// mass.
pub proof fn lemma_tri_row_ok(t: TriView, y: int, state: bool)
    requires
        tri_wf(t),
        1 <= y < 64,
    ensures
        tri_wf(tri_row(t, y, state)),
        tri_mass(tri_row(t, y, state)) == tri_mass(t),
{
    let t1 = tri_down(t, y);
    lemma_tri_down_ok(t, y);
    if (y % 2 == 0) != state {
        lemma_tri_dl_ok(t1, y);
        lemma_tri_dr_ok(tri_dl(t1, y), y);
    } else {
        lemma_tri_dr_ok(t1, y);
        lemma_tri_dl_ok(tri_dr(t1, y), y);
    }
}

proof fn lemma_tri_steps_ok(t: TriView, state: bool, n: int)
    requires
        tri_wf(t),
        n <= 64,
    ensures
        tri_wf(tri_steps(t, state, n)),
        tri_mass(tri_steps(t, state, n)) == tri_mass(t),
    decreases n,
{
    if n > 1 {
        lemma_tri_steps_ok(t, state, n - 1);
        lemma_tri_row_ok(tri_steps(t, state, n - 1), n - 1, state);
    }
}

/// Laws of the interior pass: it conserves the total particle count of the
/// three-chunk window (gravity neither creates nor destroys particles), and
/// it keeps every mobility mask inside its occupancy mask.
pub proof fn lemma_tri_step_conserves(t: TriView, state: bool)
    requires
        tri_wf(t),
    ensures
        tri_wf(tri_step(t, state)),
        tri_mass(tri_step(t, state)) == tri_mass(t),
{
    lemma_tri_steps_ok(t, state, 64);
}

impl Chunk {
    /// One straight-fall resolution of row `y`, confined to this chunk.
    pub(crate) fn down_nz(&mut self, y: usize)
        requires
            1 <= y < 64,
        ensures
            final(self)@ == old(self)@.spec_down(y as int),
    {
        let gravity_mask = self.gravity_masks[y];
        let down_some_mask = self.some_masks[y - 1];

        let fall_mask = gravity_mask & !down_some_mask;

        self.some_masks[y] = self.some_masks[y] & !fall_mask;
        self.gravity_masks[y] = self.gravity_masks[y] & !fall_mask;

        self.some_masks[y - 1] = self.some_masks[y - 1] | fall_mask;
        self.gravity_masks[y - 1] = self.gravity_masks[y - 1] | fall_mask;
    }

    /// Left-diagonal resolution of row `y` against the given outside
    /// occupancy words. Returns the columns that crossed the chunk edge,
    /// moved to bit 0.
    fn base_down_left_nz(&mut self, y: usize, left_some: u64, down_left_some: u64) -> (cross: u64)
        requires
            1 <= y < 64,
        ensures
            final(self)@ == old(self)@.spec_dl(y as int, left_some, down_left_some),
            cross == old(self)@.dl_mask(y as int, left_some, down_left_some) >> 63,
    {
        let gravity_mask = self.gravity_masks[y];
        let left_some_mask = (self.some_masks[y] >> 1) | left_some;
        let down_left_some_mask = (self.some_masks[y - 1] >> 1) | down_left_some;

        let fall_mask = gravity_mask & !left_some_mask & !down_left_some_mask;

        self.some_masks[y] = self.some_masks[y] & !fall_mask;
        self.gravity_masks[y] = self.gravity_masks[y] & !fall_mask;

        self.some_masks[y - 1] = self.some_masks[y - 1] | (fall_mask << 1);
        self.gravity_masks[y - 1] = self.gravity_masks[y - 1] | (fall_mask << 1);

        fall_mask >> 63
    }

    /// Left-diagonal resolution of row `y` reading the adjacent columns from
    /// the neighbor beyond bit 63.
    fn down_left_nz(&mut self, y: usize, left: &Self) -> (cross: u64)
        requires
            1 <= y < 64,
        ensures
            final(self)@ == old(self)@.spec_dl(
                y as int,
                left@.occ[y as int] << 63,
                left@.occ[y as int - 1] << 63,
            ),
            cross == old(self)@.dl_mask(
                y as int,
                left@.occ[y as int] << 63,
                left@.occ[y as int - 1] << 63,
            ) >> 63,
    {
        let left_some = left.some_masks[y] << 63;
        let down_left_some = left.some_masks[y - 1] << 63;

        self.base_down_left_nz(y, left_some, down_left_some)
    }

    /// Left-diagonal resolution of row `y` at the window's edge: the columns
    /// beyond it count as occupied, so nothing crosses.
    fn down_left_void_nz(&mut self, y: usize)
        requires
            1 <= y < 64,
        ensures
            final(self)@ == old(self)@.spec_dl(y as int, LAST_BIT, LAST_BIT),
    {
        self.base_down_left_nz(y, LAST_BIT, LAST_BIT);
    }

    /// Right-diagonal resolution of row `y` against the given outside
    /// occupancy words. Returns the columns that crossed the chunk edge,
    /// moved to bit 63.
    fn base_down_right_nz(&mut self, y: usize, right_some: u64, down_right_some: u64) -> (cross:
        u64)
        requires
            1 <= y < 64,
        ensures
            final(self)@ == old(self)@.spec_dr(y as int, right_some, down_right_some),
            cross == old(self)@.dr_mask(y as int, right_some, down_right_some) << 63,
    {
        let gravity_mask = self.gravity_masks[y];
        let right_some_mask = (self.some_masks[y] << 1) | right_some;
        let down_right_some_mask = (self.some_masks[y - 1] << 1) | down_right_some;

        let fall_mask = gravity_mask & !right_some_mask & !down_right_some_mask;

        self.some_masks[y] = self.some_masks[y] & !fall_mask;
        self.gravity_masks[y] = self.gravity_masks[y] & !fall_mask;

        self.some_masks[y - 1] = self.some_masks[y - 1] | (fall_mask >> 1);
        self.gravity_masks[y - 1] = self.gravity_masks[y - 1] | (fall_mask >> 1);

        fall_mask << 63
    }

    /// Right-diagonal resolution of row `y` reading the adjacent columns
    /// from the neighbor beyond bit 0.
    fn down_right_nz(&mut self, y: usize, right: &Self) -> (cross: u64)
        requires
            1 <= y < 64,
        ensures
            final(self)@ == old(self)@.spec_dr(
                y as int,
                right@.occ[y as int] >> 63,
                right@.occ[y as int - 1] >> 63,
            ),
            cross == old(self)@.dr_mask(
                y as int,
                right@.occ[y as int] >> 63,
                right@.occ[y as int - 1] >> 63,
            ) << 63,
    {
        let right_some = right.some_masks[y] >> 63;
        let down_right_some = right.some_masks[y - 1] >> 63;

        self.base_down_right_nz(y, right_some, down_right_some)
    }

    /// Right-diagonal resolution of row `y` at the window's edge.
    fn down_right_void_nz(&mut self, y: usize)
        requires
            1 <= y < 64,
        ensures
            final(self)@ == old(self)@.spec_dr(y as int, FIRST_BIT, FIRST_BIT),
    {
        self.base_down_right_nz(y, FIRST_BIT, FIRST_BIT);
    }

    /// Left-diagonal sub-step of row `y` over the whole window: the right
    /// copy first (it reads this chunk), then this chunk (it reads the left
    /// copy), then the left copy; edge crossings land in the next member.
    fn multi_down_left_nz(&mut self, left: &mut Self, right: &mut Self, y: usize)
        requires
            1 <= y < 64,
        ensures
            ({
                let t = tri_dl(
                    TriView { mid: old(self)@, left: old(left)@, right: old(right)@ },
                    y as int,
                );
                final(self)@ == t.mid && final(left)@ == t.left && final(right)@ == t.right
            }),
    {
        let cross_in = right.down_left_nz(y, self);
        let cross_out = self.down_left_nz(y, left);

        self.some_masks[y - 1] = self.some_masks[y - 1] | cross_in;
        self.gravity_masks[y - 1] = self.gravity_masks[y - 1] | cross_in;

        left.down_left_void_nz(y);
        left.some_masks[y - 1] = left.some_masks[y - 1] | cross_out;
        left.gravity_masks[y - 1] = left.gravity_masks[y - 1] | cross_out;
    }

    /// Right-diagonal sub-step of row `y` over the whole window, mirroring
    /// `multi_down_left_nz`.
    fn multi_down_right_nz(&mut self, left: &mut Self, right: &mut Self, y: usize)
        requires
            1 <= y < 64,
        ensures
            ({
                let t = tri_dr(
                    TriView { mid: old(self)@, left: old(left)@, right: old(right)@ },
                    y as int,
                );
                final(self)@ == t.mid && final(left)@ == t.left && final(right)@ == t.right
            }),
    {
        let cross_in = left.down_right_nz(y, self);
        let cross_out = self.down_right_nz(y, right);

        self.some_masks[y - 1] = self.some_masks[y - 1] | cross_in;
        self.gravity_masks[y - 1] = self.gravity_masks[y - 1] | cross_in;

        right.down_right_void_nz(y);
        right.some_masks[y - 1] = right.some_masks[y - 1] | cross_out;
        right.gravity_masks[y - 1] = right.gravity_masks[y - 1] | cross_out;
    }

    /// One whole interior pass over this chunk, with working copies of its
    /// horizontal neighbors evolving alongside it.
    ///
    /// `state` is the tick's phase flag: it decides, together with the row's
    /// parity, which diagonal direction resolves first.
    pub fn gravity_step_non_zero(&mut self, left: &mut Self, right: &mut Self, state: bool)
        ensures
            ({
                let t = tri_step(
                    TriView { mid: old(self)@, left: old(left)@, right: old(right)@ },
                    state,
                );
                final(self)@ == t.mid && final(left)@ == t.left && final(right)@ == t.right
            }),
    {
        let ghost t0 = TriView { mid: self@, left: left@, right: right@ };
        let mut y: usize = 1;
        while y < LEN
            invariant
                1 <= y <= LEN,
                ({
                    let t = tri_steps(t0, state, y as int);
                    self@ == t.mid && left@ == t.left && right@ == t.right
                }),
            decreases LEN - y,
        {
            self.down_nz(y);
            left.down_nz(y);
            right.down_nz(y);

            if (y % 2 == 0) ^ state {
                self.multi_down_left_nz(left, right, y);
                self.multi_down_right_nz(left, right, y);
            } else {
                self.multi_down_right_nz(left, right, y);
                self.multi_down_left_nz(left, right, y);
            }

            proof {
                assert(tri_steps(t0, state, y as int + 1) == tri_row(
                    tri_steps(t0, state, y as int),
                    y as int,
                    state,
                ));
            }
            y = y + 1;
        }
    }
}

} // verus!
