//! Boundary gravity pass: resolves row 0 of a chunk across the vertical
//! chunk boundary.
//!
//! Layers are laid out like brickwork: the two chunks below a chunk are
//! offset horizontally by half a chunk width. Column `j` of a chunk's bottom
//! row therefore sits above bit `j - 32` of the below-left chunk's top row
//! when `j >= 32`, and above bit `j + 32` of the below-right chunk's top row
//! when `j < 32`; a diagonal move lands one further column over. Every cell a
//! falling particle can reach lies in one of those two top rows, so the pass
//! needs exclusive access to exactly them, and read access to the bottom
//! row-pairs of the two horizontally adjacent chunks, whose own straight and
//! diagonal falls it replays on small working copies.

use vstd::prelude::*;

use crate::chunk::{Chunk, ChunkView, LEN, down_fall};
use crate::bits::{lemma_pc_shr, lemma_pc_shl};

verus! {

/// The bottom row-pair of a chunk, as read by a horizontally adjacent
/// chunk's boundary pass.
#[derive(Clone, Copy)]
pub struct GravityMasks {
    /// Occupancy mask of the chunk's row 0.
    pub some_mask: u64,
    /// Mobility mask of the chunk's row 0.
    pub gravity_mask: u64,
}

impl Chunk {
    /// The bottom row-pair of this chunk.
    pub fn gravity_masks(&self) -> (r: GravityMasks)
        ensures
            r.some_mask == self@.occ[0],
            r.gravity_mask == self@.mob[0],
    {
        GravityMasks { some_mask: self.some_masks[0], gravity_mask: self.gravity_masks[0] }
    }
}

/// Working copy of a horizontally adjacent chunk's bottom row during a
/// boundary pass: its row-pair plus the occupancy of the row below it, in
/// that chunk's own column numbering.
#[derive(Clone, Copy)]
pub struct AdjSim {
    /// The neighbor's bottom row-pair.
    pub masks: GravityMasks,
    /// Occupancy of the row directly below the neighbor's bottom row.
    pub down_some_mask: u64,
}

impl AdjSim {
    /// Model of one straight-fall resolution of the copied row.
    pub open spec fn spec_down(self) -> AdjSim {
        let f = down_fall(self.masks.gravity_mask, self.down_some_mask);
        AdjSim {
            masks: GravityMasks {
                some_mask: self.masks.some_mask & !f,
                gravity_mask: self.masks.gravity_mask & !f,
            },
            down_some_mask: self.down_some_mask | f,
        }
    }

    /// Model of the landings of the copied row's left-diagonal falls.
    pub open spec fn spec_down_left(self) -> AdjSim {
        let f = (self.masks.gravity_mask >> 1) & !self.masks.some_mask & !self.down_some_mask;
        AdjSim { masks: self.masks, down_some_mask: self.down_some_mask | f }
    }

    /// Model of the landings of the copied row's right-diagonal falls.
    pub open spec fn spec_down_right(self) -> AdjSim {
        let f = (self.masks.gravity_mask << 1) & !self.masks.some_mask & !self.down_some_mask;
        AdjSim { masks: self.masks, down_some_mask: self.down_some_mask | f }
    }

    /// Replay the neighbor's straight fall on the copy.
    pub fn down(&mut self)
        ensures
            *final(self) == old(self).spec_down(),
    {
        let fall_mask = self.masks.gravity_mask & !self.down_some_mask;
        self.masks.gravity_mask = self.masks.gravity_mask & !fall_mask;
        self.masks.some_mask = self.masks.some_mask & !fall_mask;
        self.down_some_mask = self.down_some_mask | fall_mask;
    }

    /// Replay the landings of the neighbor's left-diagonal falls on the copy.
    pub fn down_left(&mut self)
        ensures
            *final(self) == old(self).spec_down_left(),
    {
        let right_gravity_mask = self.masks.gravity_mask >> 1;
        let right_fall_mask = right_gravity_mask & !self.masks.some_mask & !self.down_some_mask;
        self.down_some_mask = self.down_some_mask | right_fall_mask;
    }

    /// Replay the landings of the neighbor's right-diagonal falls on the
    /// copy.
    pub fn down_right(&mut self)
        ensures
            *final(self) == old(self).spec_down_right(),
    {
        let right_gravity_mask = self.masks.gravity_mask << 1;
        let right_fall_mask = right_gravity_mask & !self.masks.some_mask & !self.down_some_mask;
        self.down_some_mask = self.down_some_mask | right_fall_mask;
    }

    /// The neighbor's bottom-row occupancy, aligned so that its bit 0 stands
    /// in bit 63.
    pub fn left_some(&self) -> (r: u64)
        ensures
            r == self.masks.some_mask << 63,
    {
        self.masks.some_mask << 63
    }

    /// The occupancy below the neighbor, aligned so that its bit 0 stands in
    /// bit 63.
    pub fn down_left_some(&self) -> (r: u64)
        ensures
            r == self.down_some_mask << 63,
    {
        self.down_some_mask << 63
    }

    /// The neighbor's bottom-row occupancy, aligned so that its bit 63
    /// stands in bit 0.
    pub fn right_some(&self) -> (r: u64)
        ensures
            r == self.masks.some_mask >> 63,
    {
        self.masks.some_mask >> 63
    }

    /// The occupancy below the neighbor, aligned so that its bit 63 stands
    /// in bit 0.
    pub fn down_right_some(&self) -> (r: u64)
        ensures
            r == self.down_some_mask >> 63,
    {
        self.down_some_mask >> 63
    }
}

/// The three real chunks a boundary pass writes: the resolved chunk and the
/// two chunks below it.
#[verifier::ext_equal]
pub ghost struct EdgeTri {
    pub mid: ChunkView,
    pub dl: ChunkView,
    pub dr: ChunkView,
}

/// All three members are well-formed.
pub open spec fn edge_wf(t: EdgeTri) -> bool {
    t.mid.wf() && t.dl.wf() && t.dr.wf()
}

/// Total particle count of the three members.
pub open spec fn edge_mass(t: EdgeTri) -> nat {
    t.mid.mass() + t.dl.mass() + t.dr.mass()
}

/// Straight-fall sub-step of row 0: column `j` lands on the below-left top
/// row when `j >= 32` and on the below-right top row when `j < 32`.
pub open spec fn edge_down(t: EdgeTri) -> EdgeTri {
    let f = down_fall(t.mid.mob[0], (t.dl.occ[63] << 32) | (t.dr.occ[63] >> 32));
    EdgeTri {
        mid: t.mid.remove_fall(0, f),
        dl: t.dl.land(63, f >> 32),
        dr: t.dr.land(63, f << 32),
    }
}

/// Columns of row 0 that fall one column leftward across the boundary,
/// given the working copy of the left neighbor's bottom row.
pub open spec fn edge_dl_mask(t: EdgeTri, sim: AdjSim) -> u64 {
    t.mid.mob[0] & !((t.mid.occ[0] >> 1) | (sim.masks.some_mask << 63)) & !((t.dl.occ[63] << 31) | (
    t.dr.occ[63] >> 33) | (sim.down_some_mask << 63))
}

/// Left-diagonal sub-step of row 0: column `j` lands one column over, on the
/// below-left top row when `j >= 31` and on the below-right top row
/// otherwise.
pub open spec fn edge_dl(t: EdgeTri, sim: AdjSim) -> EdgeTri {
    let f = edge_dl_mask(t, sim);
    EdgeTri {
        mid: t.mid.remove_fall(0, f),
        dl: t.dl.land(63, f >> 31),
        dr: t.dr.land(63, f << 33),
    }
}

/// Columns of row 0 that fall one column rightward across the boundary,
/// given the working copy of the right neighbor's bottom row.
pub open spec fn edge_dr_mask(t: EdgeTri, sim: AdjSim) -> u64 {
    t.mid.mob[0] & !((t.mid.occ[0] << 1) | (sim.masks.some_mask >> 63)) & !((t.dr.occ[63] >> 31) | (
    t.dl.occ[63] << 33) | (sim.down_some_mask >> 63))
}

/// Right-diagonal sub-step of row 0: column `j` lands one column over, on
/// the below-right top row when `j <= 32` and on the below-left top row
/// otherwise.
pub open spec fn edge_dr(t: EdgeTri, sim: AdjSim) -> EdgeTri {
    let f = edge_dr_mask(t, sim);
    EdgeTri {
        mid: t.mid.remove_fall(0, f),
        dl: t.dl.land(63, f >> 33),
        dr: t.dr.land(63, f << 31),
    }
}

/// One whole boundary pass: straight fall, then the two diagonal sub-steps
/// in phase order, with the neighbor copies replayed between them so that
/// each sub-step sees the neighbors as their own passes leave them.
pub open spec fn edge_step(
    t: EdgeTri,
    lgm: GravityMasks,
    rgm: GravityMasks,
    state: bool,
) -> EdgeTri {
    let ls0 = AdjSim { masks: lgm, down_some_mask: t.dl.occ[63] >> 32 };
    let rs0 = AdjSim { masks: rgm, down_some_mask: t.dr.occ[63] << 32 };
    let t1 = edge_down(t);
    let ls1 = ls0.spec_down();
    let rs1 = rs0.spec_down();
    if !state {
        edge_dr(edge_dl(t1, ls1), rs1.spec_down_left())
    } else {
        edge_dl(edge_dr(t1, rs1), ls1.spec_down_right())
    }
}

/// The straight-fall sub-step of a boundary pass keeps all three chunks
/// well-formed and conserves their total mass: the two half-deposits
/// together weigh exactly the falling columns.
pub proof fn lemma_edge_down_ok(t: EdgeTri)
    requires
        edge_wf(t),
    ensures
        edge_wf(edge_down(t)),
        edge_mass(edge_down(t)) == edge_mass(t),
{
    let m0 = t.mid.mob[0];
    let o0 = t.mid.occ[0];
    let dlt = t.dl.occ[63];
    let drt = t.dr.occ[63];
    let f = down_fall(m0, (dlt << 32) | (drt >> 32));
    assert(f & !o0 == 0 && (f >> 32) & dlt == 0 && (f << 32) & drt == 0) by (bit_vector)
        requires
            f == m0 & !((dlt << 32) | (drt >> 32)) && m0 & !o0 == 0,
    ;
    t.mid.lemma_remove_fall_wf(0, f);
    t.mid.lemma_remove_fall_mass(0, f);
    t.dl.lemma_land_wf(63, f >> 32);
    t.dl.lemma_land_mass(63, f >> 32);
    t.dr.lemma_land_wf(63, f << 32);
    t.dr.lemma_land_mass(63, f << 32);
    lemma_pc_shr(f, 32);
    lemma_pc_shl(f, 32);
}

/// The left-diagonal sub-step of a boundary pass keeps all three chunks
/// well-formed and conserves their total mass.
pub proof fn lemma_edge_dl_ok(t: EdgeTri, sim: AdjSim)
    requires
        edge_wf(t),
    ensures
        edge_wf(edge_dl(t, sim)),
        edge_mass(edge_dl(t, sim)) == edge_mass(t),
{
    let m0 = t.mid.mob[0];
    let o0 = t.mid.occ[0];
    let dlt = t.dl.occ[63];
    let drt = t.dr.occ[63];
    let ss = sim.masks.some_mask;
    let sd = sim.down_some_mask;
    let f = edge_dl_mask(t, sim);
    assert(f & !o0 == 0 && (f >> 31) & dlt == 0 && (f << 33) & drt == 0) by (bit_vector)
        requires
            f == m0 & !((o0 >> 1) | (ss << 63)) & !((dlt << 31) | (drt >> 33) | (sd << 63)) && m0
                & !o0 == 0,
    ;
    t.mid.lemma_remove_fall_wf(0, f);
    t.mid.lemma_remove_fall_mass(0, f);
    t.dl.lemma_land_wf(63, f >> 31);
    t.dl.lemma_land_mass(63, f >> 31);
    t.dr.lemma_land_wf(63, f << 33);
    t.dr.lemma_land_mass(63, f << 33);
    lemma_pc_shr(f, 31);
    lemma_pc_shl(f, 33);
}

/// The right-diagonal sub-step of a boundary pass keeps all three chunks
/// well-formed and conserves their total mass.
pub proof fn lemma_edge_dr_ok(t: EdgeTri, sim: AdjSim)
    requires
        edge_wf(t),
    ensures
        edge_wf(edge_dr(t, sim)),
        edge_mass(edge_dr(t, sim)) == edge_mass(t),
{
    let m0 = t.mid.mob[0];
    let o0 = t.mid.occ[0];
    let dlt = t.dl.occ[63];
    let drt = t.dr.occ[63];
    let ss = sim.masks.some_mask;
    let sd = sim.down_some_mask;
    let f = edge_dr_mask(t, sim);
    assert(f & !o0 == 0 && (f >> 33) & dlt == 0 && (f << 31) & drt == 0) by (bit_vector)
        requires
            f == m0 & !((o0 << 1) | (ss >> 63)) & !((drt >> 31) | (dlt << 33) | (sd >> 63)) && m0
                & !o0 == 0,
    ;
    t.mid.lemma_remove_fall_wf(0, f);
    t.mid.lemma_remove_fall_mass(0, f);
    t.dl.lemma_land_wf(63, f >> 33);
    t.dl.lemma_land_mass(63, f >> 33);
    t.dr.lemma_land_wf(63, f << 31);
    t.dr.lemma_land_mass(63, f << 31);
    lemma_pc_shr(f, 33);
    lemma_pc_shl(f, 31);
}

/// Laws of the boundary pass: it conserves the total particle count of the
/// resolved chunk and the two chunks below it, whatever the neighbors hold,
/// and it keeps every mobility mask inside its occupancy mask.
pub proof fn lemma_edge_step_conserves(
    t: EdgeTri,
    lgm: GravityMasks,
    rgm: GravityMasks,
    state: bool,
)
    requires
        edge_wf(t),
    ensures
        edge_wf(edge_step(t, lgm, rgm, state)),
        edge_mass(edge_step(t, lgm, rgm, state)) == edge_mass(t),
{
    let ls0 = AdjSim { masks: lgm, down_some_mask: t.dl.occ[63] >> 32 };
    let rs0 = AdjSim { masks: rgm, down_some_mask: t.dr.occ[63] << 32 };
    let t1 = edge_down(t);
    lemma_edge_down_ok(t);
    if !state {
        lemma_edge_dl_ok(t1, ls0.spec_down());
        lemma_edge_dr_ok(edge_dl(t1, ls0.spec_down()), rs0.spec_down().spec_down_left());
    } else {
        lemma_edge_dr_ok(t1, rs0.spec_down());
        lemma_edge_dl_ok(edge_dr(t1, rs0.spec_down()), ls0.spec_down().spec_down_right());
    }
}

impl Chunk {
    /// Straight fall of row 0 into the top rows of the two chunks below.
    fn down_z(&mut self, down_left: &mut Self, down_right: &mut Self)
        ensures
            ({
                let t = edge_down(EdgeTri { mid: old(self)@, dl: old(down_left)@, dr: old(down_right)@ });
                final(self)@ == t.mid && final(down_left)@ == t.dl && final(down_right)@ == t.dr
            }),
    {
        let gravity_mask = self.gravity_masks[0];
        let down_some_mask = down_left.some_masks[LEN - 1] << 32 | down_right.some_masks[LEN - 1]
            >> 32;

        let fall_mask = gravity_mask & !down_some_mask;

        self.some_masks[0] = self.some_masks[0] & !fall_mask;
        self.gravity_masks[0] = self.gravity_masks[0] & !fall_mask;

        down_left.some_masks[LEN - 1] = down_left.some_masks[LEN - 1] | (fall_mask >> 32);
        down_left.gravity_masks[LEN - 1] = down_left.gravity_masks[LEN - 1] | (fall_mask >> 32);

        down_right.some_masks[LEN - 1] = down_right.some_masks[LEN - 1] | (fall_mask << 32);
        down_right.gravity_masks[LEN - 1] = down_right.gravity_masks[LEN - 1] | (fall_mask << 32);
    }

    /// Left-diagonal fall of row 0 across the boundary.
    fn down_left_z(&mut self, down_left: &mut Self, down_right: &mut Self, left_sim: AdjSim)
        ensures
            ({
                let t = edge_dl(
                    EdgeTri { mid: old(self)@, dl: old(down_left)@, dr: old(down_right)@ },
                    left_sim,
                );
                final(self)@ == t.mid && final(down_left)@ == t.dl && final(down_right)@ == t.dr
            }),
    {
        let gravity_mask = self.gravity_masks[0];
        let left_some_mask = (self.some_masks[0] >> 1) | left_sim.left_some();
        let down_left_some_mask = (down_left.some_masks[LEN - 1] << 31) | (down_right.some_masks[LEN
            - 1] >> 33) | left_sim.down_left_some();

        let fall_mask = gravity_mask & !left_some_mask & !down_left_some_mask;

        self.some_masks[0] = self.some_masks[0] & !fall_mask;
        self.gravity_masks[0] = self.gravity_masks[0] & !fall_mask;

        down_left.some_masks[LEN - 1] = down_left.some_masks[LEN - 1] | (fall_mask >> 31);
        down_left.gravity_masks[LEN - 1] = down_left.gravity_masks[LEN - 1] | (fall_mask >> 31);

        down_right.some_masks[LEN - 1] = down_right.some_masks[LEN - 1] | (fall_mask << 33);
        down_right.gravity_masks[LEN - 1] = down_right.gravity_masks[LEN - 1] | (fall_mask << 33);
    }

    /// Right-diagonal fall of row 0 across the boundary.
    fn down_right_z(&mut self, down_left: &mut Self, down_right: &mut Self, right_sim: AdjSim)
        ensures
            ({
                let t = edge_dr(
                    EdgeTri { mid: old(self)@, dl: old(down_left)@, dr: old(down_right)@ },
                    right_sim,
                );
                final(self)@ == t.mid && final(down_left)@ == t.dl && final(down_right)@ == t.dr
            }),
    {
        let gravity_mask = self.gravity_masks[0];
        let right_some_mask = (self.some_masks[0] << 1) | right_sim.right_some();
        let down_right_some_mask = (down_right.some_masks[LEN - 1] >> 31) | (down_left.some_masks[
            LEN - 1] << 33) | right_sim.down_right_some();

        let fall_mask = gravity_mask & !right_some_mask & !down_right_some_mask;

        self.some_masks[0] = self.some_masks[0] & !fall_mask;
        self.gravity_masks[0] = self.gravity_masks[0] & !fall_mask;

        down_left.some_masks[LEN - 1] = down_left.some_masks[LEN - 1] | (fall_mask >> 33);
        down_left.gravity_masks[LEN - 1] = down_left.gravity_masks[LEN - 1] | (fall_mask >> 33);

        down_right.some_masks[LEN - 1] = down_right.some_masks[LEN - 1] | (fall_mask << 31);
        down_right.gravity_masks[LEN - 1] = down_right.gravity_masks[LEN - 1] | (fall_mask << 31);
    }

    /// One whole boundary pass over this chunk's row 0.
    ///
    /// `down_left` and `down_right` are the two chunks below; the two
    /// `GravityMasks` are the bottom row-pairs of the left and right
    /// neighbors in this chunk's own layer, read before any of them has run
    /// its own pass this tick. `state` is the tick's phase flag.
    pub fn gravity_step_zero(
        &mut self,
        down_left: &mut Self,
        down_right: &mut Self,
        left_gravity_masks: GravityMasks,
        right_gravity_masks: GravityMasks,
        state: bool,
    )
        ensures
            ({
                let t = edge_step(
                    EdgeTri { mid: old(self)@, dl: old(down_left)@, dr: old(down_right)@ },
                    left_gravity_masks,
                    right_gravity_masks,
                    state,
                );
                final(self)@ == t.mid && final(down_left)@ == t.dl && final(down_right)@ == t.dr
            }),
    {
        let mut left_sim = AdjSim {
            masks: left_gravity_masks,
            down_some_mask: down_left.some_masks[LEN - 1] >> 32,
        };
        let mut right_sim = AdjSim {
            masks: right_gravity_masks,
            down_some_mask: down_right.some_masks[LEN - 1] << 32,
        };

        self.down_z(down_left, down_right);
        left_sim.down();
        right_sim.down();

        if !state {
            self.down_left_z(down_left, down_right, left_sim);
            right_sim.down_left();
            self.down_right_z(down_left, down_right, right_sim);
        } else {
            self.down_right_z(down_left, down_right, right_sim);
            left_sim.down_right();
            self.down_left_z(down_left, down_right, left_sim);
        }
    }
}

} // verus!
