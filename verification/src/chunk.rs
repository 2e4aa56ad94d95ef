//! The chunk: a 64x64 bit-packed square of cells, and the mathematical model
//! of a single gravity move on it.

use vstd::prelude::*;

use crate::bits::{pc, bit_at, lemma_pc_split, lemma_pc_or_disjoint, lemma_pc_shl, lemma_pc_shr,
    lemma_pc_le_1};

verus! {

/// Side length of a chunk: rows per chunk and columns per row.
pub const LEN: usize = 64;

/// The mask with only the highest column bit set.
pub const LAST_BIT: u64 = 0x8000_0000_0000_0000;

/// The mask with only the lowest column bit set.
pub const FIRST_BIT: u64 = 1;

/// Columns that may fall straight down: mobile, and the cell below is free.
pub open spec fn down_fall(mob_y: u64, occ_below: u64) -> u64 {
    mob_y & !occ_below
}

/// Columns that may fall one column leftward (toward the higher bit) and one
/// row down: mobile, the same-row left neighbor cell is free, and the
/// diagonal target cell is free. `left_some` and `down_left_some` carry, in
/// bit 63, the occupancy of the cells just beyond the word's top bit.
pub open spec fn dl_fall(mob_y: u64, occ_y: u64, occ_below: u64, left_some: u64, down_left_some: u64) -> u64 {
    mob_y & !((occ_y >> 1) | left_some) & !((occ_below >> 1) | down_left_some)
}

/// Columns that may fall one column rightward (toward the lower bit) and one
/// row down. `right_some` and `down_right_some` carry, in bit 0, the
/// occupancy of the cells just beyond the word's bottom bit.
pub open spec fn dr_fall(mob_y: u64, occ_y: u64, occ_below: u64, right_some: u64, down_right_some: u64) -> u64 {
    mob_y & !((occ_y << 1) | right_some) & !((occ_below << 1) | down_right_some)
}

/// Total particle count of rows `0 .. n` of an occupancy sequence.
pub open spec fn rows_mass(s: Seq<u64>, n: int) -> nat
    decreases n,
{
    if n <= 0 {
        0
    } else {
        rows_mass(s, n - 1) + pc(s[n - 1])
    }
}

/// Mathematical model of a chunk: one occupancy word and one mobility word
/// per row, row 0 at the bottom.
pub ghost struct ChunkView {
    /// Occupancy mask of each row: a set bit is a particle.
    pub occ: Seq<u64>,
    /// Mobility mask of each row: a set bit is a particle free to fall.
    pub mob: Seq<u64>,
}

impl ChunkView {
    /// Well-formed: 64 rows, and every mobile bit is an occupied bit.
    pub open spec fn wf(self) -> bool {
        &&& self.occ.len() == 64
        &&& self.mob.len() == 64
        &&& forall|y: int| 0 <= y < 64 ==> self.mob[y] & !self.occ[y] == 0
    }

    /// Total particle count of the chunk.
    pub open spec fn mass(self) -> nat {
        rows_mass(self.occ, 64)
    }

    /// Remove the falling columns from row `y` and land them, already shifted
    /// to their target columns, on row `y - 1`. Landed particles stay mobile.
    pub open spec fn take_fall(self, y: int, fall: u64, dep: u64) -> ChunkView {
        ChunkView {
            occ: self.occ.update(y, self.occ[y] & !fall).update(y - 1, self.occ[y - 1] | dep),
            mob: self.mob.update(y, self.mob[y] & !fall).update(y - 1, self.mob[y - 1] | dep),
        }
    }

    /// Remove falling columns from row `y`; they land in another chunk.
    pub open spec fn remove_fall(self, y: int, fall: u64) -> ChunkView {
        ChunkView {
            occ: self.occ.update(y, self.occ[y] & !fall),
            mob: self.mob.update(y, self.mob[y] & !fall),
        }
    }

    /// Land particles arriving from a neighboring chunk on row `y`.
    pub open spec fn land(self, y: int, dep: u64) -> ChunkView {
        ChunkView {
            occ: self.occ.update(y, self.occ[y] | dep),
            mob: self.mob.update(y, self.mob[y] | dep),
        }
    }

    /// One straight-fall resolution of row `y` onto row `y - 1`.
    pub open spec fn spec_down(self, y: int) -> ChunkView {
        let f = down_fall(self.mob[y], self.occ[y - 1]);
        self.take_fall(y, f, f)
    }

    /// One left-diagonal resolution of row `y`, with the given outside
    /// occupancy words for the columns beyond bit 63.
    pub open spec fn spec_dl(self, y: int, left_some: u64, down_left_some: u64) -> ChunkView {
        let f = self.dl_mask(y, left_some, down_left_some);
        self.take_fall(y, f, f << 1)
    }

    /// The columns of row `y` that fall left-diagonally.
    pub open spec fn dl_mask(self, y: int, left_some: u64, down_left_some: u64) -> u64 {
        dl_fall(self.mob[y], self.occ[y], self.occ[y - 1], left_some, down_left_some)
    }

    /// One right-diagonal resolution of row `y`.
    pub open spec fn spec_dr(self, y: int, right_some: u64, down_right_some: u64) -> ChunkView {
        let f = self.dr_mask(y, right_some, down_right_some);
        self.take_fall(y, f, f >> 1)
    }

    /// The columns of row `y` that fall right-diagonally.
    pub open spec fn dr_mask(self, y: int, right_some: u64, down_right_some: u64) -> u64 {
        dr_fall(self.mob[y], self.occ[y], self.occ[y - 1], right_some, down_right_some)
    }
}

/// Replacing one row changes the total mass by the difference of that row.
pub proof fn lemma_rows_mass_update(s: Seq<u64>, i: int, v: u64, n: int)
    requires
        0 <= i < n <= s.len(),
    ensures
        rows_mass(s.update(i, v), n) == rows_mass(s, n) - pc(s[i]) + pc(v),
    decreases n,
{
    if i == n - 1 {
        lemma_rows_mass_same(s.update(i, v), s, n - 1);
    } else {
        lemma_rows_mass_update(s, i, v, n - 1);
    }
}

/// Rows `0 .. n` weigh the same in sequences that agree there.
pub proof fn lemma_rows_mass_same(a: Seq<u64>, b: Seq<u64>, n: int)
    requires
        n <= a.len(),
        n <= b.len(),
        forall|j: int| 0 <= j < n ==> a[j] == b[j],
    ensures
        rows_mass(a, n) == rows_mass(b, n),
    decreases n,
{
    if n > 0 {
        lemma_rows_mass_same(a, b, n - 1);
    }
}

proof fn lemma_sub_after_clear(m: u64, o: u64, f: u64)
    by (bit_vector)
    requires
        m & !o == 0,
    ensures
        (m & !f) & !(o & !f) == 0,
{
}

proof fn lemma_sub_after_or(m: u64, o: u64, d: u64)
    by (bit_vector)
    requires
        m & !o == 0,
    ensures
        (m | d) & !(o | d) == 0,
{
}

impl ChunkView {
    /// A fall keeps every mobile bit occupied.
    pub proof fn lemma_take_fall_wf(self, y: int, fall: u64, dep: u64)
        requires
            self.wf(),
            1 <= y < 64,
        ensures
            self.take_fall(y, fall, dep).wf(),
    {
        lemma_sub_after_clear(self.mob[y], self.occ[y], fall);
        lemma_sub_after_or(self.mob[y - 1], self.occ[y - 1], dep);
    }

    /// Removing a fall keeps every mobile bit occupied.
    pub proof fn lemma_remove_fall_wf(self, y: int, fall: u64)
        requires
            self.wf(),
            0 <= y < 64,
        ensures
            self.remove_fall(y, fall).wf(),
    {
        lemma_sub_after_clear(self.mob[y], self.occ[y], fall);
    }

    /// Removing a fall of occupied columns takes away exactly its weight.
    pub proof fn lemma_remove_fall_mass(self, y: int, fall: u64)
        requires
            self.occ.len() == 64,
            0 <= y < 64,
            fall & !self.occ[y] == 0,
        ensures
            self.remove_fall(y, fall).mass() == self.mass() - pc(fall),
    {
        let oy = self.occ[y];
        lemma_rows_mass_update(self.occ, y, oy & !fall, 64);
        lemma_pc_split(oy, !fall);
        assert(oy & !!fall == fall) by (bit_vector)
            requires
                fall & !oy == 0,
        ;
    }

    /// Landing a deposit keeps every mobile bit occupied.
    pub proof fn lemma_land_wf(self, y: int, dep: u64)
        requires
            self.wf(),
            0 <= y < 64,
        ensures
            self.land(y, dep).wf(),
    {
        lemma_sub_after_or(self.mob[y], self.occ[y], dep);
    }

    /// A fall onto free cells removes the weight of the falling columns and
    /// adds back the weight of the deposit.
    pub proof fn lemma_take_fall_mass(self, y: int, fall: u64, dep: u64)
        requires
            self.occ.len() == 64,
            1 <= y < 64,
            fall & !self.occ[y] == 0,
            dep & self.occ[y - 1] == 0,
        ensures
            self.take_fall(y, fall, dep).mass() == self.mass() - pc(fall) + pc(dep),
    {
        let oy = self.occ[y];
        let ob = self.occ[y - 1];
        let s1 = self.occ.update(y, oy & !fall);
        lemma_rows_mass_update(self.occ, y, oy & !fall, 64);
        lemma_rows_mass_update(s1, y - 1, ob | dep, 64);
        lemma_pc_split(oy, !fall);
        assert(oy & !!fall == fall && ob & dep == 0) by (bit_vector)
            requires
                fall & !oy == 0 && dep & ob == 0,
        ;
        lemma_pc_or_disjoint(ob, dep);
    }

    /// Landing a deposit on free cells adds exactly its weight.
    pub proof fn lemma_land_mass(self, y: int, dep: u64)
        requires
            self.occ.len() == 64,
            0 <= y < 64,
            dep & self.occ[y] == 0,
        ensures
            self.land(y, dep).mass() == self.mass() + pc(dep),
    {
        let oy = self.occ[y];
        lemma_rows_mass_update(self.occ, y, oy | dep, 64);
        assert(oy & dep == 0) by (bit_vector)
            requires
                dep & oy == 0,
        ;
        lemma_pc_or_disjoint(oy, dep);
    }
}

impl ChunkView {
    /// A straight fall keeps the chunk well-formed and conserves its mass.
    pub proof fn lemma_spec_down_ok(self, y: int)
        requires
            self.wf(),
            1 <= y < 64,
        ensures
            self.spec_down(y).wf(),
            self.spec_down(y).mass() == self.mass(),
    {
        let my = self.mob[y];
        let oy = self.occ[y];
        let ob = self.occ[y - 1];
        let f = down_fall(my, ob);
        assert(f & !oy == 0 && f & ob == 0) by (bit_vector)
            requires
                f == my & !ob && my & !oy == 0,
        ;
        self.lemma_take_fall_wf(y, f, f);
        self.lemma_take_fall_mass(y, f, f);
    }

    /// A left-diagonal fall keeps the chunk well-formed; its mass drops by
    /// exactly the columns that crossed the chunk edge, and a wall on the
    /// left lets nothing cross.
    pub proof fn lemma_spec_dl_ok(self, y: int, ls: u64, dls: u64)
        requires
            self.wf(),
            1 <= y < 64,
        ensures
            self.spec_dl(y, ls, dls).wf(),
            self.spec_dl(y, ls, dls).mass() + pc(self.dl_mask(y, ls, dls) >> 63) == self.mass(),
            self.dl_mask(y, ls, dls) >> 63 <= 1,
            ls == LAST_BIT ==> self.dl_mask(y, ls, dls) >> 63 == 0,
    {
        let my = self.mob[y];
        let oy = self.occ[y];
        let ob = self.occ[y - 1];
        let f = self.dl_mask(y, ls, dls);
        assert(f & !oy == 0 && (f << 1) & ob == 0 && (ls == LAST_BIT ==> f >> 63 == 0)) by (bit_vector)
            requires
                f == my & !((oy >> 1) | ls) & !((ob >> 1) | dls) && my & !oy == 0 && LAST_BIT
                    == 0x8000_0000_0000_0000u64,
        ;
        self.lemma_take_fall_wf(y, f, f << 1);
        self.lemma_take_fall_mass(y, f, f << 1);
        lemma_pc_shl1_split(f);
    }

    /// A right-diagonal fall keeps the chunk well-formed; its mass drops by
    /// exactly the columns that crossed the chunk edge, and a wall on the
    /// right lets nothing cross.
    pub proof fn lemma_spec_dr_ok(self, y: int, rs: u64, drs: u64)
        requires
            self.wf(),
            1 <= y < 64,
        ensures
            self.spec_dr(y, rs, drs).wf(),
            self.spec_dr(y, rs, drs).mass() + pc(self.dr_mask(y, rs, drs) << 63) == self.mass(),
            rs == FIRST_BIT ==> self.dr_mask(y, rs, drs) << 63 == 0,
    {
        let my = self.mob[y];
        let oy = self.occ[y];
        let ob = self.occ[y - 1];
        let f = self.dr_mask(y, rs, drs);
        assert(f & !oy == 0 && (f >> 1) & ob == 0 && (rs == FIRST_BIT ==> f << 63 == 0)) by (bit_vector)
            requires
                f == my & !((oy << 1) | rs) & !((ob << 1) | drs) && my & !oy == 0 && FIRST_BIT
                    == 1u64,
        ;
        self.lemma_take_fall_wf(y, f, f >> 1);
        self.lemma_take_fall_mass(y, f, f >> 1);
        lemma_pc_shr1_split(f);
    }
}

/// A word weighs its part kept by a left shift plus its dropped top bit.
pub proof fn lemma_pc_shl1_split(f: u64)
    ensures
        pc(f << 1) + pc(f >> 63) == pc(f),
        f >> 63 <= 1,
{
    lemma_pc_shl(f, 1);
    lemma_pc_shr(f, 63);
    assert(f >> 63 <= 1) by (bit_vector);
    lemma_pc_le_1(f >> 63);
}

/// A word weighs its part kept by a right shift plus its dropped bottom bit.
pub proof fn lemma_pc_shr1_split(f: u64)
    ensures
        pc(f >> 1) + pc(f << 63) == pc(f),
{
    lemma_pc_shr(f, 1);
    lemma_pc_shl(f, 63);
}

/// A 64x64 square of cells, the unit of ownership and scheduling.
///
/// `some_masks[y]` is the occupancy mask of row `y`; `gravity_masks[y]` is its
/// mobility mask. Row 0 is the bottom row.
#[derive(Clone, Copy)]
pub struct Chunk {
    pub some_masks: [u64; LEN],
    pub gravity_masks: [u64; LEN],
}

impl View for Chunk {
    type V = ChunkView;

    open spec fn view(&self) -> ChunkView {
        ChunkView { occ: self.some_masks@, mob: self.gravity_masks@ }
    }
}

/// A cell position inside a chunk: column `x`, row `y`, row 0 at the bottom.
#[derive(Clone, Copy, PartialEq, Eq, Structural, Debug)]
pub struct CellPos {
    pub x: u32,
    pub y: u32,
}

impl Chunk {
    /// Mark one cell occupied and mobile.
    pub fn set_dynamic(&mut self, pos: CellPos)
        requires
            pos.x < 64,
            pos.y < 64,
        ensures
            final(self)@ == old(self)@.land(pos.y as int, 1u64 << pos.x),
    {
        let mask: u64 = 1u64 << pos.x;

        self.some_masks[pos.y as usize] = self.some_masks[pos.y as usize] | mask;
        self.gravity_masks[pos.y as usize] = self.gravity_masks[pos.y as usize] | mask;
    }

    /// Clear one cell: no particle, no mobility.
    pub fn set_none(&mut self, pos: CellPos)
        requires
            pos.x < 64,
            pos.y < 64,
        ensures
            final(self)@ == old(self)@.remove_fall(pos.y as int, 1u64 << pos.x),
    {
        let mask: u64 = 1u64 << pos.x;

        self.some_masks[pos.y as usize] = self.some_masks[pos.y as usize] & !mask;
        self.gravity_masks[pos.y as usize] = self.gravity_masks[pos.y as usize] & !mask;
    }

    /// Whether any cell of the chunk is mobile: only such chunks take part
    /// in simulation scheduling.
    pub fn is_active(&self) -> (r: bool)
        ensures
            r == exists|y: int| 0 <= y < 64 && self@.mob[y] != 0,
    {
        let mut y: usize = 0;
        while y < LEN
            invariant
                y <= 64,
                forall|j: int| 0 <= j < y ==> self@.mob[j] == 0,
            decreases LEN - y,
        {
            if self.gravity_masks[y] != 0 {
                proof {
                    assert(y < 64 && self@.mob[y as int] != 0);
                }
                return true;
            }
            y = y + 1;
        }
        false
    }

    /// An identical copy of this chunk.
    pub fn duplicate(&self) -> (c: Chunk)
        ensures
            c@ == self@,
    {
        Chunk { some_masks: self.some_masks, gravity_masks: self.gravity_masks }
    }

    /// The occupied cells of the chunk, bottom row first, columns ascending
    /// within a row. Chunks of layers at an odd vertical coordinate sit
    /// half a chunk width over, so `y_is_odd` offsets the reported columns
    /// by 32.
    pub fn iter_some(&self, y_is_odd: bool) -> (r: Vec<CellPos>)
        ensures
            ({
                let off: u32 = if y_is_odd { 32 } else { 0 };
                &&& forall|i: int|
                    0 <= i < r@.len() ==> {
                        let p = #[trigger] r@[i];
                        &&& p.y < 64
                        &&& off <= p.x < off + 64
                        &&& bit_at(self@.occ[p.y as int], (p.x - off) as u64)
                    }
                &&& forall|y: int, x: u64|
                    0 <= y < 64 && x < 64 && #[trigger] bit_at(self@.occ[y], x) ==> r@.contains(
                        CellPos { x: (x + off) as u32, y: y as u32 },
                    )
                &&& forall|i: int, j: int|
                    0 <= i < j < r@.len() ==> r@[i].y < r@[j].y || (r@[i].y == r@[j].y && r@[i].x
                        < r@[j].x)
            }),
    {
        let off: u32 = if y_is_odd {
            32
        } else {
            0
        };
        let mut r: Vec<CellPos> = Vec::new();
        let mut y: usize = 0;
        while y < LEN
            invariant
                y <= 64,
                off == if y_is_odd { 32u32 } else { 0u32 },
                forall|i: int|
                    0 <= i < r@.len() ==> {
                        let p = #[trigger] r@[i];
                        &&& p.y < y
                        &&& off <= p.x < off + 64
                        &&& bit_at(self@.occ[p.y as int], (p.x - off) as u64)
                    },
                forall|y2: int, x: u64|
                    0 <= y2 < y && x < 64 && #[trigger] bit_at(self@.occ[y2], x) ==> r@.contains(
                        CellPos { x: (x + off) as u32, y: y2 as u32 },
                    ),
                forall|i: int, j: int|
                    0 <= i < j < r@.len() ==> r@[i].y < r@[j].y || (r@[i].y == r@[j].y && r@[i].x
                        < r@[j].x),
            decreases LEN - y,
        {
            let x_mask = self.some_masks[y];
            let mut x: usize = 0;
            while x < LEN
                invariant
                    y < 64,
                    x <= 64,
                    off == if y_is_odd { 32u32 } else { 0u32 },
                    x_mask == self@.occ[y as int],
                    forall|i: int|
                        0 <= i < r@.len() ==> {
                            let p = #[trigger] r@[i];
                            &&& (p.y < y || (p.y == y && p.x < x + off))
                            &&& p.y < 64
                            &&& off <= p.x < off + 64
                            &&& bit_at(self@.occ[p.y as int], (p.x - off) as u64)
                        },
                    forall|y2: int, x2: u64|
                        0 <= y2 < y && x2 < 64 && #[trigger] bit_at(self@.occ[y2], x2)
                            ==> r@.contains(CellPos { x: (x2 + off) as u32, y: y2 as u32 }),
                    forall|x2: u64|
                        x2 < x && #[trigger] bit_at(self@.occ[y as int], x2) ==> r@.contains(
                            CellPos { x: (x2 + off) as u32, y: y as u32 },
                        ),
                    forall|i: int, j: int|
                        0 <= i < j < r@.len() ==> r@[i].y < r@[j].y || (r@[i].y == r@[j].y
                            && r@[i].x < r@[j].x),
                decreases LEN - x,
            {
                proof {
                    broadcast use vstd::seq_lib::lemma_seq_contains_after_push;

                }
                if (x_mask >> (x as u64)) & 1 == 1 {
                    let p = CellPos { x: (x as u32) + off, y: y as u32 };
                    r.push(p);
                }
                x = x + 1;
            }
            y = y + 1;
        }
        r
    }
}

impl Default for Chunk {
    /// The empty chunk.
    fn default() -> (c: Chunk)
        ensures
            c@.wf(),
            forall|y: int| 0 <= y < 64 ==> c@.occ[y] == 0 && c@.mob[y] == 0,
    {
        let c = Chunk { some_masks: [0; LEN], gravity_masks: [0; LEN] };
        proof {
            assert(forall|y: int| 0 <= y < 64 ==> c@.mob[y] & !c@.occ[y] == 0) by {
                assert(0u64 & !0u64 == 0) by (bit_vector);
            }
        }
        c
    }
}

} // verus!
