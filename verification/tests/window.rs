use sandfall::chunk::{Chunk, LEN};
use sandfall::boundary::GravityMasks;

fn empty_chunk() -> Chunk {
    Chunk { some_masks: [0; LEN], gravity_masks: [0; LEN] }
}

fn window_mass(a: &Chunk, b: &Chunk, c: &Chunk) -> u32 {
    [a, b, c].iter().map(|ch| ch.some_masks.iter().map(|m| m.count_ones()).sum::<u32>()).sum()
}

/// A 192-column reference simulation of one interior pass, cell by cell,
/// with no chunk seams: column 0 borders the right wall, column 191 the
/// left wall. Rows and sub-step order follow the chunked pass exactly.
struct Strip {
    occ: Vec<[bool; 192]>,
    mob: Vec<[bool; 192]>,
}

impl Strip {
    fn from_window(mid: &Chunk, left: &Chunk, right: &Chunk) -> Strip {
        let mut occ = vec![[false; 192]; LEN];
        let mut mob = vec![[false; 192]; LEN];
        for y in 0..LEN {
            for b in 0..64 {
                occ[y][b] = (right.some_masks[y] >> b) & 1 == 1;
                mob[y][b] = (right.gravity_masks[y] >> b) & 1 == 1;
                occ[y][64 + b] = (mid.some_masks[y] >> b) & 1 == 1;
                mob[y][64 + b] = (mid.gravity_masks[y] >> b) & 1 == 1;
                occ[y][128 + b] = (left.some_masks[y] >> b) & 1 == 1;
                mob[y][128 + b] = (left.gravity_masks[y] >> b) & 1 == 1;
            }
        }
        Strip { occ, mob }
    }

    fn down(&mut self, y: usize) {
        let falls: Vec<usize> =
            (0..192).filter(|&c| self.mob[y][c] && !self.occ[y - 1][c]).collect();
        for c in falls {
            self.occ[y][c] = false;
            self.mob[y][c] = false;
            self.occ[y - 1][c] = true;
            self.mob[y - 1][c] = true;
        }
    }

    fn down_left(&mut self, y: usize) {
        let falls: Vec<usize> = (0..191)
            .filter(|&c| self.mob[y][c] && !self.occ[y][c + 1] && !self.occ[y - 1][c + 1])
            .collect();
        for c in falls {
            self.occ[y][c] = false;
            self.mob[y][c] = false;
            self.occ[y - 1][c + 1] = true;
            self.mob[y - 1][c + 1] = true;
        }
    }

    fn down_right(&mut self, y: usize) {
        let falls: Vec<usize> = (1..192)
            .filter(|&c| self.mob[y][c] && !self.occ[y][c - 1] && !self.occ[y - 1][c - 1])
            .collect();
        for c in falls {
            self.occ[y][c] = false;
            self.mob[y][c] = false;
            self.occ[y - 1][c - 1] = true;
            self.mob[y - 1][c - 1] = true;
        }
    }

    fn tick(&mut self, state: bool) {
        for y in 1..LEN {
            self.down(y);
            if (y % 2 == 0) ^ state {
                self.down_left(y);
                self.down_right(y);
            } else {
                self.down_right(y);
                self.down_left(y);
            }
        }
    }

    fn matches(&self, mid: &Chunk, left: &Chunk, right: &Chunk) -> bool {
        for y in 0..LEN {
            for b in 0..64 {
                let cells = [
                    (self.occ[y][b], (right.some_masks[y] >> b) & 1 == 1),
                    (self.mob[y][b], (right.gravity_masks[y] >> b) & 1 == 1),
                    (self.occ[y][64 + b], (mid.some_masks[y] >> b) & 1 == 1),
                    (self.mob[y][64 + b], (mid.gravity_masks[y] >> b) & 1 == 1),
                    (self.occ[y][128 + b], (left.some_masks[y] >> b) & 1 == 1),
                    (self.mob[y][128 + b], (left.gravity_masks[y] >> b) & 1 == 1),
                ];
                if cells.iter().any(|(s, c)| s != c) {
                    return false;
                }
            }
        }
        true
    }
}

fn window_config() -> (Chunk, Chunk, Chunk) {
    let mut mid = empty_chunk();
    let mut left = empty_chunk();
    let mut right = empty_chunk();
    // A ridge straddling both seams, with an immobile ledge in the middle.
    for x in 0..64u64 {
        let h = ((x * 5 + 3) % 11) as usize;
        for y in 0..h {
            mid.some_masks[y + 1] |= 1 << x;
            mid.gravity_masks[y + 1] |= 1 << x;
        }
        if x < 6 {
            left.some_masks[1] |= 1 << x;
            left.gravity_masks[1] |= 1 << x;
            right.some_masks[2] |= 1 << (63 - x);
            right.gravity_masks[2] |= 1 << (63 - x);
        }
    }
    mid.some_masks[0] = 0x00FF_FF00_0000_FFFF;
    (mid, left, right)
}

#[test]
fn interior_pass_equals_seamless_strip() {
    // Cutting the strip into three chunks must not change one tick's
    // outcome anywhere, including at the two seams.
    let (mut mid, mut left, mut right) = window_config();
    let mut strip = Strip::from_window(&mid, &left, &right);
    let mut state = false;
    for _ in 0..8 {
        mid.gravity_step_non_zero(&mut left, &mut right, state);
        strip.tick(state);
        state = !state;
        assert!(strip.matches(&mid, &left, &right));
    }
}

#[test]
fn interior_pass_conserves_window_mass() {
    let (mut mid, mut left, mut right) = window_config();
    let before = window_mass(&mid, &left, &right);
    let mut state = false;
    for _ in 0..20 {
        mid.gravity_step_non_zero(&mut left, &mut right, state);
        state = !state;
        assert_eq!(window_mass(&mid, &left, &right), before);
    }
}

#[test]
fn particle_crosses_chunk_seam_diagonally() {
    // A grain at the chunk's top column, blocked below and beside within
    // its own chunk... the left neighbor is free, so it crosses the seam.
    let mut mid = empty_chunk();
    let mut left = empty_chunk();
    let mut right = empty_chunk();
    mid.some_masks[2] = 1 << 63;
    mid.gravity_masks[2] = 1 << 63;
    mid.some_masks[1] = 1 << 63;
    mid.gravity_masks[1] = 0;
    mid.some_masks[0] = 1 << 63;
    mid.gravity_step_non_zero(&mut left, &mut right, false);
    assert_eq!(mid.some_masks[2], 0);
    assert_eq!(left.some_masks[1], 1);
    assert_eq!(left.gravity_masks[1], 1);
}

#[test]
fn gravity_masks_reads_the_bottom_row() {
    let mut c = empty_chunk();
    c.some_masks[0] = 0xAB;
    c.gravity_masks[0] = 0x0B;
    let gm = c.gravity_masks();
    let mut probe = empty_chunk();
    let mut dl = empty_chunk();
    let mut dr = empty_chunk();
    // The copied masks stand in for a fully occupied immobile neighbor
    // column: a grain at the probe's bit 63 may not move left when the
    // neighbor's bit 0 is occupied.
    probe.some_masks[0] = 1 << 63;
    probe.gravity_masks[0] = 1 << 63;
    dl.some_masks[LEN - 1] = 1 << 31;
    let empty_gm = empty_chunk().gravity_masks();
    probe.gravity_step_zero(&mut dl, &mut dr, gm, empty_gm, false);
    // Straight fall blocked (dl bit 31 is below bit 63), left blocked by
    // the neighbor's occupied bit 0 (0xAB has bit 0 set), so the grain
    // falls right instead.
    assert_eq!(probe.some_masks[0], 0);
    assert_eq!(dl.some_masks[LEN - 1], (1 << 31) | (1 << 30));
}

#[test]
fn boundary_pass_lands_split_deposits() {
    // Straight falls from the bottom row split between the two offset
    // chunks below: column j lands on the below-left top row for j >= 32
    // and on the below-right top row for j < 32.
    let mut c = empty_chunk();
    let mut dl = empty_chunk();
    let mut dr = empty_chunk();
    c.some_masks[0] = (1 << 40) | (1 << 10);
    c.gravity_masks[0] = (1 << 40) | (1 << 10);
    let gm = GravityMasks { some_mask: 0, gravity_mask: 0 };
    c.gravity_step_zero(&mut dl, &mut dr, gm, gm, false);
    assert_eq!(c.some_masks[0], 0);
    assert_eq!(dl.some_masks[LEN - 1], 1 << 8);
    assert_eq!(dl.gravity_masks[LEN - 1], 1 << 8);
    assert_eq!(dr.some_masks[LEN - 1], 1 << 42);
    assert_eq!(dr.gravity_masks[LEN - 1], 1 << 42);
}

#[test]
fn boundary_pass_diagonal_crosses_both_boundaries() {
    // A grain at column 63, blocked straight down and to the right, falls
    // left across the vertical boundary into the below-left chunk's bit 32.
    let mut c = empty_chunk();
    let mut dl = empty_chunk();
    let mut dr = empty_chunk();
    c.some_masks[0] = (1 << 63) | (1 << 62);
    c.gravity_masks[0] = 1 << 63;
    dl.some_masks[LEN - 1] = (1 << 31) | (1 << 30);
    let gm = GravityMasks { some_mask: 0, gravity_mask: 0 };
    let before = c.some_masks[0].count_ones() + dl.some_masks[LEN - 1].count_ones();
    c.gravity_step_zero(&mut dl, &mut dr, gm, gm, false);
    assert_eq!(c.some_masks[0], 1 << 62);
    assert_eq!(dl.some_masks[LEN - 1], (1 << 32) | (1 << 31) | (1 << 30));
    assert_eq!(dl.gravity_masks[LEN - 1], 1 << 32);
    let after = c.some_masks[0].count_ones() + dl.some_masks[LEN - 1].count_ones();
    assert_eq!(before, after);
    assert_eq!(dr.some_masks[LEN - 1], 0);
}

#[test]
fn boundary_pass_conserves_mass() {
    let mut c = empty_chunk();
    let mut dl = empty_chunk();
    let mut dr = empty_chunk();
    c.some_masks[0] = 0xDEAD_BEEF_1234_5678;
    c.gravity_masks[0] = 0xDEAD_BEEF_0000_5678;
    dl.some_masks[LEN - 1] = 0x0F0F_0F0F_0F0F_0F0F;
    dr.some_masks[LEN - 1] = 0x00FF_00FF_00FF_00FF;
    let gm = GravityMasks { some_mask: 0xFFFF, gravity_mask: 0xFF };
    let before = window_mass(&c, &dl, &dr);
    c.gravity_step_zero(&mut dl, &mut dr, gm, gm, true);
    assert_eq!(window_mass(&c, &dl, &dr), before);
    for y in 0..LEN {
        assert_eq!(c.gravity_masks[y] & !c.some_masks[y], 0);
        assert_eq!(dl.gravity_masks[y] & !dl.some_masks[y], 0);
        assert_eq!(dr.gravity_masks[y] & !dr.some_masks[y], 0);
    }
}
