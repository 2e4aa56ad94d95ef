use sandfall::chunk::{Chunk, CellPos, LEN};

fn empty_chunk() -> Chunk {
    Chunk { some_masks: [0; LEN], gravity_masks: [0; LEN] }
}

fn total_mass(c: &Chunk) -> u32 {
    c.some_masks.iter().map(|m| m.count_ones()).sum()
}

#[test]
fn default_chunk_is_empty() {
    let c = Chunk::default();
    assert_eq!(total_mass(&c), 0);
    assert!(!c.is_active());
}

#[test]
fn set_dynamic_marks_cell_occupied_and_mobile() {
    let mut c = empty_chunk();
    c.set_dynamic(CellPos { x: 5, y: 9 });
    assert_eq!(c.some_masks[9], 1 << 5);
    assert_eq!(c.gravity_masks[9], 1 << 5);
    assert!(c.is_active());
}

#[test]
fn set_none_clears_cell() {
    let mut c = empty_chunk();
    c.set_dynamic(CellPos { x: 5, y: 9 });
    c.set_dynamic(CellPos { x: 6, y: 9 });
    c.set_none(CellPos { x: 5, y: 9 });
    assert_eq!(c.some_masks[9], 1 << 6);
    assert_eq!(c.gravity_masks[9], 1 << 6);
}

#[test]
fn duplicate_copies_every_row() {
    let mut c = empty_chunk();
    c.set_dynamic(CellPos { x: 1, y: 2 });
    c.set_dynamic(CellPos { x: 63, y: 63 });
    let d = c.duplicate();
    assert_eq!(c.some_masks, d.some_masks);
    assert_eq!(c.gravity_masks, d.gravity_masks);
}

#[test]
fn iter_some_lists_cells_in_order() {
    let mut c = empty_chunk();
    c.set_dynamic(CellPos { x: 7, y: 0 });
    c.set_dynamic(CellPos { x: 3, y: 2 });
    c.set_dynamic(CellPos { x: 4, y: 2 });
    let cells = c.iter_some(false);
    assert_eq!(cells.len(), 3);
    assert_eq!((cells[0].x, cells[0].y), (7, 0));
    assert_eq!((cells[1].x, cells[1].y), (3, 2));
    assert_eq!((cells[2].x, cells[2].y), (4, 2));
}

#[test]
fn iter_some_offsets_odd_layers_by_half_a_chunk() {
    let mut c = empty_chunk();
    c.set_dynamic(CellPos { x: 7, y: 1 });
    let cells = c.iter_some(true);
    assert_eq!(cells.len(), 1);
    assert_eq!((cells[0].x, cells[0].y), (39, 1));
}

#[test]
fn single_particle_falls_one_row_per_tick() {
    let mut c = empty_chunk();
    c.set_dynamic(CellPos { x: 10, y: 5 });
    c.tick_single(false);
    assert_eq!(c.some_masks[5], 0);
    assert_eq!(c.some_masks[4], 1 << 10);
    assert_eq!(c.gravity_masks[4], 1 << 10);
    c.tick_single(true);
    assert_eq!(c.some_masks[4], 0);
    assert_eq!(c.some_masks[3], 1 << 10);
}

#[test]
fn cluster_drops_one_row_above_the_floor() {
    // A 2x2 mobile cluster well above an immobile floor sinks as a whole.
    let mut c = empty_chunk();
    c.some_masks[0] = u64::MAX;
    for y in [3, 4] {
        c.set_dynamic(CellPos { x: 31, y });
        c.set_dynamic(CellPos { x: 32, y });
    }
    let before = total_mass(&c);
    c.tick_single(false);
    assert_eq!(total_mass(&c), before);
    assert_eq!(c.some_masks[4], 0);
    assert_eq!(c.some_masks[3], (1 << 31) | (1 << 32));
    assert_eq!(c.some_masks[2], (1 << 31) | (1 << 32));
}

#[test]
fn cluster_on_floor_spills_symmetrically() {
    // Resting on the floor, the cluster's top two particles spill one to
    // each side; four particles before, four after.
    let mut c = empty_chunk();
    c.some_masks[0] = u64::MAX;
    for y in [1, 2] {
        c.set_dynamic(CellPos { x: 31, y });
        c.set_dynamic(CellPos { x: 32, y });
    }
    assert_eq!(total_mass(&c), 64 + 4);
    c.tick_single(false);
    assert_eq!(total_mass(&c), 64 + 4);
    assert_eq!(c.some_masks[2], 0);
    assert_eq!(c.some_masks[1], (1 << 30) | (1 << 31) | (1 << 32) | (1 << 33));
}

#[test]
fn mass_and_subset_invariants_hold_over_many_ticks() {
    let mut c = empty_chunk();
    // An uneven heap: columns of varying heights, some immobile grains.
    for x in 0..64u32 {
        let h = (x * 7 % 13) % 8;
        for y in 0..h {
            c.set_dynamic(CellPos { x, y: y + 1 });
        }
    }
    c.some_masks[0] = 0xF0F0_F0F0_F0F0_F0F0;
    let before = total_mass(&c);
    let mut state = false;
    for _ in 0..100 {
        c.tick_single(state);
        state = !state;
        assert_eq!(total_mass(&c), before);
        for y in 0..LEN {
            assert_eq!(c.gravity_masks[y] & !c.some_masks[y], 0);
        }
    }
}

#[test]
fn mirrored_run_with_opposite_phase_stays_mirrored() {
    let mut a = empty_chunk();
    let mut b = empty_chunk();
    for x in 0..64u32 {
        let h = (x * 11 % 17) % 6;
        for y in 0..h {
            a.set_dynamic(CellPos { x, y: y + 2 });
            b.set_dynamic(CellPos { x: 63 - x, y: y + 2 });
        }
    }
    a.some_masks[0] = 0x0123_4567_89AB_CDEF;
    b.some_masks[0] = a.some_masks[0].reverse_bits();
    let mut state = false;
    for _ in 0..32 {
        a.tick_single(state);
        b.tick_single(!state);
        state = !state;
        for y in 0..LEN {
            assert_eq!(a.some_masks[y].reverse_bits(), b.some_masks[y]);
            assert_eq!(a.gravity_masks[y].reverse_bits(), b.gravity_masks[y]);
        }
    }
}
