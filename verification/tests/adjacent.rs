use sandfall::chunk::{Chunk, LEN};
use sandfall::boundary::AdjSim;

fn sim(some: u64, gravity: u64, down_some: u64) -> AdjSim {
    let mut c = Chunk { some_masks: [0; LEN], gravity_masks: [0; LEN] };
    c.some_masks[0] = some;
    c.gravity_masks[0] = gravity;
    AdjSim { masks: c.gravity_masks(), down_some_mask: down_some }
}

#[test]
fn down_replays_a_straight_fall() {
    let mut a = sim(0b110, 0b100, 0b000);
    a.down();
    assert_eq!(a.masks.some_mask, 0b010);
    assert_eq!(a.masks.gravity_mask, 0);
    assert_eq!(a.down_some_mask, 0b100);
}

#[test]
fn down_is_blocked_by_the_row_below() {
    let mut a = sim(0b100, 0b100, 0b100);
    a.down();
    assert_eq!(a.masks.some_mask, 0b100);
    assert_eq!(a.masks.gravity_mask, 0b100);
    assert_eq!(a.down_some_mask, 0b100);
}

#[test]
fn down_left_records_the_landing() {
    let mut a = sim(0b010, 0b010, 0b000);
    a.down_left();
    assert_eq!(a.down_some_mask, 0b001);
    assert_eq!(a.masks.some_mask, 0b010);
}

#[test]
fn down_right_records_the_landing() {
    let mut a = sim(0b010, 0b010, 0b000);
    a.down_right();
    assert_eq!(a.down_some_mask, 0b100);
}

#[test]
fn edge_readings_align_the_outermost_columns() {
    let a = sim(0b1, 1 << 63, 0b11);
    assert_eq!(a.left_some(), 1 << 63);
    assert_eq!(a.down_left_some(), 1 << 63);
    assert_eq!(a.right_some(), 0);
    assert_eq!(a.down_right_some(), 0);

    let b = sim(1 << 63, 0, 1 << 63);
    assert_eq!(b.right_some(), 1);
    assert_eq!(b.down_right_some(), 1);
    assert_eq!(b.left_some(), 0);
}
