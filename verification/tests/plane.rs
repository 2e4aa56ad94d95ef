use std::collections::HashMap;

use sandfall::chunk::{Chunk, CellPos, LEN};
use sandfall::layer::Layer;
use sandfall::store::ChunkStore;
use sandfall::scheduler::partition_batches;

fn empty_chunk() -> Chunk {
    Chunk { some_masks: [0; LEN], gravity_masks: [0; LEN] }
}

fn layer_with_chunks(xs: &[i32]) -> Layer {
    let mut map = HashMap::new();
    for &x in xs {
        map.insert(x, empty_chunk());
    }
    Layer { map, simulate_odd: Vec::new(), simulate_even: Vec::new() }
}

#[test]
fn refresh_active_tracks_mobility() {
    let mut l = layer_with_chunks(&[2, 3]);
    l.map.get_mut(&3).unwrap().set_dynamic(CellPos { x: 1, y: 1 });
    l.refresh_active(3);
    l.refresh_active(2);
    assert_eq!(l.simulate_odd, vec![3]);
    assert!(l.simulate_even.is_empty());
    assert!(l.has_active());

    l.map.get_mut(&3).unwrap().set_none(CellPos { x: 1, y: 1 });
    l.refresh_active(3);
    assert!(l.simulate_odd.is_empty());
    assert!(!l.has_active());
}

#[test]
fn active_coords_lists_odd_class_first() {
    let mut l = layer_with_chunks(&[0, 1, 2, 3]);
    for x in [0, 1, 2, 3] {
        l.map.get_mut(&x).unwrap().set_dynamic(CellPos { x: 5, y: 5 });
        l.refresh_active(x);
    }
    let xs = l.active_coords();
    assert_eq!(xs.len(), 4);
    assert!(xs[0] % 2 != 0 && xs[1] % 2 != 0);
    assert!(xs[2] % 2 == 0 && xs[3] % 2 == 0);
}

#[test]
fn partition_batches_keeps_order_and_size() {
    let xs = vec![4, -2, 0, 6, 8];
    let batches = partition_batches(&xs, 2);
    assert_eq!(batches.len(), 3);
    assert_eq!(batches[0], vec![4, -2]);
    assert_eq!(batches[1], vec![0, 6]);
    assert_eq!(batches[2], vec![8]);
    let flat: Vec<i32> = batches.into_iter().flatten().collect();
    assert_eq!(flat, xs);
}

/// A two-layer plane: the chunk at (x, y) = (0, 1) holds one mobile grain
/// on its bottom row; everything a tick may touch is allocated.
fn two_layer_store() -> ChunkStore {
    let mut upper = layer_with_chunks(&[-1, 0, 1]);
    upper.map.get_mut(&0).unwrap().set_dynamic(CellPos { x: 40, y: 0 });
    upper.refresh_active(0);
    let lower = layer_with_chunks(&[-1, 0, 1, 2]);

    let mut map = HashMap::new();
    map.insert(1, upper);
    map.insert(0, lower);
    ChunkStore { map, simulate: vec![1], state: false }
}

#[test]
fn tick_moves_a_grain_across_the_layer_boundary() {
    let mut s = two_layer_store();
    s.gravity_step();
    assert_eq!(s.state, true);

    // Column 40 of an odd layer sits above bit 8 of the below-left target.
    let upper = &s.map[&1];
    let lower = &s.map[&0];
    assert_eq!(upper.map[&0].some_masks[0], 0);
    assert_eq!(lower.map[&0].some_masks[LEN - 1], 1 << 8);
    assert_eq!(lower.map[&0].gravity_masks[LEN - 1], 1 << 8);
}

#[test]
fn tick_refreshes_the_active_bookkeeping() {
    let mut s = two_layer_store();
    s.gravity_step();

    let upper = &s.map[&1];
    let lower = &s.map[&0];
    assert!(upper.simulate_even.is_empty() && upper.simulate_odd.is_empty());
    assert_eq!(lower.simulate_even, vec![0]);
    assert!(lower.simulate_odd.is_empty());
}

#[test]
fn tick_conserves_plane_mass() {
    let mut s = two_layer_store();
    // A second grain heap in the upper layer's chunk.
    {
        let c = s.map.get_mut(&1).unwrap().map.get_mut(&0).unwrap();
        for y in 1..5 {
            c.set_dynamic(CellPos { x: 20, y });
        }
    }
    s.map.get_mut(&1).unwrap().refresh_active(0);

    let mass = |s: &ChunkStore| -> u32 {
        s.map
            .values()
            .map(|l| {
                l.map.values().map(|c| c.some_masks.iter().map(|m| m.count_ones()).sum::<u32>()).sum::<u32>()
            })
            .sum()
    };
    let before = mass(&s);
    s.gravity_step();
    assert_eq!(mass(&s), before);
}
