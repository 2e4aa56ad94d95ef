//! Lock-free scheduling of chunk work.
//!
//! A boundary pass for the chunk at horizontal coordinate `x` writes into
//! the below-layer chunks at `{x, x + 1}` or `{x - 1, x}`, by the layer's
//! vertical parity. Two sources of equal horizontal parity lie at distance
//! at least two, so their targets never overlap: a pool may run one whole
//! parity class concurrently, task per source, without locks, as long as the
//! two classes run strictly one after the other. The interior pass writes
//! only the source chunk itself, so it needs no partition at all. Batches
//! only bound task granularity; their contents stay in order.

use vstd::prelude::*;

verus! {

/// The below-layer coordinate pair that the boundary pass of source `x`
/// writes, as decided by the layers' brickwork offset.
pub open spec fn down_targets(x: int, y_is_odd: bool) -> (int, int) {
    if y_is_odd {
        (x, x + 1)
    } else {
        (x - 1, x)
    }
}

/// Law of the parity partition: boundary passes of two distinct sources of
/// equal horizontal parity write disjoint below-layer pairs, so one parity
/// class is safe to run fully in parallel.
pub proof fn lemma_parity_targets_disjoint(x1: int, x2: int, y_is_odd: bool)
    requires
        x1 != x2,
        x1 % 2 == x2 % 2,
    ensures
        ({
            let (a1, b1) = down_targets(x1, y_is_odd);
            let (a2, b2) = down_targets(x2, y_is_odd);
            a1 != a2 && a1 != b2 && b1 != a2 && b1 != b2
        }),
{
    assert(x1 - x2 != 1 && x2 - x1 != 1) by {
        assert((x2 + 1) % 2 != x2 % 2);
        assert((x1 + 1) % 2 != x1 % 2);
    }
}

/// Split work coordinates into batches of at most `batch` items, keeping
/// their order: concatenated back together, the batches are the input.
pub fn partition_batches(xs: &Vec<i32>, batch: usize) -> (r: Vec<Vec<i32>>)
    requires
        batch >= 1,
    ensures
        flatten_batches(r@) == xs@,
        forall|i: int| 0 <= i < r@.len() ==> 1 <= #[trigger] r@[i]@.len() <= batch,
{
    let mut r: Vec<Vec<i32>> = Vec::new();
    let mut i: usize = 0;
    while i < xs.len()
        invariant
            i <= xs@.len(),
            batch >= 1,
            flatten_batches(r@) == xs@.take(i as int),
            forall|k: int| 0 <= k < r@.len() ==> 1 <= #[trigger] r@[k]@.len() <= batch,
        decreases xs@.len() - i,
    {
        let mut b: Vec<i32> = Vec::new();
        let ghost i0 = i as int;
        proof {
            assert(b@ =~= xs@.subrange(i0, i0));
        }
        while i < xs.len() && b.len() < batch
            invariant
                0 <= i0 <= i as int <= xs@.len(),
                batch >= 1,
                b@.len() == i as int - i0,
                b@.len() <= batch,
                b@ == xs@.subrange(i0, i as int),
            decreases xs@.len() - i,
        {
            let ghost bold = b@;
            b.push(xs[i]);
            proof {
                assert(i as int + 1 <= xs@.len());
                assert(b@.len() == i as int + 1 - i0);
                assert(forall|j: int|
                    0 <= j < b@.len() ==> b@[j] == (if j < b@.len() - 1 {
                        bold[j]
                    } else {
                        xs@[i as int]
                    }));
                assert forall|j: int| 0 <= j < b@.len() implies b@[j] == xs@[i0 + j] by {
                    if j < b@.len() - 1 {
                        assert(bold[j] == xs@.subrange(i0, i as int)[j]);
                    }
                }
                assert(b@ =~= xs@.subrange(i0, i as int + 1));
            }
            i = i + 1;
        }
        let ghost rold = r@;
        let ghost bview = b@;
        r.push(b);
        proof {
            assert(r@.drop_last() =~= rold);
            assert(flatten_batches(r@) == flatten_batches(rold) + bview);
            assert(xs@.take(i0) + xs@.subrange(i0, i as int) =~= xs@.take(i as int));
        }
    }
    proof {
        assert(xs@.take(xs@.len() as int) =~= xs@);
    }
    r
}

/// All batch items, in batch order.
pub open spec fn flatten_batches(r: Seq<Vec<i32>>) -> Seq<i32>
    decreases r.len(),
{
    if r.len() == 0 {
        Seq::empty()
    } else {
        flatten_batches(r.drop_last()) + r.last()@
    }
}

} // verus!
