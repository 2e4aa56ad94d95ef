//! Bias symmetry of the closed-chunk tick.
//!
//! The gravity rule prefers neither direction: reflecting a configuration
//! left-for-right and flipping the phase flag reflects the whole tick. With
//! the flag alternating every tick, no systematic drift can build up.

use vstd::prelude::*;

use crate::bits::{bit_at, lemma_bit_facts};
use crate::chunk::{ChunkView, LAST_BIT, FIRST_BIT, down_fall};
use crate::single::{single_row, single_steps, single_tick};

verus! {

/// `b` reads `a` right-to-left: bit `i` of one is bit `63 - i` of the other.
pub open spec fn mirrored(a: u64, b: u64) -> bool {
    forall|i: u64| i < 64 ==> (#[trigger] bit_at(a, i) == bit_at(b, (63 - i) as u64))
}

/// Two chunks that read each other right-to-left, row by row.
pub open spec fn mirrored_view(a: ChunkView, b: ChunkView) -> bool {
    &&& a.occ.len() == 64 && a.mob.len() == 64
    &&& b.occ.len() == 64 && b.mob.len() == 64
    &&& forall|y: int|
        0 <= y < 64 ==> mirrored(#[trigger] a.occ[y], b.occ[y]) && mirrored(a.mob[y], b.mob[y])
}

/// Reflection swaps the operands' reflections under the bitwise operations,
/// turns left shifts into right shifts, and swaps the two wall masks.
proof fn lemma_mirror_ops(a: u64, b: u64, c: u64, d: u64)
    requires
        mirrored(a, b),
        mirrored(c, d),
    ensures
        mirrored(a & c, b & d),
        mirrored(a | c, b | d),
        mirrored(!a, !b),
        mirrored(a >> 1, b << 1),
        mirrored(a << 1, b >> 1),
        mirrored(b, a),
{
    lemma_bit_facts();
    assert forall|i: u64| i < 64 implies #[trigger] bit_at(a & c, i) == bit_at(
        b & d,
        (63 - i) as u64,
    ) by {
        assert(bit_at(a, i) == bit_at(b, (63 - i) as u64));
        assert(bit_at(c, i) == bit_at(d, (63 - i) as u64));
    }
    assert forall|i: u64| i < 64 implies #[trigger] bit_at(a | c, i) == bit_at(
        b | d,
        (63 - i) as u64,
    ) by {
        assert(bit_at(a, i) == bit_at(b, (63 - i) as u64));
        assert(bit_at(c, i) == bit_at(d, (63 - i) as u64));
    }
    assert forall|i: u64| i < 64 implies #[trigger] bit_at(!a, i) == bit_at(
        !b,
        (63 - i) as u64,
    ) by {
        assert(bit_at(a, i) == bit_at(b, (63 - i) as u64));
    }
    assert forall|i: u64| i < 64 implies #[trigger] bit_at(a >> 1, i) == bit_at(
        b << 1,
        (63 - i) as u64,
    ) by {
        if i < 63 {
            assert(bit_at(a, (i + 1) as u64) == bit_at(b, (63 - (i + 1)) as u64));
        }
    }
    assert forall|i: u64| i < 64 implies #[trigger] bit_at(a << 1, i) == bit_at(
        b >> 1,
        (63 - i) as u64,
    ) by {
        if i >= 1 {
            assert(bit_at(a, (i - 1) as u64) == bit_at(b, (63 - (i - 1)) as u64));
        }
    }
    assert forall|i: u64| i < 64 implies #[trigger] bit_at(b, i) == bit_at(
        a,
        (63 - i) as u64,
    ) by {
        assert(bit_at(a, (63 - i) as u64) == bit_at(b, (63 - (63 - i)) as u64));
    }
}

/// The word with no bits set reads the same in both directions.
proof fn lemma_mirror_zero()
    ensures
        mirrored(0, 0),
{
    assert forall|i: u64| i < 64 implies #[trigger] bit_at(0u64, i) == bit_at(
        0u64,
        (63 - i) as u64,
    ) by {
        assert(!bit_at(0u64, i) && !bit_at(0u64, (63 - i) as u64)) by (bit_vector)
            requires
                i < 64,
        ;
    }
}

/// The two wall masks are each other's reflections.
proof fn lemma_mirror_walls()
    ensures
        mirrored(LAST_BIT, FIRST_BIT),
{
    assert forall|i: u64| i < 64 implies #[trigger] bit_at(LAST_BIT, i) == bit_at(
        FIRST_BIT,
        (63 - i) as u64,
    ) by {
        assert((bit_at(0x8000_0000_0000_0000u64, i) == (i == 63)) && (bit_at(
            1u64,
            (63 - i) as u64,
        ) == (i == 63))) by (bit_vector)
            requires
                i < 64,
        ;
    }
}

/// The straight-fall sub-step commutes with reflection.
proof fn lemma_mirror_down(a: ChunkView, b: ChunkView, y: int)
    requires
        mirrored_view(a, b),
        1 <= y < 64,
    ensures
        mirrored_view(a.spec_down(y), b.spec_down(y)),
{
    let fa = down_fall(a.mob[y], a.occ[y - 1]);
    let fb = down_fall(b.mob[y], b.occ[y - 1]);
    assert(mirrored(a.occ[y], b.occ[y]) && mirrored(a.mob[y], b.mob[y]));
    assert(mirrored(a.occ[y - 1], b.occ[y - 1]) && mirrored(a.mob[y - 1], b.mob[y - 1]));
    lemma_mirror_zero();
    lemma_mirror_ops(a.occ[y - 1], b.occ[y - 1], 0, 0);
    lemma_mirror_ops(a.mob[y], b.mob[y], !a.occ[y - 1], !b.occ[y - 1]);
    lemma_mirror_ops(fa, fb, 0, 0);
    lemma_mirror_ops(a.occ[y], b.occ[y], !fa, !fb);
    lemma_mirror_ops(a.mob[y], b.mob[y], !fa, !fb);
    lemma_mirror_ops(a.occ[y - 1], b.occ[y - 1], fa, fb);
    lemma_mirror_ops(a.mob[y - 1], b.mob[y - 1], fa, fb);
}

/// The two diagonal sub-steps are each other's reflections.
proof fn lemma_mirror_diag(a: ChunkView, b: ChunkView, y: int)
    requires
        mirrored_view(a, b),
        1 <= y < 64,
    ensures
        mirrored_view(a.spec_dl(y, LAST_BIT, LAST_BIT), b.spec_dr(y, FIRST_BIT, FIRST_BIT)),
{
    let fa = a.dl_mask(y, LAST_BIT, LAST_BIT);
    let fb = b.dr_mask(y, FIRST_BIT, FIRST_BIT);
    assert(mirrored(a.occ[y], b.occ[y]) && mirrored(a.mob[y], b.mob[y]));
    assert(mirrored(a.occ[y - 1], b.occ[y - 1]) && mirrored(a.mob[y - 1], b.mob[y - 1]));
    lemma_mirror_zero();
    lemma_mirror_walls();
    lemma_mirror_ops(a.occ[y], b.occ[y], 0, 0);
    lemma_mirror_ops(a.occ[y - 1], b.occ[y - 1], 0, 0);
    lemma_mirror_ops(a.occ[y] >> 1, b.occ[y] << 1, LAST_BIT, FIRST_BIT);
    lemma_mirror_ops((a.occ[y] >> 1) | LAST_BIT, (b.occ[y] << 1) | FIRST_BIT, 0, 0);
    lemma_mirror_ops(a.occ[y - 1] >> 1, b.occ[y - 1] << 1, LAST_BIT, FIRST_BIT);
    lemma_mirror_ops((a.occ[y - 1] >> 1) | LAST_BIT, (b.occ[y - 1] << 1) | FIRST_BIT, 0, 0);
    lemma_mirror_ops(
        a.mob[y],
        b.mob[y],
        !((a.occ[y] >> 1) | LAST_BIT),
        !((b.occ[y] << 1) | FIRST_BIT),
    );
    lemma_mirror_ops(
        a.mob[y] & !((a.occ[y] >> 1) | LAST_BIT),
        b.mob[y] & !((b.occ[y] << 1) | FIRST_BIT),
        !((a.occ[y - 1] >> 1) | LAST_BIT),
        !((b.occ[y - 1] << 1) | FIRST_BIT),
    );
    assert(mirrored(fa, fb));
    lemma_mirror_ops(fa, fb, 0, 0);
    lemma_mirror_ops(a.occ[y], b.occ[y], !fa, !fb);
    lemma_mirror_ops(a.mob[y], b.mob[y], !fa, !fb);
    lemma_mirror_ops(fa << 1, fb >> 1, 0, 0);
    lemma_mirror_ops(a.occ[y - 1], b.occ[y - 1], fa << 1, fb >> 1);
    lemma_mirror_ops(a.mob[y - 1], b.mob[y - 1], fa << 1, fb >> 1);
}

/// One row resolution commutes with reflection when the phase flag flips.
proof fn lemma_mirror_row(a: ChunkView, b: ChunkView, y: int, state: bool)
    requires
        mirrored_view(a, b),
        1 <= y < 64,
    ensures
        mirrored_view(single_row(a, y, state), single_row(b, y, !state)),
{
    lemma_mirror_down(a, b, y);
    let a1 = a.spec_down(y);
    let b1 = b.spec_down(y);
    if (y % 2 == 0) != state {
        lemma_mirror_diag(a1, b1, y);
        let a2 = a1.spec_dl(y, LAST_BIT, LAST_BIT);
        let b2 = b1.spec_dr(y, FIRST_BIT, FIRST_BIT);
        lemma_mirror_sym(a2, b2);
        lemma_mirror_diag(b2, a2, y);
        lemma_mirror_sym(b2.spec_dl(y, LAST_BIT, LAST_BIT), a2.spec_dr(y, FIRST_BIT, FIRST_BIT));
    } else {
        lemma_mirror_sym(a1, b1);
        lemma_mirror_diag(b1, a1, y);
        lemma_mirror_sym(b1.spec_dl(y, LAST_BIT, LAST_BIT), a1.spec_dr(y, FIRST_BIT, FIRST_BIT));
        let a2 = a1.spec_dr(y, FIRST_BIT, FIRST_BIT);
        let b2 = b1.spec_dl(y, LAST_BIT, LAST_BIT);
        lemma_mirror_diag(a2, b2, y);
    }
}

/// Reflection reads the same both ways.
proof fn lemma_mirror_sym(a: ChunkView, b: ChunkView)
    requires
        mirrored_view(a, b),
    ensures
        mirrored_view(b, a),
{
    assert forall|y: int|
        0 <= y < 64 implies mirrored(#[trigger] b.occ[y], a.occ[y]) && mirrored(
        b.mob[y],
        a.mob[y],
    ) by {
        lemma_mirror_ops(a.occ[y], b.occ[y], a.mob[y], b.mob[y]);
    }
}

proof fn lemma_mirror_steps(a: ChunkView, b: ChunkView, state: bool, n: int)
    requires
        mirrored_view(a, b),
        n <= 64,
    ensures
        mirrored_view(single_steps(a, state, n), single_steps(b, !state, n)),
    decreases n,
{
    if n > 1 {
        lemma_mirror_steps(a, b, state, n - 1);
        lemma_mirror_row(single_steps(a, state, n - 1), single_steps(b, !state, n - 1), n - 1, state);
    }
}

/// Law of bias symmetry: one tick of the reflected configuration, run with
/// the opposite phase flag, is the reflection of the tick. Reflecting a
/// configuration left-for-right therefore reflects its whole simulation, so
/// the alternating rule favors neither side.
pub proof fn lemma_tick_single_mirror(a: ChunkView, b: ChunkView, state: bool)
    requires
        mirrored_view(a, b),
    ensures
        mirrored_view(single_tick(a, state), single_tick(b, !state)),
{
    lemma_mirror_steps(a, b, state, 64);
}

} // verus!
