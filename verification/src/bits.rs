//! Population-count theory for 64-bit masks.
//!
//! Mass conservation is stated as invariance of the total number of set
//! occupancy bits, so the lemmas here relate the bit count of a word to the
//! bit counts of its masked and shifted forms.

use vstd::prelude::*;

verus! {

/// Number of set bits among the `n` lowest bits of `x`.
pub open spec fn pc_low(x: u64, n: nat) -> nat
    decreases n,
{
    if n == 0 {
        0
    } else {
        ((x & 1) as nat) + pc_low(x >> 1, (n - 1) as nat)
    }
}

/// Population count: the number of set bits in a word.
pub open spec fn pc(x: u64) -> nat {
    pc_low(x, 64)
}

/// Whether bit `i` of `x` is set.
pub open spec fn bit_at(x: u64, i: u64) -> bool {
    (x >> i) & 1 == 1
}

/// How the bits of a masked or shifted word read from the bits of the word.
pub proof fn lemma_bit_facts()
    by (bit_vector)
    ensures
        forall|x: u64, z: u64, i: u64|
            i < 64 ==> (#[trigger] bit_at(x & z, i) == (bit_at(x, i) && bit_at(z, i))),
        forall|x: u64, z: u64, i: u64|
            i < 64 ==> (#[trigger] bit_at(x | z, i) == (bit_at(x, i) || bit_at(z, i))),
        forall|x: u64, i: u64| i < 64 ==> (#[trigger] bit_at(!x, i) == !bit_at(x, i)),
        forall|x: u64, k: u64, i: u64|
            k < 64 && i < 64 ==> (#[trigger] bit_at(x << k, i) == (i >= k && bit_at(
                x,
                (i - k) as u64,
            ))),
        forall|x: u64, k: u64, i: u64|
            k < 64 && i < 64 ==> (#[trigger] bit_at(x >> k, i) == (i + k < 64 && bit_at(
                x,
                (i + k) as u64,
            ))),
{
}

pub proof fn lemma_pc_low_zero(n: nat)
    ensures
        pc_low(0, n) == 0,
    decreases n,
{
    if n > 0 {
        assert(0u64 >> 1 == 0 && 0u64 & 1 == 0) by (bit_vector);
        lemma_pc_low_zero((n - 1) as nat);
        assert(pc_low(0, n) == ((0u64 & 1) as nat) + pc_low(0u64 >> 1, (n - 1) as nat));
    }
}

/// Counting one more bit at the top adds exactly that bit.
pub proof fn lemma_pc_low_top(x: u64, n: nat)
    requires
        n <= 63,
    ensures
        pc_low(x, n + 1) == pc_low(x, n) + (((x >> (n as u64)) & 1) as nat),
    decreases n,
{
    if n == 0 {
        assert(x >> 0 == x) by (bit_vector);
        assert(pc_low(x, 1) == ((x & 1) as nat) + pc_low(x >> 1, 0));
    } else {
        lemma_pc_low_top(x >> 1, (n - 1) as nat);
        let k = n as u64;
        assert((x >> 1) >> ((k - 1) as u64) == x >> k) by (bit_vector)
            requires
                1 <= k < 64,
        ;
        assert(pc_low(x, n + 1) == ((x & 1) as nat) + pc_low(x >> 1, n));
        assert(pc_low(x, n) == ((x & 1) as nat) + pc_low(x >> 1, (n - 1) as nat));
        assert(pc_low(x >> 1, n) == pc_low(x >> 1, (n - 1) as nat) + ((((x >> 1) >> (((n - 1) as nat) as u64)) & 1) as nat));
        assert((((n - 1) as nat) as u64) == (k - 1) as u64);
    }
}

proof fn lemma_pc_low_or_disjoint(a: u64, b: u64, n: nat)
    requires
        a & b == 0,
    ensures
        pc_low(a | b, n) == pc_low(a, n) + pc_low(b, n),
    decreases n,
{
    if n > 0 {
        assert((a | b) >> 1 == (a >> 1) | (b >> 1) && (a >> 1) & (b >> 1) == 0 && ((a | b)
            & 1) as nat == ((a & 1) as nat) + ((b & 1) as nat)) by (bit_vector)
            requires
                a & b == 0,
        ;
        lemma_pc_low_or_disjoint(a >> 1, b >> 1, (n - 1) as nat);
    }
}

/// Disjoint words contribute independently to the bit count.
pub proof fn lemma_pc_or_disjoint(a: u64, b: u64)
    requires
        a & b == 0,
    ensures
        pc(a | b) == pc(a) + pc(b),
{
    lemma_pc_low_or_disjoint(a, b, 64);
}

/// A word splits into the part inside a mask and the part outside it.
pub proof fn lemma_pc_split(a: u64, m: u64)
    ensures
        pc(a) == pc(a & m) + pc(a & !m),
{
    assert((a & m) & (a & !m) == 0 && (a & m) | (a & !m) == a) by (bit_vector);
    lemma_pc_or_disjoint(a & m, a & !m);
}

/// Shifting right by one removes exactly the lowest bit.
pub proof fn lemma_pc_shr1(x: u64)
    ensures
        pc(x >> 1) == pc(x) - ((x & 1) as nat),
{
    assert((x >> 1) >> 63 == 0) by (bit_vector);
    lemma_pc_low_top(x >> 1, 63);
    assert(((x >> 1) >> 63) & 1 == 0) by (bit_vector);
}

/// Shifting right by `k` removes exactly the `k` lowest bits.
pub proof fn lemma_pc_shr(x: u64, k: u64)
    requires
        k <= 63,
    ensures
        pc(x >> k) == pc(x) - pc_low(x, k as nat),
    decreases k,
{
    if k == 0 {
        assert(x >> 0 == x) by (bit_vector);
    } else {
        lemma_pc_shr(x >> 1, (k - 1) as u64);
        assert((x >> 1) >> ((k - 1) as u64) == x >> k) by (bit_vector)
            requires
                1 <= k <= 63,
        ;
        lemma_pc_shr1(x);
    }
}

/// Shifting left by `k` keeps exactly the `64 - k` lowest bits.
pub proof fn lemma_pc_shl(x: u64, k: u64)
    requires
        k <= 63,
    ensures
        pc(x << k) == pc_low(x, (64 - k) as nat),
    decreases k,
{
    if k == 0 {
        assert(x << 0 == x) by (bit_vector);
    } else {
        lemma_pc_shl(x, (k - 1) as u64);
        let y = x << (k - 1) as u64;
        assert(pc(y) == pc_low(x, (64 - ((k - 1) as u64)) as nat));
        assert(x << k == y << 1 && (y >> 63) & 1 == ((x >> ((64 - k) as u64)) & 1) && ((y >> 63) & 1
            == 0 || (y >> 63) & 1 == 1)) by (bit_vector)
            requires
                1 <= k <= 63 && y == x << ((k - 1) as u64),
        ;
        // Shifting left by one drops the top bit and keeps the rest.
        let t = y & !(1u64 << 63);
        assert((y << 1) >> 1 == t && (y << 1) & 1 == 0 && (t >> 63) & 1 == 0) by (bit_vector)
            requires
                t == y & !(1u64 << 63),
        ;
        assert(pc(y << 1) == (((y << 1) & 1) as nat) + pc_low((y << 1) >> 1, 63));
        lemma_pc_low_top(t, 63);
        assert(pc_low(t, 63) == pc(t));
        lemma_pc_split(y, !(1u64 << 63));
        assert(y & !!(1u64 << 63) == (if (y >> 63) & 1 == 1 {
            1u64 << 63
        } else {
            0u64
        })) by (bit_vector);
        if (y >> 63) & 1 == 1 {
            lemma_pc_top_bit();
            assert(pc(y << 1) == pc(y) - 1);
        } else {
            lemma_pc_low_zero(64);
            assert(pc(y << 1) == pc(y));
        }
        lemma_pc_low_top(x, (64 - k) as nat);
        assert((((64 - k) as nat) as u64) == (64 - k) as u64);
        assert(pc_low(x, (64 - k) as nat + 1) == pc_low(x, (64 - k) as nat) + (((x >> ((64
            - k) as u64)) & 1) as nat));
        assert((64 - ((k - 1) as u64)) as nat == (64 - k) as nat + 1);
        assert(pc(y) == pc_low(x, (64 - k) as nat) + (((x >> ((64 - k) as u64)) & 1) as nat));
        assert(pc(x << k) == pc(y << 1));
        assert(pc(y << 1) == pc(y) - (((x >> ((64 - k) as u64)) & 1) as nat));
    }
}

/// The word with only the top bit set has bit count one.
pub proof fn lemma_pc_top_bit()
    ensures
        pc(1u64 << 63) == 1,
{
    lemma_pc_shr(1u64 << 63, 63);
    assert((1u64 << 63) >> 63 == 1) by (bit_vector);
    lemma_pc_low_63_of_top();
    assert(pc(1u64) == 1) by {
        assert(1u64 & 1 == 1 && 1u64 >> 1 == 0) by (bit_vector);
        lemma_pc_low_zero(63);
    }
}

proof fn lemma_pc_low_63_of_top()
    ensures
        pc_low(1u64 << 63, 63) == 0,
{
    assert(forall|i: u64| i < 63 ==> ((1u64 << 63) >> i) & 1 == 0) by (bit_vector);
    lemma_pc_low_le(1u64 << 63, 63);
}

/// The `n` low bits of `x` count zero when they are all clear.
pub proof fn lemma_pc_low_le(x: u64, n: nat)
    requires
        n <= 63,
        forall|i: u64| i < n ==> (x >> i) & 1 == 0,
    ensures
        pc_low(x, n) == 0,
    decreases n,
{
    if n > 0 {
        assert(x & 1 == (x >> 0) & 1) by (bit_vector);
        assert((x >> 0) & 1 == 0);
        assert forall|i: u64| i < (n - 1) as nat implies ((x >> 1) >> i) & 1 == 0 by {
            assert((x >> 1) >> i == x >> ((i + 1) as u64)) by (bit_vector)
                requires
                    i < 63,
            ;
            assert((x >> ((i + 1) as u64)) & 1 == 0);
        }
        lemma_pc_low_le(x >> 1, (n - 1) as nat);
    }
}

/// A word that is zero or one counts itself.
pub proof fn lemma_pc_le_1(x: u64)
    requires
        x <= 1,
    ensures
        pc(x) == x,
{
    if x == 0 {
        lemma_pc_low_zero(64);
    } else {
        assert(1u64 & 1 == 1 && 1u64 >> 1 == 0) by (bit_vector);
        lemma_pc_low_zero(63);
    }
}

} // verus!
