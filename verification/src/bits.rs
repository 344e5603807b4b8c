//! Reasoning about single bits of machine words.
use vstd::prelude::*;

verus! {

/// Bit `i` of a 64-bit word.
pub open spec fn bit64(w: u64, i: u64) -> bool {
    (w >> i) & 1 == 1
}

/// Bit `i` of a 32-bit word.
pub open spec fn bit32(w: u32, i: u32) -> bool {
    (w >> i) & 1 == 1
}

pub broadcast proof fn lemma_bit64_set(w: u64, i: u64, j: u64)
    by (bit_vector)
    requires
        i < 64,
        j < 64,
    ensures
        #[trigger] bit64(w | (1u64 << i), j) == (i == j || bit64(w, j)),
{
}

pub broadcast proof fn lemma_bit64_clear(w: u64, i: u64, j: u64)
    by (bit_vector)
    requires
        i < 64,
        j < 64,
    ensures
        #[trigger] bit64(w & !(1u64 << i), j) == (i != j && bit64(w, j)),
{
}

pub broadcast proof fn lemma_bit64_test(w: u64, i: u64)
    by (bit_vector)
    requires
        i < 64,
    ensures
        (#[trigger] (w & (1u64 << i)) != 0) == bit64(w, i),
{
}

pub broadcast proof fn lemma_bit64_zero(i: u64)
    by (bit_vector)
    ensures
        #[trigger] bit64(0, i) == false,
{
}

pub broadcast proof fn lemma_bit32_set(w: u32, i: u32, j: u32)
    by (bit_vector)
    requires
        i < 32,
        j < 32,
    ensures
        #[trigger] bit32(w | (1u32 << i), j) == (i == j || bit32(w, j)),
{
}

pub broadcast proof fn lemma_bit32_clear(w: u32, i: u32, j: u32)
    by (bit_vector)
    requires
        i < 32,
        j < 32,
    ensures
        #[trigger] bit32(w & !(1u32 << i), j) == (i != j && bit32(w, j)),
{
}

pub broadcast proof fn lemma_bit32_test(w: u32, i: u32)
    by (bit_vector)
    requires
        i < 32,
    ensures
        (#[trigger] (w & (1u32 << i)) != 0) == bit32(w, i),
{
}

pub broadcast proof fn lemma_and_31(x: u32)
    by (bit_vector)
    ensures
        #[trigger] (x & 31) == x % 32,
{
}

pub broadcast group group_bits {
    lemma_and_31,
    lemma_bit64_set,
    lemma_bit64_clear,
    lemma_bit64_test,
    lemma_bit64_zero,
    lemma_bit32_set,
    lemma_bit32_clear,
    lemma_bit32_test,
}

} // verus!
