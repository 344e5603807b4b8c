//! Integers as bytes, with the least significant byte first.
use vstd::prelude::*;

verus! {

/// The number that `n` bytes from `em` on write, the least significant first.
pub open spec fn le(b: Seq<u8>, em: int, n: nat) -> nat
    decreases n,
{
    if n == 0 {
        0
    } else {
        (b[em] as nat) + 256 * le(b, em + 1, (n - 1) as nat)
    }
}

/// The number of `n` bytes at `em`, where they are all there.
pub open spec fn le_em(b: Seq<u8>, em: int, n: nat) -> Option<nat> {
    if em + n <= b.len() {
        Some(le(b, em, n))
    } else {
        None
    }
}

/// A number of 32 bits at `em`, or `None` where the bytes end before it does.
pub fn u32_em(b: &[u8], em: usize) -> (r: Option<u32>)
    ensures
        match r {
            Some(v) => le_em(b@, em as int, 4) == Some(v as nat),
            None => le_em(b@, em as int, 4) is None,
        },
{
    if b.len() < 4 || em > b.len() - 4 {
        return None;
    }
    proof {
        reveal_with_fuel(le, 5);
    }
    Some(
        b[em] as u32 + 0x100 * (b[em + 1] as u32) + 0x1_0000 * (b[em + 2] as u32) + 0x100_0000 * (
        b[em + 3] as u32),
    )
}

proof fn lemma_duas_metades(b: Seq<u8>, em: int)
    ensures
        le(b, em, 8) == le(b, em, 4) + 0x1_0000_0000 * le(b, em + 4, 4),
        le(b, em, 4) < 0x1_0000_0000,
        le(b, em + 4, 4) < 0x1_0000_0000,
{
    reveal_with_fuel(le, 9);
}

/// A number of 64 bits at `em`, or `None` where the bytes end before it does.
pub fn u64_em(b: &[u8], em: usize) -> (r: Option<u64>)
    ensures
        match r {
            Some(v) => le_em(b@, em as int, 8) == Some(v as nat),
            None => le_em(b@, em as int, 8) is None,
        },
{
    if b.len() < 8 || em > b.len() - 8 {
        return None;
    }
    proof {
        lemma_duas_metades(b@, em as int);
    }
    match (u32_em(b, em), u32_em(b, em + 4)) {
        (Some(baixa), Some(alta)) => Some(baixa as u64 + 0x1_0000_0000 * (alta as u64)),
        _ => None,
    }
}

/// Each byte counts 256 times as much as the one before it, and none is left
/// out.
pub proof fn lei_bytes_do_menos_significativo(b: Seq<u8>, em: int)
    ensures
        le(b, em, 2) == b[em] + 0x100 * b[em + 1],
        le(b, em, 4) == b[em] + 0x100 * b[em + 1] + 0x1_0000 * b[em + 2] + 0x100_0000 * b[em + 3],
        le(b, em, 8) == b[em] + 0x100 * b[em + 1] + 0x1_0000 * b[em + 2] + 0x100_0000 * b[em + 3]
            + 0x1_0000_0000 * b[em + 4] + 0x100_0000_0000 * b[em + 5] + 0x1_0000_0000_0000 * b[em
            + 6] + 0x100_0000_0000_0000 * b[em + 7],
{
    reveal_with_fuel(le, 9);
}

/// A number is there exactly where all of its bytes are.
pub proof fn lei_numero_inteiro_ou_nenhum(b: Seq<u8>, em: int, n: nat)
    ensures
        le_em(b, em, n) is Some <==> em + n <= b.len(),
        le_em(b, em, n) is Some ==> le_em(b, em, n)->0 == le(b, em, n),
{
}

} // verus!
