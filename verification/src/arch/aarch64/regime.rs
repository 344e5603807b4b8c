//! The registers that say how addresses are translated.
use vstd::prelude::*;

verus! {

/// How many bits of a virtual address are not translated: 25, which leaves 39.
pub const T0SZ: u64 = 25;

/// The code of a physical address of 48 bits.
pub const BITS_48: u64 = 5;

/// The kinds of memory that descriptors choose from: the first is of devices,
/// the second is of normal memory.
pub const ATRIBUTOS: u64 = 0xFF00;

/// What the translation is told, apart from how wide physical addresses are.
pub const CONTROLE: u64 = 0x8080_3519;

/// The value that `aarch64_cpu` gives for `MAIR_EL1` with the strictest kind of
/// device in the field `Attr0`, which is zero, and normal memory, written back
/// and allocated on reads and writes, in both halves of the field `Attr1`,
/// which is all ones from bit 8 to bit 15.
#[verifier::external_body]
fn valor_de_mair() -> (r: u64)
    ensures
        r == ATRIBUTOS,
{
    (aarch64_cpu::registers::MAIR_EL1::Attr0_Device::nonGathering_nonReordering_noEarlyWriteAck
        + aarch64_cpu::registers::MAIR_EL1::Attr1_Normal_Inner::WriteBack_NonTransient_ReadWriteAlloc
        + aarch64_cpu::registers::MAIR_EL1::Attr1_Normal_Outer::WriteBack_NonTransient_ReadWriteAlloc).value
}

/// The value that `aarch64_cpu` gives for `TCR_EL1` with 25 in the field
/// `T0SZ`, pages of 4 KiB in both halves (`TG0` is zero and `TG1` is 2 from bit
/// 30 up), inner shareable walks (`SH0` is 3 from bit 12 up) through caches
/// (`IRGN0` and `ORGN0` are 1 from bits 8 and 10 up), no walks in the upper
/// half (`EPD1` is bit 23), and a width of physical addresses in `IPS`, from
/// bit 32 up.
#[verifier::external_body]
fn valor_de_tcr(ips: u64) -> (r: u64)
    requires
        ips < 8,
    ensures
        r == CONTROLE + ips * 0x1_0000_0000,
{
    (aarch64_cpu::registers::TCR_EL1::T0SZ.val(25) + aarch64_cpu::registers::TCR_EL1::TG0::KiB_4
        + aarch64_cpu::registers::TCR_EL1::SH0::Inner
        + aarch64_cpu::registers::TCR_EL1::IRGN0::WriteBack_ReadAlloc_WriteAlloc_Cacheable
        + aarch64_cpu::registers::TCR_EL1::ORGN0::WriteBack_ReadAlloc_WriteAlloc_Cacheable
        + aarch64_cpu::registers::TCR_EL1::EPD1::DisableTTBR1Walks
        + aarch64_cpu::registers::TCR_EL1::TG1::KiB_4
        + aarch64_cpu::registers::TCR_EL1::IPS.val(ips)).value
}

/// How wide physical addresses are, as the processor codes it: the field
/// `PARange` of `aarch64_cpu`'s `ID_AA64MMFR0_EL1`, the four low bits.
#[verifier::external_body]
fn ler_largura_fisica(mmfr0: u64) -> (r: u64)
    ensures
        r == mmfr0 % 16,
{
    aarch64_cpu::registers::ID_AA64MMFR0_EL1::PARange.read(mmfr0)
}

/// What is written in the register of the kinds of memory.
pub fn programar_atributos_de_memoria() -> (r: u64)
    ensures
        r == ATRIBUTOS,
{
    valor_de_mair()
}

/// What is written in the register of the translation, given what the processor
/// says of itself. No more than 48 bits of physical address are used: the
/// descriptors have no room for more.
pub fn programar_controle_de_traducao(mmfr0: u64) -> (r: u64)
    ensures
        r == CONTROLE + (if mmfr0 % 16 < BITS_48 {
            mmfr0 % 16
        } else {
            BITS_48
        }) * 0x1_0000_0000,
{
    let largura: u64 = ler_largura_fisica(mmfr0);
    let ips: u64 = if largura < BITS_48 {
        largura
    } else {
        BITS_48
    };
    valor_de_tcr(ips)
}

/// The kind that the descriptor of normal memory chooses is that of normal
/// memory, and the kind of one that chooses none is that of devices.
pub proof fn lei_atributos_conferem()
    ensures
        (ATRIBUTOS / 256) % 256 == 0xFF,
        ATRIBUTOS % 256 == 0,
        crate::arch::aarch64::mmu::ATTR_NORMAL / 4 == 1,
{
}

/// The space that the register of the translation describes is the one that
/// addresses are checked against.
pub proof fn lei_espaco_confere()
    ensures
        CONTROLE % 64 == T0SZ,
        vstd::arithmetic::power2::pow2((64 - T0SZ) as nat) == crate::arch::aarch64::mmu::LIMITE_VIRTUAL,
{
    vstd::arithmetic::power2::lemma2_to64();
    vstd::arithmetic::power2::lemma_pow2_adds(32, 7);
}

} // verus!
