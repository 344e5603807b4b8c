//! The configuration space of the PCI bus, behind a pair of ports.
use vstd::prelude::*;

use crate::pci::{EnderecoPci, JanelaMmio};

verus! {

/// How the configuration is reached.
pub const MECANISMO: &'static str = "port-io-cf8";

/// Access to the configuration space. The ports are always there.
#[derive(Clone, Copy, Debug)]
pub struct Acesso;

/// The word that selects a register of a function: the bit 31 on, then the
/// bus, the device, the function, and the register.
pub open spec fn palavra(e: EnderecoPci, deslocamento: u16) -> int {
    0x8000_0000 + e.barramento * 0x1_0000 + e.dispositivo * 0x800 + e.funcao * 0x100 + (deslocamento
        % 256 - deslocamento % 4)
}

/// The word that selects a register of a function.
pub fn selecionar(endereco: EnderecoPci, deslocamento: u16) -> (r: u32)
    requires
        endereco.valido(),
    ensures
        r == palavra(endereco, deslocamento),
{
    0x8000_0000u32 + endereco.barramento as u32 * 0x1_0000 + endereco.dispositivo as u32 * 0x800
        + endereco.funcao as u32 * 0x100 + (deslocamento % 256 - deslocamento % 4) as u32
}

/// Different functions, and different registers of one, are selected by
/// different words.
pub proof fn lei_palavras_distintas(a: EnderecoPci, x: u16, b: EnderecoPci, y: u16)
    requires
        a.valido(),
        b.valido(),
        x < 256,
        y < 256,
        a != b || x / 4 != y / 4,
    ensures
        palavra(a, x) != palavra(b, y),
{
}

/// Access to the configuration space.
pub fn acesso() -> (r: Option<Acesso>)
    ensures
        r == Some(Acesso),
{
    Some(Acesso)
}

/// The firmware gave every device its place: there is no window to hand out.
pub fn janela_mmio() -> (r: Option<JanelaMmio>)
    ensures
        r is None,
{
    None
}

/// The word says whose register it selects: bit 31 on, the bus from bit 16 on, the
/// device from bit 11, the function from bit 8, and the register below, a multiple
/// of four.
pub proof fn lei_partes_da_palavra(e: EnderecoPci, deslocamento: u16)
    requires
        e.dispositivo < 32,
        e.funcao < 8,
    ensures
        ({
            let x = palavra(e, deslocamento);
            &&& x / 0x8000_0000 == 1
            &&& x / 0x1_0000 % 256 == e.barramento
            &&& x / 0x100_0000 == 0x80
            &&& x / 0x800 % 32 == e.dispositivo
            &&& x / 0x100 % 8 == e.funcao
            &&& x % 4 == 0
            &&& deslocamento < 256 ==> x % 0x100 == deslocamento / 4 * 4
        }),
{
    let r = (deslocamento % 256 - deslocamento % 4) as int;
    assert(0 <= r < 256 && r % 4 == 0);
    lemma_partes(e.barramento as int, e.dispositivo as int, e.funcao as int, r);
}

proof fn lemma_partes(b: int, d: int, f: int, r: int)
    requires
        0 <= b < 256,
        0 <= d < 32,
        0 <= f < 8,
        0 <= r < 256,
        r % 4 == 0,
    ensures
        ({
            let x = 0x8000_0000 + b * 0x1_0000 + d * 0x800 + f * 0x100 + r;
            &&& x / 0x8000_0000 == 1
            &&& x / 0x1_0000 % 256 == b
            &&& x / 0x100_0000 == 0x80
            &&& x / 0x800 % 32 == d
            &&& x / 0x100 % 8 == f
            &&& x % 4 == 0
            &&& x % 0x100 == r
        }),
{
    let x = 0x8000_0000 + b * 0x1_0000 + d * 0x800 + f * 0x100 + r;
    assert(x / 0x100 == 0x80_0000 + b * 0x100 + d * 8 + f);
    assert(x / 0x800 == 0x10_0000 + b * 32 + d);
    assert(x / 0x1_0000 == 0x8000 + b);
}

} // verus!
