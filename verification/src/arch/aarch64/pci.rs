//! The configuration space of the PCI bus, mapped in memory.
use vstd::prelude::*;

use crate::arch::aarch64::fdt;
use crate::arch::aarch64::gic;
use crate::pci::{EnderecoPci, JanelaMmio};

verus! {

/// How the configuration is reached.
pub const MECANISMO: &'static str = "ecam";

/// What is known about the bus. Before the device tree is read, nothing is.
#[derive(Clone, Copy, Debug, PartialEq, Eq, Structural)]
pub struct Ponte {
    pub base: u64,
    pub tamanho: u64,
    pub janela: JanelaMmio,
}

impl Ponte {
    /// Nothing is known.
    pub open spec fn desconhecida_spec() -> Ponte {
        Ponte {
            base: 0,
            tamanho: 0,
            janela: JanelaMmio { barramento: 0, cpu: 0, tamanho: 0 },
        }
    }

    /// Nothing is known.
    pub fn desconhecida() -> (r: Ponte)
        ensures
            r == Ponte::desconhecida_spec(),
    {
        Ponte {
            base: 0,
            tamanho: 0,
            janela: JanelaMmio { barramento: 0, cpu: 0, tamanho: 0 },
        }
    }
}

/// Keeps where the configuration space is.
pub fn registrar(p: &mut Ponte, base: u64, tamanho: u64)
    ensures
        *final(p) == (Ponte { base, tamanho, ..*old(p) }),
{
    p.base = base;
    p.tamanho = tamanho;
}

/// Keeps where the devices can be put in memory.
pub fn registrar_janela(p: &mut Ponte, no_barramento: u64, na_cpu: u64, tamanho: u64)
    ensures
        *final(p) == (Ponte {
            janela: JanelaMmio { barramento: no_barramento, cpu: na_cpu, tamanho },
            ..*old(p)
        }),
{
    p.janela = JanelaMmio { barramento: no_barramento, cpu: na_cpu, tamanho };
}

/// Where the devices can be put in memory, if the device tree says so.
pub fn janela_mmio(p: &Ponte) -> (r: Option<JanelaMmio>)
    ensures
        r == if p.janela.tamanho > 0 {
            Some(p.janela)
        } else {
            None
        },
{
    if p.janela.tamanho > 0 {
        Some(p.janela)
    } else {
        None
    }
}

/// Access to the configuration space.
#[derive(Clone, Copy, Debug)]
pub struct Acesso {
    base: u64,
    tamanho: u64,
}

/// Access to the configuration space, if it is known where it is and there is
/// at least one register in it.
pub fn acesso(p: &Ponte) -> (r: Option<Acesso>)
    ensures
        match r {
            Some(a) => p.base != 0 && p.tamanho >= 4 && a.base() == p.base && a.tamanho()
                == p.tamanho,
            None => p.base == 0 || p.tamanho < 4,
        },
{
    if p.base != 0 && p.tamanho >= 4 {
        Some(Acesso { base: p.base, tamanho: p.tamanho })
    } else {
        None
    }
}

/// Where a register of a function is in the space: a mebibyte for each bus, 32
/// KiB for each device, 4 KiB for each function, and four bytes for each
/// register.
pub open spec fn no_ecam(e: EnderecoPci, deslocamento: u16) -> int {
    e.barramento * 0x10_0000 + e.dispositivo * 0x8000 + e.funcao * 0x1000 + (deslocamento % 4096
        - deslocamento % 4)
}

/// Where a register of a function is in the space.
pub fn deslocamento_no_ecam(endereco: EnderecoPci, deslocamento: u16) -> (r: u64)
    requires
        endereco.valido(),
    ensures
        r == no_ecam(endereco, deslocamento),
        r + 4 <= 0x1000_0000,
{
    endereco.barramento as u64 * 0x10_0000 + endereco.dispositivo as u64 * 0x8000
        + endereco.funcao as u64 * 0x1000 + (deslocamento % 4096 - deslocamento % 4) as u64
}

/// Different functions, and different registers of one, are at different
/// places that do not overlap.
pub proof fn lei_registros_separados(a: EnderecoPci, x: u16, b: EnderecoPci, y: u16)
    requires
        a.valido(),
        b.valido(),
        x < 4096,
        y < 4096,
        a != b || x / 4 != y / 4,
    ensures
        no_ecam(a, x) + 4 <= no_ecam(b, y) || no_ecam(b, y) + 4 <= no_ecam(a, x),
{
}

impl Acesso {
    pub closed spec fn base(&self) -> u64 {
        self.base
    }

    pub closed spec fn tamanho(&self) -> u64 {
        self.tamanho
    }

    /// The address of a register, or `None` for one beyond the space. What is
    /// read there is all ones, which is what an empty bus answers, and what is
    /// written there is lost.
    pub fn registro(&self, endereco: EnderecoPci, deslocamento: u16) -> (r: Option<u64>)
        requires
            endereco.valido(),
            self.base() + self.tamanho() <= 0x1_0000_0000_0000_0000,
        ensures
            match r {
                Some(e) => no_ecam(endereco, deslocamento) + 4 <= self.tamanho() && e
                    == self.base() + no_ecam(endereco, deslocamento),
                None => no_ecam(endereco, deslocamento) + 4 > self.tamanho(),
            },
    {
        let dentro: u64 = deslocamento_no_ecam(endereco, deslocamento);
        if dentro + 4 > self.tamanho {
            return None;
        }
        Some(self.base + dentro)
    }
}

/// The first cell of the address of a function, as the device tree writes it.
pub open spec fn celula(e: EnderecoPci) -> u32 {
    (e.barramento * 0x1_0000 + e.dispositivo * 0x800 + e.funcao * 0x100) as u32
}

/// The line on which a pin of a function interrupts. The pin 0 is for a
/// function that does not interrupt.
pub fn linha_de_interrupcao(dtb: &[u8], endereco: EnderecoPci, pino: u8) -> (r: Option<u32>)
    requires
        dtb@.len() <= isize::MAX,
        endereco.valido(),
    ensures
        r == if pino == 0 {
            None
        } else {
            match fdt::interrupcao_de(dtb@, celula(endereco), pino) {
                Some(i) => gic::intid_spec(i.tipo, i.numero),
                None => None,
            }
        },
{
    if pino == 0 {
        return None;
    }
    let alto: u32 = endereco.barramento as u32 * 0x1_0000 + endereco.dispositivo as u32 * 0x800
        + endereco.funcao as u32 * 0x100;
    match fdt::interrupcao_pci(dtb, alto, pino) {
        Some(achado) => gic::intid_de(achado.tipo, achado.numero),
        None => None,
    }
}

/// The place of a register says whose it is: the bus in the mebibytes, the device in
/// the 32 KiBs, the function in the 4 KiBs, and the register below, a multiple of
/// four.
pub proof fn lei_lugar_no_ecam(e: EnderecoPci, deslocamento: u16)
    requires
        e.dispositivo < 32,
        e.funcao < 8,
    ensures
        ({
            let x = no_ecam(e, deslocamento);
            &&& x / 0x10_0000 == e.barramento
            &&& x / 0x8000 % 32 == e.dispositivo
            &&& x / 0x1000 % 8 == e.funcao
            &&& x % 4 == 0
            &&& deslocamento < 4096 ==> x % 0x1000 == deslocamento / 4 * 4
        }),
{
}

/// The first cell of an address in the device tree says whose it is: the bus from
/// bit 16 on, the device from bit 11, the function from bit 8, nothing below.
pub proof fn lei_celula(e: EnderecoPci)
    requires
        e.dispositivo < 32,
        e.funcao < 8,
    ensures
        celula(e) / 0x1_0000 == e.barramento,
        celula(e) / 0x800 % 32 == e.dispositivo,
        celula(e) / 0x100 % 8 == e.funcao,
        celula(e) % 0x100 == 0,
{
}

} // verus!
