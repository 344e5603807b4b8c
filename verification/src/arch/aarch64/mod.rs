//! The aarch64: its map of the virtual space and the parts that decide.
use vstd::prelude::*;

pub mod contexto;
pub mod fdt;
pub mod gic;
pub mod mmu;
pub mod pci;
pub mod regime;
pub mod usuario;
pub mod vetores;

use crate::arch::{IdCpu, Repouso};
use crate::frames::Alocador;
use crate::machine::{Maquina, Regiao, TipoRegiao};
use crate::mmio::Faixa;
use crate::paginacao::Tradutor;
use crate::qemu::ExitCode;

verus! {

/// Where the range for device memory starts: 192 GiB.
pub const BASE_DE_MMIO: u64 = 0x0000_0030_0000_0000;

/// Where the kernel heap starts: 64 GiB.
pub const BASE_DO_HEAP: u64 = 0x0000_0010_0000_0000;

/// Where the thread stacks start: 128 GiB.
pub const BASE_DAS_PILHAS: u64 = 0x0000_0020_0000_0000;

/// How much one entry of the top table covers: 1 GiB.
pub const COBERTURA_DA_ENTRADA_DE_TOPO: u64 = 0x4000_0000;

/// The entry of the top table that holds the user's space.
pub const ENTRADA_DO_USUARIO: usize = 4;

/// The address belongs to the entry of the top table that is not shared.
pub open spec fn privado(virtual_: u64) -> bool {
    virtual_ / COBERTURA_DA_ENTRADA_DE_TOPO == ENTRADA_DO_USUARIO
}

/// Does the address belong to the entry of the top table that each space has
/// for itself? Every other entry is shared between all spaces.
pub fn e_privado(virtual_: u64) -> (r: bool)
    ensures
        r == privado(virtual_),
{
    virtual_ / COBERTURA_DA_ENTRADA_DE_TOPO == ENTRADA_DO_USUARIO as u64
}

/// Name of the architecture on the agent's channel.
pub fn nome() -> (r: &'static str)
    ensures
        r@ == "aarch64"@,
{
    "aarch64"
}

/// The fault a stack overflow raises: the guard page has no translation.
pub fn falha_de_estouro_de_pilha() -> (r: &'static str)
    ensures
        r@ == "data_abort"@,
{
    "data_abort"
}

/// Interrupts of the timer per second that are asked for.
pub const HZ: u32 = 100;

/// Where the device tree is, and how long it is; zero where there is none that
/// can be read.
#[derive(Clone, Copy, Debug, PartialEq, Eq, Structural)]
pub struct Dtb {
    pub inicio: u64,
    pub tamanho: u64,
}

/// Keeps where the device tree is, where its header can be read.
pub fn registrar_dtb(inicio: u64, bytes: &[u8]) -> (r: Dtb)
    ensures
        r == if bytes@.len() >= 8 && fdt::be32_spec(bytes@, 0) == fdt::MAGIC {
            Dtb { inicio, tamanho: fdt::be32_spec(bytes@, 4) as u64 }
        } else {
            Dtb { inicio: 0, tamanho: 0 }
        },
{
    match fdt::tamanho_total(bytes) {
        Some(tamanho) => Dtb { inicio, tamanho },
        None => Dtb { inicio: 0, tamanho: 0 },
    }
}

/// Where the device tree is.
pub fn dtb(d: &Dtb) -> (r: u64)
    ensures
        r == d.inicio,
{
    d.inicio
}

/// Regions of memory out of ranges, each with its start and its size.
pub open spec fn regioes_de(faixas: Seq<(u64, u64)>) -> Seq<Regiao> {
    Seq::new(
        faixas.len(),
        |i: int|
            Regiao {
                inicio: faixas[i].0,
                fim: (faixas[i].0 + faixas[i].1) as u64,
                tipo: TipoRegiao::Utilizavel,
            },
    )
}

/// The regions that a machine keeps of those that are added one after the
/// other, and how many it does not.
pub open spec fn guardadas(antes: Seq<Regiao>, novas: Seq<Regiao>) -> (Seq<Regiao>, int)
    decreases novas.len(),
{
    if novas.len() == 0 {
        (antes, 0)
    } else {
        let (ate, fora) = guardadas(antes, novas.drop_last());
        if novas.last().valida() && ate.len() < crate::machine::MAX_REGIOES {
            (ate.push(novas.last()), fora)
        } else {
            (ate, fora + 1)
        }
    }
}

/// Adds the ranges of memory of a device tree to the machine, as memory that
/// can be used.
pub fn adicionar_faixas(m: &mut Maquina, faixas: &[(u64, u64)])
    requires
        old(m).wf(),
        old(m).descartadas() + faixas@.len() < usize::MAX,
        forall|i: int|
            0 <= i < faixas@.len() ==> (#[trigger] faixas@[i]).0 + faixas@[i].1 <= u64::MAX,
    ensures
        final(m).wf(),
        (final(m).regioes(), final(m).descartadas() - old(m).descartadas()) == guardadas(
            old(m).regioes(),
            regioes_de(faixas@),
        ),
{
    let mut i: usize = 0;
    let ghost novas = regioes_de(faixas@);
    let ghost m0 = *m;
    while i < faixas.len()
        invariant
            i <= faixas@.len(),
            m.wf(),
            m0 == *old(m),
            novas == regioes_de(faixas@),
            m.descartadas() <= m0.descartadas() + i,
            m0.descartadas() + faixas@.len() < usize::MAX,
            forall|j: int|
                0 <= j < faixas@.len() ==> (#[trigger] faixas@[j]).0 + faixas@[j].1 <= u64::MAX,
            (m.regioes(), m.descartadas() - m0.descartadas()) == guardadas(
                m0.regioes(),
                novas.take(i as int),
            ),
        decreases faixas@.len() - i,
    {
        let (inicio, tamanho) = faixas[i];
        proof {
            assert(faixas@[i as int].0 + faixas@[i as int].1 <= u64::MAX);
            assert(novas.take(i + 1).drop_last() =~= novas.take(i as int));
            assert(novas.take(i + 1).last() == novas[i as int]);
        }
        let regiao = Regiao { inicio, fim: inicio + tamanho, tipo: TipoRegiao::Utilizavel };
        crate::machine::adicionar_regiao(m, regiao);
        i = i + 1;
    }
    proof {
        assert(novas.take(i as int) =~= novas);
    }
}

/// Ranges that no frame may be taken from: the kernel's own image, and the
/// device tree.
pub fn reservar_faixas(imagem: (u64, u64), d: &Dtb) -> (r: Vec<(u64, u64)>)
    requires
        d.inicio + d.tamanho <= u64::MAX,
    ensures
        r@ == if d.tamanho > 0 {
            seq![imagem, (d.inicio, (d.inicio + d.tamanho) as u64)]
        } else {
            seq![imagem]
        },
{
    let mut r: Vec<(u64, u64)> = Vec::new();
    r.push(imagem);
    if d.tamanho > 0 {
        r.push((d.inicio, d.inicio + d.tamanho));
    }
    proof {
        assert(d.tamanho > 0 ==> r@ =~= seq![imagem, (d.inicio, (d.inicio + d.tamanho) as u64)]);
        assert(d.tamanho == 0 ==> r@ =~= seq![imagem]);
    }
    r
}

/// How much of the configuration space one bus takes.
pub const TAMANHO_DE_UM_BARRAMENTO: u64 = 0x10_0000;

/// What came of looking for the PCI bus.
pub enum Barramento {
    /// The device tree describes none.
    Ausente,
    /// Its configuration space could not be mapped.
    NaoMapeado(&'static str),
    /// It can be used, with so many bytes mapped of its configuration space;
    /// the devices have no window of 32 bits to be put in.
    SemJanela { base: u64, janela: u64 },
    /// It can be used, and the devices can be put in memory.
    Pronto { base: u64, janela: u64 },
}

/// How much of a configuration space is mapped: one bus.
pub open spec fn mapeado_do_ecam(tamanho: u64) -> u64 {
    if tamanho < TAMANHO_DE_UM_BARRAMENTO {
        tamanho
    } else {
        TAMANHO_DE_UM_BARRAMENTO
    }
}

/// Finds the PCI bus in the device tree, maps its configuration space, and
/// keeps what the walk over the bus needs.
pub fn init_pci<T: Tradutor>(
    ponte: &mut pci::Ponte,
    faixa: &mut Faixa,
    t: &mut T,
    a: &mut Alocador,
    dtb: &[u8],
) -> (r: Barramento)
    requires
        old(faixa).wf(),
        old(t).wf(old(a)),
        dtb@.len() <= isize::MAX,
    ensures
        final(faixa).wf(),
        final(t).wf(final(a)),
        match fdt::barramento(dtb@) {
            None => r is Ausente && *final(ponte) == *old(ponte) && *final(faixa) == *old(faixa)
                && *final(t) == *old(t) && *final(a) == *old(a),
            Some(b) => {
                let (base, tamanho) = b.ecam;
                let janela = mapeado_do_ecam(tamanho);
                let onde = (old(faixa).proximo() + base % 4096) as u64;
                let ocupado = crate::mmio::ocupa(base, janela);
                &&& final(faixa).base() == old(faixa).base()
                &&& final(faixa).fim() == old(faixa).fim()
                &&& final(faixa).proximo() == if r is NaoMapeado && (janela == 0 || ocupado > u64::MAX
                    || old(faixa).proximo() + ocupado > old(faixa).fim()) {
                    old(faixa).proximo() as int
                } else {
                    old(faixa).proximo() + ocupado
                }
                &&& crate::mmio::resto_intacto(old(t), old(a), final(t), final(a))
                &&& match r {
                    Barramento::Ausente => false,
                    Barramento::NaoMapeado(motivo) => {
                        &&& *final(ponte) == *old(ponte)
                        &&& crate::paginacao::mesmas_paginas(final(t), old(t))
                        &&& crate::mmio::recusado(
                            old(faixa),
                            old(t),
                            old(a),
                            base,
                            janela,
                            motivo,
                        )
                    },
                    Barramento::SemJanela { base: b1, janela: j1 } => {
                        &&& b.mmio32 is None
                        &&& (b1, j1) == (base, janela)
                        &&& *final(ponte) == (pci::Ponte { base: onde, tamanho: janela, ..*old(ponte) })
                        &&& ecam_mapeado(old(faixa), old(t), final(t), base, janela)
                    },
                    Barramento::Pronto { base: b1, janela: j1 } => {
                        &&& b.mmio32 is Some
                        &&& (b1, j1) == (base, janela)
                        &&& *final(ponte) == (pci::Ponte {
                            base: onde,
                            tamanho: janela,
                            janela: crate::pci::JanelaMmio {
                                barramento: (b.mmio32->0).0,
                                cpu: (b.mmio32->0).1,
                                tamanho: (b.mmio32->0).2,
                            },
                        })
                        &&& ecam_mapeado(old(faixa), old(t), final(t), base, janela)
                    },
                }
            },
        },
{
    let b = match fdt::encontrar_barramento_pci(dtb) {
        None => {
            return Barramento::Ausente;
        },
        Some(b) => b,
    };
    let (base, tamanho) = b.ecam;
    let janela: u64 = if tamanho < TAMANHO_DE_UM_BARRAMENTO {
        tamanho
    } else {
        TAMANHO_DE_UM_BARRAMENTO
    };
    let onde: u64 = match crate::mmio::mapear(faixa, t, a, base, janela) {
        Ok(onde) => onde,
        Err(motivo) => {
            return Barramento::NaoMapeado(motivo);
        },
    };
    pci::registrar(ponte, onde, janela);
    match b.mmio32 {
        None => Barramento::SemJanela { base, janela },
        Some((no_barramento, na_cpu, quanto)) => {
            pci::registrar_janela(ponte, no_barramento, na_cpu, quanto);
            Barramento::Pronto { base, janela }
        },
    }
}

/// The configuration space is mapped as memory of a device where the range had
/// room.
pub open spec fn ecam_mapeado<T: Tradutor>(
    faixa: &Faixa,
    t0: &T,
    t: &T,
    base: u64,
    janela: u64,
) -> bool {
    crate::mmio::do_dispositivo(
        t0,
        t,
        faixa.proximo(),
        (base - base % 4096) as u64,
        crate::mmio::ocupa(base, janela) / 4096,
    )
}

/// What to do to wait for an interrupt.
pub fn esperar_interrupcao(habilitadas: bool) -> (r: Repouso)
    ensures
        r == if habilitadas {
            Repouso::Dormir
        } else {
            Repouso::Girar
        },
{
    if habilitadas {
        Repouso::Dormir
    } else {
        Repouso::Girar
    }
}

/// What to do, with interrupts held back, once it is known whether there is
/// something to do. An interrupt that is held back ends the sleep too.
pub fn dormir_se_ocioso(ocioso: bool) -> (r: Repouso)
    ensures
        r == if ocioso {
            Repouso::Dormir
        } else {
            Repouso::Seguir
        },
{
    if ocioso {
        Repouso::Dormir
    } else {
        Repouso::Seguir
    }
}

/// Whether interrupts get through, given the register of the masks:
/// `DAIF::I::Unmasked` of `aarch64_cpu`, which is bit 7 off, matched by
/// `tock_registers`.
#[verifier::external_body]
fn nao_mascaradas(daif: u64) -> (r: bool)
    ensures
        r == ((daif >> 7) & 1 == 0),
{
    aarch64_cpu::registers::DAIF::I::Unmasked.matches_all(daif)
}

/// Do interrupts get through?
pub fn interrupcoes_habilitadas(daif: u64) -> (r: bool)
    ensures
        r == ((daif >> 7) & 1 == 0),
{
    nao_mascaradas(daif)
}

/// Who made the processor, as its identification register codes it: the field
/// `Implementer` of `aarch64_cpu`'s `MIDR_EL1`, eight bits from bit 24 up, read
/// out of a value by `tock_registers`.
#[verifier::external_body]
fn ler_fabricante(midr: u64) -> (r: u64)
    ensures
        r == (midr >> 24) & 0xFF,
{
    aarch64_cpu::registers::MIDR_EL1::Implementer.read(midr)
}

/// The name of who made the processor.
pub open spec fn fabricante(codigo: u64) -> &'static str {
    if codigo == 0x41 {
        "ARM Limited"
    } else if codigo == 0x42 {
        "Broadcom"
    } else if codigo == 0x43 {
        "Cavium"
    } else if codigo == 0x44 {
        "Digital Equipment"
    } else if codigo == 0x46 {
        "Fujitsu"
    } else if codigo == 0x48 {
        "HiSilicon"
    } else if codigo == 0x49 {
        "Infineon"
    } else if codigo == 0x4e {
        "NVIDIA"
    } else if codigo == 0x50 {
        "Applied Micro"
    } else if codigo == 0x51 {
        "Qualcomm"
    } else if codigo == 0x56 {
        "Marvell"
    } else if codigo == 0x61 {
        "Apple"
    } else if codigo == 0x69 {
        "Intel"
    } else if codigo == 0xc0 {
        "Ampere"
    } else {
        "desconhecido"
    }
}

/// Who made the processor, out of its identification register.
pub fn identificar_cpu(midr: u64) -> (r: IdCpu)
    ensures
        ({
            let nome = vstd::utf8::encode_utf8(fabricante((midr >> 24) & 0xFF)@);
            r@ == if nome.len() <= crate::arch::MAX_ID_CPU {
                nome
            } else {
                nome.take(crate::arch::MAX_ID_CPU as int)
            }
        }),
{
    let nome: &'static str = match ler_fabricante(midr) {
        0x41 => "ARM Limited",
        0x42 => "Broadcom",
        0x43 => "Cavium",
        0x44 => "Digital Equipment",
        0x46 => "Fujitsu",
        0x48 => "HiSilicon",
        0x49 => "Infineon",
        0x4e => "NVIDIA",
        0x50 => "Applied Micro",
        0x51 => "Qualcomm",
        0x56 => "Marvell",
        0x61 => "Apple",
        0x69 => "Intel",
        0xc0 => "Ampere",
        _ => "desconhecido",
    };
    IdCpu::de_bytes(nome.as_bytes())
}

/// The block that tells the emulator how a run went: that it is over, and its
/// code.
pub fn encerrar_emulador(resultado: ExitCode) -> (r: [u64; 2])
    ensures
        r@[0] == 0x20026,
        r@[1] == match resultado {
            ExitCode::Success => 0u64,
            ExitCode::Failed => 1u64,
        },
{
    let codigo: u64 = match resultado {
        ExitCode::Success => 0,
        ExitCode::Failed => 1,
    };
    [0x20026, codigo]
}

/// What is a process's own is the fifth GiB.
pub proof fn lei_privado(v: u64)
    ensures
        privado(v) <==> 0x1_0000_0000 <= v < 0x1_4000_0000,
{
}

/// A range of memory that starts at a place and has a size is a usable region with
/// that start and that many bytes.
pub proof fn lei_regioes_de(faixas: Seq<(u64, u64)>, i: int)
    requires
        0 <= i < faixas.len(),
        faixas[i].0 + faixas[i].1 <= u64::MAX,
    ensures
        regioes_de(faixas).len() == faixas.len(),
        regioes_de(faixas)[i].inicio == faixas[i].0,
        regioes_de(faixas)[i].fim - regioes_de(faixas)[i].inicio == faixas[i].1,
        regioes_de(faixas)[i].tipo is Utilizavel,
{
}

/// What the machine keeps: the regions that were there, then those of the new ones
/// that end after they start, in order, up to 64 in all; every other is counted.
pub proof fn lei_guardadas(antes: Seq<Regiao>, novas: Seq<Regiao>)
    requires
        antes.len() <= 64,
    ensures
        ({
            let (r, fora) = guardadas(antes, novas);
            let boas = novas.filter(|x: Regiao| x.inicio < x.fim);
            let todas = antes + boas;
            &&& r == if todas.len() <= 64 {
                todas
            } else {
                todas.take(64)
            }
            &&& (r.len() - antes.len()) + fora == novas.len()
        }),
    decreases novas.len(),
{
    reveal(Seq::filter);
    let p = |x: Regiao| x.inicio < x.fim;
    if novas.len() > 0 {
        let d = novas.drop_last();
        lei_guardadas(antes, d);
        let todas_d = antes + d.filter(p);
        let todas = antes + novas.filter(p);
        if novas.last().valida() {
            assert(novas.filter(p) =~= d.filter(p).push(novas.last()));
            assert(todas =~= todas_d.push(novas.last()));
            if todas_d.len() >= 64 {
                assert(todas.take(64) =~= if todas_d.len() <= 64 {
                    todas_d
                } else {
                    todas_d.take(64)
                });
            }
        } else {
            assert(novas.filter(p) =~= d.filter(p));
        }
    } else {
        assert(novas.filter(p) =~= Seq::<Regiao>::empty());
        assert(antes + novas.filter(p) =~= antes);
    }
}

/// Of a configuration space no more than the mebibyte of one bus is mapped, and no
/// more than there is.
pub proof fn lei_mapeado_do_ecam(tamanho: u64)
    ensures
        mapeado_do_ecam(tamanho) <= tamanho,
        mapeado_do_ecam(tamanho) <= 0x10_0000,
        mapeado_do_ecam(tamanho) == tamanho || mapeado_do_ecam(tamanho) == 0x10_0000,
{
}

} // verus!
