//! Interrupts and exceptions: what is done about each.
use vstd::prelude::*;

use crate::arch::x86_64::pic;
use crate::fios::Escalonador;
use crate::irq::Linhas;

verus! {

/// Lines that the controllers have.
pub const LINHAS: u8 = 16;

/// The line of the keyboard.
pub const IRQ_TECLADO: u8 = 1;

/// Whose interrupt it is.
#[derive(Clone, Copy, Debug, PartialEq, Eq, Structural)]
pub enum Fonte {
    /// The timer: count the tick.
    Timer,
    /// The keyboard: read what it says, or it interrupts no more.
    Teclado,
    /// The serial port: collect what arrived.
    Serial,
    /// A device of the bus: look at each of those on this line.
    Dispositivo,
}

/// Whose line it is.
pub open spec fn fonte_da(linha: u8) -> Fonte {
    if linha == pic::IRQ_TIMER {
        Fonte::Timer
    } else if linha == IRQ_TECLADO {
        Fonte::Teclado
    } else if linha == pic::IRQ_SERIAL_AGENTE {
        Fonte::Serial
    } else {
        Fonte::Dispositivo
    }
}

/// An interrupt that was counted.
#[derive(Clone, Copy, Debug, PartialEq, Eq, Structural)]
pub struct Atendida {
    pub fonte: Fonte,
    /// The slave is told, too, that the interrupt was handled.
    pub avisar_escravo: bool,
    /// The quantum of the thread ran out.
    pub preemptar: bool,
}

/// What to do about an interrupt of a line.
pub fn atender<C, D>(linhas: &mut Linhas, e: &mut Escalonador<C, D>, linha: u8) -> (r: Atendida)
    requires
        old(linhas).wf(),
        old(e).wf(),
        linha < LINHAS,
    ensures
        final(linhas).wf(),
        final(e).wf(),
        final(linhas).nomes() == old(linhas).nomes(),
        final(linhas).total_spec() == old(linhas).total_spec().wrapping_add(1),
        final(linhas).fora() == old(linhas).fora(),
        final(linhas).contadores() == old(linhas).contadores().update(
            linha as int,
            old(linhas).contadores()[linha as int].wrapping_add(1),
        ),
        r.fonte == fonte_da(linha),
        r.avisar_escravo == (linha >= 8),
        linha != pic::IRQ_TIMER ==> !r.preemptar && *final(e) == *old(e),
        linha == pic::IRQ_TIMER ==> crate::fios::bateu(old(e), final(e), r.preemptar),
{
    let mut preemptar: bool = false;
    let fonte = if linha == pic::IRQ_TIMER {
        preemptar = crate::fios::tique(e);
        Fonte::Timer
    } else if linha == IRQ_TECLADO {
        Fonte::Teclado
    } else if linha == pic::IRQ_SERIAL_AGENTE {
        Fonte::Serial
    } else {
        Fonte::Dispositivo
    };
    crate::irq::contabilizar(linhas, linha as usize);
    Atendida {
        fonte,
        avisar_escravo: pic::fim_de_interrupcao(pic::OFFSET_MESTRE + linha),
        preemptar,
    }
}

/// What an exception asks for.
#[derive(Clone, Copy, Debug)]
pub enum Excecao {
    /// Record it and go on.
    Registrar { nome: &'static str, pc: u64 },
    /// The process is over; the kernel goes on.
    MatarProcesso { nome: &'static str, pc: u64, endereco: Option<u64>, codigo: u64 },
    /// There is nothing to go back to.
    Fatal { nome: &'static str, pc: u64, endereco: Option<u64>, codigo: u64 },
}

/// The level of privilege that a code segment has:
/// `x86_64::registers::segmentation::SegmentSelector::rpl` gives the two low
/// bits of the selector.
#[verifier::external_body]
fn privilegio(seletor: u16) -> (r: u8)
    ensures
        r == seletor % 4,
{
    x86_64::registers::segmentation::SegmentSelector(seletor).rpl() as u8
}

/// Whether a page fault happened without privilege: the flag `USER_MODE` of
/// `x86_64::structures::idt::PageFaultErrorCode`, which is bit 2.
#[verifier::external_body]
fn falha_de_usuario(codigo: u64) -> (r: bool)
    ensures
        r == (codigo & 4 != 0),
{
    let flags = x86_64::structures::idt::PageFaultErrorCode::from_bits_retain(codigo);
    flags.contains(x86_64::structures::idt::PageFaultErrorCode::USER_MODE)
}

/// A breakpoint.
pub fn ponto_de_parada(pc: u64) -> (r: Excecao)
    ensures
        r == (Excecao::Registrar { nome: "breakpoint", pc }),
{
    Excecao::Registrar { nome: "breakpoint", pc }
}

/// An instruction that does not exist.
pub fn opcode_invalido(pc: u64) -> (r: Excecao)
    ensures
        r == (Excecao::Fatal { nome: "invalid_opcode", pc, endereco: None, codigo: 0 }),
{
    Excecao::Fatal { nome: "invalid_opcode", pc, endereco: None, codigo: 0 }
}

/// A fault of protection: the end of the process where it came from one, and
/// of the kernel where it did not.
pub fn protecao_geral(seletor: u16, pc: u64, codigo: u64) -> (r: Excecao)
    ensures
        r == if seletor % 4 == 3 {
            Excecao::MatarProcesso { nome: "general_protection_fault", pc, endereco: None, codigo }
        } else {
            Excecao::Fatal { nome: "general_protection_fault", pc, endereco: None, codigo }
        },
{
    if privilegio(seletor) == 3 {
        return Excecao::MatarProcesso {
            nome: "general_protection_fault",
            pc,
            endereco: None,
            codigo,
        };
    }
    Excecao::Fatal { nome: "general_protection_fault", pc, endereco: None, codigo }
}

/// A page fault: the end of the process where it happened without privilege,
/// and of the kernel where it did not.
pub fn falha_de_pagina(pc: u64, endereco: Option<u64>, codigo: u64) -> (r: Excecao)
    ensures
        r == if codigo & 4 != 0 {
            Excecao::MatarProcesso { nome: "page_fault", pc, endereco, codigo }
        } else {
            Excecao::Fatal { nome: "page_fault", pc, endereco, codigo }
        },
{
    if falha_de_usuario(codigo) {
        return Excecao::MatarProcesso { nome: "page_fault", pc, endereco, codigo };
    }
    Excecao::Fatal { nome: "page_fault", pc, endereco, codigo }
}

/// A fault while another was being raised. This is what a stack that ran over
/// ends in.
pub fn falha_dupla(pc: u64, codigo: u64) -> (r: Excecao)
    ensures
        r == (Excecao::Fatal { nome: "double_fault", pc, endereco: None, codigo }),
{
    Excecao::Fatal { nome: "double_fault", pc, endereco: None, codigo }
}

/// The timer is on line 0, the keyboard on line 1, the agent's port on line 3; any
/// other line is a device's.
pub proof fn lei_fonte_da_linha(linha: u8)
    ensures
        fonte_da(linha) is Timer <==> linha == 0,
        fonte_da(linha) is Teclado <==> linha == 1,
        fonte_da(linha) is Serial <==> linha == 3,
        fonte_da(linha) is Dispositivo <==> linha != 0 && linha != 1 && linha != 3,
{
}

} // verus!
