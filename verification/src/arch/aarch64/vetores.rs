//! Exceptions: what is saved when one happens, and what is done about it.
use vstd::prelude::*;

use crate::arch::aarch64::usuario::{chamada_de, veio_de_usuario, Chamada};

verus! {

/// Everything that is saved when an exception happens.
#[derive(Clone, Copy, Debug)]
pub struct Quadro {
    /// The general registers, `x0` to `x30`.
    pub x: [u64; 31],
    /// The instruction to go on with.
    pub elr: u64,
    /// The state of the processor.
    pub spsr: u64,
}

/// The class of an exception, out of the syndrome register.
pub open spec fn classe_spec(esr: u64) -> u64 {
    (esr >> 26) & 0x3F
}

/// The class of an exception: the field `EC` of the syndrome register.
///
/// `aarch64_cpu` declares the field and `tock_registers` reads it out of a
/// value: six bits, from bit 26 up.
#[verifier::external_body]
fn ler_classe(esr: u64) -> (r: u64)
    ensures
        r == classe_spec(esr),
{
    aarch64_cpu::registers::ESR_EL1::EC.read(esr)
}

/// The class of an exception, given the syndrome register.
pub fn classe_da_excecao(esr: u64) -> (r: u64)
    ensures
        r == classe_spec(esr),
{
    ler_classe(esr)
}

/// A stable name for each class of exception.
pub open spec fn nome_spec(ec: u64) -> &'static str {
    if ec == 0x00 {
        "unknown"
    } else if ec == 0x0E {
        "illegal_execution_state"
    } else if ec == 0x15 {
        "svc"
    } else if ec == 0x18 {
        "msr_mrs_trap"
    } else if ec == 0x20 {
        "instruction_abort_lower_el"
    } else if ec == 0x21 {
        "instruction_abort"
    } else if ec == 0x22 {
        "pc_alignment_fault"
    } else if ec == 0x24 {
        "data_abort_lower_el"
    } else if ec == 0x25 {
        "data_abort"
    } else if ec == 0x26 {
        "sp_alignment_fault"
    } else if ec == 0x3C {
        "breakpoint"
    } else {
        "sync_desconhecida"
    }
}

/// A stable name for a class of exception.
pub fn nome_da_classe(ec: u64) -> (r: &'static str)
    ensures
        r == nome_spec(ec),
{
    match ec {
        0x00 => "unknown",
        0x0E => "illegal_execution_state",
        0x15 => "svc",
        0x18 => "msr_mrs_trap",
        0x20 => "instruction_abort_lower_el",
        0x21 => "instruction_abort",
        0x22 => "pc_alignment_fault",
        0x24 => "data_abort_lower_el",
        0x25 => "data_abort",
        0x26 => "sp_alignment_fault",
        0x3C => "breakpoint",
        _ => "sync_desconhecida",
    }
}

/// What an exception asks for.
#[derive(Clone, Copy, Debug)]
pub enum Atendimento {
    /// Switch threads over the saved registers.
    Trocar,
    /// Serve the system call of a process.
    Chamar(Chamada),
    /// Record the breakpoint at `pc` and go on.
    Registrar { nome: &'static str, pc: u64 },
    /// There is nothing to go back to.
    Fatal { nome: &'static str, pc: u64, endereco: Option<u64> },
}

/// The classes that leave the address they were about in `FAR_EL1`.
pub open spec fn de_acesso(ec: u64) -> bool {
    ec == 0x20 || ec == 0x21 || ec == 0x24 || ec == 0x25
}

/// What a synchronous exception asks for, and what it leaves in the saved
/// registers: `svc` is a system call when a process made it and gives up the
/// processor when a thread of the kernel did, `brk` goes on with the next
/// instruction, and the others are fatal. `far` is the address register, which
/// counts only for faults of access.
pub fn tratar_sync(quadro: &mut Quadro, esr: u64, far: u64) -> (r: Atendimento)
    ensures
        final(quadro).x == old(quadro).x,
        final(quadro).spsr == old(quadro).spsr,
        ({
            let ec = classe_spec(esr);
            let pc = old(quadro).elr;
            if ec == 0x15 {
                *final(quadro) == *old(quadro) && r == if old(quadro).de_usuario() {
                    Atendimento::Chamar(old(quadro).chamada())
                } else {
                    Atendimento::Trocar
                }
            } else if ec == 0x3C {
                r == (Atendimento::Registrar { nome: nome_spec(ec), pc }) && final(quadro).elr
                    == pc.wrapping_add(4)
            } else {
                *final(quadro) == *old(quadro) && r == (Atendimento::Fatal {
                    nome: nome_spec(ec),
                    pc,
                    endereco: if de_acesso(ec) {
                        Some(far)
                    } else {
                        None
                    },
                })
            }
        }),
{
    let ec: u64 = classe_da_excecao(esr);
    let nome = nome_da_classe(ec);
    let pc: u64 = quadro.elr;
    if ec == 0x15 {
        return if veio_de_usuario(quadro) {
            Atendimento::Chamar(chamada_de(quadro))
        } else {
            Atendimento::Trocar
        };
    }
    if ec == 0x3C {
        // Every instruction takes four bytes; going back to the `brk` itself
        // would raise it again, forever.
        quadro.elr = pc.wrapping_add(4);
        return Atendimento::Registrar { nome, pc };
    }
    let endereco: Option<u64> = if ec == 0x20 || ec == 0x21 || ec == 0x24 || ec == 0x25 {
        Some(far)
    } else {
        None
    };
    Atendimento::Fatal { nome, pc, endereco }
}

/// The class is the six bits from bit 26 up.
pub proof fn lei_classe(esr: u64)
    ensures
        classe_spec(esr) == esr / 0x400_0000 % 64,
{
    assert((esr >> 26) & 0x3F == esr / 0x400_0000 % 64) by (bit_vector);
}

/// The classes that come with an address are the aborts: of an instruction or of
/// data, of this level or of a lower one.
pub proof fn lei_de_acesso(ec: u64)
    ensures
        de_acesso(ec) <==> nome_spec(ec)@ == "instruction_abort_lower_el"@ || nome_spec(ec)@
            == "instruction_abort"@ || nome_spec(ec)@ == "data_abort_lower_el"@ || nome_spec(ec)@
            == "data_abort"@,
{
    reveal_strlit("unknown");
    reveal_strlit("illegal_execution_state");
    reveal_strlit("svc");
    reveal_strlit("msr_mrs_trap");
    reveal_strlit("instruction_abort_lower_el");
    reveal_strlit("instruction_abort");
    reveal_strlit("pc_alignment_fault");
    reveal_strlit("data_abort_lower_el");
    reveal_strlit("data_abort");
    reveal_strlit("sp_alignment_fault");
    reveal_strlit("breakpoint");
    reveal_strlit("sync_desconhecida");
    let n = nome_spec(ec)@;
    let (a, b, c, d) = (
        "instruction_abort_lower_el"@,
        "instruction_abort"@,
        "data_abort_lower_el"@,
        "data_abort"@,
    );
    assert(a.len() == 26 && b.len() == 17 && c.len() == 19 && d.len() == 10);
    assert(a[0] == 'i' && b[0] == 'i' && c[0] == 'd' && d[0] == 'd');
    assert(n.len() > 0 && (de_acesso(ec) || (n[0] != 'd' && (n.len() != 26 && (n.len() != 17 || n[0]
        == 's')))));
}

/// What an exception is called, out of the six bits from bit 26 up of the syndrome,
/// whatever the others are.
pub proof fn lei_nome_da_excecao(esr: u64)
    ensures
        ({
            let classe = esr / 0x400_0000 % 64;
            let nome = nome_spec(classe_spec(esr));
            &&& classe == 0x15 ==> nome == "svc"
            &&& classe == 0x3C ==> nome == "breakpoint"
            &&& classe == 0x25 ==> nome == "data_abort"
            &&& classe == 0x24 ==> nome == "data_abort_lower_el"
            &&& classe == 0x21 ==> nome == "instruction_abort"
            &&& classe == 0x20 ==> nome == "instruction_abort_lower_el"
            &&& classe == 0x22 ==> nome == "pc_alignment_fault"
            &&& classe == 0x26 ==> nome == "sp_alignment_fault"
            &&& classe == 0x18 ==> nome == "msr_mrs_trap"
            &&& classe == 0x0E ==> nome == "illegal_execution_state"
            &&& classe == 0 ==> nome == "unknown"
        }),
{
    lei_classe(esr);
}

} // verus!
