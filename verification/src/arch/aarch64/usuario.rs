//! The unprivileged level: where a call comes from, and how it is answered.
use vstd::prelude::*;

use crate::arch::aarch64::vetores::Quadro;

verus! {

/// Processor state of a process: unprivileged, interrupts on.
pub const SPSR_USUARIO: u64 = 0x340;

/// The mode, within the processor state.
pub const MASCARA_DE_MODO: u64 = 15;

/// The mode of a process.
pub const MODO_EL0: u64 = 0;

impl Quadro {
    /// The exception came from a process: the saved processor state says so.
    pub open spec fn de_usuario(&self) -> bool {
        self.spsr & MASCARA_DE_MODO == MODO_EL0
    }

    /// The system call in the saved registers.
    pub open spec fn chamada(&self) -> Chamada {
        Chamada { numero: self.x@[8], a0: self.x@[0], a1: self.x@[1], a2: self.x@[2] }
    }
}

/// Did the exception come from a process? The saved processor state says so;
/// the call's own operand is the process's choice, and is not to be trusted.
pub fn veio_de_usuario(quadro: &Quadro) -> (r: bool)
    ensures
        r == quadro.de_usuario(),
{
    quadro.spsr & MASCARA_DE_MODO == MODO_EL0
}

/// A system call, as a process makes it.
#[derive(Clone, Copy, Debug, PartialEq, Eq, Structural)]
pub struct Chamada {
    pub numero: u64,
    pub a0: u64,
    pub a1: u64,
    pub a2: u64,
}

/// The call that the saved registers hold: its number in `x8`, its arguments
/// in `x0` to `x2`.
pub fn chamada_de(quadro: &Quadro) -> (r: Chamada)
    ensures
        r == quadro.chamada(),
{
    Chamada { numero: quadro.x[8], a0: quadro.x[0], a1: quadro.x[1], a2: quadro.x[2] }
}

/// Leaves the answer to a call where the process looks for it: in `x0`.
pub fn responder(quadro: &mut Quadro, resultado: i64)
    ensures
        final(quadro).x@ == old(quadro).x@.update(0, resultado as u64),
        final(quadro).elr == old(quadro).elr,
        final(quadro).spsr == old(quadro).spsr,
{
    quadro.x[0] = resultado as u64;
}

/// A privileged thread's state is not taken for a process's.
pub proof fn lei_modos_nao_se_confundem()
    ensures
        SPSR_USUARIO & MASCARA_DE_MODO == MODO_EL0,
        crate::arch::aarch64::contexto::SPSR_FIO_DO_KERNEL & MASCARA_DE_MODO != MODO_EL0,
{
    assert(0x340u64 & 15 == 0 && 0x344u64 & 15 != 0) by (bit_vector);
}

/// An exception came from a process where the four low bits of the saved state are
/// zero; its call is in `x8` and its arguments in the first three registers.
pub proof fn lei_chamada_do_processo(q: &Quadro)
    ensures
        q.de_usuario() <==> q.spsr & 0xF == 0,
        q.chamada().numero == q.x@[8],
        q.chamada().a0 == q.x@[0],
        q.chamada().a1 == q.x@[1],
        q.chamada().a2 == q.x@[2],
{
}

} // verus!
