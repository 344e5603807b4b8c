//! Switching threads: over the registers that the exception saved.
use vstd::prelude::*;

use crate::arch::aarch64::vetores::Quadro;
use crate::fios::{selecionar, ContextoDeFio, Escalonador};

verus! {

/// What is saved of a thread that is not running.
#[derive(Clone, Copy, Debug)]
pub struct Contexto {
    /// The thread's stack, or its process's while that runs.
    pub sp: u64,
    /// Registers, program counter and processor state.
    pub quadro: Quadro,
    /// The top of the thread's kernel stack.
    pub pilha_de_kernel: u64,
}

/// Processor state of a kernel thread: EL1 on the thread's stack, interrupts
/// on, and the rest masked as everywhere in the kernel.
pub const SPSR_FIO_DO_KERNEL: u64 = 0x344;

impl ContextoDeFio for Contexto {
    open spec fn e_vazio(&self) -> bool {
        &&& self.sp == 0
        &&& self.pilha_de_kernel == 0
        &&& self.quadro.elr == 0
        &&& self.quadro.spsr == 0
        &&& forall|i: int| 0 <= i < 31 ==> #[trigger] self.quadro.x@[i] == 0
    }

    open spec fn pilha_spec(&self) -> u64 {
        self.pilha_de_kernel
    }

    open spec fn e_inicial(&self, topo: u64, trampolim: u64, entrada: u64, argumento: u64) -> bool {
        &&& self.sp == topo - topo % 16
        &&& self.pilha_de_kernel == topo - topo % 16
        &&& self.quadro.elr == trampolim
        &&& self.quadro.spsr == SPSR_FIO_DO_KERNEL
        &&& self.quadro.x@[0] == entrada
        &&& self.quadro.x@[1] == argumento
        &&& forall|i: int| 2 <= i < 31 ==> #[trigger] self.quadro.x@[i] == 0
    }

    fn vazio() -> (r: Self) {
        Contexto { sp: 0, quadro: Quadro { x: [0u64; 31], elr: 0, spsr: 0 }, pilha_de_kernel: 0 }
    }

    fn inicial(topo: u64, trampolim: u64, entrada: u64, argumento: u64) -> (r: Self) {
        let mut x: [u64; 31] = [0u64; 31];
        x[0] = entrada;
        x[1] = argumento;
        Contexto {
            sp: topo - topo % 16,
            quadro: Quadro { x, elr: trampolim, spsr: SPSR_FIO_DO_KERNEL },
            pilha_de_kernel: topo - topo % 16,
        }
    }

    fn pilha_de_kernel(&self) -> (r: u64) {
        self.pilha_de_kernel
    }
}

/// Writes the context that starts a thread in `entrada` with `argumento`, over
/// a stack that ends at `topo`.
pub fn preparar_contexto(
    contexto: &mut Contexto,
    topo: u64,
    trampolim: u64,
    entrada: u64,
    argumento: u64,
)
    requires
        topo >= 4096,
    ensures
        final(contexto).e_inicial(topo, trampolim, entrada, argumento),
{
    *contexto = Contexto::inicial(topo, trampolim, entrada, argumento);
}

/// What the processor is given with a switch: the stack of the thread that
/// enters, and its root of translation where that differs from the one in use.
#[derive(Clone, Copy, Debug, PartialEq, Eq, Structural)]
pub struct Entrada {
    pub sp: u64,
    pub espaco: Option<u64>,
}

/// Switches threads over the registers of an exception: those of the thread
/// that leaves are kept with `sp`, its stack, and those of the thread that
/// enters take their place.
pub fn trocar_no_quadro<D>(
    e: &mut Escalonador<Contexto, D>,
    quadro: &mut Quadro,
    sp: u64,
    espaco_atual: u64,
    raiz_do_kernel: u64,
) -> (r: Option<Entrada>)
    requires
        old(e).wf(),
    ensures
        final(e).wf(),
        match r {
            None => {
                &&& *final(e) == *old(e)
                &&& *final(quadro) == *old(quadro)
                &&& old(e).congelado() || !old(e).ligado() || old(e).sem_prontos()
            },
            Some(entrada) => trocou_no_quadro(
                old(e),
                final(e),
                *old(quadro),
                *final(quadro),
                sp,
                espaco_atual,
                raiz_do_kernel,
                entrada,
            ),
        },
{
    let ghost e0 = *e;
    let troca = match selecionar(e, raiz_do_kernel) {
        None => {
            return None;
        },
        Some(t) => t,
    };
    let ghost e1 = *e;
    let salvo: Quadro = *quadro;
    e.guardar_contexto(troca.de, salvo, sp);
    let para = e.contexto_de(troca.para);
    *quadro = para.quadro;
    let espaco: Option<u64> = if troca.espaco != espaco_atual {
        Some(troca.espaco)
    } else {
        None
    };
    let entrada = Entrada { sp: para.sp, espaco };
    assert(trocou_no_quadro(
        &e0,
        e,
        salvo,
        *quadro,
        sp,
        espaco_atual,
        raiz_do_kernel,
        entrada,
    )) by {
        assert(crate::fios::trocou(&e0, &e1, raiz_do_kernel, troca));
        assert(guardado(&e1, e, troca.de as int, salvo, sp));
    }
    Some(entrada)
}

/// The thread in slot `i` keeps `quadro` and `sp`; nothing else changed.
pub open spec fn guardado<D>(
    antes: &Escalonador<Contexto, D>,
    depois: &Escalonador<Contexto, D>,
    i: int,
    quadro: Quadro,
    sp: u64,
) -> bool {
    &&& depois.mesmo_resto(antes)
    &&& depois.proximo_id() == antes.proximo_id()
    &&& depois.fios() == antes.fios().update(
        i,
        Some(
            crate::fios::Fio {
                contexto: Contexto { sp, quadro, ..antes.fios()[i]->0.contexto },
                ..antes.fios()[i]->0
            },
        ),
    )
}

/// What [`trocar_no_quadro`] does where there is a thread to switch to.
pub open spec fn trocou_no_quadro<D>(
    e0: &Escalonador<Contexto, D>,
    e: &Escalonador<Contexto, D>,
    q0: Quadro,
    q: Quadro,
    sp: u64,
    espaco_atual: u64,
    raiz_do_kernel: u64,
    entrada: Entrada,
) -> bool {
    exists|t: crate::fios::Troca, e1: Escalonador<Contexto, D>|
        {
            let para = e0.fios()[t.para as int]->0.contexto;
            &&& #[trigger] crate::fios::trocou(e0, &e1, raiz_do_kernel, t)
            &&& guardado(&e1, e, t.de as int, q0, sp)
            &&& q == para.quadro
            &&& entrada.sp == para.sp
            &&& entrada.espaco == if t.espaco != espaco_atual {
                Some(t.espaco)
            } else {
                None
            }
        }
}

/// A thread goes on where it stopped: what is saved of it as it leaves is what
/// the processor gets when it enters again.
pub proof fn lei_volta_onde_parou<D>(
    antes: &Escalonador<Contexto, D>,
    depois: &Escalonador<Contexto, D>,
    i: int,
    quadro: Quadro,
    sp: u64,
)
    requires
        0 <= i < antes.fios().len(),
        guardado(antes, depois, i, quadro, sp),
    ensures
        depois.fios()[i]->0.contexto.quadro == quadro,
        depois.fios()[i]->0.contexto.sp == sp,
        forall|j: int|
            0 <= j < antes.fios().len() && j != i ==> #[trigger] depois.fios()[j] == antes.fios()[j],
{
}

/// The stack of a new thread starts at a multiple of 16, at the top that it has or
/// less than 16 bytes below; it goes through the trampoline, with the entry and the
/// argument in the first two registers.
pub proof fn lei_contexto_inicial(c: &Contexto, topo: u64, trampolim: u64, entrada: u64, argumento: u64)
    requires
        crate::fios::ContextoDeFio::e_inicial(c, topo, trampolim, entrada, argumento),
    ensures
        c.sp % 16 == 0,
        topo < c.sp + 16,
        c.sp <= topo,
        c.pilha_de_kernel == c.sp,
        c.quadro.elr == trampolim,
        c.quadro.x@[0] == entrada,
        c.quadro.x@[1] == argumento,
{
}

} // verus!
