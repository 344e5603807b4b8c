//! The unprivileged level: what the processor is given to enter it, and where
//! it goes back to.
use vstd::prelude::*;

verus! {

/// State of the processor in a process: interrupts on, and the bit that is
/// always on.
pub const RFLAGS: u64 = 0x202;

/// Keeps the kernel stack of the thread that runs. The first thread has none,
/// and changes nothing.
pub fn definir_pilha_de_kernel(atual: &mut u64, topo: u64)
    ensures
        *final(atual) == if topo == 0 {
            *old(atual)
        } else {
            topo
        },
{
    if topo == 0 {
        return;
    }
    *atual = topo;
}

/// What is pushed, in this order, for the return from an interrupt to enter a
/// process: its stack, the state of the processor, and where it starts.
pub fn quadro_de_entrada(ss: u16, cs: u16, entrada: u64, pilha: u64) -> (r: [u64; 5])
    ensures
        r@ == seq![ss as u64, pilha, RFLAGS, cs as u64, entrada],
{
    let r: [u64; 5] = [ss as u64, pilha, RFLAGS, cs as u64, entrada];
    proof {
        assert(r@ =~= seq![ss as u64, pilha, RFLAGS, cs as u64, entrada]);
    }
    r
}

} // verus!
