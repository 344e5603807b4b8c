//! Cooperative tasks: their identity, the executor that decides which one
//! runs, and the queues they wait on. The futures themselves stay with whoever
//! polls them, keyed by [`IdTarefa`].
use vstd::prelude::*;

pub mod entrada;
pub mod executor;
pub mod fila;
pub mod relogio;

verus! {

/// What a future answered.
#[derive(Clone, Copy, Debug, PartialEq, Eq, Structural)]
pub enum Passo {
    /// It is done.
    Pronto,
    /// It waits, and someone holds what wakes it.
    Pendente,
    /// It waits, and asks to be woken right away.
    PendenteAcordar,
}

/// Gives the control back once, without waiting for anything.
pub struct Ceder {
    cedeu: bool,
}

/// Gives the control back once.
pub fn ceder() -> (r: Ceder)
    ensures
        !r.ja_cedeu(),
{
    Ceder { cedeu: false }
}

impl Ceder {
    /// The control was already given back.
    pub closed spec fn ja_cedeu(&self) -> bool {
        self.cedeu
    }

    /// Pending, with a wake-up asked for, the first time; done from then on.
    pub fn poll(&mut self) -> (r: Passo)
        ensures
            final(self).ja_cedeu(),
            r == if old(self).ja_cedeu() {
                Passo::Pronto
            } else {
                Passo::PendenteAcordar
            },
    {
        if self.cedeu {
            return Passo::Pronto;
        }
        self.cedeu = true;
        Passo::PendenteAcordar
    }
}

/// Identity of a task. Zero is nobody's.
#[derive(Clone, Copy, Debug, PartialEq, Eq, Structural)]
pub struct IdTarefa(pub u64);

/// Hands out identities, one after the other.
pub struct Identidades {
    proximo: u64,
}

impl Identidades {
    /// The next identity.
    pub closed spec fn seguinte(&self) -> u64 {
        self.proximo
    }

    /// The first identity is one.
    pub fn novas() -> (r: Identidades)
        ensures
            r.seguinte() == 1,
    {
        Identidades { proximo: 1 }
    }
}

impl IdTarefa {
    /// A fresh identity.
    pub fn novo(ids: &mut Identidades) -> (r: IdTarefa)
        ensures
            r.0 == old(ids).seguinte(),
            final(ids).seguinte() == old(ids).seguinte().wrapping_add(1),
    {
        let id: u64 = ids.proximo;
        ids.proximo = ids.proximo.wrapping_add(1);
        IdTarefa(id)
    }

    pub fn numero(self) -> (r: u64)
        ensures
            r == self.0,
    {
        self.0
    }
}

/// A task: its identity and its name.
#[derive(Clone, Copy, Debug)]
pub struct Tarefa {
    id: IdTarefa,
    nome: &'static str,
}

impl Tarefa {
    pub closed spec fn id_spec(&self) -> IdTarefa {
        self.id
    }

    pub closed spec fn nome_spec(&self) -> &'static str {
        self.nome
    }

    /// A task with a fresh identity.
    pub fn nova(ids: &mut Identidades, nome: &'static str) -> (r: Tarefa)
        ensures
            r.id_spec().0 == old(ids).seguinte(),
            r.nome_spec() == nome,
            final(ids).seguinte() == old(ids).seguinte().wrapping_add(1),
    {
        let id = IdTarefa::novo(ids);
        Tarefa { id, nome }
    }

    pub fn id(&self) -> (r: IdTarefa)
        ensures
            r == self.id_spec(),
    {
        self.id
    }

    pub fn nome(&self) -> (r: &'static str)
        ensures
            r == self.nome_spec(),
    {
        self.nome
    }
}

/// Identities in the order in which they were handed out, from the first.
pub open spec fn em_ordem(ids: Seq<u64>) -> bool {
    forall|i: int|
        0 <= i < ids.len() ==> #[trigger] ids[i] == if i == 0 {
            1
        } else {
            ids[i - 1].wrapping_add(1)
        }
}

/// An identity is unique and is never zero, for as long as the counter has
/// numbers to give.
pub proof fn lei_identidades_unicas(ids: Seq<u64>)
    requires
        em_ordem(ids),
        ids.len() <= u64::MAX,
    ensures
        ids.no_duplicates(),
        !ids.contains(0),
{
    assert forall|i: int| 0 <= i < ids.len() implies #[trigger] ids[i] == i + 1 by {
        lemma_numero(ids, i);
    }
}

proof fn lemma_numero(ids: Seq<u64>, i: int)
    requires
        em_ordem(ids),
        ids.len() <= u64::MAX,
        0 <= i < ids.len(),
    ensures
        ids[i] == i + 1,
    decreases i,
{
    if i > 0 {
        lemma_numero(ids, i - 1);
    }
    assert(ids[i] == if i == 0 {
        1
    } else {
        ids[i - 1].wrapping_add(1)
    });
}

} // verus!
