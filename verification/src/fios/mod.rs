//! Preemptive threads: the table of them, who runs next and for how long.
//!
//! Only the choice is here. Saving one processor state and loading another is
//! the architecture's work, and differs between the two.
use vstd::prelude::*;

use crate::arch::aarch64::contexto::Contexto;
use crate::arch::aarch64::mmu::Mmu;
use crate::arch::aarch64::vetores::Quadro;
use crate::frames::Alocador;
use crate::paginacao::Espaco;
use crate::fios::pilha::Pilha;

pub mod parto;
pub mod pilha;

verus! {

/// How many threads there is room for.
pub const MAX_FIOS: usize = 16;

/// How many ticks of the timer a thread runs before it is preempted.
pub const QUANTUM_EM_TIQUES: u32 = 5;

/// What a thread is doing.
#[derive(Clone, Copy, Debug, PartialEq, Eq, Structural)]
pub enum Estado {
    /// The slot is taken, but there is neither stack nor context yet.
    Reservado,
    /// Waiting for its turn.
    Pronto,
    /// The one that is running.
    Rodando,
    /// Over. The slot may be used again.
    Terminado,
}

impl Estado {
    /// The name of the state on the agent's channel.
    pub open spec fn nome_spec(self) -> &'static str {
        match self {
            Estado::Reservado => "spawning",
            Estado::Pronto => "ready",
            Estado::Rodando => "running",
            Estado::Terminado => "done",
        }
    }

    /// The name of the state on the agent's channel.
    pub fn nome(self) -> (r: &'static str)
        ensures
            r == self.nome_spec(),
    {
        match self {
            Estado::Reservado => "spawning",
            Estado::Pronto => "ready",
            Estado::Rodando => "running",
            Estado::Terminado => "done",
        }
    }
}

/// Identifier of a thread.
#[derive(Clone, Copy, Debug, PartialEq, Eq, PartialOrd, Ord)]
pub struct IdFio(pub u64);

impl IdFio {
    pub fn numero(self) -> (r: u64)
        ensures
            r == self.0,
    {
        self.0
    }
}

/// The state of the processor that is saved while a thread does not run.
pub trait ContextoDeFio: Sized {
    /// This is the context of a thread that has not run yet and has no stack.
    spec fn e_vazio(&self) -> bool;

    /// The top of the thread's kernel stack.
    spec fn pilha_spec(&self) -> u64;

    /// This is the context that starts a thread: over a stack that ends at
    /// `topo`, it goes through `trampolim` into `entrada` with `argumento`.
    spec fn e_inicial(&self, topo: u64, trampolim: u64, entrada: u64, argumento: u64) -> bool;

    /// The context of a thread that has not run yet and has no stack.
    fn vazio() -> (r: Self)
        ensures
            r.e_vazio(),
    ;

    /// The context that starts a thread.
    fn inicial(topo: u64, trampolim: u64, entrada: u64, argumento: u64) -> (r: Self)
        requires
            topo >= 4096,
        ensures
            r.e_inicial(topo, trampolim, entrada, argumento),
    ;

    /// The top of the thread's kernel stack.
    fn pilha_de_kernel(&self) -> (r: u64)
        ensures
            r == self.pilha_spec(),
    ;
}

/// A thread. `C` is the architecture's context and `D` the table of open
/// descriptors.
pub struct Fio<C, D> {
    pub id: IdFio,
    pub nome: &'static str,
    pub estado: Estado,
    /// The processor's state while this thread does not run.
    pub contexto: C,
    /// The stack, where the thread has one of its own.
    pub pilha: Option<Pilha>,
    /// The space of addresses, where the thread hosts a process.
    pub espaco: Option<Espaco>,
    pub descritores: D,
    /// How many times it was given the processor.
    pub escalonamentos: u64,
}

/// The table of threads.
pub struct Escalonador<C, D> {
    fios: Vec<Option<Fio<C, D>>>,
    atual: usize,
    quantum: u32,
    ligado: bool,
    congelado: bool,
    proximo_id: u64,
    trocas: u64,
    vencidos: u64,
}

/// The slot holds a thread in the given state.
pub open spec fn esta<C, D>(f: Option<Fio<C, D>>, estado: Estado) -> bool {
    f is Some && f->0.estado == estado
}

/// A thread's stack is the one of its slot.
pub open spec fn pilha_da_vaga<C, D>(f: Option<Fio<C, D>>, i: int) -> bool {
    f is Some && f->0.pilha is Some ==> f->0.pilha->0.vaga_spec() == i
}

/// What a thread that is over still holds can be let go of: its stack is
/// mapped, and its space is its own.
pub open spec fn liberavel<C, D>(f: Option<Fio<C, D>>, base: u64, mmu: &Mmu) -> bool {
    f is Some ==> {
        &&& f->0.pilha is Some ==> f->0.pilha->0.mapeada(base, mmu)
        &&& f->0.espaco is Some ==> mmu.ativa && f->0.espaco->0.proprio(mmu)
    }
}

/// A new thread may take this slot: it is empty, or its thread is over.
pub open spec fn vazia_ou_finda<C, D>(f: Option<Fio<C, D>>) -> bool {
    f is None || f->0.estado == Estado::Terminado
}

/// The slot `passo` places after `atual`, going around.
pub open spec fn adiante(atual: int, passo: int) -> int {
    (atual + passo) % MAX_FIOS as int
}

impl<C, D> Escalonador<C, D> {
    /// The slots.
    pub closed spec fn fios(&self) -> Seq<Option<Fio<C, D>>> {
        self.fios@
    }

    /// The slot of the thread that is running.
    pub closed spec fn atual(&self) -> int {
        self.atual as int
    }

    /// Ticks left to the running thread.
    pub closed spec fn quantum(&self) -> u32 {
        self.quantum
    }

    pub closed spec fn ligado(&self) -> bool {
        self.ligado
    }

    pub closed spec fn congelado(&self) -> bool {
        self.congelado
    }

    /// The identifier that the next thread gets.
    pub closed spec fn proximo_id(&self) -> u64 {
        self.proximo_id
    }

    /// Switches so far.
    pub closed spec fn trocas(&self) -> u64 {
        self.trocas
    }

    /// Quanta that ran out so far.
    pub closed spec fn vencidos(&self) -> u64 {
        self.vencidos
    }

    /// At most one thread runs, and it is the current one; the current slot is
    /// never empty once the scheduler is on; a quantum is never left at zero.
    pub open spec fn wf(&self) -> bool {
        &&& self.fios().len() == MAX_FIOS
        &&& 0 <= self.atual() < MAX_FIOS
        &&& 1 <= self.quantum() <= QUANTUM_EM_TIQUES
        &&& !self.ligado() ==> self.atual() == 0 && self.fios()[0] is None
        &&& self.ligado() ==> self.fios()[self.atual()] is Some
        &&& self.ligado() ==> !esta(self.fios()[self.atual()], Estado::Pronto)
        &&& forall|i: int|
            0 <= i < MAX_FIOS && esta(#[trigger] self.fios()[i], Estado::Rodando) ==> i == self.atual()
        &&& forall|i: int| 0 <= i < MAX_FIOS ==> pilha_da_vaga(#[trigger] self.fios()[i], i)
    }

    /// No two threads have the same identifier, and none has one yet to be
    /// given.
    pub open spec fn ids_distintos(&self) -> bool {
        &&& forall|i: int|
            0 <= i < MAX_FIOS && #[trigger] self.fios()[i] is Some ==> self.fios()[i]->0.id.0
                < self.proximo_id()
        &&& forall|i: int, j: int|
            0 <= i < j < MAX_FIOS && #[trigger] self.fios()[i] is Some && #[trigger] self.fios()[j]
                is Some ==> self.fios()[i]->0.id.0 != self.fios()[j]->0.id.0
    }

    /// Everything but the slots is as it was.
    pub open spec fn mesmo_resto(&self, outro: &Self) -> bool {
        &&& self.atual() == outro.atual()
        &&& self.quantum() == outro.quantum()
        &&& self.ligado() == outro.ligado()
        &&& self.congelado() == outro.congelado()
        &&& self.trocas() == outro.trocas()
        &&& self.vencidos() == outro.vencidos()
    }

    /// The slot that a new thread takes.
    pub open spec fn e_vaga(&self, i: int) -> bool {
        &&& 0 <= i < MAX_FIOS
        &&& i != self.atual()
        &&& vazia_ou_finda(self.fios()[i])
        &&& forall|j: int|
            0 <= j < i && j != self.atual() ==> !vazia_ou_finda(#[trigger] self.fios()[j])
    }

    /// No slot can be taken.
    pub open spec fn lotado(&self) -> bool {
        forall|j: int|
            0 <= j < MAX_FIOS && j != self.atual() ==> !vazia_ou_finda(#[trigger] self.fios()[j])
    }

    /// The thread in slot `i` is the first ready one, `passo` places after the
    /// current one.
    pub open spec fn e_proximo(&self, i: int, passo: int) -> bool {
        &&& 1 <= passo <= MAX_FIOS
        &&& i == adiante(self.atual(), passo)
        &&& esta(self.fios()[i], Estado::Pronto)
        &&& forall|q: int|
            1 <= q < passo ==> !esta(
                self.fios()[#[trigger] adiante(self.atual(), q)],
                Estado::Pronto,
            )
    }

    /// It is the turn of the thread in slot `i`.
    pub open spec fn vez_de(&self, i: int) -> bool {
        exists|passo: int| #[trigger] self.e_proximo(i, passo)
    }

    /// No thread is ready.
    pub open spec fn sem_prontos(&self) -> bool {
        forall|i: int| 0 <= i < MAX_FIOS ==> !esta(#[trigger] self.fios()[i], Estado::Pronto)
    }

    /// A table with no thread, switched off.
    pub fn novo() -> (r: Self)
        ensures
            r.wf(),
            r.ids_distintos(),
            !r.ligado(),
            !r.congelado(),
            r.atual() == 0,
            r.quantum() == QUANTUM_EM_TIQUES,
            r.proximo_id() == 1,
            r.trocas() == 0,
            r.vencidos() == 0,
            forall|i: int| 0 <= i < MAX_FIOS ==> #[trigger] r.fios()[i] is None,
    {
        let mut fios: Vec<Option<Fio<C, D>>> = Vec::new();
        let mut i: usize = 0;
        while i < MAX_FIOS
            invariant
                i <= MAX_FIOS,
                fios@.len() == i,
                forall|j: int| 0 <= j < i ==> #[trigger] fios@[j] is None,
            decreases MAX_FIOS - i,
        {
            fios.push(None);
            i = i + 1;
        }
        Escalonador {
            fios,
            atual: 0,
            quantum: QUANTUM_EM_TIQUES,
            ligado: false,
            congelado: false,
            proximo_id: 1,
            trocas: 0,
            vencidos: 0,
        }
    }

    /// A free slot, or that of a thread that is over, but never the current
    /// one: a thread that is over runs on until it gives up the processor.
    fn vaga_livre(&self) -> (r: Result<usize, &'static str>)
        requires
            self.wf(),
        ensures
            match r {
                Ok(i) => self.e_vaga(i as int),
                Err(motivo) => self.lotado() && motivo == "nao ha vaga livre para outro fio",
            },
    {
        let mut i: usize = 0;
        while i < MAX_FIOS
            invariant
                i <= MAX_FIOS,
                self.wf(),
                forall|j: int|
                    0 <= j < i && j != self.atual() ==> !vazia_ou_finda(#[trigger] self.fios()[j]),
            decreases MAX_FIOS - i,
        {
            if i != self.atual {
                let serve = match &self.fios[i] {
                    None => true,
                    Some(fio) => fio.estado == Estado::Terminado,
                };
                if serve {
                    return Ok(i);
                }
            }
            i = i + 1;
        }
        Err("nao ha vaga livre para outro fio")
    }

    /// The next ready thread, in turns from the current one.
    fn proximo_pronto(&self) -> (r: Option<usize>)
        requires
            self.wf(),
        ensures
            match r {
                Some(i) => self.vez_de(i as int),
                None => self.sem_prontos(),
            },
    {
        let mut passo: usize = 1;
        while passo <= MAX_FIOS
            invariant
                1 <= passo <= MAX_FIOS + 1,
                self.wf(),
                forall|q: int|
                    1 <= q < passo ==> !esta(
                        self.fios()[#[trigger] adiante(self.atual(), q)],
                        Estado::Pronto,
                    ),
            decreases MAX_FIOS + 1 - passo,
        {
            let i: usize = (self.atual + passo) % MAX_FIOS;
            assert(i == adiante(self.atual(), passo as int));
            let pronto = match &self.fios[i] {
                None => false,
                Some(fio) => fio.estado == Estado::Pronto,
            };
            if pronto {
                assert(self.e_proximo(i as int, passo as int));
                assert(self.vez_de(i as int));
                return Some(i);
            }
            passo = passo + 1;
        }
        assert forall|i: int| 0 <= i < MAX_FIOS implies !esta(
            #[trigger] self.fios()[i],
            Estado::Pronto,
        ) by {
            let q = if i > self.atual() {
                i - self.atual()
            } else {
                i - self.atual() + MAX_FIOS
            };
            assert(adiante(self.atual(), q) == i);
        }
        None
    }
}

/// Stops scheduling for good, after a fatal fault.
pub fn congelar<C, D>(e: &mut Escalonador<C, D>)
    requires
        old(e).wf(),
    ensures
        final(e).wf(),
        final(e).congelado(),
        final(e).fios() == old(e).fios(),
        final(e).atual() == old(e).atual(),
        final(e).quantum() == old(e).quantum(),
        final(e).ligado() == old(e).ligado(),
        final(e).proximo_id() == old(e).proximo_id(),
        final(e).trocas() == old(e).trocas(),
        final(e).vencidos() == old(e).vencidos(),
{
    e.congelado = true;
}

/// Adopts what is running as the first thread, called `kernel`. `padrao` is
/// the table of descriptors a thread starts with.
pub fn init<C: ContextoDeFio, D>(e: &mut Escalonador<C, D>, padrao: D)
    requires
        old(e).wf(),
    ensures
        final(e).wf(),
        final(e).ligado(),
        final(e).congelado() == old(e).congelado(),
        final(e).trocas() == old(e).trocas(),
        final(e).vencidos() == old(e).vencidos(),
        if old(e).ligado() {
            *final(e) == *old(e)
        } else {
            &&& final(e).atual() == 0
            &&& final(e).quantum() == QUANTUM_EM_TIQUES
            &&& final(e).proximo_id() == old(e).proximo_id().wrapping_add(1)
            &&& final(e).fios() == old(e).fios().update(0, final(e).fios()[0])
            &&& recem(
                final(e).fios()[0],
                IdFio(old(e).proximo_id()),
                "kernel",
                Estado::Rodando,
                padrao,
                1,
            )
            &&& final(e).fios()[0]->0.pilha is None
        },
{
    if e.ligado {
        return;
    }
    let id = IdFio(e.proximo_id);
    e.proximo_id = e.proximo_id.wrapping_add(1);
    e.fios.set(
        0,
        Some(
            Fio {
                id,
                nome: "kernel",
                estado: Estado::Rodando,
                contexto: C::vazio(),
                pilha: None,
                espaco: None,
                descritores: padrao,
                escalonamentos: 1,
            },
        ),
    );
    e.atual = 0;
    e.quantum = QUANTUM_EM_TIQUES;
    e.ligado = true;
}

/// The slot holds a thread that has not run yet: no context, no space.
pub open spec fn recem<C: ContextoDeFio, D>(
    f: Option<Fio<C, D>>,
    id: IdFio,
    nome: &'static str,
    estado: Estado,
    descritores: D,
    escalonamentos: u64,
) -> bool {
    &&& f is Some
    &&& f->0.id == id
    &&& f->0.nome == nome
    &&& f->0.estado == estado
    &&& f->0.contexto.e_vazio()
    &&& f->0.espaco is None
    &&& f->0.descritores == descritores
    &&& f->0.escalonamentos == escalonamentos
}

/// The frame of page `k` of the stack in slot `i`.
pub open spec fn quadro_da_pilha(m: &Mmu, base: u64, i: int, k: int) -> u64 {
    (crate::paginacao::Tradutor::pagina_de(
        m,
        crate::paginacao::endereco(crate::fios::pilha::primeira_pagina(base, i as usize), k),
    )->0).0
}

/// The frame is in use, and not by the tables.
pub open spec fn em_uso(m: &Mmu, a: &Alocador, f: u64) -> bool {
    crate::paginacao::Tradutor::disponivel(m, f) && !a.livre_em(f)
}

/// The slot holds a thread with a stack of its own.
pub open spec fn tem_pilha<C, D>(f: Option<Fio<C, D>>) -> bool {
    f is Some && f->0.pilha is Some
}

/// Every stack is mapped, onto frames that are in use and that no other stack
/// has.
pub open spec fn pilhas_em_ordem<C, D>(
    e: &Escalonador<C, D>,
    base: u64,
    m: &Mmu,
    a: &Alocador,
) -> bool {
    &&& forall|i: int|
        0 <= i < MAX_FIOS && tem_pilha(#[trigger] e.fios()[i]) ==> e.fios()[i]->0.pilha->0.mapeada(
            base,
            m,
        )
    &&& forall|i: int, k: int|
        0 <= i < MAX_FIOS && 0 <= k < crate::fios::pilha::PAGINAS_DA_PILHA && tem_pilha(
            e.fios()[i],
        ) ==> em_uso(m, a, #[trigger] quadro_da_pilha(m, base, i, k))
    &&& forall|i: int, j: int, k: int, l: int|
        0 <= i < MAX_FIOS && 0 <= j < MAX_FIOS && i != j && 0 <= k
            < crate::fios::pilha::PAGINAS_DA_PILHA && 0 <= l < crate::fios::pilha::PAGINAS_DA_PILHA
            && tem_pilha(e.fios()[i]) && tem_pilha(e.fios()[j]) ==> #[trigger] quadro_da_pilha(
            m,
            base,
            i,
            k,
        ) != #[trigger] quadro_da_pilha(m, base, j, l)
}

/// The space of the thread in slot `i`, where it has one, owns no part of
/// another thread's stack.
pub open spec fn espaco_separado<C, D>(
    e: &Escalonador<C, D>,
    base: u64,
    m: &Mmu,
    i: int,
) -> bool {
    e.fios()[i] is Some && e.fios()[i]->0.espaco is Some ==> forall|j: int, k: int|
        0 <= j < MAX_FIOS && j != i && 0 <= k < crate::fios::pilha::PAGINAS_DA_PILHA && tem_pilha(
            e.fios()[j],
        ) ==> !e.fios()[i]->0.espaco->0.possui(m, #[trigger] quadro_da_pilha(m, base, j, k))
}

/// The stacks are in order, and so is what would be let go of to make room for
/// a new thread.
pub open spec fn em_ordem_para_nascer<C, D>(
    e: &Escalonador<C, D>,
    base: u64,
    m: &Mmu,
    a: &Alocador,
) -> bool {
    &&& pilhas_em_ordem(e, base, m, a)
    &&& forall|i: int| #[trigger] e.e_vaga(i) ==> espaco_separado(e, base, m, i)
}

/// The frame is one that the thread gives back once it is let go of.
pub open spec fn largado<C, D>(m: &Mmu, base: u64, morto: Option<Fio<C, D>>, f: u64) -> bool {
    morto is Some && {
        ||| morto->0.pilha is Some && crate::paginacao::na_faixa(
            m,
            crate::fios::pilha::primeira_pagina(base, morto->0.pilha->0.vaga_spec()),
            crate::fios::pilha::PAGINAS_DA_PILHA as int,
            f,
        )
        ||| morto->0.espaco is Some && morto->0.espaco->0.possui(m, f)
    }
}

/// The frame goes back to the allocator when the thread is let go of: a page
/// of its stack, or part of its space, unless that is the space in use.
pub open spec fn devolvido<C, D>(m: &Mmu, base: u64, morto: Option<Fio<C, D>>, f: u64) -> bool {
    morto is Some && {
        ||| morto->0.pilha is Some && crate::paginacao::na_faixa(
            m,
            crate::fios::pilha::primeira_pagina(base, morto->0.pilha->0.vaga_spec()),
            crate::fios::pilha::PAGINAS_DA_PILHA as int,
            f,
        )
        ||| morto->0.espaco is Some && morto->0.espaco->0.raiz_spec() != m.raiz
            && morto->0.espaco->0.possui(m, f)
    }
}

/// What a thread that is over held was let go of: the pages of its stack are
/// out of the tables, no other page changed, every frame that it gives back is
/// free, no free frame was lost, and every other frame in use still is.
pub open spec fn solto<C, D>(
    m0: &Mmu,
    a0: &Alocador,
    m: &Mmu,
    a: &Alocador,
    base: u64,
    morto: Option<Fio<C, D>>,
) -> bool {
    &&& m.wf(a)
    &&& morto is None ==> *m == *m0 && *a == *a0
    &&& a.mesma_janela(a0)
    &&& crate::frames::contar(a0.livre()) <= crate::frames::contar(a.livre())
    &&& forall|f: u64| #[trigger] a0.livre_em(f) && f % 4096 == 0 ==> a.livre_em(f)
    &&& forall|f: u64|
        #[trigger] devolvido(m0, base, morto, f) && a0.circula(f) ==> a.livre_em(f)
    &&& forall|f: u64|
        em_uso(m0, a0, f) && !largado(m0, base, morto, f) ==> #[trigger] em_uso(m, a, f)
    &&& forall|w: u64|
        crate::paginacao::Tradutor::vago(m0, w) ==> #[trigger] crate::paginacao::Tradutor::vago(m, w)
    &&& morto is Some && morto->0.pilha is Some ==> crate::fios::pilha::vaga_vazia(
        m,
        base,
        morto->0.pilha->0.vaga_spec(),
    )
    &&& forall|w: u64| #[trigger]
        crate::paginacao::Tradutor::pagina_de(m, w) == if morto is Some && morto->0.pilha is Some
            && crate::fios::pilha::na_pilha(base, morto->0.pilha->0.vaga_spec(), w) {
            None
        } else {
            crate::paginacao::Tradutor::pagina_de(m0, w)
        }
}

/// The space of a thread that is over was let go of, unless it is the one in
/// use: no page changed, and what it owned is free.
spec fn sem_espaco(m0: &Mmu, a0: &Alocador, m: &Mmu, a: &Alocador, espaco: Option<Espaco>) -> bool {
    &&& m.wf(a)
    &&& a.mesma_janela(a0)
    &&& espaco is None ==> *m == *m0 && *a == *a0
    &&& crate::paginacao::mesmas_paginas(m, m0)
    &&& forall|w: u64|
        crate::paginacao::Tradutor::vago(m0, w) ==> #[trigger] crate::paginacao::Tradutor::vago(m, w)
    &&& forall|f: u64| #[trigger]
        crate::paginacao::Tradutor::disponivel(m, f) == crate::paginacao::Tradutor::disponivel(m0, f)
    &&& forall|f: u64| #[trigger] a0.livre_em(f) && f % 4096 == 0 ==> a.livre_em(f)
    &&& espaco is Some && espaco->0.raiz_spec() != m0.raiz ==> forall|f: u64| #[trigger]
        espaco->0.possui(m0, f) && a0.circula(f) ==> a.livre_em(f)
    &&& forall|f: u64|
        em_uso(m0, a0, f) && !(espaco is Some && espaco->0.possui(m0, f)) ==> #[trigger] em_uso(m, a, f)
}

fn soltar_espaco(espaco: Option<Espaco>, mmu: &mut Mmu, a: &mut Alocador)
    requires
        old(mmu).wf(old(a)),
        espaco is Some ==> old(mmu).ativa && espaco->0.proprio(old(mmu)),
    ensures
        sem_espaco(old(mmu), old(a), final(mmu), final(a), espaco),
{
    let ghost m0 = *mmu;
    let ghost a0 = *a;
    if let Some(espaco) = espaco {
        let ghost dono = espaco;
        let r = espaco.largar(mmu, a);
        proof {
            assert forall|w: u64| crate::paginacao::Tradutor::vago(&m0, w) implies #[trigger] crate::paginacao::Tradutor::vago(
                mmu,
                w,
            ) by {
                assert(mmu.pagina(w) == m0.pagina(w));
            }
            assert forall|f: u64| em_uso(&m0, &a0, f) && !dono.possui(&m0, f) implies #[trigger] em_uso(
                mmu,
                a,
                f,
            ) by {
                assert(crate::paginacao::Tradutor::disponivel(mmu, f));
            }
            if r {
                assert forall|f: u64| #[trigger] dono.possui(&m0, f) && a0.circula(f) implies a.livre_em(
                    f,
                ) by {
                    assert(m0.memoria.contem(f as int));
                }
            }
        }
    }
}

/// The stack of a thread that is over was let go of, where it had one.
spec fn sem_a_pilha(
    m0: &Mmu,
    a0: &Alocador,
    m: &Mmu,
    a: &Alocador,
    base: u64,
    pilha: Option<Pilha>,
) -> bool {
    match pilha {
        Some(p) => crate::fios::pilha::liberadas(
            m0,
            a0,
            m,
            a,
            crate::fios::pilha::primeira_pagina(base, p.vaga_spec()),
            crate::fios::pilha::PAGINAS_DA_PILHA as int,
        ),
        None => *m == *m0 && *a == *a0,
    }
}

/// Lets go of what a thread that is over still held.
fn soltar<C, D>(morto: Option<Fio<C, D>>, mmu: &mut Mmu, a: &mut Alocador, base: u64)
    requires
        old(mmu).wf(old(a)),
        liberavel(morto, base, old(mmu)),
    ensures
        solto(old(mmu), old(a), final(mmu), final(a), base, morto),
{
    let ghost m0 = *mmu;
    let ghost a0 = *a;
    let ghost antigo = morto;
    if let Some(fio) = morto {
        soltar_espaco(fio.espaco, mmu, a);
        let ghost m1 = *mmu;
        let ghost a1 = *a;
        proof {
            if fio.pilha is Some {
                crate::fios::pilha::lemma_continua_mapeada(
                    &m0,
                    mmu,
                    crate::fios::pilha::primeira_pagina(base, fio.pilha->0.vaga_spec()),
                    crate::fios::pilha::PAGINAS_DA_PILHA as int,
                );
            }
        }
        if let Some(pilha) = fio.pilha {
            pilha.largar(mmu, a, base);
        }
        proof {
            lemma_solto(&m0, &a0, &m1, &a1, mmu, a, base, antigo);
        }
    }
}

proof fn lemma_na_faixa(m0: &Mmu, m1: &Mmu, primeira: u64, n: int, f: u64)
    requires
        crate::paginacao::mesmas_paginas(m1, m0),
    ensures
        crate::paginacao::na_faixa(m1, primeira, n, f) == crate::paginacao::na_faixa(
            m0,
            primeira,
            n,
            f,
        ),
{
    if crate::paginacao::na_faixa(m1, primeira, n, f) {
        let i = choose|i: int|
            0 <= i < n && (#[trigger] crate::paginacao::Tradutor::pagina_de(
                m1,
                crate::paginacao::endereco(primeira, i),
            )) is Some && (crate::paginacao::Tradutor::pagina_de(
                m1,
                crate::paginacao::endereco(primeira, i),
            )->0).0 == f;
        assert(crate::paginacao::Tradutor::pagina_de(
            m0,
            crate::paginacao::endereco(primeira, i),
        ) is Some);
    }
    if crate::paginacao::na_faixa(m0, primeira, n, f) {
        let i = choose|i: int|
            0 <= i < n && (#[trigger] crate::paginacao::Tradutor::pagina_de(
                m0,
                crate::paginacao::endereco(primeira, i),
            )) is Some && (crate::paginacao::Tradutor::pagina_de(
                m0,
                crate::paginacao::endereco(primeira, i),
            )->0).0 == f;
        assert(crate::paginacao::Tradutor::pagina_de(
            m1,
            crate::paginacao::endereco(primeira, i),
        ) is Some);
    }
}

proof fn lemma_solto<C, D>(
    m0: &Mmu,
    a0: &Alocador,
    m1: &Mmu,
    a1: &Alocador,
    m: &Mmu,
    a: &Alocador,
    base: u64,
    morto: Option<Fio<C, D>>,
)
    requires
        m0.wf(a0),
        morto is Some,
        liberavel(morto, base, m0),
        sem_espaco(m0, a0, m1, a1, morto->0.espaco),
        sem_a_pilha(m1, a1, m, a, base, morto->0.pilha),
    ensures
        solto(m0, a0, m, a, base, morto),
{
    let fio = morto->0;
    let n = crate::fios::pilha::PAGINAS_DA_PILHA as int;
    let primeira = crate::fios::pilha::primeira_pagina(base, fio.pilha->0.vaga_spec());
    crate::paginacao::Tradutor::lemma_wf(m0, a0);
    assert forall|f: u64| #[trigger] a0.livre_em(f) && f % 4096 == 0 implies a.livre_em(f) by {
        assert(a1.livre_em(f));
    }
    crate::frames::lemma_sem_perdas(a0, a);
    assert forall|f: u64| #[trigger] devolvido(m0, base, morto, f) && a0.circula(f) implies a.livre_em(f) by {
        lemma_na_faixa(m0, m1, primeira, n, f);
        if fio.espaco is Some && fio.espaco->0.raiz_spec() != m0.raiz && fio.espaco->0.possui(m0, f) {
            assert(a1.livre_em(f));
        } else {
            assert(a1.circula(f));
            assert(crate::paginacao::na_faixa(m1, primeira, n, f));
        }
    }
    assert forall|f: u64| em_uso(m0, a0, f) && !largado(m0, base, morto, f) implies #[trigger] em_uso(m, a, f) by {
        assert(em_uso(m1, a1, f));
        assert(crate::paginacao::Tradutor::disponivel(m1, f));
        crate::paginacao::Tradutor::lemma_alinhado(m1, f);
        lemma_na_faixa(m0, m1, primeira, n, f);
    }
    assert forall|w: u64| crate::paginacao::Tradutor::vago(m0, w) implies #[trigger] crate::paginacao::Tradutor::vago(
        m,
        w,
    ) by {
        assert(crate::paginacao::Tradutor::vago(m1, w));
    }
    assert forall|w: u64| #[trigger]
        crate::paginacao::Tradutor::pagina_de(m, w) == if fio.pilha is Some
            && crate::fios::pilha::na_pilha(base, fio.pilha->0.vaga_spec(), w) {
            None
        } else {
            crate::paginacao::Tradutor::pagina_de(m0, w)
        } by {
        assert(crate::paginacao::Tradutor::pagina_de(m1, w) == crate::paginacao::Tradutor::pagina_de(
            m0,
            w,
        ));
    }
}

/// A thread that is being born: its identifier, its slot, and where its stack
/// starts.
pub struct Nascente {
    pub id: IdFio,
    pub vaga: usize,
    pub topo: u64,
}

/// The descriptors a new thread starts with: those of the thread that forks,
/// or the table that every other thread starts with.
pub open spec fn herdados<C, D>(e: &Escalonador<C, D>, bifurca: bool, padrao: D) -> D {
    if bifurca && e.fios()[e.atual()] is Some {
        e.fios()[e.atual()]->0.descritores
    } else {
        padrao
    }
}

/// What [`nascer`] does where it succeeds.
pub open spec fn nasceu<C: ContextoDeFio, D>(
    e0: &Escalonador<C, D>,
    m0: &Mmu,
    a0: &Alocador,
    e: &Escalonador<C, D>,
    m: &Mmu,
    a: &Alocador,
    base: u64,
    nome: &'static str,
    descritores: D,
    n: Nascente,
) -> bool {
    let i = n.vaga as int;
    &&& !e0.congelado()
    &&& e0.e_vaga(i)
    &&& n.id.0 == e0.proximo_id()
    &&& e.fios() == e0.fios().update(i, e.fios()[i])
    &&& recem(e.fios()[i], n.id, nome, Estado::Reservado, descritores, 0)
    &&& e.fios()[i]->0.pilha is Some
    &&& e.fios()[i]->0.pilha->0.topo_spec() == n.topo
    &&& e.fios()[i]->0.pilha->0.mapeada(base, m)
    &&& pilha_nova(m0, a0, m, a, base, n.vaga, e0.fios()[i])
    &&& forall|w: u64|
        !crate::fios::pilha::na_pilha(base, n.vaga, w)
            ==> #[trigger] crate::paginacao::Tradutor::pagina_de(m, w)
            == crate::paginacao::Tradutor::pagina_de(m0, w)
}

/// What [`nascer`] does where it fails.
pub open spec fn nao_nasceu<C, D>(
    e0: &Escalonador<C, D>,
    m0: &Mmu,
    a0: &Alocador,
    e: &Escalonador<C, D>,
    m: &Mmu,
    a: &Alocador,
    base: u64,
    motivo: &'static str,
) -> bool {
    if e0.congelado() {
        &&& motivo == "o escalonador esta congelado apos uma falha fatal"
        &&& *e == *e0
        &&& *m == *m0
        &&& *a == *a0
    } else if e0.lotado() {
        &&& motivo == "nao ha vaga livre para outro fio"
        &&& e.fios() == e0.fios()
        &&& e.proximo_id() == e0.proximo_id().wrapping_add(1)
        &&& *m == *m0
        &&& *a == *a0
    } else {
        exists|i: int| #[trigger]
            e0.e_vaga(i) && sem_pilha(m0, a0, m, a, base, i as usize, e0.fios()[i], motivo) && e.fios()
                == e0.fios().update(i, None) && e.proximo_id() == e0.proximo_id().wrapping_add(1)
    }
}

/// Once the slot's last thread was let go of, a stack for the next was refused
/// for `motivo`; no page of it is mapped, and every page outside it is where
/// it was.
pub open spec fn sem_pilha<C, D>(
    m0: &Mmu,
    a0: &Alocador,
    m: &Mmu,
    a: &Alocador,
    base: u64,
    vaga: usize,
    morto: Option<Fio<C, D>>,
    motivo: &'static str,
) -> bool {
    &&& exists|m1: Mmu, a1: Alocador| #[trigger]
        solto(m0, a0, &m1, &a1, base, morto) && crate::fios::pilha::recusada(
            &m1,
            &a1,
            m,
            a,
            base,
            vaga,
            motivo,
        )
    &&& forall|f: u64|
        #[trigger] devolvido(m0, base, morto, f) && a0.circula(f) ==> a.livre_em(f)
            || !crate::paginacao::Tradutor::disponivel(m, f)
    &&& forall|f: u64|
        em_uso(m0, a0, f) && !largado(m0, base, morto, f) ==> #[trigger] em_uso(m, a, f)
    &&& forall|w: u64|
        !crate::fios::pilha::na_pilha(base, vaga, w)
            ==> #[trigger] crate::paginacao::Tradutor::pagina_de(m, w)
            == crate::paginacao::Tradutor::pagina_de(m0, w)
}

/// The stack in a slot is made of clear pages for data, in frames that nobody
/// else uses; whoever used a frame still does; and each frame that the slot's
/// last thread gave back is free, or part of the new stack, or holds a table.
pub open spec fn pilha_nova<C, D>(
    m0: &Mmu,
    a0: &Alocador,
    m: &Mmu,
    a: &Alocador,
    base: u64,
    vaga: usize,
    morto: Option<Fio<C, D>>,
) -> bool {
    &&& forall|f: u64|
        em_uso(m0, a0, f) && !largado(m0, base, morto, f) ==> #[trigger] em_uso(m, a, f)
    &&& forall|k: int|
        0 <= k < crate::fios::pilha::PAGINAS_DA_PILHA ==> {
            let f = #[trigger] quadro_da_pilha(m, base, vaga as int, k);
            &&& em_uso(m, a, f)
            &&& em_uso(m0, a0, f) ==> largado(m0, base, morto, f)
            &&& crate::paginacao::Tradutor::conteudo(m, f) == crate::arch::memoria::zerado()
            &&& crate::paginacao::Tradutor::pagina_de(
                m,
                crate::paginacao::endereco(crate::fios::pilha::primeira_pagina(base, vaga), k),
            ) == Some((f, crate::arch::Permissoes::dados_spec()))
        }
    &&& forall|f: u64|
        #[trigger] devolvido(m0, base, morto, f) && a0.circula(f) ==> {
            ||| a.livre_em(f)
            ||| crate::paginacao::na_faixa(
                m,
                crate::fios::pilha::primeira_pagina(base, vaga),
                crate::fios::pilha::PAGINAS_DA_PILHA as int,
                f,
            )
            ||| !crate::paginacao::Tradutor::disponivel(m, f)
        }
}

/// Reserves a slot for a new thread, lets go of what its last thread held, and
/// maps its stack. The thread is ready once [`instalar`] gives it a context.
///
/// `bifurca` says whether it inherits the descriptors of the current thread;
/// `padrao` is the table it has otherwise.
pub fn nascer<C: ContextoDeFio, D: Copy>(
    e: &mut Escalonador<C, D>,
    mmu: &mut Mmu,
    a: &mut Alocador,
    base: u64,
    nome: &'static str,
    bifurca: bool,
    padrao: D,
) -> (r: Result<Nascente, &'static str>)
    requires
        old(e).wf(),
        old(mmu).wf(old(a)),
        base % crate::fios::pilha::TAMANHO_DA_VAGA == 0,
        crate::fios::pilha::cabe(base, MAX_FIOS),
        forall|i: int| #[trigger] old(e).e_vaga(i) ==> liberavel(old(e).fios()[i], base, old(mmu)),
    ensures
        final(e).wf(),
        final(mmu).wf(final(a)),
        final(e).mesmo_resto(old(e)),
        old(e).ids_distintos() && old(e).proximo_id() < u64::MAX ==> final(e).ids_distintos(),
        em_ordem_para_nascer(old(e), base, old(mmu), old(a)) ==> pilhas_em_ordem(
            final(e),
            base,
            final(mmu),
            final(a),
        ),
        match r {
            Ok(n) => {
                &&& final(e).proximo_id() == old(e).proximo_id().wrapping_add(1)
                &&& nasceu(
                    old(e),
                    old(mmu),
                    old(a),
                    final(e),
                    final(mmu),
                    final(a),
                    base,
                    nome,
                    herdados(old(e), bifurca, padrao),
                    n,
                )
            },
            Err(motivo) => nao_nasceu(
                old(e),
                old(mmu),
                old(a),
                final(e),
                final(mmu),
                final(a),
                base,
                motivo,
            ),
        },
{
    let ghost e0 = *e;
    let ghost m0 = *mmu;
    let ghost a0 = *a;
    if e.congelado {
        return Err("o escalonador esta congelado apos uma falha fatal");
    }
    let id = IdFio(e.proximo_id);
    let (vaga, anterior, descritores): (usize, Option<Fio<C, D>>, D) = match reservar_vaga(
        e,
        nome,
        bifurca,
        padrao,
    ) {
        Err(motivo) => {
            return Err(motivo);
        },
        Ok(v) => v,
    };
    let ghost e1 = *e;
    match trocar_pilha(anterior, mmu, a, base, vaga) {
        Err(motivo) => {
            ocupar(e, vaga, None);
            proof {
                assert(e0.e_vaga(vaga as int));
                assert(e.fios() =~= e0.fios().update(vaga as int, None));
                lemma_ids(&e1, e, vaga as int);
                if em_ordem_para_nascer(&e0, base, &m0, &a0) {
                    lemma_em_ordem(&e0, &m0, &a0, e, mmu, a, base, vaga as int);
                }
            }
            Err(motivo)
        },
        Ok(pilha) => {
            let topo: u64 = pilha.topo();
            ocupar(
                e,
                vaga,
                Some(
                    Fio {
                        id,
                        nome,
                        estado: Estado::Reservado,
                        contexto: C::vazio(),
                        pilha: Some(pilha),
                        espaco: None,
                        descritores,
                        escalonamentos: 0,
                    },
                ),
            );
            proof {
                assert(e.fios() =~= e0.fios().update(vaga as int, e.fios()[vaga as int]));
                lemma_ids(&e1, e, vaga as int);
                if em_ordem_para_nascer(&e0, base, &m0, &a0) {
                    lemma_em_ordem(&e0, &m0, &a0, e, mmu, a, base, vaga as int);
                }
            }
            Ok(Nascente { id, vaga, topo })
        },
    }
}

proof fn lemma_ids<C, D>(antes: &Escalonador<C, D>, depois: &Escalonador<C, D>, i: int)
    requires
        antes.wf(),
        0 <= i < MAX_FIOS,
        depois.fios() == antes.fios().update(i, depois.fios()[i]),
        depois.proximo_id() == antes.proximo_id(),
        antes.fios()[i] is Some,
        depois.fios()[i] is Some ==> depois.fios()[i]->0.id == antes.fios()[i]->0.id,
    ensures
        antes.ids_distintos() ==> depois.ids_distintos(),
{
}

/// A slot that gets a new stack, or is left without one, leaves the stacks in
/// order.
proof fn lemma_em_ordem<C, D>(
    e0: &Escalonador<C, D>,
    m0: &Mmu,
    a0: &Alocador,
    e: &Escalonador<C, D>,
    m: &Mmu,
    a: &Alocador,
    base: u64,
    v: int,
)
    requires
        e0.wf(),
        e.wf(),
        0 <= v < MAX_FIOS,
        crate::fios::pilha::cabe(base, MAX_FIOS),
        pilhas_em_ordem(e0, base, m0, a0),
        espaco_separado(e0, base, m0, v),
        e.fios() == e0.fios().update(v, e.fios()[v]),
        forall|f: u64|
            em_uso(m0, a0, f) && !largado(m0, base, e0.fios()[v], f) ==> #[trigger] em_uso(m, a, f),
        forall|w: u64|
            !crate::fios::pilha::na_pilha(base, v as usize, w)
                ==> #[trigger] crate::paginacao::Tradutor::pagina_de(m, w)
                == crate::paginacao::Tradutor::pagina_de(m0, w),
        tem_pilha(e.fios()[v]) ==> {
            &&& e.fios()[v]->0.pilha->0.mapeada(base, m)
            &&& pilha_nova(m0, a0, m, a, base, v as usize, e0.fios()[v])
        },
    ensures
        pilhas_em_ordem(e, base, m, a),
{
    let n = crate::fios::pilha::PAGINAS_DA_PILHA as int;
    assert forall|j: int, k: int| 0 <= j < MAX_FIOS && j != v && 0 <= k < n && tem_pilha(e0.fios()[j]) implies {
        let f = #[trigger] quadro_da_pilha(m, base, j, k);
        &&& f == quadro_da_pilha(m0, base, j, k)
        &&& em_uso(m0, a0, f)
        &&& !largado(m0, base, e0.fios()[v], f)
        &&& em_uso(m, a, f)
        &&& crate::paginacao::Tradutor::pagina_de(
            m,
            crate::paginacao::endereco(crate::fios::pilha::primeira_pagina(base, j as usize), k),
        ) is Some
    } by {
        lemma_outra_pilha(e0, m0, a0, m, a, base, v, j, k);
    }
    assert forall|i: int| 0 <= i < MAX_FIOS && tem_pilha(#[trigger] e.fios()[i]) implies e.fios()[i]->0.pilha->0.mapeada(
        base,
        m,
    ) by {
        if i != v {
            assert(pilha_da_vaga(e0.fios()[i], i));
            assert(e0.fios()[i]->0.pilha->0.mapeada(base, m0));
            let primeira = crate::fios::pilha::primeira_pagina(base, i as usize);
            assert forall|k: int| 0 <= k < n implies (#[trigger] crate::paginacao::Tradutor::pagina_de(
                m,
                crate::paginacao::endereco(primeira, k),
            )) is Some && crate::paginacao::Tradutor::disponivel(
                m,
                (crate::paginacao::Tradutor::pagina_de(
                    m,
                    crate::paginacao::endereco(primeira, k),
                )->0).0,
            ) by {
                assert(em_uso(m, a, quadro_da_pilha(m, base, i, k)));
            }
        }
    }
}

/// A stack in a slot other than `v` stays where it is.
proof fn lemma_outra_pilha<C, D>(
    e0: &Escalonador<C, D>,
    m0: &Mmu,
    a0: &Alocador,
    m: &Mmu,
    a: &Alocador,
    base: u64,
    v: int,
    j: int,
    k: int,
)
    requires
        e0.wf(),
        0 <= v < MAX_FIOS,
        0 <= j < MAX_FIOS,
        j != v,
        0 <= k < crate::fios::pilha::PAGINAS_DA_PILHA,
        tem_pilha(e0.fios()[j]),
        crate::fios::pilha::cabe(base, MAX_FIOS),
        pilhas_em_ordem(e0, base, m0, a0),
        espaco_separado(e0, base, m0, v),
        forall|f: u64|
            em_uso(m0, a0, f) && !largado(m0, base, e0.fios()[v], f) ==> #[trigger] em_uso(m, a, f),
        forall|w: u64|
            !crate::fios::pilha::na_pilha(base, v as usize, w)
                ==> #[trigger] crate::paginacao::Tradutor::pagina_de(m, w)
                == crate::paginacao::Tradutor::pagina_de(m0, w),
    ensures
        ({
            let f = quadro_da_pilha(m, base, j, k);
            &&& f == quadro_da_pilha(m0, base, j, k)
            &&& em_uso(m0, a0, f)
            &&& !largado(m0, base, e0.fios()[v], f)
            &&& em_uso(m, a, f)
            &&& crate::paginacao::Tradutor::pagina_de(
                m,
                crate::paginacao::endereco(crate::fios::pilha::primeira_pagina(base, j as usize), k),
            ) is Some
        }),
{
    let n = crate::fios::pilha::PAGINAS_DA_PILHA as int;
    let primeira = crate::fios::pilha::primeira_pagina(base, j as usize);
    let w = crate::paginacao::endereco(primeira, k);
    assert(w == primeira + k * 4096);
    crate::fios::pilha::lei_guarda_nao_e_de_ninguem(base, j as usize, v as usize, w);
    assert(!crate::fios::pilha::na_pilha(base, v as usize, w));
    assert(crate::paginacao::Tradutor::pagina_de(m, w) == crate::paginacao::Tradutor::pagina_de(m0, w));
    assert(pilha_da_vaga(e0.fios()[j], j));
    assert(e0.fios()[j]->0.pilha->0.mapeada(base, m0));
    let f = quadro_da_pilha(m0, base, j, k);
    assert(em_uso(m0, a0, f));
    let morto = e0.fios()[v];
    if tem_pilha(morto) {
        assert(pilha_da_vaga(morto, v));
        let p = crate::fios::pilha::primeira_pagina(base, v as usize);
        if crate::paginacao::na_faixa(m0, p, n, f) {
            let i = choose|i: int|
                0 <= i < n && (#[trigger] crate::paginacao::Tradutor::pagina_de(
                    m0,
                    crate::paginacao::endereco(p, i),
                )) is Some && (crate::paginacao::Tradutor::pagina_de(
                    m0,
                    crate::paginacao::endereco(p, i),
                )->0).0 == f;
            assert(quadro_da_pilha(m0, base, v, i) == f);
        }
    }
    assert(!largado(m0, base, morto, f));
    assert(em_uso(m, a, f));
}

/// Changes what a slot other than the current one holds.
fn ocupar<C, D>(e: &mut Escalonador<C, D>, vaga: usize, fio: Option<Fio<C, D>>)
    requires
        old(e).wf(),
        vaga < MAX_FIOS,
        vaga != old(e).atual(),
        !esta(fio, Estado::Rodando),
        pilha_da_vaga(fio, vaga as int),
    ensures
        final(e).wf(),
        final(e).mesmo_resto(old(e)),
        final(e).proximo_id() == old(e).proximo_id(),
        final(e).fios() == old(e).fios().update(vaga as int, fio),
{
    e.fios.set(vaga, fio);
}

/// Gives the thread that a slot is held for its stack.
fn dar_pilha<C, D>(e: &mut Escalonador<C, D>, vaga: usize, pilha: Pilha)
    requires
        old(e).wf(),
        vaga < MAX_FIOS,
        vaga != old(e).atual(),
        esta(old(e).fios()[vaga as int], Estado::Reservado),
        pilha.vaga_spec() == vaga,
    ensures
        final(e).wf(),
        final(e).mesmo_resto(old(e)),
        final(e).proximo_id() == old(e).proximo_id(),
        final(e).fios() == old(e).fios().update(
            vaga as int,
            Some(Fio { pilha: Some(pilha), ..old(e).fios()[vaga as int]->0 }),
        ),
{
    let ghost e0 = *e;
    let mut fio: Option<Fio<C, D>> = None;
    core::mem::swap(&mut fio, &mut e.fios[vaga]);
    if let Some(f) = fio {
        e.fios.set(
            vaga,
            Some(
                Fio {
                    id: f.id,
                    nome: f.nome,
                    estado: f.estado,
                    contexto: f.contexto,
                    pilha: Some(pilha),
                    espaco: f.espaco,
                    descritores: f.descritores,
                    escalonamentos: f.escalonamentos,
                },
            ),
        );
    }
    proof {
        assert(e.fios() =~= e0.fios().update(vaga as int, e.fios()[vaga as int]));
    }
}

/// Picks a slot and marks it in the same breath, so that no other thread picks
/// it while the stack is being mapped. Returns the slot, what was in it, and
/// the descriptors of the new thread.
fn reservar_vaga<C: ContextoDeFio, D: Copy>(
    e: &mut Escalonador<C, D>,
    nome: &'static str,
    bifurca: bool,
    padrao: D,
) -> (r: Result<(usize, Option<Fio<C, D>>, D), &'static str>)
    requires
        old(e).wf(),
    ensures
        final(e).wf(),
        final(e).mesmo_resto(old(e)),
        final(e).proximo_id() == old(e).proximo_id().wrapping_add(1),
        old(e).ids_distintos() && old(e).proximo_id() < u64::MAX ==> final(e).ids_distintos(),
        match r {
            Ok(v) => {
                &&& old(e).e_vaga(v.0 as int)
                &&& v.1 == old(e).fios()[v.0 as int]
                &&& v.2 == herdados(old(e), bifurca, padrao)
                &&& final(e).fios() == old(e).fios().update(v.0 as int, final(e).fios()[v.0 as int])
                &&& recem(
                    final(e).fios()[v.0 as int],
                    IdFio(old(e).proximo_id()),
                    nome,
                    Estado::Reservado,
                    v.2,
                    0,
                )
                &&& final(e).fios()[v.0 as int]->0.pilha is None
            },
            Err(motivo) => {
                &&& old(e).lotado()
                &&& motivo == "nao ha vaga livre para outro fio"
                &&& final(e).fios() == old(e).fios()
            },
        },
{
    let id = IdFio(e.proximo_id);
    e.proximo_id = e.proximo_id.wrapping_add(1);
    let vaga: usize = match e.vaga_livre() {
        Err(motivo) => {
            return Err(motivo);
        },
        Ok(v) => v,
    };
    let descritores: D = if bifurca {
        match &e.fios[e.atual] {
            Some(pai) => pai.descritores,
            None => padrao,
        }
    } else {
        padrao
    };
    let mut anterior: Option<Fio<C, D>> = Some(
        Fio {
            id,
            nome,
            estado: Estado::Reservado,
            contexto: C::vazio(),
            pilha: None,
            espaco: None,
            descritores,
            escalonamentos: 0,
        },
    );
    core::mem::swap(&mut anterior, &mut e.fios[vaga]);
    Ok((vaga, anterior, descritores))
}

/// Lets go of what the last thread of a slot held and maps a stack for the
/// next one.
fn trocar_pilha<C, D>(
    morto: Option<Fio<C, D>>,
    mmu: &mut Mmu,
    a: &mut Alocador,
    base: u64,
    vaga: usize,
) -> (r: Result<Pilha, &'static str>)
    requires
        old(mmu).wf(old(a)),
        base % crate::fios::pilha::TAMANHO_DA_VAGA == 0,
        crate::fios::pilha::cabe(base, vaga),
        liberavel(morto, base, old(mmu)),
        pilha_da_vaga(morto, vaga as int),
    ensures
        final(mmu).wf(final(a)),
        match r {
            Ok(p) => {
                &&& p.vaga_spec() == vaga
                &&& p.mapeada(base, final(mmu))
                &&& pilha_nova(old(mmu), old(a), final(mmu), final(a), base, vaga, morto)
                &&& forall|w: u64|
                    !crate::fios::pilha::na_pilha(base, vaga, w)
                        ==> #[trigger] crate::paginacao::Tradutor::pagina_de(final(mmu), w)
                        == crate::paginacao::Tradutor::pagina_de(old(mmu), w)
            },
            Err(motivo) => sem_pilha(
                old(mmu),
                old(a),
                final(mmu),
                final(a),
                base,
                vaga,
                morto,
                motivo,
            ),
        },
{
    let ghost m0 = *mmu;
    let ghost a0 = *a;
    let ghost antigo = morto;
    soltar(morto, mmu, a, base);
    let ghost m1 = *mmu;
    let ghost a1 = *a;
    let r = crate::fios::pilha::reservar(mmu, a, base, vaga);
    proof {
        assert forall|w: u64| !crate::fios::pilha::na_pilha(base, vaga, w) implies #[trigger] crate::paginacao::Tradutor::pagina_de(
            mmu,
            w,
        ) == crate::paginacao::Tradutor::pagina_de(&m0, w) by {
            assert(crate::paginacao::Tradutor::pagina_de(mmu, w)
                == crate::paginacao::Tradutor::pagina_de(&m1, w));
        }
        assert forall|f: u64| em_uso(&m0, &a0, f) && !largado(&m0, base, antigo, f) implies #[trigger] em_uso(
            mmu,
            a,
            f,
        ) by {
            assert(em_uso(&m1, &a1, f));
            assert(crate::paginacao::Tradutor::disponivel(&m1, f));
        }
        assert forall|f: u64|
            #[trigger] devolvido(&m0, base, antigo, f) && a0.circula(f) implies f % 4096 == 0 && a1.livre_em(
            f,
        ) by {
            lemma_devolvido_alinhado(&m0, base, antigo, f);
        }
        if r is Ok {
            let primeira = crate::fios::pilha::primeira_pagina(base, vaga);
            assert forall|k: int| 0 <= k < crate::fios::pilha::PAGINAS_DA_PILHA implies {
                let f = #[trigger] quadro_da_pilha(mmu, base, vaga as int, k);
                &&& em_uso(mmu, a, f)
                &&& em_uso(&m0, &a0, f) ==> largado(&m0, base, antigo, f)
                &&& crate::paginacao::Tradutor::conteudo(mmu, f) == crate::arch::memoria::zerado()
                &&& crate::paginacao::Tradutor::pagina_de(
                    mmu,
                    crate::paginacao::endereco(crate::fios::pilha::primeira_pagina(base, vaga), k),
                ) == Some((f, crate::arch::Permissoes::dados_spec()))
            } by {
                let f = quadro_da_pilha(mmu, base, vaga as int, k);
                assert(crate::paginacao::pagina_nova(
                    &a1,
                    mmu,
                    a,
                    crate::paginacao::endereco(primeira, k),
                    crate::arch::Permissoes::dados_spec(),
                ));
                assert(!em_uso(&m1, &a1, f));
            }
        }
        if let Err(motivo) = r {
            assert(crate::fios::pilha::recusada(&m1, &a1, mmu, a, base, vaga, motivo));
            assert(solto(&m0, &a0, &m1, &a1, base, antigo));
            assert(sem_pilha(&m0, &a0, mmu, a, base, vaga, antigo, motivo));
        }
    }
    r
}

proof fn lemma_devolvido_alinhado<C, D>(m: &Mmu, base: u64, morto: Option<Fio<C, D>>, f: u64)
    requires
        liberavel(morto, base, m),
        devolvido(m, base, morto, f),
    ensures
        f % 4096 == 0,
{
    let fio = morto->0;
    let n = crate::fios::pilha::PAGINAS_DA_PILHA as int;
    if fio.espaco is Some && fio.espaco->0.raiz_spec() != m.raiz && fio.espaco->0.possui(m, f) {
        assert(m.memoria.contem(f as int));
    } else {
        let primeira = crate::fios::pilha::primeira_pagina(base, fio.pilha->0.vaga_spec());
        let i = choose|i: int|
            0 <= i < n && (#[trigger] crate::paginacao::Tradutor::pagina_de(
                m,
                crate::paginacao::endereco(primeira, i),
            )) is Some && (crate::paginacao::Tradutor::pagina_de(
                m,
                crate::paginacao::endereco(primeira, i),
            )->0).0 == f;
        crate::paginacao::Tradutor::lemma_alinhado(
            m,
            (crate::paginacao::Tradutor::pagina_de(
                m,
                crate::paginacao::endereco(primeira, i),
            )->0).0,
        );
    }
}

/// Gives a thread that is being born its context, and makes it ready.
pub fn instalar<C, D>(
    e: &mut Escalonador<C, D>,
    nascente: Nascente,
    contexto: C,
    espaco: Option<Espaco>,
) -> (r: IdFio)
    requires
        old(e).wf(),
        nascente.vaga < MAX_FIOS,
        esta(old(e).fios()[nascente.vaga as int], Estado::Reservado),
        old(e).fios()[nascente.vaga as int]->0.id == nascente.id,
        nascente.vaga != old(e).atual(),
    ensures
        r == nascente.id,
        final(e).wf(),
        final(e).mesmo_resto(old(e)),
        final(e).proximo_id() == old(e).proximo_id(),
        final(e).fios() == old(e).fios().update(
            nascente.vaga as int,
            Some(
                Fio {
                    estado: Estado::Pronto,
                    contexto,
                    espaco,
                    ..old(e).fios()[nascente.vaga as int]->0
                },
            ),
        ),
        old(e).ids_distintos() ==> final(e).ids_distintos(),
{
    let ghost e0 = *e;
    let vaga: usize = nascente.vaga;
    let mut fio: Option<Fio<C, D>> = None;
    core::mem::swap(&mut fio, &mut e.fios[vaga]);
    if let Some(f) = fio {
        let pronto = Fio {
            id: f.id,
            nome: f.nome,
            estado: Estado::Pronto,
            contexto,
            pilha: f.pilha,
            espaco,
            descritores: f.descritores,
            escalonamentos: f.escalonamentos,
        };
        e.fios.set(vaga, Some(pronto));
    }
    proof {
        assert(e.fios() =~= e0.fios().update(vaga as int, e.fios()[vaga as int]));
        lemma_ids(&e0, e, vaga as int);
    }
    nascente.id
}

/// Makes a thread that starts in `entrada` with `argumento`, ready to run.
pub fn criar<C: ContextoDeFio, D: Copy>(
    e: &mut Escalonador<C, D>,
    mmu: &mut Mmu,
    a: &mut Alocador,
    base: u64,
    nome: &'static str,
    padrao: D,
    trampolim: u64,
    entrada: u64,
    argumento: u64,
) -> (r: Result<IdFio, &'static str>)
    requires
        old(e).wf(),
        old(mmu).wf(old(a)),
        base % crate::fios::pilha::TAMANHO_DA_VAGA == 0,
        crate::fios::pilha::cabe(base, MAX_FIOS),
        forall|i: int| #[trigger] old(e).e_vaga(i) ==> liberavel(old(e).fios()[i], base, old(mmu)),
    ensures
        final(e).wf(),
        final(mmu).wf(final(a)),
        final(e).mesmo_resto(old(e)),
        old(e).ids_distintos() && old(e).proximo_id() < u64::MAX ==> final(e).ids_distintos(),
        em_ordem_para_nascer(old(e), base, old(mmu), old(a)) ==> pilhas_em_ordem(
            final(e),
            base,
            final(mmu),
            final(a),
        ),
        match r {
            Ok(id) => {
                &&& id.0 == old(e).proximo_id()
                &&& final(e).proximo_id() == old(e).proximo_id().wrapping_add(1)
                &&& criou(
                    old(e),
                    old(mmu),
                    old(a),
                    final(e),
                    final(mmu),
                    final(a),
                    base,
                    nome,
                    padrao,
                    trampolim,
                    entrada,
                    argumento,
                )
            },
            Err(motivo) => nao_nasceu(
                old(e),
                old(mmu),
                old(a),
                final(e),
                final(mmu),
                final(a),
                base,
                motivo,
            ),
        },
{
    let ghost e0 = *e;
    let ghost m0 = *mmu;
    let ghost a0 = *a;
    match nascer(e, mmu, a, base, nome, false, padrao) {
        Err(motivo) => Err(motivo),
        Ok(n) => {
            let ghost i = n.vaga as int;
            let contexto = C::inicial(n.topo, trampolim, entrada, argumento);
            let id = instalar(e, n, contexto, None);
            proof {
                assert(e.fios() =~= e0.fios().update(i, e.fios()[i]));
                assert(e0.e_vaga(i));
                assert(criou(&e0, &m0, &a0, e, mmu, a, base, nome, padrao, trampolim, entrada, argumento));
            }
            Ok(id)
        },
    }
}

/// What [`criar`] does where it succeeds: a slot that could be taken holds a
/// ready thread over a stack of its own, and nothing else changed.
pub open spec fn criou<C: ContextoDeFio, D>(
    e0: &Escalonador<C, D>,
    m0: &Mmu,
    a0: &Alocador,
    e: &Escalonador<C, D>,
    m: &Mmu,
    a: &Alocador,
    base: u64,
    nome: &'static str,
    padrao: D,
    trampolim: u64,
    entrada: u64,
    argumento: u64,
) -> bool {
    &&& !e0.congelado()
    &&& exists|i: int| #[trigger]
        e0.e_vaga(i) && e.fios() == e0.fios().update(i, e.fios()[i]) && e.fios()[i] is Some && {
            let f = e.fios()[i]->0;
            &&& f.id.0 == e0.proximo_id()
            &&& f.nome == nome
            &&& f.estado == Estado::Pronto
            &&& f.pilha is Some
            &&& f.pilha->0.vaga_spec() == i
            &&& f.pilha->0.mapeada(base, m)
            &&& pilha_nova(m0, a0, m, a, base, i as usize, e0.fios()[i])
            &&& f.contexto.e_inicial(f.pilha->0.topo_spec(), trampolim, entrada, argumento)
            &&& f.espaco is None
            &&& f.descritores == padrao
            &&& f.escalonamentos == 0
            &&& forall|w: u64|
                !crate::fios::pilha::na_pilha(base, i as usize, w)
                    ==> #[trigger] crate::paginacao::Tradutor::pagina_de(m, w)
                    == crate::paginacao::Tradutor::pagina_de(m0, w)
        }
}

/// The first half of a fork: a slot and a stack for the child, which inherits
/// the descriptors of the thread that calls. The architecture writes the
/// child's context, and [`instalar`] gives it that and a copy of the space.
pub fn bifurcar<C: ContextoDeFio, D: Copy>(
    e: &mut Escalonador<C, D>,
    mmu: &mut Mmu,
    a: &mut Alocador,
    base: u64,
    nome: &'static str,
    padrao: D,
) -> (r: Result<Nascente, &'static str>)
    requires
        old(e).wf(),
        old(mmu).wf(old(a)),
        base % crate::fios::pilha::TAMANHO_DA_VAGA == 0,
        crate::fios::pilha::cabe(base, MAX_FIOS),
        forall|i: int| #[trigger] old(e).e_vaga(i) ==> liberavel(old(e).fios()[i], base, old(mmu)),
    ensures
        final(e).wf(),
        final(mmu).wf(final(a)),
        final(e).mesmo_resto(old(e)),
        old(e).ids_distintos() && old(e).proximo_id() < u64::MAX ==> final(e).ids_distintos(),
        em_ordem_para_nascer(old(e), base, old(mmu), old(a)) ==> pilhas_em_ordem(
            final(e),
            base,
            final(mmu),
            final(a),
        ),
        match r {
            Ok(n) => {
                &&& final(e).proximo_id() == old(e).proximo_id().wrapping_add(1)
                &&& nasceu(
                    old(e),
                    old(mmu),
                    old(a),
                    final(e),
                    final(mmu),
                    final(a),
                    base,
                    nome,
                    herdados(old(e), true, padrao),
                    n,
                )
            },
            Err(motivo) => nao_nasceu(
                old(e),
                old(mmu),
                old(a),
                final(e),
                final(mmu),
                final(a),
                base,
                motivo,
            ),
        },
{
    nascer(e, mmu, a, base, nome, true, padrao)
}

/// What the switch needs to know: which slot it leaves, which it enters, and
/// the root of translation to enter it with.
#[derive(Clone, Copy, Debug, PartialEq, Eq, Structural)]
pub struct Troca {
    pub de: usize,
    pub para: usize,
    pub espaco: u64,
}

/// The root of translation a thread runs in: that of its own space, or the
/// kernel's.
pub open spec fn raiz_de<C, D>(f: Fio<C, D>, raiz_do_kernel: u64) -> u64 {
    match f.espaco {
        Some(espaco) => espaco.raiz_spec(),
        None => raiz_do_kernel,
    }
}

/// The thread that leaves goes back to waiting, unless it is over.
pub open spec fn saiu<C, D>(f: Fio<C, D>) -> Fio<C, D> {
    if f.estado == Estado::Rodando {
        Fio { estado: Estado::Pronto, ..f }
    } else {
        f
    }
}

/// The thread that enters.
pub open spec fn entrou<C, D>(f: Fio<C, D>) -> Fio<C, D> {
    Fio { estado: Estado::Rodando, escalonamentos: f.escalonamentos.wrapping_add(1), ..f }
}

/// What [`selecionar`] does where there is a thread to switch to.
pub open spec fn trocou<C, D>(
    e0: &Escalonador<C, D>,
    e: &Escalonador<C, D>,
    raiz_do_kernel: u64,
    t: Troca,
) -> bool {
    &&& !e0.congelado()
    &&& e0.ligado()
    &&& t.de == e0.atual()
    &&& t.para != t.de
    &&& e0.vez_de(t.para as int)
    &&& t.espaco == raiz_de(e0.fios()[t.para as int]->0, raiz_do_kernel)
    &&& e.atual() == t.para
    &&& e.fios() == e0.fios().update(t.de as int, Some(saiu(e0.fios()[t.de as int]->0))).update(
        t.para as int,
        Some(entrou(e0.fios()[t.para as int]->0)),
    )
    &&& e.quantum() == QUANTUM_EM_TIQUES
    &&& e.trocas() == e0.trocas().wrapping_add(1)
    &&& e.vencidos() == e0.vencidos()
    &&& e.ligado()
    &&& !e.congelado()
    &&& e.proximo_id() == e0.proximo_id()
}

/// Picks the next thread and puts it in the place of the current one, or
/// returns `None` where there is none to switch to.
pub fn selecionar<C, D>(e: &mut Escalonador<C, D>, raiz_do_kernel: u64) -> (r: Option<Troca>)
    requires
        old(e).wf(),
    ensures
        final(e).wf(),
        match r {
            Some(t) => trocou(old(e), final(e), raiz_do_kernel, t),
            None => *final(e) == *old(e) && (old(e).congelado() || !old(e).ligado() || old(
                e,
            ).sem_prontos()),
        },
{
    if e.congelado {
        return None;
    }
    if !e.ligado {
        return None;
    }
    let proximo: usize = match e.proximo_pronto() {
        None => {
            return None;
        },
        Some(i) => i,
    };
    let ghost e0 = *e;
    let atual: usize = e.atual;
    proof {
        let passo = choose|passo: int| #[trigger] e0.e_proximo(proximo as int, passo);
        assert(e0.e_proximo(proximo as int, passo));
    }
    let espaco: u64 = match &e.fios[proximo] {
        Some(fio) => match &fio.espaco {
            Some(espaco) => espaco.raiz(),
            None => raiz_do_kernel,
        },
        None => raiz_do_kernel,
    };
    if let Some(fio) = &mut e.fios[atual] {
        if fio.estado == Estado::Rodando {
            fio.estado = Estado::Pronto;
        }
    }
    if let Some(fio) = &mut e.fios[proximo] {
        fio.estado = Estado::Rodando;
        fio.escalonamentos = fio.escalonamentos.wrapping_add(1);
    }
    e.atual = proximo;
    e.quantum = QUANTUM_EM_TIQUES;
    e.trocas = e.trocas.wrapping_add(1);
    Some(Troca { de: atual, para: proximo, espaco })
}

/// Gives the current thread the space it will run in and returns the one that
/// was in its place. Where there is no current thread, the space itself comes
/// back. Whoever calls lets go of what comes back.
#[must_use]
pub fn adotar_espaco<C, D>(e: &mut Escalonador<C, D>, espaco: Espaco) -> (r: Option<Espaco>)
    requires
        old(e).wf(),
    ensures
        final(e).wf(),
        final(e).mesmo_resto(old(e)),
        final(e).proximo_id() == old(e).proximo_id(),
        match old(e).fios()[old(e).atual()] {
            Some(f) => {
                &&& r == f.espaco
                &&& final(e).fios() == old(e).fios().update(
                    old(e).atual(),
                    Some(Fio { espaco: Some(espaco), ..f }),
                )
            },
            None => r == Some(espaco) && final(e).fios() == old(e).fios(),
        },
{
    let atual: usize = e.atual;
    let mut outro: Option<Espaco> = Some(espaco);
    if let Some(fio) = &mut e.fios[atual] {
        core::mem::swap(&mut outro, &mut fio.espaco);
    }
    outro
}

/// The identifier of the thread that is running, or 0 before there is one.
pub fn id_atual<C, D>(e: &Escalonador<C, D>) -> (r: u64)
    requires
        e.wf(),
    ensures
        r == match e.fios()[e.atual()] {
            Some(f) => f.id.0,
            None => 0,
        },
{
    match &e.fios[e.atual] {
        Some(fio) => fio.id.numero(),
        None => 0,
    }
}

/// The table of descriptors of the thread that is running, to read and to
/// change.
pub fn com_descritores<C, D>(e: &mut Escalonador<C, D>) -> (r: Option<&mut D>)
    requires
        old(e).wf(),
    ensures
        match r {
            Some(d) => {
                let i = old(e).atual();
                &&& old(e).fios()[i] is Some
                &&& *d == old(e).fios()[i]->0.descritores
                &&& final(e).fios() == old(e).fios().update(
                    i,
                    Some(Fio { descritores: *final(d), ..old(e).fios()[i]->0 }),
                )
            },
            None => old(e).fios()[old(e).atual()] is None && final(e).fios() == old(e).fios(),
        },
        final(e).wf(),
        final(e).mesmo_resto(old(e)),
        final(e).proximo_id() == old(e).proximo_id(),
{
    let atual: usize = e.atual;
    match &mut e.fios[atual] {
        Some(fio) => Some(&mut fio.descritores),
        None => None,
    }
}

/// The kernel stack of the thread that is running, or 0 before there is one.
pub fn pilha_de_kernel_atual<C: ContextoDeFio, D>(e: &Escalonador<C, D>) -> (r: u64)
    requires
        e.wf(),
    ensures
        r == match e.fios()[e.atual()] {
            Some(f) => f.contexto.pilha_spec(),
            None => 0,
        },
{
    match &e.fios[e.atual] {
        Some(fio) => fio.contexto.pilha_de_kernel(),
        None => 0,
    }
}

/// Marks the current thread as over. It runs on until it gives up the
/// processor.
pub fn marcar_terminado<C, D>(e: &mut Escalonador<C, D>)
    requires
        old(e).wf(),
    ensures
        final(e).wf(),
        final(e).mesmo_resto(old(e)),
        final(e).proximo_id() == old(e).proximo_id(),
        match old(e).fios()[old(e).atual()] {
            Some(f) => final(e).fios() == old(e).fios().update(
                old(e).atual(),
                Some(Fio { estado: Estado::Terminado, ..f }),
            ),
            None => final(e).fios() == old(e).fios(),
        },
{
    let atual: usize = e.atual;
    if let Some(fio) = &mut e.fios[atual] {
        fio.estado = Estado::Terminado;
    }
}

/// Is the current thread over?
pub fn atual_terminou<C, D>(e: &Escalonador<C, D>) -> (r: bool)
    requires
        e.wf(),
    ensures
        r == esta(e.fios()[e.atual()], Estado::Terminado),
{
    match &e.fios[e.atual] {
        Some(fio) => fio.estado == Estado::Terminado,
        None => false,
    }
}

/// What [`tique`] does: the quantum of the running thread gets shorter, and
/// starts anew where it ran out.
pub open spec fn bateu<C, D>(e0: &Escalonador<C, D>, e: &Escalonador<C, D>, venceu: bool) -> bool {
    &&& venceu == (!e0.congelado() && e0.ligado() && e0.quantum() == 1)
    &&& e.fios() == e0.fios()
    &&& e.atual() == e0.atual()
    &&& e.ligado() == e0.ligado()
    &&& e.congelado() == e0.congelado()
    &&& e.proximo_id() == e0.proximo_id()
    &&& e.trocas() == e0.trocas()
    &&& e.vencidos() == if venceu {
        e0.vencidos().wrapping_add(1)
    } else {
        e0.vencidos()
    }
    &&& e.quantum() == if venceu {
        QUANTUM_EM_TIQUES as int
    } else if e0.congelado() || !e0.ligado() {
        e0.quantum() as int
    } else {
        e0.quantum() - 1
    }
}

/// Counts a tick of the timer; `true` says that the quantum ran out.
pub fn tique<C, D>(e: &mut Escalonador<C, D>) -> (r: bool)
    requires
        old(e).wf(),
    ensures
        final(e).wf(),
        bateu(old(e), final(e), r),
{
    if e.congelado {
        return false;
    }
    if !e.ligado {
        return false;
    }
    e.quantum = e.quantum.saturating_sub(1);
    if e.quantum > 0 {
        return false;
    }
    e.quantum = QUANTUM_EM_TIQUES;
    e.vencidos = e.vencidos.wrapping_add(1);
    true
}

/// A quantum lasts as many ticks as are left of it: it runs out at the last of
/// them and not before, and a whole one starts.
pub proof fn lei_quantum_dura<C, D>(es: Seq<Escalonador<C, D>>, vs: Seq<bool>)
    requires
        es.len() == vs.len() + 1,
        es[0].wf(),
        es[0].ligado(),
        !es[0].congelado(),
        vs.len() == es[0].quantum(),
        forall|i: int| 0 <= i < vs.len() ==> bateu(&es[i], &es[i + 1], #[trigger] vs[i]),
    ensures
        forall|i: int| 0 <= i < vs.len() ==> #[trigger] vs[i] == (i == vs.len() - 1),
        es.last().quantum() == QUANTUM_EM_TIQUES,
{
    let n = vs.len() as int;
    assert forall|i: int| 0 <= i < n implies #[trigger] vs[i] == (i == n - 1) by {
        lemma_restam(es, vs, i);
        assert(bateu(&es[i], &es[i + 1], vs[i]));
    }
    lemma_restam(es, vs, n - 1);
    assert(bateu(&es[n - 1], &es[n - 1 + 1], vs[n - 1]));
}

proof fn lemma_restam<C, D>(es: Seq<Escalonador<C, D>>, vs: Seq<bool>, i: int)
    requires
        es.len() == vs.len() + 1,
        es[0].wf(),
        es[0].ligado(),
        !es[0].congelado(),
        vs.len() == es[0].quantum(),
        forall|i: int| 0 <= i < vs.len() ==> bateu(&es[i], &es[i + 1], #[trigger] vs[i]),
        0 <= i < vs.len(),
    ensures
        es[i].ligado(),
        !es[i].congelado(),
        es[i].quantum() == vs.len() - i,
    decreases i,
{
    if i > 0 {
        lemma_restam(es, vs, i - 1);
        assert(bateu(&es[i - 1], &es[i - 1 + 1], vs[i - 1]));
    }
}

/// A line of the list of threads.
#[derive(Clone, Copy, Debug)]
pub struct Inscricao {
    pub id: u64,
    pub nome: &'static str,
    pub estado: &'static str,
    pub escalonamentos: u64,
}

/// The line of a thread.
pub open spec fn inscricao_de<C, D>(f: Fio<C, D>) -> Inscricao {
    Inscricao {
        id: f.id.0,
        nome: f.nome,
        estado: f.estado.nome_spec(),
        escalonamentos: f.escalonamentos,
    }
}

/// The lines of the threads in a run of slots, in the order of the slots.
pub open spec fn inscricoes_de<C, D>(s: Seq<Option<Fio<C, D>>>) -> Seq<Inscricao>
    decreases s.len(),
{
    if s.len() == 0 {
        Seq::empty()
    } else {
        match s.last() {
            Some(f) => inscricoes_de(s.drop_last()).push(inscricao_de(f)),
            None => inscricoes_de(s.drop_last()),
        }
    }
}

/// A line for each thread.
pub fn com_inscricoes<C, D>(e: &Escalonador<C, D>) -> (r: Vec<Inscricao>)
    requires
        e.wf(),
    ensures
        r@ == inscricoes_de(e.fios()),
{
    let mut saida: Vec<Inscricao> = Vec::new();
    let mut i: usize = 0;
    while i < MAX_FIOS
        invariant
            i <= MAX_FIOS,
            e.wf(),
            saida@ == inscricoes_de(e.fios().take(i as int)),
        decreases MAX_FIOS - i,
    {
        proof {
            assert(e.fios().take(i + 1).drop_last() =~= e.fios().take(i as int));
        }
        if let Some(fio) = &e.fios[i] {
            saida.push(
                Inscricao {
                    id: fio.id.numero(),
                    nome: fio.nome,
                    estado: fio.estado.nome(),
                    escalonamentos: fio.escalonamentos,
                },
            );
        }
        i = i + 1;
    }
    proof {
        assert(e.fios().take(MAX_FIOS as int) =~= e.fios());
    }
    saida
}

/// How many threads of a run of slots are not over.
pub open spec fn vivos_em<C, D>(s: Seq<Option<Fio<C, D>>>) -> nat
    decreases s.len(),
{
    if s.len() == 0 {
        0
    } else {
        vivos_em(s.drop_last()) + if s.last() is Some && s.last()->0.estado != Estado::Terminado {
            1nat
        } else {
            0
        }
    }
}

/// Threads that are not over, switches, and quanta that ran out.
pub fn estatisticas<C, D>(e: &Escalonador<C, D>) -> (r: (usize, u64, u64))
    requires
        e.wf(),
    ensures
        r.0 == vivos_em(e.fios()),
        r.1 == e.trocas(),
        r.2 == e.vencidos(),
{
    let mut vivos: usize = 0;
    let mut i: usize = 0;
    while i < MAX_FIOS
        invariant
            i <= MAX_FIOS,
            vivos <= i,
            e.wf(),
            vivos == vivos_em(e.fios().take(i as int)),
        decreases MAX_FIOS - i,
    {
        proof {
            assert(e.fios().take(i + 1).drop_last() =~= e.fios().take(i as int));
        }
        if let Some(fio) = &e.fios[i] {
            if fio.estado != Estado::Terminado {
                vivos = vivos + 1;
            }
        }
        i = i + 1;
    }
    proof {
        assert(e.fios().take(MAX_FIOS as int) =~= e.fios());
    }
    (vivos, e.trocas, e.vencidos)
}

/// How many places after `atual` the slot `j` is, going around.
pub open spec fn distancia(atual: int, j: int) -> int {
    if j > atual {
        j - atual
    } else {
        j - atual + MAX_FIOS
    }
}

/// A ready thread that is passed over is closer to its turn than before, and
/// it stays ready.
pub proof fn lei_rodizio<C, D>(
    antes: &Escalonador<C, D>,
    depois: &Escalonador<C, D>,
    raiz: u64,
    t: Troca,
    j: int,
)
    requires
        antes.wf(),
        trocou(antes, depois, raiz, t),
        0 <= j < MAX_FIOS,
        esta(antes.fios()[j], Estado::Pronto),
        j != t.para,
    ensures
        esta(depois.fios()[j], Estado::Pronto),
        1 <= distancia(depois.atual(), j) < distancia(antes.atual(), j) <= MAX_FIOS,
{
    let passo = choose|passo: int| #[trigger] antes.e_proximo(t.para as int, passo);
    let d = distancia(antes.atual(), j);
    assert(adiante(antes.atual(), d) == j);
    if d < passo {
        assert(!esta(antes.fios()[adiante(antes.atual(), d)], Estado::Pronto));
    }
}

/// Turns are fair: in a run of switches a ready thread gets its turn within as
/// many of them as there are slots.
pub proof fn lei_vez_chega<C, D>(es: Seq<Escalonador<C, D>>, ts: Seq<Troca>, raiz: u64, j: int)
    requires
        es.len() == ts.len() + 1,
        ts.len() >= MAX_FIOS,
        forall|i: int| 0 <= i < es.len() ==> (#[trigger] es[i]).wf(),
        forall|i: int| 0 <= i < ts.len() ==> trocou(&es[i], &es[i + 1], raiz, #[trigger] ts[i]),
        0 <= j < MAX_FIOS,
        esta(es[0].fios()[j], Estado::Pronto),
    ensures
        exists|i: int| 0 <= i < MAX_FIOS && (#[trigger] ts[i]).para == j,
{
    if forall|i: int| 0 <= i < MAX_FIOS ==> (#[trigger] ts[i]).para != j {
        lemma_espera(es, ts, raiz, j, MAX_FIOS as int);
    }
}

/// A ready thread that `n` switches in a row passed over is still ready, and at
/// least `n` places closer to its turn.
proof fn lemma_espera<C, D>(es: Seq<Escalonador<C, D>>, ts: Seq<Troca>, raiz: u64, j: int, n: int)
    requires
        es.len() == ts.len() + 1,
        0 <= n <= ts.len(),
        forall|i: int| 0 <= i < es.len() ==> (#[trigger] es[i]).wf(),
        forall|i: int| 0 <= i < ts.len() ==> trocou(&es[i], &es[i + 1], raiz, #[trigger] ts[i]),
        0 <= j < MAX_FIOS,
        esta(es[0].fios()[j], Estado::Pronto),
        forall|i: int| 0 <= i < n ==> (#[trigger] ts[i]).para != j,
    ensures
        esta(es[n].fios()[j], Estado::Pronto),
        1 <= distancia(es[n].atual(), j) <= MAX_FIOS - n,
    decreases n,
{
    assert(es[n].wf());
    if n > 0 {
        lemma_espera(es, ts, raiz, j, n - 1);
        assert(es[n - 1].wf());
        assert(trocou(&es[n - 1], &es[n - 1 + 1], raiz, ts[n - 1]));
        lei_rodizio(&es[n - 1], &es[n], raiz, ts[n - 1], j);
    }
}

/// The running thread is the current one, and there is no other: after a
/// switch exactly one thread runs.
pub proof fn lei_um_so_roda<C, D>(
    antes: &Escalonador<C, D>,
    depois: &Escalonador<C, D>,
    raiz: u64,
    t: Troca,
    i: int,
)
    requires
        antes.wf(),
        trocou(antes, depois, raiz, t),
        0 <= i < MAX_FIOS,
    ensures
        esta(depois.fios()[i], Estado::Rodando) <==> i == depois.atual(),
{
    let passo = choose|passo: int| #[trigger] antes.e_proximo(t.para as int, passo);
    assert(antes.e_proximo(t.para as int, passo));
}

/// Neither a slot that is being filled nor the current one is ever given to
/// another thread.
pub proof fn lei_vaga_tomada_nao_sai<C, D>(e: &Escalonador<C, D>, i: int)
    requires
        e.wf(),
        0 <= i < MAX_FIOS,
        esta(e.fios()[i], Estado::Reservado) || i == e.atual(),
    ensures
        !e.e_vaga(i),
{
}

/// A switch touches no stack: those that were in order still are.
pub proof fn lei_troca_mantem_pilhas<C, D>(
    antes: &Escalonador<C, D>,
    depois: &Escalonador<C, D>,
    raiz: u64,
    t: Troca,
    base: u64,
    m: &Mmu,
    a: &Alocador,
)
    requires
        antes.wf(),
        trocou(antes, depois, raiz, t),
        pilhas_em_ordem(antes, base, m, a),
    ensures
        pilhas_em_ordem(depois, base, m, a),
{
    let passo = choose|passo: int| #[trigger] antes.e_proximo(t.para as int, passo);
    assert(antes.e_proximo(t.para as int, passo));
    assert forall|i: int| 0 <= i < MAX_FIOS implies {
        &&& tem_pilha(#[trigger] depois.fios()[i]) == tem_pilha(antes.fios()[i])
        &&& tem_pilha(antes.fios()[i]) ==> depois.fios()[i]->0.pilha == antes.fios()[i]->0.pilha
    } by {}
}

/// The stack of a thread that is over can always be let go of, where the
/// stacks are in order.
pub proof fn lei_pilha_em_ordem_sai<C, D>(
    e: &Escalonador<C, D>,
    base: u64,
    m: &Mmu,
    a: &Alocador,
    i: int,
)
    requires
        pilhas_em_ordem(e, base, m, a),
        0 <= i < MAX_FIOS,
        e.fios()[i] is Some ==> e.fios()[i]->0.espaco is None,
    ensures
        liberavel(e.fios()[i], base, m),
{
}

/// A thread is born where there is a slot for it and memory for its stack,
/// whether the slot was empty or held a thread that is over.
pub proof fn lei_com_memoria_nasce<C, D>(
    e0: &Escalonador<C, D>,
    m0: &Mmu,
    a0: &Alocador,
    e: &Escalonador<C, D>,
    m: &Mmu,
    a: &Alocador,
    base: u64,
    i: int,
    motivo: &'static str,
)
    requires
        e0.wf(),
        !e0.congelado(),
        e0.e_vaga(i),
        crate::fios::pilha::cabe(base, MAX_FIOS),
        e0.fios()[i] is Some && e0.fios()[i]->0.pilha is Some || crate::fios::pilha::vaga_vazia(
            m0,
            base,
            i as usize,
        ),
        crate::frames::contar(a0.livre()) >= crate::fios::pilha::PAGINAS_DA_PILHA
            * crate::paginacao::POR_PAGINA,
    ensures
        !nao_nasceu(e0, m0, a0, e, m, a, base, motivo),
{
    if nao_nasceu(e0, m0, a0, e, m, a, base, motivo) {
        assert(!e0.lotado());
        let j = choose|j: int| #[trigger]
            e0.e_vaga(j) && sem_pilha(m0, a0, m, a, base, j as usize, e0.fios()[j], motivo)
                && e.fios() == e0.fios().update(j, None) && e.proximo_id()
                == e0.proximo_id().wrapping_add(1);
        assert(j == i) by {
            if j < i {
                assert(!vazia_ou_finda(e0.fios()[j]));
            }
            if i < j {
                assert(!vazia_ou_finda(e0.fios()[i]));
            }
        }
        let (m1, a1) = choose|m1: Mmu, a1: Alocador| #[trigger]
            solto(m0, a0, &m1, &a1, base, e0.fios()[i]) && crate::fios::pilha::recusada(
                &m1,
                &a1,
                m,
                a,
                base,
                i as usize,
                motivo,
            );
        assert(pilha_da_vaga(e0.fios()[i], i));
        assert(crate::fios::pilha::vaga_vazia(&m1, base, i as usize));
        crate::fios::pilha::lei_com_memoria_ha_pilha(&m1, &a1, m, a, base, i as usize, motivo);
    }
}

/// A thread that runs alone keeps the processor, and so does any thread once
/// scheduling stopped: there is no switch to make.
pub proof fn lei_sozinho_nao_troca<C, D>(
    antes: &Escalonador<C, D>,
    depois: &Escalonador<C, D>,
    raiz: u64,
    t: Troca,
)
    requires
        antes.wf(),
        antes.sem_prontos() || antes.congelado(),
    ensures
        !trocou(antes, depois, raiz, t),
{
    if trocou(antes, depois, raiz, t) {
        let passo = choose|passo: int| #[trigger] antes.e_proximo(t.para as int, passo);
        assert(antes.e_proximo(t.para as int, passo));
    }
}

impl<D> Escalonador<Contexto, D> {
    /// Keeps the registers and the stack of the thread in a slot.
    pub fn guardar_contexto(&mut self, i: usize, quadro: Quadro, sp: u64)
        requires
            old(self).wf(),
            i < MAX_FIOS,
            old(self).fios()[i as int] is Some,
        ensures
            final(self).wf(),
            crate::arch::aarch64::contexto::guardado(old(self), final(self), i as int, quadro, sp),
    {
        if let Some(fio) = &mut self.fios[i] {
            fio.contexto.quadro = quadro;
            fio.contexto.sp = sp;
        }
    }
}

impl<C, D> Escalonador<C, D> {
    /// The context of the thread in a slot.
    pub fn contexto_de(&self, i: usize) -> (r: &C)
        requires
            self.wf(),
            i < MAX_FIOS,
            self.fios()[i as int] is Some,
        ensures
            *r == self.fios()[i as int]->0.contexto,
    {
        &self.fios[i].as_ref().unwrap().contexto
    }

    /// The context of the thread in a slot, to be written.
    pub fn contexto_mut(&mut self, i: usize) -> (r: Option<&mut C>)
        requires
            old(self).wf(),
            i < MAX_FIOS,
        ensures
            final(self).wf(),
            final(self).mesmo_resto(old(self)),
            final(self).proximo_id() == old(self).proximo_id(),
            match r {
                Some(c) => {
                    &&& old(self).fios()[i as int] is Some
                    &&& *c == old(self).fios()[i as int]->0.contexto
                    &&& final(self).fios() == old(self).fios().update(
                        i as int,
                        Some(Fio { contexto: *final(c), ..old(self).fios()[i as int]->0 }),
                    )
                },
                None => old(self).fios()[i as int] is None && final(self).fios() == old(self).fios(),
            },
    {
        match &mut self.fios[i] {
            Some(fio) => Some(&mut fio.contexto),
            None => None,
        }
    }
}

/// The list of threads: one entry per slot that is taken, in order, with what the
/// thread is called, how it stands and how often it ran.
pub proof fn lei_inscricoes<C, D>(s: Seq<Option<Fio<C, D>>>)
    ensures
        inscricoes_de(s) == s.filter(|f: Option<Fio<C, D>>| f is Some).map_values(
            |f: Option<Fio<C, D>>|
                Inscricao {
                    id: f->0.id.0,
                    nome: f->0.nome,
                    estado: match f->0.estado {
                        Estado::Reservado => "spawning",
                        Estado::Pronto => "ready",
                        Estado::Rodando => "running",
                        Estado::Terminado => "done",
                    },
                    escalonamentos: f->0.escalonamentos,
                },
        ),
    decreases s.len(),
{
    reveal(Seq::filter);
    let p = |f: Option<Fio<C, D>>| f is Some;
    let g = |f: Option<Fio<C, D>>|
        Inscricao {
            id: f->0.id.0,
            nome: f->0.nome,
            estado: match f->0.estado {
                Estado::Reservado => "spawning",
                Estado::Pronto => "ready",
                Estado::Rodando => "running",
                Estado::Terminado => "done",
            },
            escalonamentos: f->0.escalonamentos,
        };
    if s.len() > 0 {
        let u = s.drop_last();
        lei_inscricoes(u);
        if s.last() is Some {
            assert(s.filter(p) =~= u.filter(p).push(s.last()));
            assert(u.filter(p).push(s.last()).map_values(g) =~= u.filter(p).map_values(g).push(
                g(s.last()),
            ));
        }
    } else {
        assert(s.filter(p) =~= Seq::<Option<Fio<C, D>>>::empty());
        assert(Seq::<Option<Fio<C, D>>>::empty().map_values(g) =~= Seq::<Inscricao>::empty());
    }
}

/// A thread is alive where it is not over.
pub proof fn lei_vivos<C, D>(s: Seq<Option<Fio<C, D>>>)
    ensures
        vivos_em(s) == s.filter(|f: Option<Fio<C, D>>| f is Some && !(f->0.estado is Terminado)).len(),
    decreases s.len(),
{
    reveal(Seq::filter);
    if s.len() > 0 {
        lei_vivos(s.drop_last());
    }
}

/// Going once around the sixteen slots from the next one on comes to every slot,
/// and last to the one it started from.
pub proof fn lei_volta(atual: int, j: int, passo: int)
    requires
        0 <= atual < 16,
        0 <= j < 16,
        1 <= passo <= 16,
    ensures
        0 <= adiante(atual, passo) < 16,
        1 <= distancia(atual, j) <= 16,
        adiante(atual, distancia(atual, j)) == j,
        distancia(atual, adiante(atual, passo)) == passo,
        passo < 16 && adiante(atual, passo) < 15 ==> adiante(atual, passo + 1) == adiante(atual, passo) + 1,
        passo < 16 && adiante(atual, passo) == 15 ==> adiante(atual, passo + 1) == 0,
        adiante(atual, 16) == atual,
{
}

/// A thread that leaves the processor is ready again, unless it is over, and one
/// that gets it runs, once more than before; nothing else of either changes.
pub proof fn lei_sai_e_entra<C, D>(f: Fio<C, D>)
    ensures
        f.estado is Rodando ==> saiu(f).estado is Pronto,
        !(f.estado is Rodando) ==> saiu(f) == f,
        saiu(f) == (Fio { estado: saiu(f).estado, ..f }),
        entrou(f).estado is Rodando,
        f.escalonamentos < u64::MAX ==> entrou(f).escalonamentos == f.escalonamentos + 1,
        entrou(f) == (Fio {
            estado: Estado::Rodando,
            escalonamentos: entrou(f).escalonamentos,
            ..f
        }),
{
}

/// A thread that forks hands its descriptors on; any other starts with the usual
/// ones. A thread runs in its own space where it has one, and in the kernel's where
/// it has none.
pub proof fn lei_herda_e_roda_em<C, D>(
    e: &Escalonador<C, D>,
    bifurca: bool,
    padrao: D,
    f: Fio<C, D>,
    raiz_do_kernel: u64,
)
    ensures
        bifurca && e.fios()[e.atual()] is Some ==> herdados(e, bifurca, padrao)
            == e.fios()[e.atual()]->0.descritores,
        !bifurca ==> herdados(e, bifurca, padrao) == padrao,
        f.espaco is None ==> raiz_de(f, raiz_do_kernel) == raiz_do_kernel,
        f.espaco is Some ==> raiz_de(f, raiz_do_kernel) == f.espaco->0.raiz_spec(),
{
}

} // verus!
