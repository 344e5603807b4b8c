//! Switching threads: from one stack to another.
use vstd::prelude::*;

use crate::fios::parto::{Acao, Parto, Resposta};
use crate::fios::{instalar, selecionar, ContextoDeFio, Escalonador, Estado, Fio, IdFio, Nascente, Troca, MAX_FIOS};
use crate::frames::Alocador;

verus! {

/// What is saved of a thread that is not running: everything else is on its
/// stack.
#[derive(Clone, Copy, Debug, PartialEq, Eq, Structural)]
pub struct Contexto {
    /// The thread's stack.
    pub sp: u64,
    /// The top of the thread's kernel stack; zero for the first thread, which
    /// hosts no process.
    pub pilha_de_kernel: u64,
}

/// Words that a switch takes off the stack of the thread that enters.
pub const PALAVRAS: usize = 7;

impl ContextoDeFio for Contexto {
    open spec fn e_vazio(&self) -> bool {
        self.sp == 0 && self.pilha_de_kernel == 0
    }

    open spec fn pilha_spec(&self) -> u64 {
        self.pilha_de_kernel
    }

    /// The stack and where it starts. Where the thread goes from there is in
    /// the words on its stack: see [`palavras_spec`].
    open spec fn e_inicial(&self, topo: u64, trampolim: u64, entrada: u64, argumento: u64) -> bool {
        &&& self.sp == topo - topo % 16 - 8 * PALAVRAS
        &&& self.pilha_de_kernel == topo - topo % 16
    }

    fn vazio() -> (r: Self) {
        Contexto { sp: 0, pilha_de_kernel: 0 }
    }

    fn inicial(topo: u64, trampolim: u64, entrada: u64, argumento: u64) -> (r: Self) {
        Contexto { sp: topo - topo % 16 - 56, pilha_de_kernel: topo - topo % 16 }
    }

    fn pilha_de_kernel(&self) -> (r: u64) {
        self.pilha_de_kernel
    }
}

/// The words with which the stack of a thread starts, from the lowest address
/// up: the registers that a switch restores, in the order in which it takes
/// them off (`r15`, `r14`, `r13`, `r12`, `rbx`, `rbp`), and the place where it
/// goes on. The trampoline finds the entry in `r12` and the argument in `r13`.
pub open spec fn palavras_spec(trampolim: u64, entrada: u64, argumento: u64) -> Seq<u64> {
    seq![0u64, 0u64, argumento, entrada, 0u64, 0u64, trampolim]
}

/// Writes the context that starts a thread in `entrada` with `argumento`, over
/// a stack that ends at `topo`. The result is what goes on the stack, from
/// `sp` up.
pub fn preparar_contexto(
    contexto: &mut Contexto,
    topo: u64,
    trampolim: u64,
    entrada: u64,
    argumento: u64,
) -> (r: [u64; 7])
    requires
        topo >= 4096,
    ensures
        final(contexto).e_inicial(topo, trampolim, entrada, argumento),
        r@ == palavras_spec(trampolim, entrada, argumento),
{
    *contexto = Contexto::inicial(topo, trampolim, entrada, argumento);
    let r: [u64; 7] = [0, 0, argumento, entrada, 0, 0, trampolim];
    proof {
        assert(r@ =~= palavras_spec(trampolim, entrada, argumento));
    }
    r
}

/// What is asked of the tables and of the memory for a new thread.
pub enum Pedido {
    /// Nothing: go on.
    Seguir,
    /// Take a page out of the tables.
    Desmapear(u64),
    /// Clear a frame, and map a page onto it, for data.
    Mapear { virtual_: u64, fisico: u64 },
    /// Write these words at this address, which is on the thread's stack.
    Escrever { endereco: u64, palavras: [u64; 7] },
    /// The thread is ready.
    Criado(IdFio),
    /// There is no thread.
    Recusado(&'static str),
    /// It was already over.
    Encerrado,
}

/// A thread that is being made: its birth, and where it is to start.
pub struct Criacao {
    pub parto: Parto,
    pub trampolim: u64,
    pub entrada: u64,
    pub argumento: u64,
    /// The thread and its context, while the words for its stack are written.
    pub nascente: Option<(Nascente, Contexto)>,
}

impl Criacao {
    pub open spec fn wf(&self) -> bool {
        &&& self.parto.wf()
        &&& self.nascente is Some ==> self.parto.fase is Fim && {
            let (n, c) = self.nascente->0;
            &&& n.vaga < MAX_FIOS
            &&& c.e_inicial(n.topo, self.trampolim, self.entrada, self.argumento)
        }
    }

    /// The slot is held for the thread.
    pub open spec fn na_tabela<D>(&self, e: &Escalonador<Contexto, D>) -> bool {
        match self.nascente {
            None => self.parto.na_tabela(e),
            Some((n, _)) => {
                &&& n.vaga != e.atual()
                &&& crate::fios::esta(e.fios()[n.vaga as int], Estado::Reservado)
                &&& e.fios()[n.vaga as int]->0.id == n.id
            },
        }
    }

    /// Starts a thread that begins in `entrada` with `argumento`, through
    /// `trampolim`, over the stack that a birth brings.
    pub fn nova(parto: Parto, trampolim: u64, entrada: u64, argumento: u64) -> (r: Criacao)
        requires
            parto.wf(),
        ensures
            r.wf(),
            r == (Criacao { parto, trampolim, entrada, argumento, nascente: None }),
    {
        Criacao { parto, trampolim, entrada, argumento, nascente: None }
    }

    /// Goes on: takes what the tables answered and says what is asked next.
    /// Once the stack is there its first words are written; once they are
    /// written the thread is ready.
    pub fn passo<D>(
        &mut self,
        e: &mut Escalonador<Contexto, D>,
        a: &mut Alocador,
        resposta: Resposta,
    ) -> (r: Pedido)
        requires
            old(self).wf(),
            old(self).na_tabela(old(e)),
            old(e).wf(),
            old(a).wf(),
        ensures
            final(self).wf(),
            final(self).na_tabela(final(e)),
            final(e).wf(),
            final(a).wf(),
            old(e).ids_distintos() ==> final(e).ids_distintos(),
            criou(old(self), old(e), old(a), resposta, final(self), final(e), final(a), r),
    {
        let ghost c0 = *self;
        let ghost e0 = *e;
        let ghost a0 = *a;
        let mut nascente: Option<(Nascente, Contexto)> = None;
        core::mem::swap(&mut nascente, &mut self.nascente);
        if let Some((n, contexto)) = nascente {
            let id = instalar(e, n, contexto, None);
            return Pedido::Criado(id);
        }
        let acao = self.parto.passo(e, a, resposta);
        proof {
            assert(crate::fios::parto::andou(
                &c0.parto,
                &e0,
                &a0,
                resposta,
                &self.parto,
                e,
                a,
                acao,
            ));
        }
        match acao {
            Acao::Seguir => Pedido::Seguir,
            Acao::Desmapear(v) => Pedido::Desmapear(v),
            Acao::Mapear { virtual_, fisico } => Pedido::Mapear { virtual_, fisico },
            Acao::Recusado(motivo) => Pedido::Recusado(motivo),
            Acao::Encerrado => Pedido::Encerrado,
            Acao::Pronto(n) => {
                let mut contexto = Contexto::vazio();
                let palavras = preparar_contexto(
                    &mut contexto,
                    n.topo,
                    self.trampolim,
                    self.entrada,
                    self.argumento,
                );
                let endereco: u64 = contexto.sp;
                self.nascente = Some((n, contexto));
                Pedido::Escrever { endereco, palavras }
            },
        }
    }
}

/// What [`Criacao::passo`] does: the birth goes on until the thread has its
/// stack; then the words with which it starts go on the stack, where its
/// context says; then it is ready, with that context and no space of its own.
pub open spec fn criou<D>(
    c0: &Criacao,
    e0: &Escalonador<Contexto, D>,
    a0: &Alocador,
    resposta: Resposta,
    c: &Criacao,
    e: &Escalonador<Contexto, D>,
    a: &Alocador,
    r: Pedido,
) -> bool {
    &&& c.trampolim == c0.trampolim
    &&& c.entrada == c0.entrada
    &&& c.argumento == c0.argumento
    &&& match c0.nascente {
        Some((n, contexto)) => {
            &&& c.parto == c0.parto
            &&& c.nascente is None
            &&& *a == *a0
            &&& e.mesmo_resto(e0)
            &&& e.proximo_id() == e0.proximo_id()
            &&& e.fios() == e0.fios().update(
                n.vaga as int,
                Some(
                    Fio {
                        estado: Estado::Pronto,
                        contexto,
                        espaco: None,
                        ..e0.fios()[n.vaga as int]->0
                    },
                ),
            )
            &&& r == Pedido::Criado(n.id)
        },
        None => exists|acao: Acao| #[trigger]
            crate::fios::parto::andou(&c0.parto, e0, a0, resposta, &c.parto, e, a, acao)
                && match acao {
                Acao::Seguir => r is Seguir && c.nascente is None,
                Acao::Desmapear(v) => r == Pedido::Desmapear(v) && c.nascente is None,
                Acao::Mapear { virtual_, fisico } => r == (Pedido::Mapear { virtual_, fisico })
                    && c.nascente is None,
                Acao::Recusado(motivo) => r == Pedido::Recusado(motivo) && c.nascente is None,
                Acao::Encerrado => r is Encerrado && c.nascente is None,
                Acao::Pronto(n) => match c.nascente {
                    Some((m, contexto)) => {
                        &&& m == n
                        &&& contexto.e_inicial(n.topo, c0.trampolim, c0.entrada, c0.argumento)
                        &&& r is Escrever
                        &&& r->endereco == contexto.sp
                        &&& r->palavras@ == palavras_spec(c0.trampolim, c0.entrada, c0.argumento)
                    },
                    None => false,
                },
            },
    }
}

/// What a switch leaves in the processor.
pub struct Restaurado {
    pub r15: u64,
    pub r14: u64,
    pub r13: u64,
    pub r12: u64,
    pub rbx: u64,
    pub rbp: u64,
    pub rip: u64,
    pub rsp: int,
}

/// What a switch leaves in the processor, given the words at the stack of the
/// thread that enters.
pub open spec fn restaurado(sp: int, palavras: Seq<u64>) -> Restaurado {
    Restaurado {
        r15: palavras[0],
        r14: palavras[1],
        r13: palavras[2],
        r12: palavras[3],
        rbx: palavras[4],
        rbp: palavras[5],
        rip: palavras[6],
        rsp: sp + 8 * PALAVRAS,
    }
}

/// A new thread starts in the trampoline, with the entry and the argument
/// where the trampoline looks for them, over its whole stack, aligned as a
/// call requires.
pub proof fn lei_fio_novo_comeca(c: Contexto, topo: u64, trampolim: u64, entrada: u64, argumento: u64)
    requires
        topo >= 4096,
        c.e_inicial(topo, trampolim, entrada, argumento),
    ensures
        ({
            let r = restaurado(c.sp as int, palavras_spec(trampolim, entrada, argumento));
            &&& r.rip == trampolim
            &&& r.r12 == entrada
            &&& r.r13 == argumento
            &&& r.rsp == c.pilha_de_kernel
            &&& r.rsp % 16 == 0
            &&& topo - 16 < r.rsp <= topo
        }),
{
}

/// What the processor is given with a switch.
#[derive(Clone, Copy, Debug, PartialEq, Eq, Structural)]
pub struct Cessao {
    /// The slot of the thread that leaves.
    pub de: usize,
    /// The slot of the thread that enters.
    pub para: usize,
    /// The root of translation, where it differs from the one in use. Writing
    /// it drops every translation that the processor remembers.
    pub espaco: Option<u64>,
    /// The kernel stack of the thread that enters, where it has one.
    pub pilha: Option<u64>,
}

/// Gives the processor up to the next thread, if there is one.
pub fn ceder_cpu<D>(
    e: &mut Escalonador<Contexto, D>,
    espaco_atual: u64,
    raiz_do_kernel: u64,
) -> (r: Option<Cessao>)
    requires
        old(e).wf(),
    ensures
        final(e).wf(),
        match r {
            None => *final(e) == *old(e) && (old(e).congelado() || !old(e).ligado() || old(e).sem_prontos()),
            Some(c) => cedeu(old(e), final(e), espaco_atual, raiz_do_kernel, c),
        },
{
    let ghost e0 = *e;
    let t: Troca = match selecionar(e, raiz_do_kernel) {
        None => {
            return None;
        },
        Some(t) => t,
    };
    let espaco: Option<u64> = if t.espaco != espaco_atual {
        Some(t.espaco)
    } else {
        None
    };
    let topo: u64 = e.contexto_de(t.para).pilha_de_kernel;
    let pilha: Option<u64> = if topo != 0 {
        Some(topo)
    } else {
        None
    };
    let c = Cessao { de: t.de, para: t.para, espaco, pilha };
    assert(cedeu(&e0, e, espaco_atual, raiz_do_kernel, c)) by {
        assert(crate::fios::trocou(&e0, e, raiz_do_kernel, t));
    }
    Some(c)
}

/// What [`ceder_cpu`] does where there is a thread to switch to.
pub open spec fn cedeu<D>(
    e0: &Escalonador<Contexto, D>,
    e: &Escalonador<Contexto, D>,
    espaco_atual: u64,
    raiz_do_kernel: u64,
    c: Cessao,
) -> bool {
    exists|t: Troca|
        {
            let topo = e0.fios()[t.para as int]->0.contexto.pilha_de_kernel;
            &&& #[trigger] crate::fios::trocou(e0, e, raiz_do_kernel, t)
            &&& c.de == t.de
            &&& c.para == t.para
            &&& c.espaco == if t.espaco != espaco_atual {
                Some(t.espaco)
            } else {
                None
            }
            &&& c.pilha == if topo != 0 {
                Some(topo)
            } else {
                None
            }
        }
}

} // verus!
