//! The birth of a thread over page tables that are outside the library: what
//! is asked of them, page by page, and what is made of their answers.
use vstd::prelude::*;

use crate::fios::pilha::{Pilha, PAGINAS_DA_PILHA, TAMANHO_DA_VAGA};
use crate::fios::{ocupar, reservar_vaga, ContextoDeFio, Escalonador, Estado, Fio, IdFio, Nascente, MAX_FIOS};
use crate::frames::Alocador;
use crate::paginacao::{Corrida, Espaco, Pagina};

verus! {

/// A run of pages that leave the tables one by one, each giving its frame back.
#[derive(Clone, Copy, Debug, PartialEq, Eq, Structural)]
pub struct Retirada {
    /// The page that comes next, and how many are left, it included.
    pub proxima: u64,
    pub restam: u64,
    /// The next page was asked for, and the answer is pending.
    pub pedida: bool,
}

impl Retirada {
    pub open spec fn wf(&self) -> bool {
        &&& self.proxima + self.restam * 4096 <= u64::MAX
        &&& self.pedida ==> self.restam > 0
    }

    /// A run of `quantas` pages, the first of them at `primeira`.
    pub fn nova(primeira: u64, quantas: u64) -> (r: Retirada)
        requires
            primeira + quantas * 4096 <= u64::MAX,
        ensures
            r.wf(),
            r == (Retirada { proxima: primeira, restam: quantas, pedida: false }),
    {
        Retirada { proxima: primeira, restam: quantas, pedida: false }
    }

    /// The run once the page that was asked for is out.
    pub open spec fn avancada(self) -> Retirada {
        if self.pedida {
            Retirada {
                proxima: (self.proxima + 4096) as u64,
                restam: (self.restam - 1) as u64,
                pedida: false,
            }
        } else {
            self
        }
    }

    /// The run once the next page was asked for, where one is left.
    pub open spec fn seguinte(self) -> Retirada {
        Retirada { pedida: self.avancada().restam > 0, ..self.avancada() }
    }

    /// The page that is asked for next.
    pub open spec fn pagina(self) -> Option<u64> {
        if self.avancada().restam > 0 {
            Some(self.avancada().proxima)
        } else {
            None
        }
    }

    /// Goes on with the run. `frame` is the frame of the page asked for last;
    /// a page that did not come out gives none, and is passed over. The result
    /// is the page to take out next.
    pub fn passo(&mut self, a: &mut Alocador, frame: Option<u64>) -> (r: Option<u64>)
        requires
            old(self).wf(),
            old(a).wf(),
        ensures
            final(self).wf(),
            final(a).wf(),
            *final(self) == old(self).seguinte(),
            r == old(self).pagina(),
            devolveu_pagina(*old(self), old(a), frame, final(a)),
    {
        if self.pedida {
            if let Some(f) = frame {
                crate::frames::liberar(a, f);
            }
            self.proxima = self.proxima + 4096;
            self.restam = self.restam - 1;
            self.pedida = false;
        }
        if self.restam == 0 {
            return None;
        }
        self.pedida = true;
        Some(self.proxima)
    }
}

/// The frame of the page that was asked for went back, where it came.
pub open spec fn devolveu_pagina(
    r: Retirada,
    a0: &Alocador,
    frame: Option<u64>,
    a: &Alocador,
) -> bool {
    if r.pedida && frame is Some {
        crate::frames::liberou(a0, a, frame->0)
    } else {
        *a == *a0
    }
}

/// How far a birth has come.
#[derive(Clone, Copy, Debug, PartialEq, Eq)]
pub enum Fase {
    /// The stack of the slot's last thread leaves the tables.
    Largar(Retirada),
    /// The new stack is mapped.
    Montar(Corrida),
    /// The new stack could not be completed, for this reason: what was mapped
    /// of it leaves the tables.
    Desfazer(Retirada, &'static str),
    Fim,
}

/// What the tables answered.
#[derive(Clone, Copy, Debug, PartialEq, Eq)]
pub enum Resposta {
    /// Nothing was asked.
    Nenhuma,
    Mapeada,
    /// The frame that the page was in.
    Desmapeada(u64),
    Recusada(&'static str),
}

/// What is asked next.
pub enum Acao {
    /// Nothing: go on.
    Seguir,
    /// Take a page out of the tables.
    Desmapear(u64),
    /// Clear a frame, and map a page onto it, for data.
    Mapear { virtual_: u64, fisico: u64 },
    /// The thread has its stack, and waits for its context.
    Pronto(Nascente),
    /// There is no thread: the slot is free again.
    Recusado(&'static str),
    /// The birth was already over.
    Encerrado,
}

/// A thread that is being born.
#[derive(Clone, Copy, Debug, PartialEq, Eq)]
pub struct Parto {
    pub fase: Fase,
    pub id: IdFio,
    pub vaga: usize,
    /// Where the area of stacks starts.
    pub base: u64,
}

/// The frame that came out of the tables, if one did.
pub open spec fn frame_de(r: Resposta) -> Option<u64> {
    match r {
        Resposta::Desmapeada(f) => Some(f),
        _ => None,
    }
}

/// What became of the page that was to be mapped, if one was.
pub open spec fn desfecho(c: Corrida, r: Resposta) -> Option<Result<(), &'static str>> {
    if c.frame is None {
        None
    } else {
        match r {
            Resposta::Mapeada => Some(Ok(())),
            Resposta::Recusada(motivo) => Some(Err(motivo)),
            _ => Some(Err("a pagina nao foi mapeada")),
        }
    }
}

impl Parto {
    /// The first page of the new stack.
    pub open spec fn primeira(&self) -> u64 {
        crate::fios::pilha::primeira_pagina(self.base, self.vaga)
    }

    pub open spec fn wf(&self) -> bool {
        &&& self.base % TAMANHO_DA_VAGA == 0
        &&& crate::fios::pilha::cabe(self.base, MAX_FIOS)
        &&& self.vaga < MAX_FIOS
        &&& match self.fase {
            Fase::Largar(r) => r.wf(),
            Fase::Montar(c) => {
                &&& c.wf()
                &&& c.restam <= PAGINAS_DA_PILHA
                &&& c.proxima + c.restam * 4096 == self.primeira() + PAGINAS_DA_PILHA * 4096
            },
            Fase::Desfazer(r, _) => r.wf(),
            Fase::Fim => true,
        }
    }

    /// The slot is held for the thread.
    pub open spec fn na_tabela<C, D>(&self, e: &Escalonador<C, D>) -> bool {
        self.fase is Fim || {
            &&& self.vaga != e.atual()
            &&& crate::fios::esta(e.fios()[self.vaga as int], Estado::Reservado)
            &&& e.fios()[self.vaga as int]->0.id == self.id
            &&& e.fios()[self.vaga as int]->0.pilha is None
        }
    }

    /// Holds a slot for a new thread. What comes back beside the birth is the
    /// space of the slot's last thread, where it had one: whoever calls lets
    /// go of it.
    ///
    /// `bifurca` says whether the thread inherits the descriptors of the
    /// current one; `padrao` is the table it has otherwise.
    pub fn comecar<C: ContextoDeFio, D: Copy>(
        e: &mut Escalonador<C, D>,
        base: u64,
        nome: &'static str,
        bifurca: bool,
        padrao: D,
    ) -> (r: Result<(Parto, Option<Espaco>), &'static str>)
        requires
            old(e).wf(),
            base % TAMANHO_DA_VAGA == 0,
            crate::fios::pilha::cabe(base, MAX_FIOS),
        ensures
            final(e).wf(),
            final(e).mesmo_resto(old(e)),
            old(e).ids_distintos() && old(e).proximo_id() < u64::MAX ==> final(e).ids_distintos(),
            match r {
                Ok((p, espaco)) => {
                    let i = p.vaga as int;
                    let morto = old(e).fios()[i];
                    &&& p.wf()
                    &&& p.na_tabela(final(e))
                    &&& p.base == base
                    &&& p.id.0 == old(e).proximo_id()
                    &&& p.fase == Fase::Largar(
                        Retirada {
                            proxima: p.primeira(),
                            restam: if crate::fios::tem_pilha(morto) {
                                PAGINAS_DA_PILHA
                            } else {
                                0
                            },
                            pedida: false,
                        },
                    )
                    &&& espaco == match morto {
                        Some(f) => f.espaco,
                        None => None,
                    }
                    &&& !old(e).congelado()
                    &&& old(e).e_vaga(i)
                    &&& final(e).proximo_id() == old(e).proximo_id().wrapping_add(1)
                    &&& final(e).fios() == old(e).fios().update(i, final(e).fios()[i])
                    &&& crate::fios::recem(
                        final(e).fios()[i],
                        p.id,
                        nome,
                        Estado::Reservado,
                        crate::fios::herdados(old(e), bifurca, padrao),
                        0,
                    )
                },
                Err(motivo) => if old(e).congelado() {
                    &&& motivo == "o escalonador esta congelado apos uma falha fatal"
                    &&& *final(e) == *old(e)
                } else {
                    &&& old(e).lotado()
                    &&& motivo == "nao ha vaga livre para outro fio"
                    &&& final(e).fios() == old(e).fios()
                    &&& final(e).proximo_id() == old(e).proximo_id().wrapping_add(1)
                },
            },
    {
        if e.congelado {
            return Err("o escalonador esta congelado apos uma falha fatal");
        }
        let id = IdFio(e.proximo_id);
        let (vaga, morto, _): (usize, Option<Fio<C, D>>, D) = match reservar_vaga(
            e,
            nome,
            bifurca,
            padrao,
        ) {
            Err(motivo) => {
                return Err(motivo);
            },
            Ok(v) => v,
        };
        let primeira: u64 = crate::fios::pilha::primeira_pagina_da_vaga(base, vaga);
        let (quantas, espaco): (u64, Option<Espaco>) = match morto {
            Some(f) => (
                if f.pilha.is_some() {
                    PAGINAS_DA_PILHA
                } else {
                    0
                },
                f.espaco,
            ),
            None => (0, None),
        };
        let fase = Fase::Largar(Retirada::nova(primeira, quantas));
        Ok((Parto { fase, id, vaga, base }, espaco))
    }

    /// Goes on with the birth: takes what the tables answered and says what is
    /// asked of them next.
    pub fn passo<C, D>(
        &mut self,
        e: &mut Escalonador<C, D>,
        a: &mut Alocador,
        resposta: Resposta,
    ) -> (r: Acao)
        requires
            old(self).wf(),
            old(self).na_tabela(old(e)),
            old(e).wf(),
            old(a).wf(),
        ensures
            final(self).wf(),
            final(self).na_tabela(final(e)),
            final(e).wf(),
            final(a).wf(),
            old(e).ids_distintos() ==> final(e).ids_distintos(),
            andou(old(self), old(e), old(a), resposta, final(self), final(e), final(a), r),
    {
        let ghost p0 = *self;
        let ghost e0 = *e;
        let primeira: u64 = crate::fios::pilha::primeira_pagina_da_vaga(self.base, self.vaga);
        match self.fase {
            Fase::Largar(retirada) => {
                let mut retirada = retirada;
                match retirada.passo(a, frame_da(resposta)) {
                    Some(v) => {
                        self.fase = Fase::Largar(retirada);
                        Acao::Desmapear(v)
                    },
                    None => {
                        self.fase = Fase::Montar(Corrida::nova(primeira, PAGINAS_DA_PILHA));
                        Acao::Seguir
                    },
                }
            },
            Fase::Montar(corrida) => {
                let ghost c0 = corrida;
                let ghost a0 = *a;
                let mut corrida = corrida;
                let pagina = corrida.passo(a, desfecho_da(&corrida, resposta));
                proof {
                    assert(crate::paginacao::correu(c0, &a0, desfecho(c0, resposta), corrida, a, pagina));
                }
                match pagina {
                    Pagina::Mapear { virtual_, fisico } => {
                        self.fase = Fase::Montar(corrida);
                        Acao::Mapear { virtual_, fisico }
                    },
                    Pagina::Pronta => {
                        let pilha = Pilha::da_vaga(self.base, self.vaga);
                        let topo: u64 = pilha.topo();
                        crate::fios::dar_pilha(e, self.vaga, pilha);
                        self.fase = Fase::Fim;
                        proof {
                            crate::fios::lemma_ids(&e0, e, self.vaga as int);
                        }
                        Acao::Pronto(Nascente { id: self.id, vaga: self.vaga, topo })
                    },
                    Pagina::Recusada(motivo) => {
                        let prontas: u64 = (corrida.proxima - primeira) / 4096;
                        self.fase = Fase::Desfazer(Retirada::nova(primeira, prontas), motivo);
                        Acao::Seguir
                    },
                }
            },
            Fase::Desfazer(retirada, motivo) => {
                let mut retirada = retirada;
                match retirada.passo(a, frame_da(resposta)) {
                    Some(v) => {
                        self.fase = Fase::Desfazer(retirada, motivo);
                        Acao::Desmapear(v)
                    },
                    None => {
                        ocupar(e, self.vaga, None);
                        self.fase = Fase::Fim;
                        proof {
                            crate::fios::lemma_ids(&e0, e, self.vaga as int);
                        }
                        Acao::Recusado(motivo)
                    },
                }
            },
            Fase::Fim => Acao::Encerrado,
        }
    }
}

fn frame_da(r: Resposta) -> (f: Option<u64>)
    ensures
        f == frame_de(r),
{
    match r {
        Resposta::Desmapeada(f) => Some(f),
        _ => None,
    }
}

fn desfecho_da(c: &Corrida, r: Resposta) -> (d: Option<Result<(), &'static str>>)
    ensures
        d == desfecho(*c, r),
{
    if c.frame.is_none() {
        return None;
    }
    match r {
        Resposta::Mapeada => Some(Ok(())),
        Resposta::Recusada(motivo) => Some(Err(motivo)),
        _ => Some(Err("a pagina nao foi mapeada")),
    }
}

/// What [`Parto::passo`] does.
pub open spec fn andou<C, D>(
    p0: &Parto,
    e0: &Escalonador<C, D>,
    a0: &Alocador,
    resposta: Resposta,
    p: &Parto,
    e: &Escalonador<C, D>,
    a: &Alocador,
    r: Acao,
) -> bool {
    let i = p0.vaga as int;
    &&& p.id == p0.id
    &&& p.vaga == p0.vaga
    &&& p.base == p0.base
    &&& e.mesmo_resto(e0)
    &&& e.proximo_id() == e0.proximo_id()
    &&& match p0.fase {
        Fase::Largar(x) => {
            &&& devolveu_pagina(x, a0, frame_de(resposta), a)
            &&& e.fios() == e0.fios()
            &&& match x.pagina() {
                Some(v) => p.fase == Fase::Largar(x.seguinte()) && r == Acao::Desmapear(v),
                None => r is Seguir && p.fase == Fase::Montar(
                    Corrida { proxima: p0.primeira(), restam: PAGINAS_DA_PILHA, frame: None },
                ),
            }
        },
        Fase::Montar(c0) => exists|c: Corrida, g: Pagina| #[trigger]
            crate::paginacao::correu(c0, a0, desfecho(c0, resposta), c, a, g) && match g {
                Pagina::Mapear { virtual_, fisico } => {
                    &&& p.fase == Fase::Montar(c)
                    &&& e.fios() == e0.fios()
                    &&& r == (Acao::Mapear { virtual_, fisico })
                },
                Pagina::Pronta => {
                    &&& p.fase is Fim
                    &&& ganhou_pilha(e0, e, p0.base, i)
                    &&& r is Pronto
                    &&& r->Pronto_0.id == p0.id
                    &&& r->Pronto_0.vaga == p0.vaga
                    &&& r->Pronto_0.topo == e.fios()[i]->0.pilha->0.topo_spec()
                },
                Pagina::Recusada(motivo) => {
                    &&& p.fase == Fase::Desfazer(
                        Retirada {
                            proxima: p0.primeira(),
                            restam: ((c.proxima - p0.primeira()) / 4096) as u64,
                            pedida: false,
                        },
                        motivo,
                    )
                    &&& e.fios() == e0.fios()
                    &&& r is Seguir
                },
            },
        Fase::Desfazer(x, motivo) => {
            &&& devolveu_pagina(x, a0, frame_de(resposta), a)
            &&& match x.pagina() {
                Some(v) => {
                    &&& p.fase == Fase::Desfazer(x.seguinte(), motivo)
                    &&& e.fios() == e0.fios()
                    &&& r == Acao::Desmapear(v)
                },
                None => {
                    &&& p.fase is Fim
                    &&& e.fios() == e0.fios().update(i, None)
                    &&& r == Acao::Recusado(motivo)
                },
            }
        },
        Fase::Fim => {
            &&& p.fase is Fim
            &&& *e == *e0
            &&& *a == *a0
            &&& r is Encerrado
        },
    }
}

/// The thread in slot `i` has the stack of its slot; nothing else changed.
pub open spec fn ganhou_pilha<C, D>(
    e0: &Escalonador<C, D>,
    e: &Escalonador<C, D>,
    base: u64,
    i: int,
) -> bool {
    &&& e.fios() == e0.fios().update(i, e.fios()[i])
    &&& e.fios()[i] is Some
    &&& e.fios()[i]->0.pilha is Some
    &&& e.fios()[i]->0.pilha->0.wf(base)
    &&& e.fios()[i]->0.pilha->0.vaga_spec() == i
    &&& e.fios()[i]->0 == (Fio { pilha: e.fios()[i]->0.pilha, ..e0.fios()[i]->0 })
}

/// A birth that fails undoes what it did: the pages that it takes out are those
/// that it had mapped, all of them, and at the end its slot is empty.
pub proof fn lei_parto_desfaz_o_que_fez<C, D>(
    p0: &Parto,
    e0: &Escalonador<C, D>,
    a0: &Alocador,
    resposta: Resposta,
    p: &Parto,
    e: &Escalonador<C, D>,
    a: &Alocador,
    r: Acao,
)
    requires
        p0.wf(),
        p0.vaga < e0.fios().len(),
        andou(p0, e0, a0, resposta, p, e, a, r),
    ensures
        p0.fase is Montar && p.fase is Desfazer ==> {
            let c0 = p0.fase->Montar_0;
            let feitas = PAGINAS_DA_PILHA - c0.restam + if c0.frame is Some && resposta is Mapeada {
                1int
            } else {
                0
            };
            &&& (p.fase->Desfazer_0).proxima == p0.primeira()
            &&& (p.fase->Desfazer_0).restam == feitas
        },
        r is Recusado ==> e.fios()[p0.vaga as int] is None,
        forall|j: int| 0 <= j < e0.fios().len() && j != p0.vaga ==> #[trigger] e.fios()[j] == e0.fios()[j],
{
}

/// The pages of a stack are taken back one by one, in order: the one that is asked
/// for is the next that was not, while any is left.
pub proof fn lei_retirada(r: Retirada)
    requires
        r.wf(),
    ensures
        ({
            let feita: int = if r.pedida {
                1
            } else {
                0
            };
            &&& r.pagina() is Some <==> r.restam > feita
            &&& r.pagina() is Some ==> r.pagina()->0 == r.proxima + 4096 * feita
            &&& r.seguinte().restam == r.restam - feita
            &&& r.seguinte().proxima == r.proxima + 4096 * feita
            &&& r.seguinte().pedida == (r.pagina() is Some)
        }),
{
}

/// What is made of the answer to a page: it counts only where a page was asked for,
/// and is a success only where the page was mapped.
pub proof fn lei_desfecho(c: Corrida, r: Resposta)
    ensures
        desfecho(c, r) is None <==> c.frame is None,
        c.frame is Some ==> (desfecho(c, r)->0 is Ok <==> r is Mapeada),
        c.frame is Some && r is Recusada ==> desfecho(c, r) == Some(
            Err::<(), &'static str>(r->Recusada_0),
        ),
        r is Desmapeada ==> frame_de(r) == Some(r->Desmapeada_0),
        !(r is Desmapeada) ==> frame_de(r) is None,
{
}

/// The frame of a page that was taken back is given back, where the page was asked
/// for and had one; otherwise nothing is.
pub proof fn lei_pagina_devolvida(r: Retirada, a0: &Alocador, frame: Option<u64>, a: &Alocador)
    requires
        devolveu_pagina(r, a0, frame, a),
        a0.wf(),
    ensures
        r.pedida && frame is Some && a0.entregue_em(frame->0) ==> a.livre_em(frame->0),
        !r.pedida || frame is None ==> *a == *a0,
{
}

} // verus!
