//! Mapping fresh memory, and the owner of a space's tables.
//!
//! The work is the same on every architecture; what differs is how its tables
//! are written, and that is behind [`Tradutor`].
use vstd::prelude::*;

use crate::arch::aarch64::mmu::{criar_espaco, destruir_espaco, espaco_atual, Mmu};
use crate::arch::Permissoes;
use crate::frames::Alocador;

verus! {

/// The most tables that are made on the way to a page.
pub const TABELAS_NO_CAMINHO: u64 = 2;

/// The most frames that a page of fresh memory takes: its own, and those of
/// its tables.
pub const POR_PAGINA: u64 = 3;

/// Tables of translation, in pages of 4 KiB, over physical memory.
pub trait Tradutor: Sized {
    /// The tables are consistent with themselves and with the free frames.
    spec fn wf(&self, a: &Alocador) -> bool;

    /// The frame of the page that holds an address and what the page allows.
    spec fn pagina_de(&self, v: u64) -> Option<(u64, Permissoes)>;

    /// Why a mapping is refused, or `None` where it is made.
    spec fn recusa_mapear(&self, a: &Alocador, v: u64, f: u64) -> Option<&'static str>;

    /// Why a mapping is not removed, or `None` where it is.
    spec fn recusa_desmapear(&self, v: u64) -> Option<&'static str>;

    /// A page can go here: the address is within the tables' reach, and there
    /// is nothing at it.
    spec fn vago(&self, v: u64) -> bool;

    /// A page can be mapped onto this frame.
    spec fn nomeavel(f: u64) -> bool;

    /// What a frame holds.
    spec fn conteudo(&self, f: u64) -> Seq<u64>;

    /// The frame is memory and holds none of the tables.
    spec fn disponivel(&self, f: u64) -> bool;

    /// A page is mapped where there is room for it and memory for its tables.
    proof fn lemma_aceita(&self, a: &Alocador, v: u64, f: u64)
        requires
            self.vago(v),
            Self::nomeavel(f),
            crate::frames::contar(a.livre()) >= TABELAS_NO_CAMINHO,
        ensures
            self.recusa_mapear(a, v, f) is None,
    ;

    /// A page can be mapped onto any frame that is memory.
    proof fn lemma_nomeavel(&self, a: &Alocador, f: u64)
        requires
            self.wf(a),
            self.disponivel(f),
        ensures
            Self::nomeavel(f),
    ;

    /// Free frames are memory and hold no table.
    proof fn lemma_livre(&self, a: &Alocador, f: u64)
        requires
            self.wf(a),
            a.livre_em(f),
            f % 4096 == 0,
        ensures
            self.disponivel(f),
    ;

    /// Taking a frame keeps the tables consistent.
    proof fn lemma_alocar(&self, a: &Alocador, b: &Alocador, f: u64)
        requires
            self.wf(a),
            a.wf(),
            b.wf(),
            crate::frames::alocou(a, b, Some(f)),
        ensures
            self.wf(b),
    ;

    /// Giving back a frame that holds no table keeps the tables consistent.
    proof fn lemma_liberar(&self, a: &Alocador, b: &Alocador, f: u64)
        requires
            self.wf(a),
            a.wf(),
            b.wf(),
            f % 4096 == 0,
            self.disponivel(f),
            crate::frames::liberou(a, b, f),
        ensures
            self.wf(b),
    ;

    /// A mapped page can be unmapped.
    proof fn lemma_desmapear(&self, a: &Alocador, v: u64)
        requires
            self.wf(a),
            v % 4096 == 0,
            self.pagina_de(v) is Some,
        ensures
            self.recusa_desmapear(v) is None,
    ;

    /// A frame starts on a page boundary.
    proof fn lemma_alinhado(&self, f: u64)
        requires
            self.disponivel(f),
        ensures
            f % 4096 == 0,
    ;

    /// The tables speak of a valid allocator.
    proof fn lemma_wf(&self, a: &Alocador)
        requires
            self.wf(a),
        ensures
            a.wf(),
    ;

    /// Maps a page onto a frame.
    fn mapear_frame(
        &mut self,
        a: &mut Alocador,
        virtual_: u64,
        fisico: u64,
        permissoes: Permissoes,
    ) -> (r: Result<(), &'static str>)
        requires
            old(self).wf(old(a)),
        ensures
            final(self).wf(final(a)),
            final(a).mesma_janela(old(a)),
            forall|e: u64| e % 4096 == 0 && #[trigger] final(a).livre_em(e) ==> old(a).livre_em(e),
            forall|e: u64|
                e % 4096 == 0 && #[trigger] old(a).livre_em(e) && !final(a).livre_em(e) ==> !final(self).disponivel(e),
            forall|f: u64| #[trigger]
                old(self).disponivel(f) && !old(a).livre_em(f) ==> final(self).disponivel(f)
                    && final(self).conteudo(f) == old(self).conteudo(f),
            forall|f: u64| #[trigger] final(self).disponivel(f) ==> old(self).disponivel(f),
            crate::frames::contar(old(a).livre()) <= crate::frames::contar(final(a).livre())
                + TABELAS_NO_CAMINHO,
            forall|w: u64|
                old(self).vago(w) && (r is Err || w / 4096 != virtual_ / 4096)
                    ==> #[trigger] final(self).vago(w),
            match r {
                Ok(_) => {
                    &&& old(self).recusa_mapear(old(a), virtual_, fisico) is None
                    &&& virtual_ % 4096 == 0
                    &&& forall|w: u64|
                        w / 4096 == virtual_ / 4096 ==> (#[trigger] old(self).pagina_de(w)) is None
                    &&& forall|w: u64| #[trigger]
                        final(self).pagina_de(w) == if w / 4096 == virtual_ / 4096 {
                            Some((fisico, permissoes))
                        } else {
                            old(self).pagina_de(w)
                        }
                },
                Err(motivo) => {
                    &&& old(self).recusa_mapear(old(a), virtual_, fisico) == Some(motivo)
                    &&& forall|w: u64| #[trigger]
                        final(self).pagina_de(w) == old(self).pagina_de(w)
                },
            },
    ;

    /// Removes the mapping of a page.
    fn desmapear(&mut self, a: &mut Alocador, virtual_: u64) -> (r: Result<u64, &'static str>)
        requires
            old(self).wf(old(a)),
        ensures
            final(self).wf(final(a)),
            final(a).mesma_janela(old(a)),
            forall|e: u64| #[trigger] old(a).livre_em(e) ==> final(a).livre_em(e),
            forall|e: u64|
                e % 4096 == 0 && #[trigger] final(a).livre_em(e) ==> old(a).livre_em(e) || !old(
                    self,
                ).disponivel(e),
            forall|f: u64| #[trigger] old(self).disponivel(f) ==> final(self).disponivel(f),
            forall|f: u64| #[trigger]
                final(self).disponivel(f) && old(a).circula(f) ==> old(self).disponivel(f)
                    || final(a).livre_em(f),
            forall|f: u64| #[trigger]
                old(self).disponivel(f) && !old(a).livre_em(f) ==> final(self).conteudo(f) == old(
                    self,
                ).conteudo(f),
            forall|w: u64| old(self).vago(w) ==> #[trigger] final(self).vago(w),
            r is Ok ==> final(self).vago(virtual_),
            match r {
                Ok(f) => {
                    &&& old(self).recusa_desmapear(virtual_) is None
                    &&& old(self).pagina_de(virtual_) is Some
                    &&& (old(self).pagina_de(virtual_)->0).0 == f
                    &&& f % 4096 == 0
                    &&& forall|w: u64| #[trigger]
                        final(self).pagina_de(w) == if w / 4096 == virtual_ / 4096 {
                            None
                        } else {
                            old(self).pagina_de(w)
                        }
                },
                Err(motivo) => {
                    &&& old(self).recusa_desmapear(virtual_) == Some(motivo)
                    &&& *final(self) == *old(self)
                    &&& *final(a) == *old(a)
                },
            },
    ;

    /// Clears a frame that holds no table.
    fn zerar(&mut self, a: &Alocador, f: u64)
        requires
            old(self).wf(a),
            old(self).disponivel(f),
        ensures
            final(self).wf(a),
            final(self).conteudo(f) == crate::arch::memoria::zerado(),
            forall|o: u64| o != f && #[trigger] old(self).disponivel(o) ==> final(self).conteudo(o)
                == old(self).conteudo(o),
            forall|o: u64| #[trigger] final(self).disponivel(o) == old(self).disponivel(o),
            forall|w: u64| #[trigger] final(self).pagina_de(w) == old(self).pagina_de(w),
            forall|w: u64| #[trigger] final(self).vago(w) == old(self).vago(w),
            forall|b: Alocador, v: u64, g: u64| #[trigger]
                final(self).recusa_mapear(&b, v, g) == old(self).recusa_mapear(&b, v, g),
    ;
}

/// A frame `f` was handed out, leaving the allocator at `b`, and mapping it at
/// `v` was answered with `resposta`.
pub open spec fn pedido_de_mapa<T: Tradutor>(
    t: &T,
    a: &Alocador,
    b: &Alocador,
    f: u64,
    v: u64,
    resposta: Option<&'static str>,
) -> bool {
    crate::frames::alocou(a, b, Some(f)) && t.recusa_mapear(b, v, f) == resposta
}

/// Every page is where it was.
pub open spec fn mesmas_paginas<T: Tradutor>(depois: &T, antes: &T) -> bool {
    forall|w: u64| #[trigger] depois.pagina_de(w) == antes.pagina_de(w)
}

/// Every frame in use but not by the tables holds what it held.
pub open spec fn mesmos_conteudos<T: Tradutor>(depois: &T, antes: &T, a: &Alocador) -> bool {
    forall|f: u64| #[trigger]
        antes.disponivel(f) && !a.livre_em(f) ==> depois.disponivel(f) && depois.conteudo(f)
            == antes.conteudo(f)
}

/// The page at `v` was mapped onto the frame `f`, which was free and is clear;
/// every other page is where it was.
pub open spec fn mapeou<T: Tradutor>(
    antes: &T,
    depois: &T,
    a: &Alocador,
    b: &Alocador,
    v: u64,
    permissoes: Permissoes,
    f: u64,
) -> bool {
    &&& exists|c: Alocador| #[trigger] pedido_de_mapa(antes, a, &c, f, v, None)
    &&& v % 4096 == 0
    &&& forall|w: u64| w / 4096 == v / 4096 ==> (#[trigger] antes.pagina_de(w)) is None
    &&& f % 4096 == 0
    &&& a.livre_em(f)
    &&& !b.livre_em(f)
    &&& depois.disponivel(f)
    &&& depois.conteudo(f) == crate::arch::memoria::zerado()
    &&& forall|e: u64|
        e % 4096 == 0 && #[trigger] a.livre_em(e) && !b.livre_em(e) ==> e == f || !depois.disponivel(e)
    &&& crate::frames::contar(a.livre()) <= crate::frames::contar(b.livre()) + POR_PAGINA
    &&& forall|w: u64| #[trigger]
        depois.pagina_de(w) == if w / 4096 == v / 4096 {
            Some((f, permissoes))
        } else {
            antes.pagina_de(w)
        }
}

/// Why fresh memory was not mapped: there is none, or the tables refused the
/// frame that would have been used.
pub open spec fn recusou<T: Tradutor>(t: &T, a: &Alocador, v: u64, motivo: &'static str) -> bool {
    if crate::frames::contar(a.livre()) == 0 {
        motivo == "memoria fisica esgotada"
    } else {
        exists|b: Alocador, f: u64| #[trigger] pedido_de_mapa(t, a, &b, f, v, Some(motivo))
    }
}

/// Maps a page onto fresh, cleared memory and returns the frame.
///
/// Where the mapping is refused the frame goes back, and no page changed.
pub fn mapear_novo<T: Tradutor>(
    t: &mut T,
    a: &mut Alocador,
    virtual_: u64,
    permissoes: Permissoes,
) -> (r: Result<u64, &'static str>)
    requires
        old(t).wf(old(a)),
    ensures
        final(t).wf(final(a)),
        final(a).mesma_janela(old(a)),
        mesmos_conteudos(final(t), old(t), old(a)),
        forall|e: u64| e % 4096 == 0 && #[trigger] final(a).livre_em(e) ==> old(a).livre_em(e),
        forall|f: u64| #[trigger] final(t).disponivel(f) ==> old(t).disponivel(f),
        forall|w: u64|
            old(t).vago(w) && (r is Err || w / 4096 != virtual_ / 4096) ==> #[trigger] final(t).vago(w),
        match r {
            Ok(f) => mapeou(old(t), final(t), old(a), final(a), virtual_, permissoes, f),
            Err(motivo) => {
                &&& mesmas_paginas(final(t), old(t))
                &&& recusou(old(t), old(a), virtual_, motivo)
                &&& forall|e: u64|
                    e % 4096 == 0 && #[trigger] old(a).livre_em(e) && !final(a).livre_em(e) ==> !final(t).disponivel(e)
            },
        },
{
    let ghost a0 = *a;
    let ghost t0 = *t;
    proof {
        t.lemma_wf(a);
        crate::frames::lemma_contar(a0.livre());
    }
    let frame: u64 = match crate::frames::alocar(a) {
        None => {
            return Err("memoria fisica esgotada");
        },
        Some(f) => f,
    };
    let ghost a1 = *a;
    proof {
        crate::frames::lemma_alocou(&a0, &a1, frame);
        crate::frames::lemma_contar(a1.livre());
        t0.lemma_livre(&a0, frame);
        t0.lemma_alocar(&a0, &a1, frame);
    }
    t.zerar(a, frame);
    let ghost t1 = *t;
    let r = t.mapear_frame(a, virtual_, frame, permissoes);
    match r {
        Ok(_) => {
            proof {
                assert(t1.disponivel(frame));
                assert(!a1.livre_em(frame));
                assert(!a.livre_em(frame));
                assert(t.conteudo(frame) == crate::arch::memoria::zerado());
                assert(pedido_de_mapa(&t0, &a0, &a1, frame, virtual_, None));
                assert forall|f: u64| #[trigger] t0.disponivel(f) && !a0.livre_em(f) implies t.disponivel(f)
                    && t.conteudo(f) == t0.conteudo(f) by {
                    assert(t1.disponivel(f));
                    assert(f != frame);
                    assert(!a1.livre_em(f));
                }
                assert forall|w: u64| #[trigger] t.pagina_de(w) == if w / 4096 == virtual_ / 4096 {
                    Some((frame, permissoes))
                } else {
                    t0.pagina_de(w)
                } by {
                    assert(t1.pagina_de(w) == t0.pagina_de(w));
                }
                assert forall|w: u64| w / 4096 == virtual_ / 4096 implies (#[trigger] t0.pagina_de(w)) is None by {
                    assert(t1.pagina_de(w) == t0.pagina_de(w));
                }
                t.lemma_wf(a);
                assert(mapeou(&t0, t, &a0, a, virtual_, permissoes, frame));
            }
            Ok(frame)
        },
        Err(motivo) => {
            let ghost a2 = *a;
            let ghost t2 = *t;
            proof {
                t2.lemma_wf(&a2);
                assert(t1.disponivel(frame));
                assert(t2.disponivel(frame));
                assert(pedido_de_mapa(&t0, &a0, &a1, frame, virtual_, Some(motivo)));
            }
            crate::frames::liberar(a, frame);
            proof {
                crate::frames::lemma_liberou(&a2, a, frame);
                t.lemma_liberar(&a2, a, frame);
                assert forall|w: u64| #[trigger] t.pagina_de(w) == t0.pagina_de(w) by {
                    assert(t1.pagina_de(w) == t0.pagina_de(w));
                }
                assert forall|f: u64| #[trigger] t0.disponivel(f) && !a0.livre_em(f) implies t.disponivel(f)
                    && t.conteudo(f) == t0.conteudo(f) by {
                    assert(t1.disponivel(f));
                    assert(f != frame);
                    assert(!a1.livre_em(f));
                }
                assert(recusou(&t0, &a0, virtual_, motivo));
            }
            Err(motivo)
        },
    }
}

/// Unmaps a page that [`mapear_novo`] mapped and gives its frame back.
pub fn desmapear_e_liberar<T: Tradutor>(t: &mut T, a: &mut Alocador, virtual_: u64) -> (r: Result<
    (),
    &'static str,
>)
    requires
        old(t).wf(old(a)),
        old(t).recusa_desmapear(virtual_) is None ==> match old(t).pagina_de(virtual_) {
            Some(p) => old(t).disponivel(p.0),
            None => true,
        },
    ensures
        final(t).wf(final(a)),
        final(a).mesma_janela(old(a)),
        forall|e: u64| #[trigger] old(a).livre_em(e) ==> final(a).livre_em(e),
        forall|f: u64| #[trigger] old(t).disponivel(f) ==> final(t).disponivel(f),
        forall|f: u64| #[trigger]
            final(t).disponivel(f) && old(a).circula(f) ==> old(t).disponivel(f)
                || final(a).livre_em(f),
        mesmos_conteudos(final(t), old(t), old(a)),
        forall|w: u64| old(t).vago(w) ==> #[trigger] final(t).vago(w),
        r is Ok ==> final(t).vago(virtual_),
        match r {
            Ok(_) => {
                &&& old(t).recusa_desmapear(virtual_) is None
                &&& match old(t).pagina_de(virtual_) {
                    Some(p) => old(a).circula(p.0) ==> final(a).livre_em(p.0),
                    None => false,
                }
                &&& forall|e: u64|
                    e % 4096 == 0 && #[trigger] final(a).livre_em(e) ==> old(a).livre_em(e) || !old(
                        t,
                    ).disponivel(e) || (old(t).pagina_de(virtual_)->0).0 == e
                &&& forall|w: u64| #[trigger]
                    final(t).pagina_de(w) == if w / 4096 == virtual_ / 4096 {
                        None
                    } else {
                        old(t).pagina_de(w)
                    }
            },
            Err(motivo) => {
                &&& old(t).recusa_desmapear(virtual_) == Some(motivo)
                &&& *final(t) == *old(t)
                &&& *final(a) == *old(a)
            },
        },
{
    let ghost a0 = *a;
    match t.desmapear(a, virtual_) {
        Err(motivo) => Err(motivo),
        Ok(frame) => {
            let ghost a1 = *a;
            proof {
                t.lemma_wf(&a1);
            }
            crate::frames::liberar(a, frame);
            proof {
                crate::frames::lemma_liberou(&a1, a, frame);
                t.lemma_liberar(&a1, a, frame);
            }
            Ok(())
        },
    }
}

/// The address of the page `i` of a run of pages.
pub open spec fn endereco(primeira: u64, i: int) -> u64 {
    (primeira + i * 4096) as u64
}

/// The page at `v` was made of a frame that was free in `a0`; it is clear and
/// allows `permissoes`.
pub open spec fn pagina_nova<T: Tradutor>(
    a0: &Alocador,
    t: &T,
    a: &Alocador,
    v: u64,
    permissoes: Permissoes,
) -> bool {
    match t.pagina_de(v) {
        Some(p) => {
            &&& p.1 == permissoes
            &&& p.0 % 4096 == 0
            &&& a0.livre_em(p.0)
            &&& !a.livre_em(p.0)
            &&& t.disponivel(p.0)
            &&& t.conteudo(p.0) == crate::arch::memoria::zerado()
        },
        None => false,
    }
}

/// One of the first `n` pages of a run is in the frame at `e`.
pub open spec fn na_faixa<T: Tradutor>(t: &T, primeira: u64, n: int, e: u64) -> bool {
    exists|i: int|
        0 <= i < n && (#[trigger] t.pagina_de(endereco(primeira, i))) is Some && (t.pagina_de(
            endereco(primeira, i),
        )->0).0 == e
}

/// The first `n` pages of a run were mapped onto fresh memory, each onto a
/// frame of its own; every other page is where it was, and no frame was lost.
pub open spec fn mapeadas<T: Tradutor>(
    t0: &T,
    a0: &Alocador,
    t: &T,
    a: &Alocador,
    primeira: u64,
    n: int,
    permissoes: Permissoes,
) -> bool {
    &&& t.wf(a)
    &&& a.mesma_janela(a0)
    &&& n > 0 ==> primeira % 4096 == 0
    &&& mesmos_conteudos(t, t0, a0)
    &&& forall|i: int|
        0 <= i < n ==> #[trigger] pagina_nova(a0, t, a, endereco(primeira, i), permissoes)
    &&& forall|i: int, j: int|
        0 <= i < j < n ==> (#[trigger] t.pagina_de(endereco(primeira, i))->0).0 != (
        #[trigger] t.pagina_de(endereco(primeira, j))->0).0
    &&& forall|w: u64|
        primeira <= w < primeira + n * 4096 ==> (#[trigger] t0.pagina_de(w)) is None
    &&& forall|w: u64|
        !(primeira <= w < primeira + n * 4096) ==> #[trigger] t.pagina_de(w) == t0.pagina_de(w)
    &&& forall|w: u64|
        !(primeira <= w < primeira + n * 4096) && t0.vago(w) ==> #[trigger] t.vago(w)
    &&& forall|e: u64| e % 4096 == 0 && #[trigger] a.livre_em(e) ==> a0.livre_em(e)
    &&& forall|e: u64|
        e % 4096 == 0 && #[trigger] a0.livre_em(e) && !a.livre_em(e) ==> na_faixa(t, primeira, n, e)
            || !t.disponivel(e)
}

/// The run stopped at page `n`, which was refused for `motivo`.
pub open spec fn parou<T: Tradutor>(
    t0: &T,
    a0: &Alocador,
    primeira: u64,
    n: int,
    permissoes: Permissoes,
    motivo: &'static str,
) -> bool {
    exists|t: T, a: Alocador| #[trigger]
        mapeadas(t0, a0, &t, &a, primeira, n, permissoes) && gastou(a0, &a, n) && recusou(
            &t,
            &a,
            endereco(primeira, n),
            motivo,
        )
}

/// No more frames were taken than `n` pages of fresh memory take.
pub open spec fn gastou(a0: &Alocador, a: &Alocador, n: int) -> bool {
    crate::frames::contar(a0.livre()) <= crate::frames::contar(a.livre()) + n * POR_PAGINA
}

/// A run of pages goes through where there is room for it and memory enough:
/// it does not stop at any of its pages.
pub proof fn lei_com_memoria_nao_para<T: Tradutor>(
    t0: &T,
    a0: &Alocador,
    primeira: u64,
    quantas: int,
    n: int,
    permissoes: Permissoes,
    motivo: &'static str,
)
    requires
        primeira + quantas * 4096 <= u64::MAX,
        forall|i: int| 0 <= i < quantas ==> #[trigger] t0.vago(endereco(primeira, i)),
        crate::frames::contar(a0.livre()) >= quantas * POR_PAGINA,
        0 <= n < quantas,
    ensures
        !parou(t0, a0, primeira, n, permissoes, motivo),
{
    if parou(t0, a0, primeira, n, permissoes, motivo) {
        let v = endereco(primeira, n);
        let (t, a) = choose|t: T, a: Alocador| #[trigger]
            mapeadas(t0, a0, &t, &a, primeira, n, permissoes) && gastou(a0, &a, n) && recusou(
                &t,
                &a,
                v,
                motivo,
            );
        assert(t0.vago(v));
        assert(v == primeira + n * 4096);
        assert(t.vago(v));
        assert(crate::frames::contar(a.livre()) >= POR_PAGINA);
        let (b, f) = choose|b: Alocador, f: u64| #[trigger]
            pedido_de_mapa(&t, &a, &b, f, v, Some(motivo));
        t.lemma_wf(&a);
        crate::frames::lemma_alocou(&a, &b, f);
        t.lemma_livre(&a, f);
        t.lemma_nomeavel(&a, f);
        t.lemma_aceita(&b, v, f);
    }
}

proof fn lemma_mais_uma<T: Tradutor>(
    t0: &T,
    a0: &Alocador,
    t1: &T,
    a1: &Alocador,
    t: &T,
    a: &Alocador,
    primeira: u64,
    n: int,
    permissoes: Permissoes,
    f: u64,
)
    requires
        mapeadas(t0, a0, t1, a1, primeira, n, permissoes),
        0 <= n,
        primeira + (n + 1) * 4096 <= u64::MAX,
        t.wf(a),
        a.mesma_janela(a1),
        mesmos_conteudos(t, t1, a1),
        forall|e: u64| e % 4096 == 0 && #[trigger] a.livre_em(e) ==> a1.livre_em(e),
        forall|x: u64| #[trigger] t.disponivel(x) ==> t1.disponivel(x),
        forall|w: u64|
            t1.vago(w) && w / 4096 != endereco(primeira, n) / 4096 ==> #[trigger] t.vago(w),
        mapeou(t1, t, a1, a, endereco(primeira, n), permissoes, f),
    ensures
        mapeadas(t0, a0, t, a, primeira, n + 1, permissoes),
{
    let v = endereco(primeira, n);
    assert(v == primeira + n * 4096);
    assert(primeira % 4096 == 0);
    assert(t.pagina_de(v) == Some((f, permissoes)));
    assert forall|w: u64| w / 4096 != v / 4096 implies #[trigger] t.pagina_de(w) == t1.pagina_de(w) by {}
    assert forall|w: u64| primeira <= w < primeira + (n + 1) * 4096 implies (#[trigger] t0.pagina_de(w)) is None by {
        if w >= v {
            assert(w / 4096 == v / 4096);
            assert(t1.pagina_de(w) is None);
        }
    }
    assert forall|i: int| 0 <= i < n implies #[trigger] t.pagina_de(endereco(primeira, i)) == t1.pagina_de(
        endereco(primeira, i),
    ) by {
        assert(endereco(primeira, i) == primeira + i * 4096);
        assert(endereco(primeira, i) / 4096 != v / 4096);
    }
    assert forall|x: u64| #[trigger] t0.disponivel(x) && !a0.livre_em(x) implies t.disponivel(x)
        && t.conteudo(x) == t0.conteudo(x) by {
        assert(t1.disponivel(x));
        t0.lemma_alinhado(x);
    }
    assert forall|i: int| 0 <= i < n + 1 implies #[trigger] pagina_nova(
        a0,
        t,
        a,
        endereco(primeira, i),
        permissoes,
    ) by {
        if i < n {
            assert(pagina_nova(a0, t1, a1, endereco(primeira, i), permissoes));
            assert(t.pagina_de(endereco(primeira, i)) == t1.pagina_de(endereco(primeira, i)));
            let g = (t1.pagina_de(endereco(primeira, i))->0).0;
            assert(t1.disponivel(g));
        }
    }
    assert forall|i: int, j: int| 0 <= i < j < n + 1 implies (#[trigger] t.pagina_de(
        endereco(primeira, i),
    )->0).0 != (#[trigger] t.pagina_de(endereco(primeira, j))->0).0 by {
        assert(pagina_nova(a0, t1, a1, endereco(primeira, i), permissoes));
        assert(t.pagina_de(endereco(primeira, i)) == t1.pagina_de(endereco(primeira, i)));
        if j < n {
            assert(t.pagina_de(endereco(primeira, j)) == t1.pagina_de(endereco(primeira, j)));
        }
    }
    assert forall|e: u64| e % 4096 == 0 && #[trigger] a0.livre_em(e) && !a.livre_em(e) implies na_faixa(
        t,
        primeira,
        n + 1,
        e,
    ) || !t.disponivel(e) by {
        if a1.livre_em(e) {
            if e == f {
                assert(t.pagina_de(endereco(primeira, n)) is Some);
            }
        } else if na_faixa(t1, primeira, n, e) {
            let i = choose|i: int|
                0 <= i < n && (#[trigger] t1.pagina_de(endereco(primeira, i))) is Some && (
                t1.pagina_de(endereco(primeira, i))->0).0 == e;
            assert(t.pagina_de(endereco(primeira, i)) == t1.pagina_de(endereco(primeira, i)));
        } else {
            assert(!t1.disponivel(e));
        }
    }
}

/// Maps a run of pages onto fresh memory, stopping at the first that is
/// refused: the error says how many were mapped before it, and why it stopped.
pub fn mapear_faixa<T: Tradutor>(
    t: &mut T,
    a: &mut Alocador,
    primeira: u64,
    quantas: u64,
    permissoes: Permissoes,
) -> (r: Result<(), (u64, &'static str)>)
    requires
        old(t).wf(old(a)),
        primeira + quantas * 4096 <= u64::MAX,
    ensures
        mapeadas(
            old(t),
            old(a),
            final(t),
            final(a),
            primeira,
            match r {
                Ok(_) => quantas as int,
                Err(parada) => parada.0 as int,
            },
            permissoes,
        ),
        match r {
            Ok(_) => gastou(old(a), final(a), quantas as int),
            Err(parada) => parada.0 < quantas && parou(
                old(t),
                old(a),
                primeira,
                parada.0 as int,
                permissoes,
                parada.1,
            ),
        },
{
    let ghost t0 = *t;
    let ghost a0 = *a;
    let mut i: u64 = 0;
    while i < quantas
        invariant
            i <= quantas,
            primeira + quantas * 4096 <= u64::MAX,
            t0 == *old(t),
            a0 == *old(a),
            mapeadas(&t0, &a0, t, a, primeira, i as int, permissoes),
            gastou(&a0, a, i as int),
        decreases quantas - i,
    {
        let ghost t1 = *t;
        let ghost a1 = *a;
        assert(endereco(primeira, i as int) == primeira + i * 4096);
        match mapear_novo(t, a, primeira + i * 4096, permissoes) {
            Ok(f) => {
                proof {
                    lemma_mais_uma(&t0, &a0, &t1, &a1, t, a, primeira, i as int, permissoes, f);
                }
                i = i + 1;
            },
            Err(motivo) => {
                proof {
                    lemma_mesmas_mapeadas(
                        &t0,
                        &a0,
                        &t1,
                        &a1,
                        t,
                        a,
                        primeira,
                        i as int,
                        permissoes,
                    );
                    assert(parou(&t0, &a0, primeira, i as int, permissoes, motivo));
                }
                return Err((i, motivo));
            },
        }
    }
    Ok(())
}

proof fn lemma_mesmas_mapeadas<T: Tradutor>(
    t0: &T,
    a0: &Alocador,
    t1: &T,
    a1: &Alocador,
    t: &T,
    a: &Alocador,
    primeira: u64,
    n: int,
    permissoes: Permissoes,
)
    requires
        mapeadas(t0, a0, t1, a1, primeira, n, permissoes),
        0 <= n,
        t.wf(a),
        a.mesma_janela(a1),
        mesmos_conteudos(t, t1, a1),
        mesmas_paginas(t, t1),
        forall|e: u64| e % 4096 == 0 && #[trigger] a.livre_em(e) ==> a1.livre_em(e),
        forall|x: u64| #[trigger] t.disponivel(x) ==> t1.disponivel(x),
        forall|w: u64| t1.vago(w) ==> #[trigger] t.vago(w),
        forall|e: u64|
            e % 4096 == 0 && #[trigger] a1.livre_em(e) && !a.livre_em(e) ==> !t.disponivel(e),
    ensures
        mapeadas(t0, a0, t, a, primeira, n, permissoes),
{
    assert forall|x: u64| #[trigger] t0.disponivel(x) && !a0.livre_em(x) implies t.disponivel(x)
        && t.conteudo(x) == t0.conteudo(x) by {
        assert(t1.disponivel(x));
        t0.lemma_alinhado(x);
    }
    assert forall|i: int| 0 <= i < n implies #[trigger] pagina_nova(
        a0,
        t,
        a,
        endereco(primeira, i),
        permissoes,
    ) by {
        assert(pagina_nova(a0, t1, a1, endereco(primeira, i), permissoes));
        assert(t.pagina_de(endereco(primeira, i)) == t1.pagina_de(endereco(primeira, i)));
        let g = (t1.pagina_de(endereco(primeira, i))->0).0;
        assert(t1.disponivel(g));
    }
    assert forall|i: int, j: int| 0 <= i < j < n implies (#[trigger] t.pagina_de(
        endereco(primeira, i),
    )->0).0 != (#[trigger] t.pagina_de(endereco(primeira, j))->0).0 by {
        assert(t.pagina_de(endereco(primeira, i)) == t1.pagina_de(endereco(primeira, i)));
        assert(t.pagina_de(endereco(primeira, j)) == t1.pagina_de(endereco(primeira, j)));
    }
    assert forall|w: u64| !(primeira <= w < primeira + n * 4096) implies #[trigger] t.pagina_de(w)
        == t0.pagina_de(w) by {
        assert(t1.pagina_de(w) == t0.pagina_de(w));
    }
    assert forall|e: u64| e % 4096 == 0 && #[trigger] a0.livre_em(e) && !a.livre_em(e) implies na_faixa(
        t,
        primeira,
        n,
        e,
    ) || !t.disponivel(e) by {
        if !a1.livre_em(e) {
            if na_faixa(t1, primeira, n, e) {
                let i = choose|i: int|
                    0 <= i < n && (#[trigger] t1.pagina_de(endereco(primeira, i))) is Some && (
                    t1.pagina_de(endereco(primeira, i))->0).0 == e;
                assert(t.pagina_de(endereco(primeira, i)) == t1.pagina_de(endereco(primeira, i)));
            } else {
                assert(!t1.disponivel(e));
            }
        }
    }
}

/// A run of pages that tables outside the library map one by one, each onto a
/// fresh frame.
#[derive(Clone, Copy, Debug, PartialEq, Eq)]
pub struct Corrida {
    /// The page that comes next, and how many are missing, it included.
    pub proxima: u64,
    pub restam: u64,
    /// The frame that the next page was offered, while the answer is pending.
    pub frame: Option<u64>,
}

/// What those tables are asked for next.
#[derive(Clone, Copy, Debug, PartialEq, Eq)]
pub enum Pagina {
    /// Clear a frame, and map a page onto it.
    Mapear { virtual_: u64, fisico: u64 },
    /// All pages are mapped.
    Pronta,
    /// A page could not be had; those before it stay mapped.
    Recusada(&'static str),
}

impl Corrida {
    pub open spec fn wf(&self) -> bool {
        &&& self.proxima + self.restam * 4096 <= u64::MAX
        &&& self.frame is Some ==> self.restam > 0
    }

    /// A run of `quantas` pages, the first of them at `primeira`.
    pub fn nova(primeira: u64, quantas: u64) -> (r: Corrida)
        requires
            primeira + quantas * 4096 <= u64::MAX,
        ensures
            r.wf(),
            r == (Corrida { proxima: primeira, restam: quantas, frame: None }),
    {
        Corrida { proxima: primeira, restam: quantas, frame: None }
    }

    /// The run once the page that was asked for is mapped.
    pub open spec fn avancada(self) -> Corrida {
        if self.frame is Some {
            Corrida {
                proxima: (self.proxima + 4096) as u64,
                restam: (self.restam - 1) as u64,
                frame: None,
            }
        } else {
            self
        }
    }

    /// Goes on with a run. `resposta` is what became of the page asked for
    /// last, if one was; the frame of a refused page goes back.
    pub fn passo(&mut self, a: &mut Alocador, resposta: Option<Result<(), &'static str>>) -> (r:
        Pagina)
        requires
            old(self).wf(),
            old(a).wf(),
            old(self).frame is Some <==> resposta is Some,
        ensures
            final(self).wf(),
            final(a).wf(),
            correu(*old(self), old(a), resposta, *final(self), final(a), r),
    {
        if let Some(Err(motivo)) = resposta {
            if let Some(f) = self.frame {
                crate::frames::liberar(a, f);
            }
            self.frame = None;
            return Pagina::Recusada(motivo);
        }
        if self.frame.is_some() {
            self.proxima = self.proxima + 4096;
            self.restam = self.restam - 1;
            self.frame = None;
        }
        if self.restam == 0 {
            return Pagina::Pronta;
        }
        match crate::frames::alocar(a) {
            Some(fisico) => {
                self.frame = Some(fisico);
                Pagina::Mapear { virtual_: self.proxima, fisico }
            },
            None => Pagina::Recusada("memoria fisica esgotada"),
        }
    }
}

/// What [`Corrida::passo`] does: from `c0` and `a0`, given `resposta`, it goes to
/// `c` and `a` and asks for `r`.
pub open spec fn correu(
    c0: Corrida,
    a0: &Alocador,
    resposta: Option<Result<(), &'static str>>,
    c: Corrida,
    a: &Alocador,
    r: Pagina,
) -> bool {
    match resposta {
        Some(Err(motivo)) => {
            &&& r == Pagina::Recusada(motivo)
            &&& c == (Corrida { frame: None, ..c0 })
            &&& crate::frames::liberou(a0, a, c0.frame->0)
        },
        _ => {
            let d = c0.avancada();
            match r {
                Pagina::Pronta => d.restam == 0 && c == d && *a == *a0,
                Pagina::Mapear { virtual_, fisico } => {
                    &&& d.restam > 0
                    &&& virtual_ == d.proxima
                    &&& c == (Corrida { frame: Some(fisico), ..d })
                    &&& crate::frames::alocou(a0, a, Some(fisico))
                },
                Pagina::Recusada(motivo) => {
                    &&& d.restam > 0
                    &&& motivo == "memoria fisica esgotada"
                    &&& c == d
                    &&& crate::frames::alocou(a0, a, None)
                },
            }
        },
    }
}

/// A space of addresses: the root of its tables and the entry that is its own.
pub struct Espaco {
    raiz: u64,
    privada: usize,
}

impl Espaco {
    /// The root of the tables.
    pub closed spec fn raiz_spec(&self) -> u64 {
        self.raiz
    }

    /// The entry of the top table that the space has for itself.
    pub closed spec fn entrada(&self) -> usize {
        self.privada
    }

    /// The frame at `e` belongs to the space: its root, or something that its
    /// own entry reaches.
    pub open spec fn possui(&self, mmu: &Mmu, e: u64) -> bool {
        e == self.raiz_spec() || crate::arch::aarch64::mmu::alcanca(
            &mmu.memoria,
            mmu.memoria.quadro(self.raiz_spec() as int)[self.entrada() as int],
            2,
            e as int,
        )
    }

    /// What the space owns is memory, and neither the active tables nor the
    /// kernel's root are among it.
    pub open spec fn proprio(&self, mmu: &Mmu) -> bool {
        &&& self.entrada() < crate::arch::memoria::ENTRADAS
        &&& crate::arch::aarch64::mmu::arvore(&mmu.memoria, self.raiz_spec() as int)
        &&& self.raiz_spec() != mmu.raiz ==> forall|e: u64| #[trigger]
            self.possui(mmu, e) ==> {
                &&& mmu.memoria.contem(e as int)
                &&& !crate::arch::aarch64::mmu::usado(&mmu.memoria, mmu.raiz as int, e as int)
                &&& e != mmu.raiz_do_kernel
            }
    }

    /// Makes a space with the kernel mapped and the entry `privada` empty.
    pub fn novo(mmu: &mut Mmu, a: &mut Alocador, privada: usize) -> (r: Result<Self, &'static str>)
        requires
            old(mmu).wf(old(a)),
            old(mmu).ativa ==> old(mmu).nucleo_wf(old(a)),
        ensures
            final(mmu).wf(final(a)),
            final(mmu).mesmas_raizes(old(mmu)),
            old(mmu).ativa ==> final(mmu).nucleo_wf(final(a)),
            old(mmu).ativa ==> crate::arch::aarch64::mmu::mesmas_traducoes(
                &old(mmu).memoria,
                &final(mmu).memoria,
                old(mmu).raiz as int,
            ),
            match r {
                Ok(espaco) => {
                    &&& old(mmu).ativa
                    &&& espaco.entrada() == privada
                    &&& espaco.proprio(final(mmu))
                    &&& crate::frames::alocou(old(a), final(a), Some(espaco.raiz_spec()))
                    &&& forall|e: u64| #[trigger]
                        espaco.possui(final(mmu), e) ==> e == espaco.raiz_spec()
                    &&& forall|x: int, y: int, z: int|
                        #![trigger crate::arch::aarch64::mmu::resolvido(&final(mmu).memoria, espaco.raiz_spec() as int, x, y, z)]
                        crate::arch::aarch64::mmu::indice(x) && crate::arch::aarch64::mmu::indice(y)
                            && crate::arch::aarch64::mmu::indice(z)
                            ==> crate::arch::aarch64::mmu::resolvido(
                            &final(mmu).memoria,
                            espaco.raiz_spec() as int,
                            x,
                            y,
                            z,
                        ) == if x == privada {
                            crate::arch::aarch64::mmu::Resolucao::Nada
                        } else {
                            crate::arch::aarch64::mmu::resolvido(
                                &old(mmu).memoria,
                                old(mmu).raiz_do_kernel as int,
                                x,
                                y,
                                z,
                            )
                        }
                },
                Err(motivo) => {
                    &&& *final(mmu) == *old(mmu)
                    &&& *final(a) == *old(a)
                    &&& motivo == if privada >= crate::arch::memoria::ENTRADAS {
                        "entrada de topo fora da tabela"
                    } else if !old(mmu).ativa {
                        "mmu ainda nao inicializada"
                    } else {
                        "memoria fisica esgotada"
                    }
                    &&& privada < crate::arch::memoria::ENTRADAS && old(mmu).ativa
                        ==> crate::frames::contar(old(a).livre()) == 0
                },
            },
    {
        let ghost a0 = *a;
        let ghost m0 = *mmu;
        match criar_espaco(mmu, a, privada) {
            Err(motivo) => Err(motivo),
            Ok(raiz) => {
                let espaco = Espaco { raiz, privada };
                proof {
                    crate::frames::lemma_alocou(&a0, a, raiz);
                    crate::arch::aarch64::mmu::lemma_descritor_nulo();
                    crate::arch::aarch64::mmu::lemma_livre_nao_usada(&m0, &a0, mmu, raiz);
                }
                Ok(espaco)
            },
        }
    }

    /// The root, to be installed for translation.
    #[verifier::when_used_as_spec(raiz_spec)]
    pub fn raiz(&self) -> (r: u64)
        ensures
            r == self.raiz_spec(),
    {
        self.raiz
    }

    /// Lets go of the space: gives back all it owns, unless it is the one in
    /// use, in which case nothing happens and `false` says so.
    pub fn largar(self, mmu: &mut Mmu, a: &mut Alocador) -> (r: bool)
        requires
            old(mmu).wf(old(a)),
            old(mmu).ativa,
            self.proprio(old(mmu)),
        ensures
            final(mmu).wf(final(a)),
            final(mmu).mesmas_raizes(old(mmu)),
            r == (old(mmu).raiz != self.raiz_spec()),
            crate::arch::aarch64::mmu::mesmas_traducoes(
                &old(mmu).memoria,
                &final(mmu).memoria,
                old(mmu).raiz as int,
            ),
            mesmas_paginas(final(mmu), old(mmu)),
            forall|e: u64| #[trigger]
                Tradutor::disponivel(final(mmu), e) == Tradutor::disponivel(old(mmu), e),
            if r {
                crate::arch::aarch64::mmu::devolveu(
                    old(a),
                    final(a),
                    |e: u64| self.possui(old(mmu), e),
                )
            } else {
                *final(mmu) == *old(mmu) && *final(a) == *old(a)
            },
    {
        if espaco_atual(mmu) == self.raiz {
            return false;
        }
        let ghost antes = *mmu;
        proof {
            assert(self.possui(&antes, self.raiz));
            assert forall|e: u64| #[trigger]
                crate::arch::aarch64::mmu::alcanca(
                    &antes.memoria,
                    antes.memoria.quadro(self.raiz as int)[self.privada as int],
                    2,
                    e as int,
                ) implies {
                &&& antes.memoria.contem(e as int)
                &&& !crate::arch::aarch64::mmu::usado(&antes.memoria, antes.raiz as int, e as int)
                &&& e != antes.raiz_do_kernel
            } by {
                assert(self.possui(&antes, e));
            }
        }
        destruir_espaco(mmu, a, self.raiz, self.privada);
        proof {
            crate::arch::aarch64::mmu::lemma_fora_das_tabelas(&antes, mmu, self.raiz);
        }
        true
    }
}

/// A space that is let go of as it was made leaves the free frames as they
/// were before it existed.
pub proof fn lei_espaco_vazio_volta_inteiro(
    antes: &Alocador,
    feito: &Alocador,
    depois: &Alocador,
    espaco: &Espaco,
    mmu: &Mmu,
)
    requires
        antes.wf(),
        feito.wf(),
        crate::frames::alocou(antes, feito, Some(espaco.raiz_spec())),
        forall|e: u64| #[trigger] espaco.possui(mmu, e) ==> e == espaco.raiz_spec(),
        crate::arch::aarch64::mmu::devolveu(feito, depois, |e: u64| espaco.possui(mmu, e)),
    ensures
        forall|e: u64| #![trigger depois.livre_em(e)]
            e % 4096 == 0 ==> depois.livre_em(e) == antes.livre_em(e),
{
    crate::frames::lemma_alocou(antes, feito, espaco.raiz_spec());
    assert(espaco.possui(mmu, espaco.raiz_spec()));
}

/// The pages of a run follow one another, 4096 bytes apart, from the first on.
pub proof fn lei_paginas_seguidas(primeira: u64, i: int)
    requires
        0 <= i,
        primeira + (i + 1) * 4096 <= u64::MAX,
    ensures
        endereco(primeira, 0) == primeira,
        endereco(primeira, i + 1) - endereco(primeira, i) == 4096,
{
}

/// A run asks for its pages one by one, in order, each with a frame that was free and
/// no longer is; it is done when none is missing, and a page that was refused gives
/// its frame back.
pub proof fn lei_corrida(
    c0: Corrida,
    a0: &Alocador,
    resposta: Option<Result<(), &'static str>>,
    c: Corrida,
    a: &Alocador,
    r: Pagina,
)
    requires
        correu(c0, a0, resposta, c, a, r),
        c0.wf(),
        a0.wf(),
    ensures
        ({
            let feita: int = if c0.frame is Some {
                1
            } else {
                0
            };
            &&& r is Mapear ==> r->virtual_ == c0.proxima + 4096 * feita && c.proxima == r->virtual_
                && c.restam == c0.restam - feita && c.restam > 0 && c.frame == Some(r->fisico)
                && a0.livre_em(r->fisico) && !a.livre_em(r->fisico)
            &&& r is Pronta ==> c0.restam == feita && *a == *a0
            &&& resposta is Some && resposta->0 is Err ==> r == Pagina::Recusada(resposta->0->Err_0)
                && c.proxima == c0.proxima && c.restam == c0.restam && c.frame is None
            &&& resposta is Some && resposta->0 is Err && c0.frame is Some && a0.entregue_em(
                c0.frame->0,
            ) ==> a.livre_em(c0.frame->0)
        }),
{
    if let Pagina::Mapear { virtual_, fisico } = r {
        crate::frames::lei_alocar_entrega_livre(a0, a, fisico);
    }
}

} // verus!
