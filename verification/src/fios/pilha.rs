//! Thread stacks, each with a guard page.
//!
//! A stack has a slot of virtual space of its own. The first page of the slot
//! is never mapped, so that an overflow faults where it happens; the others
//! are the stack, which grows down from the end of the slot.
use vstd::prelude::*;

use crate::arch::{Permissoes, TAMANHO_PAGINA};
use crate::frames::Alocador;
use crate::paginacao::{desmapear_e_liberar, mapear_faixa, Tradutor};

verus! {

/// Virtual space of one thread, guard page and all: 64 KiB.
pub const TAMANHO_DA_VAGA: u64 = 65536;

/// How much of it is stack.
pub const TAMANHO_DA_PILHA: u64 = 61440;

/// Pages of a stack.
pub const PAGINAS_DA_PILHA: u64 = 15;

/// A mapped stack, known by the slot it is in.
pub struct Pilha {
    vaga: usize,
    topo: u64,
}

/// Where the slot `vaga` starts, in an area of stacks that starts at `base`.
pub open spec fn inicio_da_vaga(base: u64, vaga: usize) -> int {
    base + vaga * TAMANHO_DA_VAGA
}

/// The first page of the stack in a slot, right above the guard page.
pub open spec fn primeira_pagina(base: u64, vaga: usize) -> u64 {
    (inicio_da_vaga(base, vaga) + TAMANHO_PAGINA) as u64
}

/// The first page of the stack in a slot.
pub(crate) fn primeira_pagina_da_vaga(base: u64, vaga: usize) -> (r: u64)
    requires
        cabe(base, vaga),
    ensures
        r == primeira_pagina(base, vaga),
{
    base + vaga as u64 * TAMANHO_DA_VAGA + TAMANHO_PAGINA
}

/// The slot is within the addresses there are.
pub open spec fn cabe(base: u64, vaga: usize) -> bool {
    inicio_da_vaga(base, vaga) + TAMANHO_DA_VAGA <= u64::MAX
}

/// The address belongs to the stack in the slot `vaga`.
pub open spec fn na_pilha(base: u64, vaga: usize, w: u64) -> bool {
    primeira_pagina(base, vaga) <= w < primeira_pagina(base, vaga) + TAMANHO_DA_PILHA
}

/// Each of `n` pages is mapped onto a frame that holds no table.
pub open spec fn todas_mapeadas<T: Tradutor>(t: &T, primeira: u64, n: int) -> bool {
    forall|i: int|
        0 <= i < n ==> (#[trigger] t.pagina_de(crate::paginacao::endereco(primeira, i))) is Some
            && t.disponivel((t.pagina_de(crate::paginacao::endereco(primeira, i))->0).0)
}

/// `n` pages were taken out of the tables and their frames given back.
pub open spec fn liberadas<T: Tradutor>(
    t0: &T,
    a0: &Alocador,
    t: &T,
    a: &Alocador,
    primeira: u64,
    n: int,
) -> bool {
    &&& t.wf(a)
    &&& a.mesma_janela(a0)
    &&& forall|f: u64| #[trigger]
        t0.disponivel(f) && !a.livre_em(f) ==> t.conteudo(f) == t0.conteudo(f)
    &&& forall|f: u64| #[trigger] t0.disponivel(f) ==> t.disponivel(f)
    &&& forall|f: u64| #[trigger]
        t.disponivel(f) && a0.circula(f) ==> t0.disponivel(f) || a.livre_em(f)
    &&& forall|e: u64| #[trigger] a0.livre_em(e) ==> a.livre_em(e)
    &&& forall|w: u64| t0.vago(w) ==> #[trigger] t.vago(w)
    &&& forall|i: int| 0 <= i < n ==> #[trigger] t.vago(crate::paginacao::endereco(primeira, i))
    &&& forall|w: u64| #[trigger]
        t.pagina_de(w) == if primeira <= w < primeira + n * 4096 {
            None
        } else {
            t0.pagina_de(w)
        }
    &&& forall|e: u64| #[trigger]
        crate::paginacao::na_faixa(t0, primeira, n, e) && a0.circula(e) ==> a.livre_em(e)
    &&& forall|e: u64|
        e % 4096 == 0 && #[trigger] a.livre_em(e) ==> a0.livre_em(e) || !t0.disponivel(e)
            || crate::paginacao::na_faixa(t0, primeira, n, e)
}

/// Takes `quantas` pages out of the tables and gives their frames back.
fn liberar_paginas<T: Tradutor>(t: &mut T, a: &mut Alocador, primeira: u64, quantas: u64)
    requires
        old(t).wf(old(a)),
        primeira % 4096 == 0,
        primeira + quantas * 4096 <= u64::MAX,
        todas_mapeadas(old(t), primeira, quantas as int),
    ensures
        liberadas(old(t), old(a), final(t), final(a), primeira, quantas as int),
{
    let ghost t0 = *t;
    let ghost a0 = *a;
    let mut i: u64 = 0;
    while i < quantas
        invariant
            i <= quantas,
            primeira % 4096 == 0,
            primeira + quantas * 4096 <= u64::MAX,
            t0 == *old(t),
            a0 == *old(a),
            todas_mapeadas(&t0, primeira, quantas as int),
            liberadas(&t0, &a0, t, a, primeira, i as int),
        decreases quantas - i,
    {
        let ghost t1 = *t;
        let ghost a1 = *a;
        let v: u64 = primeira + i * TAMANHO_PAGINA;
        proof {
            assert(v == crate::paginacao::endereco(primeira, i as int));
            assert(t1.pagina_de(v) == t0.pagina_de(v));
            t1.lemma_desmapear(&a1, v);
        }
        let r = desmapear_e_liberar(t, a, v);
        proof {
            lemma_menos_uma(&t0, &a0, &t1, &a1, t, a, primeira, i as int);
        }
        i = i + 1;
    }
}

proof fn lemma_menos_uma<T: Tradutor>(
    t0: &T,
    a0: &Alocador,
    t1: &T,
    a1: &Alocador,
    t: &T,
    a: &Alocador,
    primeira: u64,
    n: int,
)
    requires
        liberadas(t0, a0, t1, a1, primeira, n),
        0 <= n,
        primeira % 4096 == 0,
        primeira + (n + 1) * 4096 <= u64::MAX,
        t.wf(a),
        a.mesma_janela(a1),
        crate::paginacao::mesmos_conteudos(t, t1, a1),
        forall|e: u64| #[trigger] a1.livre_em(e) ==> a.livre_em(e),
        forall|f: u64| #[trigger] t1.disponivel(f) ==> t.disponivel(f),
        forall|f: u64| #[trigger]
            t.disponivel(f) && a1.circula(f) ==> t1.disponivel(f) || a.livre_em(f),
        forall|w: u64| t1.vago(w) ==> #[trigger] t.vago(w),
        t.vago(crate::paginacao::endereco(primeira, n)),
        ({
            let v = crate::paginacao::endereco(primeira, n);
            &&& t1.pagina_de(v) is Some
            &&& a1.circula((t1.pagina_de(v)->0).0) ==> a.livre_em((t1.pagina_de(v)->0).0)
            &&& forall|e: u64|
                e % 4096 == 0 && #[trigger] a.livre_em(e) ==> a1.livre_em(e) || !t1.disponivel(e) || (
                t1.pagina_de(v)->0).0 == e
            &&& forall|w: u64| #[trigger]
                t.pagina_de(w) == if w / 4096 == v / 4096 {
                    None
                } else {
                    t1.pagina_de(w)
                }
        }),
    ensures
        liberadas(t0, a0, t, a, primeira, n + 1),
{
    let v = crate::paginacao::endereco(primeira, n);
    assert(v == primeira + n * 4096);
    assert(t1.pagina_de(v) == t0.pagina_de(v));
    assert forall|x: u64| #[trigger] t0.disponivel(x) && !a.livre_em(x) implies t.conteudo(x)
        == t0.conteudo(x) by {
        assert(t1.disponivel(x));
        assert(!a1.livre_em(x));
    }
    assert forall|w: u64| #[trigger] t.pagina_de(w) == if primeira <= w < primeira + (n + 1) * 4096 {
        None
    } else {
        t0.pagina_de(w)
    } by {
        assert(w / 4096 == v / 4096 <==> v <= w < v + 4096);
        assert(t1.pagina_de(w) == if primeira <= w < primeira + n * 4096 {
            None
        } else {
            t0.pagina_de(w)
        });
    }
    assert forall|e: u64| #[trigger]
        crate::paginacao::na_faixa(t0, primeira, n + 1, e) && a0.circula(e) implies a.livre_em(e) by {
        let i = choose|i: int|
            0 <= i < n + 1 && (#[trigger] t0.pagina_de(crate::paginacao::endereco(primeira, i))) is Some
                && (t0.pagina_de(crate::paginacao::endereco(primeira, i))->0).0 == e;
        if i < n {
            assert(crate::paginacao::na_faixa(t0, primeira, n, e));
            assert(a1.livre_em(e));
        }
    }
    assert forall|e: u64| e % 4096 == 0 && #[trigger] a.livre_em(e) implies a0.livre_em(e)
        || !t0.disponivel(e) || crate::paginacao::na_faixa(t0, primeira, n + 1, e) by {
        if a1.livre_em(e) {
            if crate::paginacao::na_faixa(t0, primeira, n, e) {
                let i = choose|i: int|
                    0 <= i < n && (#[trigger] t0.pagina_de(crate::paginacao::endereco(primeira, i)))
                        is Some && (t0.pagina_de(crate::paginacao::endereco(primeira, i))->0).0 == e;
                assert(0 <= i < n + 1);
            }
        } else if t1.disponivel(e) {
            assert(t0.pagina_de(crate::paginacao::endereco(primeira, n)) is Some);
        }
    }
}

/// What [`reservar`] leaves behind where it fails: every page is where it was,
/// each frame that was free is free again or became a table, and each frame in
/// use still is.
pub open spec fn desfeita<T: Tradutor>(t0: &T, a0: &Alocador, t: &T, a: &Alocador) -> bool {
    &&& t.wf(a)
    &&& a.mesma_janela(a0)
    &&& crate::paginacao::mesmas_paginas(t, t0)
    &&& forall|e: u64|
        e % 4096 == 0 && #[trigger] a0.livre_em(e) && !a.livre_em(e) ==> !t.disponivel(e)
    &&& forall|f: u64| #[trigger]
        t0.disponivel(f) && !a0.livre_em(f) ==> t.disponivel(f) && !a.livre_em(f)
}

impl Pilha {
    /// The slot.
    pub closed spec fn vaga_spec(&self) -> usize {
        self.vaga
    }

    /// Where the stack pointer starts.
    pub closed spec fn topo_spec(&self) -> u64 {
        self.topo
    }

    /// The stack is the one of its slot, in the area that starts at `base`.
    pub open spec fn wf(&self, base: u64) -> bool {
        &&& base % TAMANHO_DA_VAGA == 0
        &&& cabe(base, self.vaga_spec())
        &&& self.topo_spec() == inicio_da_vaga(base, self.vaga_spec()) + TAMANHO_DA_VAGA
    }

    /// Every page of the stack is mapped.
    pub open spec fn mapeada<T: Tradutor>(&self, base: u64, t: &T) -> bool {
        self.wf(base) && todas_mapeadas(
            t,
            primeira_pagina(base, self.vaga_spec()),
            PAGINAS_DA_PILHA as int,
        )
    }

    /// The stack in a slot of the area that starts at `base`, once its pages
    /// are mapped.
    pub(crate) fn da_vaga(base: u64, vaga: usize) -> (r: Pilha)
        requires
            base % TAMANHO_DA_VAGA == 0,
            cabe(base, vaga),
        ensures
            r.wf(base),
            r.vaga_spec() == vaga,
    {
        Pilha { vaga, topo: base + vaga as u64 * TAMANHO_DA_VAGA + TAMANHO_DA_VAGA }
    }

    /// The initial stack pointer, which is aligned to 16 bytes.
    #[verifier::when_used_as_spec(topo_spec)]
    pub fn topo(&self) -> (r: u64)
        ensures
            r == self.topo_spec(),
    {
        self.topo
    }

    /// Lets go of the stack: its pages leave the tables and their frames are
    /// given back.
    pub fn largar<T: Tradutor>(self, t: &mut T, a: &mut Alocador, base: u64)
        requires
            old(t).wf(old(a)),
            self.mapeada(base, old(t)),
        ensures
            liberadas(
                old(t),
                old(a),
                final(t),
                final(a),
                primeira_pagina(base, self.vaga_spec()),
                PAGINAS_DA_PILHA as int,
            ),
    {
        let primeira: u64 = base + self.vaga as u64 * TAMANHO_DA_VAGA + TAMANHO_PAGINA;
        liberar_paginas(t, a, primeira, TAMANHO_DA_PILHA / TAMANHO_PAGINA);
    }
}

/// Gives back the first `quantas` pages of a stack that cannot be completed.
fn desistir<T: Tradutor>(
    t: &mut T,
    a: &mut Alocador,
    primeira: u64,
    quantas: u64,
    antes: Ghost<T>,
    livres: Ghost<Alocador>,
)
    requires
        primeira % 4096 == 0,
        primeira + quantas * 4096 <= u64::MAX,
        livres@.wf(),
        crate::paginacao::mapeadas(
            &antes@,
            &livres@,
            old(t),
            old(a),
            primeira,
            quantas as int,
            Permissoes::dados_spec(),
        ),
    ensures
        desfeita(&antes@, &livres@, final(t), final(a)),
{
    let ghost t1 = *t;
    let ghost a1 = *a;
    proof {
        lemma_mapeadas(&antes@, &livres@, t, a, primeira, quantas as int);
    }
    liberar_paginas(t, a, primeira, quantas);
    proof {
        lei_largar_desfaz_reservar(&antes@, &livres@, &t1, &a1, t, a, primeira, quantas as int);
    }
}

/// Maps a new stack in a slot of the area that starts at `base`.
///
/// The guard page is never mapped. Where a page cannot be had, those mapped
/// before it are given back.
#[verifier::spinoff_prover]
pub fn reservar<T: Tradutor>(t: &mut T, a: &mut Alocador, base: u64, vaga: usize) -> (r: Result<
    Pilha,
    &'static str,
>)
    requires
        old(t).wf(old(a)),
        base % TAMANHO_DA_VAGA == 0,
        cabe(base, vaga),
    ensures
        match r {
            Ok(p) => {
                &&& p.vaga_spec() == vaga
                &&& p.mapeada(base, final(t))
                &&& crate::paginacao::mapeadas(
                    old(t),
                    old(a),
                    final(t),
                    final(a),
                    primeira_pagina(base, vaga),
                    PAGINAS_DA_PILHA as int,
                    Permissoes::dados_spec(),
                )
            },
            Err(motivo) => recusada(old(t), old(a), final(t), final(a), base, vaga, motivo),
        },
{
    let inicio: u64 = base + vaga as u64 * TAMANHO_DA_VAGA;
    let primeira: u64 = inicio + TAMANHO_PAGINA;
    let topo: u64 = inicio + TAMANHO_DA_VAGA;
    let ghost t0 = *t;
    let ghost a0 = *a;
    let quantas: u64 = TAMANHO_DA_PILHA / TAMANHO_PAGINA;
    proof {
        t.lemma_wf(a);
        assert(primeira == primeira_pagina(base, vaga));
        assert(primeira % 4096 == 0);
        assert(quantas == PAGINAS_DA_PILHA);
    }
    match mapear_faixa(t, a, primeira, quantas, Permissoes::dados()) {
        Ok(_) => {
            proof {
                lemma_mapeadas(&t0, &a0, t, a, primeira, quantas as int);
            }
            Ok(Pilha { vaga, topo })
        },
        Err(parada) => {
            desistir(t, a, primeira, parada.0, Ghost(t0), Ghost(a0));
            proof {
                assert(crate::paginacao::parou(
                    &t0,
                    &a0,
                    primeira_pagina(base, vaga),
                    parada.0 as int,
                    Permissoes::dados_spec(),
                    parada.1,
                ));
            }
            Err(parada.1)
        },
    }
}

/// A page of the stack was refused for `motivo`, and nothing of it is left.
pub open spec fn recusada<T: Tradutor>(
    t0: &T,
    a0: &Alocador,
    t: &T,
    a: &Alocador,
    base: u64,
    vaga: usize,
    motivo: &'static str,
) -> bool {
    &&& desfeita(t0, a0, t, a)
    &&& exists|n: int|
        0 <= n < PAGINAS_DA_PILHA && #[trigger] crate::paginacao::parou(
            t0,
            a0,
            primeira_pagina(base, vaga),
            n,
            Permissoes::dados_spec(),
            motivo,
        )
}

/// A stack is mapped where its slot is empty and there is memory enough.
pub proof fn lei_com_memoria_ha_pilha<T: Tradutor>(
    t0: &T,
    a0: &Alocador,
    t: &T,
    a: &Alocador,
    base: u64,
    vaga: usize,
    motivo: &'static str,
)
    requires
        cabe(base, vaga),
        vaga_vazia(t0, base, vaga),
        crate::frames::contar(a0.livre()) >= PAGINAS_DA_PILHA * crate::paginacao::POR_PAGINA,
    ensures
        !recusada(t0, a0, t, a, base, vaga, motivo),
{
    let primeira = primeira_pagina(base, vaga);
    assert forall|n: int| 0 <= n < PAGINAS_DA_PILHA implies !#[trigger] crate::paginacao::parou(
        t0,
        a0,
        primeira,
        n,
        Permissoes::dados_spec(),
        motivo,
    ) by {
        crate::paginacao::lei_com_memoria_nao_para(
            t0,
            a0,
            primeira,
            PAGINAS_DA_PILHA as int,
            n,
            Permissoes::dados_spec(),
            motivo,
        );
    }
}

/// There is room in the tables for every page of the stack of a slot.
pub open spec fn vaga_vazia<T: Tradutor>(t: &T, base: u64, vaga: usize) -> bool {
    forall|i: int|
        0 <= i < PAGINAS_DA_PILHA ==> #[trigger] t.vago(
            crate::paginacao::endereco(primeira_pagina(base, vaga), i),
        )
}

proof fn lemma_mapeadas<T: Tradutor>(
    t0: &T,
    a0: &Alocador,
    t: &T,
    a: &Alocador,
    primeira: u64,
    n: int,
)
    requires
        crate::paginacao::mapeadas(t0, a0, t, a, primeira, n, Permissoes::dados_spec()),
    ensures
        todas_mapeadas(t, primeira, n),
{
    assert forall|i: int| 0 <= i < n implies (#[trigger] t.pagina_de(
        crate::paginacao::endereco(primeira, i),
    )) is Some && t.disponivel((t.pagina_de(crate::paginacao::endereco(primeira, i))->0).0) by {
        assert(crate::paginacao::pagina_nova(
            a0,
            t,
            a,
            crate::paginacao::endereco(primeira, i),
            Permissoes::dados_spec(),
        ));
    }
}

/// A stack that overflows hits its guard page: the page below a stack belongs
/// to no stack, and neither does an address of another stack.
pub proof fn lei_guarda_nao_e_de_ninguem(base: u64, v: usize, w: usize, endereco: u64)
    requires
        cabe(base, v),
        cabe(base, w),
    ensures
        primeira_pagina(base, v) - TAMANHO_PAGINA <= endereco < primeira_pagina(base, v)
            ==> !na_pilha(base, w, endereco),
        na_pilha(base, v, endereco) && v != w ==> !na_pilha(base, w, endereco),
{
}

/// Pages that were mapped onto fresh memory and then let go of leave every
/// page where it was, and no frame is lost on the way.
pub proof fn lei_largar_desfaz_reservar<T: Tradutor>(
    t0: &T,
    a0: &Alocador,
    t1: &T,
    a1: &Alocador,
    t: &T,
    a: &Alocador,
    primeira: u64,
    n: int,
)
    requires
        0 <= n,
        primeira + n * 4096 <= u64::MAX,
        a0.wf(),
        crate::paginacao::mapeadas(t0, a0, t1, a1, primeira, n, Permissoes::dados_spec()),
        liberadas(t1, a1, t, a, primeira, n),
    ensures
        desfeita(t0, a0, t, a),
{
    assert forall|w: u64| #[trigger] t.pagina_de(w) == t0.pagina_de(w) by {
        if !(primeira <= w < primeira + n * 4096) {
            assert(t1.pagina_de(w) == t0.pagina_de(w));
        } else {
            assert(t0.pagina_de(w) is None);
        }
    }
    assert forall|e: u64| e % 4096 == 0 && #[trigger] a0.livre_em(e) && !a.livre_em(e) implies !t.disponivel(e) by {
        assert(!a1.livre_em(e));
        crate::frames::lemma_livre_circula(a0, e);
        assert(a1.circula(e));
        if crate::paginacao::na_faixa(t1, primeira, n, e) {
            assert(a.livre_em(e));
        }
    }
    assert forall|f: u64| #[trigger] t0.disponivel(f) && !a0.livre_em(f) implies t.disponivel(f)
        && !a.livre_em(f) by {
        assert(t1.disponivel(f));
        t0.lemma_alinhado(f);
        assert(!a1.livre_em(f));
        if crate::paginacao::na_faixa(t1, primeira, n, f) {
            let i = choose|i: int|
                0 <= i < n && (#[trigger] t1.pagina_de(crate::paginacao::endereco(primeira, i)))
                    is Some && (t1.pagina_de(crate::paginacao::endereco(primeira, i))->0).0 == f;
            assert(crate::paginacao::pagina_nova(
                a0,
                t1,
                a1,
                crate::paginacao::endereco(primeira, i),
                Permissoes::dados_spec(),
            ));
        }
    }
}

/// Pages that stay where they are, in frames that hold no table, stay mapped.
pub proof fn lemma_continua_mapeada<T: Tradutor>(antes: &T, depois: &T, primeira: u64, n: int)
    requires
        todas_mapeadas(antes, primeira, n),
        crate::paginacao::mesmas_paginas(depois, antes),
        forall|e: u64| #[trigger] depois.disponivel(e) == antes.disponivel(e),
    ensures
        todas_mapeadas(depois, primeira, n),
{
    assert forall|i: int| 0 <= i < n implies (#[trigger] depois.pagina_de(
        crate::paginacao::endereco(primeira, i),
    )) is Some && depois.disponivel(
        (depois.pagina_de(crate::paginacao::endereco(primeira, i))->0).0,
    ) by {
        assert(antes.pagina_de(crate::paginacao::endereco(primeira, i)) is Some);
    }
}

/// A slot is a page that is never mapped and the stack above it, up to the next
/// slot; no address is in two stacks.
pub proof fn lei_lugar_da_pilha(base: u64, v: usize, u: usize, w: u64)
    requires
        cabe(base, v),
        cabe(base, u),
    ensures
        primeira_pagina(base, v) == inicio_da_vaga(base, v) + 4096,
        primeira_pagina(base, v) + TAMANHO_DA_PILHA == inicio_da_vaga(base, v) + TAMANHO_DA_VAGA,
        inicio_da_vaga(base, 0) == base,
        v < usize::MAX ==> inicio_da_vaga(base, (v + 1) as usize) == inicio_da_vaga(base, v)
            + TAMANHO_DA_VAGA,
        na_pilha(base, v, w) && na_pilha(base, u, w) ==> u == v,
        na_pilha(base, v, w) <==> inicio_da_vaga(base, v) + 4096 <= w < inicio_da_vaga(base, v)
            + TAMANHO_DA_VAGA,
{
    if na_pilha(base, v, w) && na_pilha(base, u, w) {
        if u < v {
            assert(u * TAMANHO_DA_VAGA + TAMANHO_DA_VAGA <= v * TAMANHO_DA_VAGA) by (nonlinear_arith)
                requires
                    u < v,
            ;
        } else if v < u {
            assert(v * TAMANHO_DA_VAGA + TAMANHO_DA_VAGA <= u * TAMANHO_DA_VAGA) by (nonlinear_arith)
                requires
                    v < u,
            ;
        }
    }
}

} // verus!
