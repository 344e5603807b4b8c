//! The kernel heap: a list of free blocks, sorted by address and coalesced.
//!
//! A block that is larger than a request goes back in pieces, and a piece too
//! small to be registered makes the whole block unfit: no byte is ever lost.
use vstd::prelude::*;

use crate::arch::Permissoes;
use crate::frames::Alocador;
use crate::paginacao::{mapear_faixa, Tradutor};

verus! {

/// Size of the heap.
pub const HEAP_TAMANHO: usize = 1048576;

/// Pages of the heap.
pub const PAGINAS_DO_HEAP: u64 = 256;

/// The smallest block the list can register.
pub const TAMANHO_NO: usize = 16;

/// Every registered block starts at a multiple of this.
pub const ALINHAMENTO_NO: usize = 8;

/// A free block.
#[derive(Clone, Copy, Debug)]
pub struct No {
    pub inicio: usize,
    pub tamanho: usize,
}

impl No {
    pub open spec fn fim(self) -> int {
        self.inicio + self.tamanho
    }

    pub open spec fn valido(self) -> bool {
        &&& self.tamanho >= TAMANHO_NO
        &&& self.inicio % ALINHAMENTO_NO == 0
        &&& self.fim() <= usize::MAX
    }
}

/// Sorted by address, without overlap, and with a gap between any two blocks.
pub open spec fn lista_valida(s: Seq<No>) -> bool {
    &&& forall|i: int| 0 <= i < s.len() ==> (#[trigger] s[i]).valido()
    &&& forall|i: int, j: int| 0 <= i < j < s.len() ==> (#[trigger] s[i]).fim() < (#[trigger] s[j]).inicio
}

/// The bytes the blocks hold.
pub open spec fn soma(s: Seq<No>) -> nat
    decreases s.len(),
{
    if s.len() == 0 {
        0
    } else {
        soma(s.drop_last()) + s.last().tamanho as nat
    }
}

/// The size of the largest block.
pub open spec fn maior(s: Seq<No>) -> nat
    decreases s.len(),
{
    if s.len() == 0 {
        0
    } else {
        let resto = maior(s.drop_last());
        if s.last().tamanho > resto {
            s.last().tamanho as nat
        } else {
            resto
        }
    }
}

/// The address lies in one of the blocks.
pub open spec fn contem(s: Seq<No>, e: int) -> bool {
    exists|i: int| 0 <= i < s.len() && (#[trigger] s[i]).inicio <= e < s[i].fim()
}

/// No block shares a byte with `[inicio, fim)`.
pub open spec fn disjunto(s: Seq<No>, inicio: int, fim: int) -> bool {
    forall|i: int| 0 <= i < s.len() ==> fim <= (#[trigger] s[i]).inicio || s[i].fim() <= inicio
}

/// How many blocks of a sorted list start before an address.
pub open spec fn posicao(s: Seq<No>, e: int) -> int
    decreases s.len(),
{
    if s.len() == 0 {
        0
    } else if s.last().inicio < e {
        s.len() as int
    } else {
        posicao(s.drop_last(), e)
    }
}

/// Where the blocks before the merged one end: the left neighbour is merged
/// where it touches the new block.
pub open spec fn corte_esquerdo(s: Seq<No>, b: No) -> int {
    let p = posicao(s, b.inicio as int);
    if p > 0 && s[p - 1].fim() == b.inicio {
        p - 1
    } else {
        p
    }
}

/// Where the blocks after the merged one begin: the right neighbour is merged
/// where it touches the new block.
pub open spec fn corte_direito(s: Seq<No>, b: No) -> int {
    let p = posicao(s, b.inicio as int);
    if p < s.len() && b.fim() == s[p].inicio {
        p + 1
    } else {
        p
    }
}

/// The new block together with the neighbours it touches.
pub open spec fn fundido(s: Seq<No>, b: No) -> No {
    let p = posicao(s, b.inicio as int);
    let inicio = if corte_esquerdo(s, b) < p {
        s[p - 1].inicio
    } else {
        b.inicio
    };
    let fim = if corte_direito(s, b) > p {
        s[p].fim()
    } else {
        b.fim()
    };
    No { inicio, tamanho: (fim - inicio) as usize }
}

/// The list with a block added and merged with the neighbours it touches.
pub open spec fn inserido(s: Seq<No>, b: No) -> Seq<No> {
    s.take(corte_esquerdo(s, b)).push(fundido(s, b)) + s.skip(corte_direito(s, b))
}

/// The smallest multiple of `a` that is not below `v`.
pub open spec fn alinhado(v: int, a: int) -> int {
    if v % a == 0 {
        v
    } else {
        v + a - v % a
    }
}

/// A block from which a request can be served without losing a byte.
pub open spec fn serve(b: No, tamanho: usize, alinhamento: usize) -> bool {
    let inicio = alinhado(b.inicio as int, alinhamento as int);
    let antes = inicio - b.inicio;
    let depois = b.fim() - (inicio + tamanho);
    &&& depois >= 0
    &&& antes == 0 || antes >= TAMANHO_NO
    &&& depois == 0 || depois >= TAMANHO_NO
}

/// What remains of a block around `[inicio, fim)`.
pub open spec fn sobras(b: No, inicio: int, fim: int) -> Seq<No> {
    let antes = if inicio > b.inicio {
        seq![No { inicio: b.inicio, tamanho: (inicio - b.inicio) as usize }]
    } else {
        Seq::<No>::empty()
    };
    let depois = if b.fim() > fim {
        seq![No { inicio: fim as usize, tamanho: (b.fim() - fim) as usize }]
    } else {
        Seq::<No>::empty()
    };
    antes + depois
}

/// `k` is the first block that serves the request.
pub open spec fn primeiro_que_serve(s: Seq<No>, tamanho: usize, alinhamento: usize, k: int) -> bool {
    &&& 0 <= k < s.len()
    &&& serve(s[k], tamanho, alinhamento)
    &&& forall|j: int| 0 <= j < k ==> !serve(#[trigger] s[j], tamanho, alinhamento)
}

/// Serving `[e, e + tamanho)` out of the first block that fits takes the free
/// list from `s` to `t`.
pub open spec fn retirado(
    s: Seq<No>,
    t: Seq<No>,
    tamanho: usize,
    alinhamento: usize,
    r: Option<usize>,
) -> bool {
    match r {
        Some(e) => exists|k: int|
            {
                &&& #[trigger] primeiro_que_serve(s, tamanho, alinhamento, k)
                &&& e == alinhado(s[k].inicio as int, alinhamento as int)
                &&& t == s.take(k) + sobras(s[k], e as int, e + tamanho) + s.skip(k + 1)
            },
        None => t == s && forall|k: int|
            0 <= k < s.len() ==> !serve(#[trigger] s[k], tamanho, alinhamento),
    }
}

pub proof fn lemma_alinhado(v: int, a: int)
    requires
        v >= 0,
        a > 0,
    ensures
        v <= alinhado(v, a) < v + a,
        alinhado(v, a) % a == 0,
{
    let r = v % a;
    vstd::arithmetic::div_mod::lemma_fundamental_div_mod(v, a);
    if r != 0 {
        assert(v + a - r == a * (v / a + 1)) by (nonlinear_arith)
            requires
                v == a * (v / a) + r,
        ;
        vstd::arithmetic::div_mod::lemma_mod_multiples_basic(v / a + 1, a);
        assert(a * (v / a + 1) == (v / a + 1) * a) by (nonlinear_arith);
    }
}

proof fn lemma_posicao(s: Seq<No>, e: int)
    requires
        lista_valida(s),
    ensures
        0 <= posicao(s, e) <= s.len(),
        forall|i: int| 0 <= i < posicao(s, e) ==> (#[trigger] s[i]).inicio < e,
        forall|i: int| posicao(s, e) <= i < s.len() ==> (#[trigger] s[i]).inicio >= e,
    decreases s.len(),
{
    if s.len() > 0 {
        if s.last().inicio < e {
        } else {
            lemma_posicao(s.drop_last(), e);
            assert forall|i: int| 0 <= i < posicao(s, e) implies (#[trigger] s[i]).inicio < e by {
                assert(s.drop_last()[i] == s[i]);
            }
            assert forall|i: int| posicao(s, e) <= i < s.len() implies (#[trigger] s[i]).inicio >= e by {
                if i < s.len() - 1 {
                    assert(s.drop_last()[i] == s[i]);
                }
            }
        }
    }
}

proof fn lemma_posicao_unica(s: Seq<No>, e: int, p: int)
    requires
        lista_valida(s),
        0 <= p <= s.len(),
        p > 0 ==> s[p - 1].inicio < e,
        p < s.len() ==> s[p].inicio >= e,
    ensures
        posicao(s, e) == p,
{
    lemma_posicao(s, e);
}

proof fn lemma_soma_concat(s: Seq<No>, t: Seq<No>)
    ensures
        soma(s + t) == soma(s) + soma(t),
    decreases t.len(),
{
    if t.len() == 0 {
        assert(s + t =~= s);
    } else {
        assert((s + t).drop_last() =~= s + t.drop_last());
        lemma_soma_concat(s, t.drop_last());
    }
}

proof fn lemma_soma_limite(s: Seq<No>, inicio: int, fim: int)
    requires
        lista_valida(s),
        inicio <= fim,
        forall|i: int| 0 <= i < s.len() ==> inicio <= (#[trigger] s[i]).inicio && s[i].fim() <= fim,
    ensures
        soma(s) <= fim - inicio,
    decreases s.len(),
{
    if s.len() > 0 {
        let d = s.drop_last();
        assert forall|i: int| 0 <= i < d.len() implies inicio <= (#[trigger] d[i]).inicio && d[i].fim()
            <= s.last().inicio by {
            assert(d[i] == s[i]);
        }
        assert(s[s.len() - 1] == s.last());
        lemma_soma_limite(d, inicio, s.last().inicio as int);
    }
}

proof fn lemma_inserido_valida(s: Seq<No>, b: No, de: int, ate: int)
    requires
        lista_valida(s),
        b.valido(),
        disjunto(s, b.inicio as int, b.fim()),
        de <= b.inicio,
        b.fim() <= ate,
        forall|i: int| 0 <= i < s.len() ==> de <= (#[trigger] s[i]).inicio && s[i].fim() <= ate,
    ensures
        0 <= corte_esquerdo(s, b) <= corte_direito(s, b) <= s.len(),
        lista_valida(inserido(s, b)),
        forall|i: int|
            0 <= i < inserido(s, b).len() ==> de <= (#[trigger] inserido(s, b)[i]).inicio
                && inserido(s, b)[i].fim() <= ate,
{
    lemma_posicao(s, b.inicio as int);
    let p = posicao(s, b.inicio as int);
    let pa = corte_esquerdo(s, b);
    let pd = corte_direito(s, b);
    let novo = fundido(s, b);
    let t = inserido(s, b);
    if pa < p {
        assert(s[p - 1].valido());
    }
    if pd > p {
        assert(s[p].valido());
    }
    assert(novo.valido());
    assert(novo.fim() == if pd > p { s[p].fim() } else { b.fim() });
    assert forall|i: int| 0 <= i < pa implies (#[trigger] s[i]).fim() < novo.inicio by {
        assert(s[i].inicio < b.inicio);
        if pa == p && i < p - 1 {
            assert(s[i].fim() < s[p - 1].inicio);
        }
    }
    assert forall|i: int| pd <= i < s.len() implies novo.fim() < (#[trigger] s[i]).inicio by {
        assert(s[i].inicio >= b.inicio);
        if pd == p && i > p {
            assert(s[p].fim() < s[i].inicio);
        }
    }
    assert forall|i: int, j: int| 0 <= i < j < t.len() implies (#[trigger] t[i]).fim() < (#[trigger] t[j]).inicio by {
        let ii = i - pa - 1 + pd;
        let jj = j - pa - 1 + pd;
        if j < pa {
            assert(t[i] == s[i] && t[j] == s[j]);
        } else if j == pa {
            assert(t[i] == s[i] && t[j] == novo);
        } else {
            assert(t[j] == s[jj]);
            if i < pa {
                assert(t[i] == s[i]);
            } else if i == pa {
                assert(t[i] == novo);
            } else {
                assert(t[i] == s[ii]);
            }
        }
    }
    assert forall|i: int| 0 <= i < t.len() implies (#[trigger] t[i]).valido() && de <= t[i].inicio && t[i].fim()
        <= ate by {
        if i < pa {
            assert(t[i] == s[i]);
        } else if i == pa {
            assert(t[i] == novo);
        } else {
            assert(t[i] == s[i - pa - 1 + pd]);
        }
    }
}

proof fn lemma_inserido_contem(s: Seq<No>, b: No, e: int)
    requires
        lista_valida(s),
        b.valido(),
        disjunto(s, b.inicio as int, b.fim()),
    ensures
        contem(inserido(s, b), e) <==> contem(s, e) || b.inicio <= e < b.fim(),
{
    lemma_inserido_valida(s, b, 0, usize::MAX as int);
    lemma_posicao(s, b.inicio as int);
    let p = posicao(s, b.inicio as int);
    let pa = corte_esquerdo(s, b);
    let pd = corte_direito(s, b);
    let novo = fundido(s, b);
    let t = inserido(s, b);
    assert(t[pa] == novo);
    if contem(t, e) {
        let i = choose|i: int| 0 <= i < t.len() && (#[trigger] t[i]).inicio <= e < t[i].fim();
        if i < pa {
            assert(t[i] == s[i]);
        } else if i > pa {
            assert(t[i] == s[i - pa - 1 + pd]);
        } else {
            if pa < p && e < b.inicio {
                assert(s[p - 1].inicio <= e < s[p - 1].fim());
            }
            if pd > p && e >= b.fim() {
                assert(s[p].inicio <= e < s[p].fim());
            }
        }
    }
    if contem(s, e) {
        let i = choose|i: int| 0 <= i < s.len() && (#[trigger] s[i]).inicio <= e < s[i].fim();
        if i < pa {
            assert(t[i] == s[i]);
        } else if i >= pd {
            assert(t[i - pd + pa + 1] == s[i]);
        } else {
            assert(t[pa].inicio <= e < t[pa].fim());
        }
    }
    if b.inicio <= e < b.fim() {
        assert(t[pa].inicio <= e < t[pa].fim());
    }
}

proof fn lemma_soma_push(s: Seq<No>, x: No)
    ensures
        soma(s.push(x)) == soma(s) + x.tamanho,
{
    assert(s.push(x).drop_last() =~= s);
}

proof fn lemma_inserido_soma(s: Seq<No>, b: No)
    requires
        lista_valida(s),
        b.valido(),
        disjunto(s, b.inicio as int, b.fim()),
    ensures
        soma(inserido(s, b)) == soma(s) + b.tamanho,
{
    lemma_posicao(s, b.inicio as int);
    let p = posicao(s, b.inicio as int);
    let pa = corte_esquerdo(s, b);
    let pd = corte_direito(s, b);
    let novo = fundido(s, b);
    let antes = s.take(pa);
    let depois = s.skip(pd);
    lemma_soma_concat(antes.push(novo), depois);
    lemma_soma_push(antes, novo);
    assert(soma(s) == soma(s.take(pd)) + soma(depois)) by {
        lemma_soma_concat(s.take(pd), depois);
        assert(s =~= s.take(pd) + depois);
    }
    assert(soma(s.take(p)) == soma(antes) + if pa < p { s[p - 1].tamanho as int } else { 0 }) by {
        if pa < p {
            lemma_soma_push(antes, s[p - 1]);
            assert(s.take(p) =~= antes.push(s[p - 1]));
        }
    }
    assert(soma(s.take(pd)) == soma(s.take(p)) + if pd > p { s[p].tamanho as int } else { 0 }) by {
        if pd > p {
            lemma_soma_push(s.take(p), s[p]);
            assert(s.take(pd) =~= s.take(p).push(s[p]));
        }
    }
    if pa < p {
        assert(s[p - 1].valido());
    }
    if pd > p {
        assert(s[p].valido());
    }
}

/// Adding a block that overlaps no other keeps the list valid, adds exactly
/// its bytes, and keeps every block inside the same bounds.
pub proof fn lei_inserir_acrescenta(s: Seq<No>, b: No, de: int, ate: int)
    requires
        lista_valida(s),
        b.valido(),
        disjunto(s, b.inicio as int, b.fim()),
        de <= b.inicio,
        b.fim() <= ate,
        forall|i: int| 0 <= i < s.len() ==> de <= (#[trigger] s[i]).inicio && s[i].fim() <= ate,
    ensures
        lista_valida(inserido(s, b)),
        soma(inserido(s, b)) == soma(s) + b.tamanho,
        forall|e: int| #[trigger]
            contem(inserido(s, b), e) <==> contem(s, e) || b.inicio <= e < b.fim(),
        forall|i: int|
            0 <= i < inserido(s, b).len() ==> de <= (#[trigger] inserido(s, b)[i]).inicio
                && inserido(s, b)[i].fim() <= ate,
{
    lemma_inserido_valida(s, b, de, ate);
    lemma_inserido_soma(s, b);
    assert forall|e: int| #[trigger]
        contem(inserido(s, b), e) <==> contem(s, e) || b.inicio <= e < b.fim() by {
        lemma_inserido_contem(s, b, e);
    }
}

proof fn lemma_alinhado_a_no(b: No, alinhamento: usize)
    requires
        alinhamento > 0,
        alinhamento % ALINHAMENTO_NO == 0,
    ensures
        alinhado(b.inicio as int, alinhamento as int) % ALINHAMENTO_NO as int == 0,
        alinhado(b.inicio as int, alinhamento as int) % alinhamento as int == 0,
        alinhado(b.inicio as int, alinhamento as int) >= b.inicio,
{
    lemma_alinhado(b.inicio as int, alinhamento as int);
    let e = alinhado(b.inicio as int, alinhamento as int);
    let q = alinhamento as int / 8;
    let m = e / alinhamento as int;
    vstd::arithmetic::div_mod::lemma_fundamental_div_mod(e, alinhamento as int);
    assert(e == (m * q) * 8) by (nonlinear_arith)
        requires
            e == alinhamento as int * m + 0,
            alinhamento as int == 8 * q,
    ;
}

/// The pieces of a block around `[e, e + tamanho)` are blocks inside it, in
/// order, that leave that range alone.
proof fn lemma_sobras(b: No, e: usize, tamanho: usize)
    requires
        b.valido(),
        b.inicio <= e,
        e + tamanho <= b.fim(),
        tamanho >= TAMANHO_NO,
        e % ALINHAMENTO_NO == 0,
        tamanho % ALINHAMENTO_NO == 0,
        e == b.inicio || e - b.inicio >= TAMANHO_NO,
        e + tamanho == b.fim() || b.fim() - (e + tamanho) >= TAMANHO_NO,
    ensures
        lista_valida(sobras(b, e as int, e + tamanho)),
        forall|i: int|
            0 <= i < sobras(b, e as int, e + tamanho).len() ==> {
                let x = #[trigger] sobras(b, e as int, e + tamanho)[i];
                &&& b.inicio <= x.inicio
                &&& x.fim() <= b.fim()
                &&& x.fim() <= e || e + tamanho <= x.inicio
            },
{
}

/// Putting a valid list, all of it inside a block, in that block's place keeps
/// the list valid.
proof fn lemma_substituir(s: Seq<No>, k: int, so: Seq<No>)
    requires
        lista_valida(s),
        lista_valida(so),
        0 <= k < s.len(),
        forall|i: int| 0 <= i < so.len() ==> s[k].inicio <= (#[trigger] so[i]).inicio && so[i].fim() <= s[k].fim(),
    ensures
        lista_valida(s.take(k) + so + s.skip(k + 1)),
{
    let t = s.take(k) + so + s.skip(k + 1);
    let n = so.len() as int;
    assert forall|i: int| 0 <= i < t.len() implies (#[trigger] t[i]).valido() by {
        if i < k {
            assert(t[i] == s[i]);
        } else if i < k + n {
            assert(t[i] == so[i - k]);
        } else {
            assert(t[i] == s[i - n + 1]);
        }
    }
    assert forall|i: int, j: int| 0 <= i < j < t.len() implies (#[trigger] t[i]).fim() < (#[trigger] t[j]).inicio by {
        if j < k {
            assert(t[i] == s[i] && t[j] == s[j]);
        } else if j < k + n {
            assert(t[j] == so[j - k]);
            if i < k {
                assert(t[i] == s[i]);
            } else {
                assert(t[i] == so[i - k]);
            }
        } else {
            assert(t[j] == s[j - n + 1]);
            if i < k {
                assert(t[i] == s[i]);
            } else if i < k + n {
                assert(t[i] == so[i - k]);
            } else {
                assert(t[i] == s[i - n + 1]);
            }
        }
    }
}

/// The pieces of the `k`-th block around `[e, e + tamanho)` take its place.
proof fn lemma_retirado(s: Seq<No>, tamanho: usize, alinhamento: usize, k: int, e: usize)
    requires
        lista_valida(s),
        tamanho >= TAMANHO_NO,
        tamanho % ALINHAMENTO_NO == 0,
        alinhamento > 0,
        alinhamento % ALINHAMENTO_NO == 0,
        0 <= k < s.len(),
        serve(s[k], tamanho, alinhamento),
        e == alinhado(s[k].inicio as int, alinhamento as int),
    ensures
        ({
            let t = s.take(k) + sobras(s[k], e as int, e + tamanho) + s.skip(k + 1);
            &&& lista_valida(t)
            &&& disjunto(t, e as int, e + tamanho)
            &&& inserido(t, No { inicio: e, tamanho }) == s
            &&& e % ALINHAMENTO_NO == 0
            &&& e % alinhamento == 0
            &&& s[k].inicio <= e
            &&& e + tamanho <= s[k].fim()
        }),
{
    let b = s[k];
    lemma_alinhado_a_no(b, alinhamento);
    assert(b.valido());
    lemma_sobras(b, e, tamanho);
    let so = sobras(b, e as int, e + tamanho);
    lemma_substituir(s, k, so);
    lemma_reinserir(s, k, e, tamanho);
    let t = s.take(k) + so + s.skip(k + 1);
    let n = so.len() as int;
    assert forall|i: int| 0 <= i < t.len() implies e + tamanho <= (#[trigger] t[i]).inicio || t[i].fim() <= e by {
        if i < k {
            assert(t[i] == s[i]);
        } else if i < k + n {
            assert(t[i] == so[i - k]);
        } else {
            assert(t[i] == s[i - n + 1]);
        }
    }
}

/// A range put back between the pieces it was cut from makes the block whole.
#[verifier::rlimit(60)]
#[verifier::spinoff_prover]
proof fn lemma_reinserir(s: Seq<No>, k: int, e: usize, tamanho: usize)
    requires
        lista_valida(s),
        0 <= k < s.len(),
        s[k].inicio <= e,
        e + tamanho <= s[k].fim(),
        tamanho > 0,
        lista_valida(s.take(k) + sobras(s[k], e as int, e + tamanho) + s.skip(k + 1)),
    ensures
        inserido(
            s.take(k) + sobras(s[k], e as int, e + tamanho) + s.skip(k + 1),
            No { inicio: e, tamanho },
        ) == s,
{
    let b = s[k];
    let so = sobras(b, e as int, e + tamanho);
    let t = s.take(k) + so + s.skip(k + 1);
    let n = so.len() as int;
    let x = No { inicio: e, tamanho };
    let p = if e > b.inicio {
        k + 1
    } else {
        k
    };
    assert(b.valido());
    if k > 0 {
        assert(t[k - 1] == s[k - 1]);
        assert(s[k - 1].fim() < b.inicio);
        assert(s[k - 1].valido());
    }
    if e > b.inicio {
        assert(t[k] == so[0]);
    }
    if e + tamanho < b.fim() {
        assert(t[p] == so[p - k]);
    } else if p < t.len() {
        assert(t[p] == s[k + 1]);
        assert(b.fim() < s[k + 1].inicio);
    }
    lemma_posicao_unica(t, e as int, p);
    assert(corte_esquerdo(t, x) == k);
    assert(corte_direito(t, x) == k + n);
    assert(fundido(t, x) == b);
    assert(t.take(k) =~= s.take(k));
    assert(t.skip(k + n) =~= s.skip(k + 1));
    assert(inserido(t, x) =~= s);
}

/// Serving a request leaves a valid list that lost exactly the bytes served,
/// and giving them back restores the list block by block.
pub proof fn lei_inserir_desfaz_retirar(
    s: Seq<No>,
    t: Seq<No>,
    tamanho: usize,
    alinhamento: usize,
    e: usize,
)
    requires
        lista_valida(s),
        tamanho >= TAMANHO_NO,
        tamanho % ALINHAMENTO_NO == 0,
        alinhamento > 0,
        alinhamento % ALINHAMENTO_NO == 0,
        retirado(s, t, tamanho, alinhamento, Some(e)),
    ensures
        lista_valida(t),
        e % alinhamento == 0,
        e % ALINHAMENTO_NO == 0,
        disjunto(t, e as int, e + tamanho),
        inserido(t, No { inicio: e, tamanho }) == s,
        soma(t) + tamanho == soma(s),
        forall|x: int| #[trigger] contem(s, x) <==> contem(t, x) || e <= x < e + tamanho,
        exists|k: int| 0 <= k < s.len() && (#[trigger] s[k]).inicio <= e && e + tamanho <= s[k].fim(),
{
    let k = choose|k: int|
        {
            &&& #[trigger] primeiro_que_serve(s, tamanho, alinhamento, k)
            &&& e == alinhado(s[k].inicio as int, alinhamento as int)
            &&& t == s.take(k) + sobras(s[k], e as int, e + tamanho) + s.skip(k + 1)
        };
    lemma_retirado(s, tamanho, alinhamento, k, e);
    let b = No { inicio: e, tamanho };
    assert(s[k].valido());
    lemma_inserido_soma(t, b);
    assert forall|x: int| #[trigger] contem(s, x) <==> contem(t, x) || e <= x < e + tamanho by {
        lemma_inserido_contem(t, b, x);
    }
}

/// Every block of `t` lies inside a block of `s`.
proof fn lemma_retirado_dentro(
    s: Seq<No>,
    t: Seq<No>,
    tamanho: usize,
    alinhamento: usize,
    e: usize,
    de: int,
    ate: int,
)
    requires
        lista_valida(s),
        alinhamento > 0,
        retirado(s, t, tamanho, alinhamento, Some(e)),
        forall|i: int| 0 <= i < s.len() ==> de <= (#[trigger] s[i]).inicio && s[i].fim() <= ate,
    ensures
        forall|i: int| 0 <= i < t.len() ==> de <= (#[trigger] t[i]).inicio && t[i].fim() <= ate,
{
    let k = choose|k: int|
        {
            &&& #[trigger] primeiro_que_serve(s, tamanho, alinhamento, k)
            &&& e == alinhado(s[k].inicio as int, alinhamento as int)
            &&& t == s.take(k) + sobras(s[k], e as int, e + tamanho) + s.skip(k + 1)
        };
    let so = sobras(s[k], e as int, e + tamanho);
    assert(s[k].valido());
    lemma_alinhado(s[k].inicio as int, alinhamento as int);
    assert forall|i: int| 0 <= i < t.len() implies de <= (#[trigger] t[i]).inicio && t[i].fim() <= ate by {
        if i < k {
            assert(t[i] == s[i]);
        } else if i < k + so.len() {
            assert(t[i] == so[i - k]);
        } else {
            assert(t[i] == s[i - so.len() + 1]);
        }
    }
}

/// Rounds up to a multiple of the alignment, or `None` where no such address
/// exists.
pub fn alinhar_acima(valor: usize, alinhamento: usize) -> (r: Option<usize>)
    requires
        alinhamento > 0,
    ensures
        match r {
            Some(x) => x == alinhado(valor as int, alinhamento as int) && valor <= x && x % alinhamento
                == 0,
            None => alinhado(valor as int, alinhamento as int) > usize::MAX,
        },
{
    proof {
        lemma_alinhado(valor as int, alinhamento as int);
    }
    let resto: usize = valor % alinhamento;
    if resto == 0 {
        Some(valor)
    } else {
        valor.checked_add(alinhamento - resto)
    }
}

/// Where in a block a request would be served, if the block serves it.
fn encaixe(b: No, tamanho: usize, alinhamento: usize) -> (r: Option<usize>)
    requires
        b.valido(),
        alinhamento > 0,
    ensures
        match r {
            Some(e) => serve(b, tamanho, alinhamento) && e == alinhado(
                b.inicio as int,
                alinhamento as int,
            ) && b.inicio <= e,
            None => !serve(b, tamanho, alinhamento),
        },
{
    let fim: usize = b.inicio + b.tamanho;
    if let Some(inicio_alinhado) = alinhar_acima(b.inicio, alinhamento) {
        if let Some(fim_alocacao) = inicio_alinhado.checked_add(tamanho) {
            if fim_alocacao <= fim {
                let antes: usize = inicio_alinhado - b.inicio;
                let depois: usize = fim - fim_alocacao;
                if (antes == 0 || antes >= TAMANHO_NO) && (depois == 0 || depois >= TAMANHO_NO) {
                    return Some(inicio_alinhado);
                }
            }
        }
    }
    None
}

/// A power of two.
pub open spec fn potencia_de_dois(n: int) -> bool
    decreases n,
{
    n == 1 || (n > 1 && n % 2 == 0 && potencia_de_dois(n / 2))
}

/// The alignment of a block, once it has to serve as a list node too.
pub open spec fn alinhamento_ajustado(alinhamento: usize) -> usize {
    if alinhamento < ALINHAMENTO_NO {
        ALINHAMENTO_NO
    } else {
        alinhamento
    }
}

/// The size of a block, once it has to serve as a list node too.
pub open spec fn tamanho_ajustado(tamanho: usize, alinhamento: usize) -> int {
    let t = alinhado(tamanho as int, alinhamento_ajustado(alinhamento) as int);
    if t < TAMANHO_NO {
        TAMANHO_NO as int
    } else {
        t
    }
}

/// The request, once rounded up, is one the allocator takes.
pub open spec fn pedido_aceito(tamanho: usize, alinhamento: usize) -> bool {
    tamanho <= isize::MAX - (alinhamento_ajustado(alinhamento) - 1)
}

proof fn lemma_ajuste(tamanho: usize, alinhamento: usize)
    requires
        potencia_de_dois(alinhamento as int),
        pedido_aceito(tamanho, alinhamento),
    ensures
        alinhamento_ajustado(alinhamento) % ALINHAMENTO_NO == 0,
        tamanho_ajustado(tamanho, alinhamento) % ALINHAMENTO_NO as int == 0,
        TAMANHO_NO <= tamanho_ajustado(tamanho, alinhamento) <= usize::MAX,
{
    let a = alinhamento_ajustado(alinhamento) as int;
    if alinhamento > 8 {
        reveal_with_fuel(potencia_de_dois, 4);
        assert(a % 8 == 0);
    }
    lemma_alinhado(tamanho as int, a);
    let t = alinhado(tamanho as int, a);
    let q = a / 8;
    let m = t / a;
    vstd::arithmetic::div_mod::lemma_fundamental_div_mod(t, a);
    assert(t == (m * q) * 8) by (nonlinear_arith)
        requires
            t == a * m + 0,
            a == 8 * q,
    ;
}

/// Rounds a request up so that the block can hold a list node once it is
/// freed: at least [`TAMANHO_NO`] bytes, aligned and sized to at least
/// [`ALINHAMENTO_NO`]. `None` where the rounded size would not be one.
pub fn ajustar(tamanho: usize, alinhamento: usize) -> (r: Option<(usize, usize)>)
    requires
        potencia_de_dois(alinhamento as int),
        alinhamento <= isize::MAX,
    ensures
        match r {
            Some((t, a)) => {
                &&& pedido_aceito(tamanho, alinhamento)
                &&& t == tamanho_ajustado(tamanho, alinhamento)
                &&& a == alinhamento_ajustado(alinhamento)
            },
            None => !pedido_aceito(tamanho, alinhamento),
        },
{
    let a: usize = if alinhamento < ALINHAMENTO_NO {
        ALINHAMENTO_NO
    } else {
        alinhamento
    };
    if tamanho > isize::MAX as usize - (a - 1) {
        return None;
    }
    proof {
        lemma_ajuste(tamanho, alinhamento);
    }
    match alinhar_acima(tamanho, a) {
        Some(t) => if t < TAMANHO_NO {
            Some((TAMANHO_NO, a))
        } else {
            Some((t, a))
        },
        None => None,
    }
}

/// The heap: its free blocks and its accounts.
pub struct Estado {
    /// The free blocks, sorted by address and coalesced.
    livres: Vec<No>,
    /// First address of the heap.
    inicio: usize,
    total: usize,
    alocado: usize,
    alocacoes: u64,
    liberacoes: u64,
    /// Requests that could not be served.
    falhas: u64,
}

/// A picture of the heap at one moment.
#[derive(Clone, Copy, Debug)]
pub struct Estatisticas {
    pub total: usize,
    pub alocado: usize,
    pub livre: usize,
    pub blocos_livres: usize,
    /// The largest contiguous block: the honest measure of fragmentation.
    pub maior_bloco: usize,
    pub alocacoes: u64,
    pub liberacoes: u64,
    pub falhas: u64,
}

impl Estado {
    /// The free blocks.
    pub closed spec fn livres(&self) -> Seq<No> {
        self.livres@
    }

    /// First address of the heap.
    pub closed spec fn inicio(&self) -> int {
        self.inicio as int
    }

    /// First address past the heap.
    pub closed spec fn fim(&self) -> int {
        self.inicio + self.total
    }

    pub closed spec fn alocado(&self) -> nat {
        self.alocado as nat
    }

    pub closed spec fn alocacoes(&self) -> nat {
        self.alocacoes as nat
    }

    pub closed spec fn liberacoes(&self) -> nat {
        self.liberacoes as nat
    }

    pub closed spec fn falhas(&self) -> nat {
        self.falhas as nat
    }

    /// The list is valid, every block lies in the heap, and every byte of the
    /// heap is either free or allocated.
    pub open spec fn wf(&self) -> bool {
        &&& lista_valida(self.livres())
        &&& forall|i: int|
            0 <= i < self.livres().len() ==> self.inicio() <= (#[trigger] self.livres()[i]).inicio
                && self.livres()[i].fim() <= self.fim()
        &&& soma(self.livres()) + self.alocado() == self.fim() - self.inicio()
        &&& 0 <= self.inicio() <= self.fim() <= usize::MAX
    }

    /// Same heap, same failure count.
    pub open spec fn mesmo_heap(&self, outro: &Estado) -> bool {
        &&& self.inicio() == outro.inicio()
        &&& self.fim() == outro.fim()
    }

    /// A heap without memory.
    pub fn vazio() -> (r: Estado)
        ensures
            r.wf(),
            r.livres() == Seq::<No>::empty(),
            r.inicio() == 0,
            r.fim() == 0,
            r.alocado() == 0,
            r.alocacoes() == 0,
            r.liberacoes() == 0,
            r.falhas() == 0,
    {
        Estado {
            livres: Vec::new(),
            inicio: 0,
            total: 0,
            alocado: 0,
            alocacoes: 0,
            liberacoes: 0,
            falhas: 0,
        }
    }
}

/// Puts a region back in the list, merging it with the blocks it touches.
pub fn inserir(lista: &mut Vec<No>, endereco: usize, tamanho: usize)
    requires
        lista_valida(old(lista)@),
        (No { inicio: endereco, tamanho }).valido(),
        disjunto(old(lista)@, endereco as int, endereco + tamanho),
    ensures
        final(lista)@ == inserido(old(lista)@, No { inicio: endereco, tamanho }),
{
    let ghost s = lista@;
    let ghost b = No { inicio: endereco, tamanho };
    let mut p: usize = 0;
    while p < lista.len() && lista[p].inicio < endereco
        invariant
            lista@ == s,
            0 <= p <= s.len(),
            p > 0 ==> s[p - 1].inicio < endereco,
        decreases s.len() - p,
    {
        p = p + 1;
    }
    proof {
        lemma_posicao_unica(s, endereco as int, p as int);
        lemma_inserido_valida(s, b, 0, usize::MAX as int);
        if p > 0 {
            assert(s[p - 1].valido());
        }
        if p < s.len() {
            assert(s[p as int].valido());
        }
    }
    let mut no: No = No { inicio: endereco, tamanho };
    if p < lista.len() && endereco + tamanho == lista[p].inicio {
        no = No { inicio: no.inicio, tamanho: no.tamanho + lista[p].tamanho };
        lista.set(p, no);
    } else {
        lista.insert(p, no);
    }
    let ghost meio = lista@;
    proof {
        assert(meio =~= s.take(p as int).push(no) + s.skip(corte_direito(s, b)));
    }
    if p > 0 && lista[p - 1].inicio + lista[p - 1].tamanho == endereco {
        let anterior: No = lista[p - 1];
        let fundido_: No = No { inicio: anterior.inicio, tamanho: anterior.tamanho + no.tamanho };
        lista.set(p - 1, fundido_);
        lista.remove(p);
    }
    proof {
        assert(lista@ =~= inserido(s, b));
    }
}

/// Takes out of the list the first region that serves the request, and
/// returns its aligned address.
pub fn retirar(lista: &mut Vec<No>, tamanho: usize, alinhamento: usize) -> (r: Option<usize>)
    requires
        lista_valida(old(lista)@),
        alinhamento > 0,
    ensures
        retirado(old(lista)@, final(lista)@, tamanho, alinhamento, r),
{
    let ghost s = lista@;
    let mut k: usize = 0;
    while k < lista.len()
        invariant
            lista@ == s,
            s == old(lista)@,
            lista_valida(s),
            alinhamento > 0,
            0 <= k <= s.len(),
            forall|j: int| 0 <= j < k ==> !serve(#[trigger] s[j], tamanho, alinhamento),
        decreases s.len() - k,
    {
        let atual: No = lista[k];
        proof {
            assert(s[k as int].valido());
        }
        if let Some(inicio) = encaixe(atual, tamanho, alinhamento) {
            let fim_alocacao: usize = inicio + tamanho;
            let antes: usize = inicio - atual.inicio;
            let depois: usize = atual.inicio + atual.tamanho - fim_alocacao;
            lista.remove(k);
            if depois > 0 {
                lista.insert(k, No { inicio: fim_alocacao, tamanho: depois });
            }
            if antes > 0 {
                lista.insert(k, No { inicio: atual.inicio, tamanho: antes });
            }
            proof {
                let so = sobras(s[k as int], inicio as int, inicio + tamanho);
                assert(lista@ =~= s.take(k as int) + so + s.skip(k + 1));
                assert(primeiro_que_serve(s, tamanho, alinhamento, k as int));
            }
            return Some(inicio);
        }
        k = k + 1;
    }
    None
}

/// The bytes `[endereco, endereco + tamanho)` are the heap's and no free block
/// holds one of them.
pub open spec fn alocada(h: &Estado, endereco: usize, tamanho: int) -> bool {
    &&& h.inicio() <= endereco
    &&& endereco + tamanho <= h.fim()
    &&& endereco % ALINHAMENTO_NO == 0
    &&& disjunto(h.livres(), endereco as int, endereco + tamanho)
}

/// Serves a request, or returns `None` where no block fits or the request is
/// larger than any block can be. Every request that is not served is counted.
///
/// `alinhamento` is a power of two, as every layout has it.
pub fn tentar_alocar(h: &mut Estado, tamanho: usize, alinhamento: usize) -> (r: Option<usize>)
    requires
        old(h).wf(),
        potencia_de_dois(alinhamento as int),
        alinhamento <= isize::MAX,
        old(h).alocacoes() < u64::MAX,
        old(h).falhas() < u64::MAX,
    ensures
        final(h).wf(),
        final(h).mesmo_heap(old(h)),
        final(h).liberacoes() == old(h).liberacoes(),
        if !pedido_aceito(tamanho, alinhamento) {
            &&& r is None
            &&& final(h).livres() == old(h).livres()
            &&& final(h).alocado() == old(h).alocado()
            &&& final(h).alocacoes() == old(h).alocacoes()
            &&& final(h).falhas() == old(h).falhas() + 1
        } else {
            let t = tamanho_ajustado(tamanho, alinhamento) as usize;
            let a = alinhamento_ajustado(alinhamento);
            &&& retirado(old(h).livres(), final(h).livres(), t, a, r)
            &&& match r {
                Some(e) => {
                    &&& e % alinhamento == 0
                    &&& alocada(final(h), e, t as int)
                    &&& final(h).alocado() == old(h).alocado() + t
                    &&& final(h).alocacoes() == old(h).alocacoes() + 1
                    &&& final(h).falhas() == old(h).falhas()
                },
                None => {
                    &&& final(h).alocado() == old(h).alocado()
                    &&& final(h).alocacoes() == old(h).alocacoes()
                    &&& final(h).falhas() == old(h).falhas() + 1
                },
            }
        },
{
    match ajustar(tamanho, alinhamento) {
        None => {
            h.falhas = h.falhas + 1;
            None
        },
        Some((t, a)) => {
            proof {
                lemma_ajuste(tamanho, alinhamento);
            }
            let ghost s = h.livres@;
            let r = retirar(&mut h.livres, t, a);
            match r {
                Some(e) => {
                    proof {
                        lei_inserir_desfaz_retirar(s, h.livres@, t, a, e);
                        lemma_retirado_dentro(s, h.livres@, t, a, e, h.inicio(), h.fim());
                        lemma_multiplo(e as int, a, alinhamento);
                    }
                    h.alocado = h.alocado + t;
                    h.alocacoes = h.alocacoes + 1;
                    Some(e)
                },
                None => {
                    h.falhas = h.falhas + 1;
                    None
                },
            }
        },
    }
}

proof fn lemma_multiplo(e: int, a: usize, alinhamento: usize)
    requires
        potencia_de_dois(alinhamento as int),
        a == alinhamento_ajustado(alinhamento),
        e % a as int == 0,
    ensures
        e % alinhamento as int == 0,
{
    reveal_with_fuel(potencia_de_dois, 4);
    if alinhamento < ALINHAMENTO_NO {
        assert(e % 8 == 0);
        if alinhamento == 1 {
            assert(e % 1 == 0);
        } else if alinhamento == 2 {
            assert(e % 2 == 0);
        } else {
            assert(alinhamento == 4);
            assert(e % 4 == 0);
        }
    }
}

/// Gives a block back. It must be one that [`tentar_alocar`] served for the
/// same request and that was not given back since.
pub fn devolver(h: &mut Estado, endereco: usize, tamanho: usize, alinhamento: usize)
    requires
        old(h).wf(),
        potencia_de_dois(alinhamento as int),
        alinhamento <= isize::MAX,
        pedido_aceito(tamanho, alinhamento) ==> alocada(
            old(h),
            endereco,
            tamanho_ajustado(tamanho, alinhamento),
        ),
        old(h).liberacoes() < u64::MAX,
    ensures
        final(h).wf(),
        final(h).mesmo_heap(old(h)),
        final(h).alocacoes() == old(h).alocacoes(),
        final(h).falhas() == old(h).falhas(),
        if !pedido_aceito(tamanho, alinhamento) {
            *final(h) == *old(h)
        } else {
            let t = tamanho_ajustado(tamanho, alinhamento) as usize;
            &&& final(h).livres() == inserido(old(h).livres(), No { inicio: endereco, tamanho: t })
            &&& final(h).alocado() == old(h).alocado() - t
            &&& final(h).liberacoes() == old(h).liberacoes() + 1
        },
{
    if let Some((t, _a)) = ajustar(tamanho, alinhamento) {
        proof {
            lemma_ajuste(tamanho, alinhamento);
            let b = No { inicio: endereco, tamanho: t };
            lei_inserir_acrescenta(h.livres@, b, h.inicio(), h.fim());
            lemma_soma_limite(inserido(h.livres@, b), h.inicio(), h.fim());
        }
        inserir(&mut h.livres, endereco, t);
        h.alocado = h.alocado.saturating_sub(t);
        h.liberacoes = h.liberacoes + 1;
    }
}

/// Giving back what was just served leaves the free blocks as they were.
pub proof fn lei_devolver_desfaz_alocar(
    s: Seq<No>,
    t: Seq<No>,
    tamanho: usize,
    alinhamento: usize,
    e: usize,
)
    requires
        lista_valida(s),
        potencia_de_dois(alinhamento as int),
        pedido_aceito(tamanho, alinhamento),
        retirado(
            s,
            t,
            tamanho_ajustado(tamanho, alinhamento) as usize,
            alinhamento_ajustado(alinhamento),
            Some(e),
        ),
    ensures
        inserido(
            t,
            No { inicio: e, tamanho: tamanho_ajustado(tamanho, alinhamento) as usize },
        ) == s,
{
    lemma_ajuste(tamanho, alinhamento);
    lei_inserir_desfaz_retirar(
        s,
        t,
        tamanho_ajustado(tamanho, alinhamento) as usize,
        alinhamento_ajustado(alinhamento),
        e,
    );
}

/// Two blocks served in a row do not overlap.
pub proof fn lei_alocacoes_disjuntas(
    s: Seq<No>,
    t: Seq<No>,
    u: Seq<No>,
    t1: usize,
    a1: usize,
    e1: usize,
    t2: usize,
    a2: usize,
    e2: usize,
)
    requires
        lista_valida(s),
        t1 >= TAMANHO_NO,
        t2 >= TAMANHO_NO,
        t1 % ALINHAMENTO_NO == 0,
        t2 % ALINHAMENTO_NO == 0,
        a1 > 0,
        a2 > 0,
        a1 % ALINHAMENTO_NO == 0,
        a2 % ALINHAMENTO_NO == 0,
        retirado(s, t, t1, a1, Some(e1)),
        retirado(t, u, t2, a2, Some(e2)),
    ensures
        e1 + t1 <= e2 || e2 + t2 <= e1,
{
    lei_inserir_desfaz_retirar(s, t, t1, a1, e1);
    lei_inserir_desfaz_retirar(t, u, t2, a2, e2);
    let k = choose|k: int| 0 <= k < t.len() && (#[trigger] t[k]).inicio <= e2 && e2 + t2 <= t[k].fim();
    assert(t[k].fim() <= e1 || e1 + t1 <= t[k].inicio);
}

/// Hands the range `[inicio, inicio + HEAP_TAMANHO)`, which is memory, to an
/// allocator that has none yet.
pub fn montar(h: &mut Estado, inicio: usize)
    requires
        old(h).wf(),
        old(h).inicio() == old(h).fim(),
        inicio % ALINHAMENTO_NO == 0,
        inicio + HEAP_TAMANHO <= usize::MAX,
    ensures
        final(h).wf(),
        final(h).inicio() == inicio,
        final(h).fim() == inicio + HEAP_TAMANHO,
        final(h).livres() == seq![No { inicio, tamanho: HEAP_TAMANHO }],
        final(h).alocado() == 0,
        final(h).alocacoes() == old(h).alocacoes(),
        final(h).liberacoes() == old(h).liberacoes(),
        final(h).falhas() == old(h).falhas(),
{
    proof {
        let s = h.livres@;
        if s.len() > 0 {
            assert(s[0].valido());
        }
        assert(s =~= Seq::<No>::empty());
        let b = No { inicio, tamanho: HEAP_TAMANHO };
        assert(inserido(s, b) =~= seq![b]);
        assert(seq![b].drop_last() =~= s);
        assert(soma(seq![b]) == HEAP_TAMANHO);
    }
    h.inicio = inicio;
    h.total = HEAP_TAMANHO;
    inserir(&mut h.livres, inicio, HEAP_TAMANHO);
}

/// Maps the range `[inicio, inicio + HEAP_TAMANHO)` onto fresh memory and
/// hands it to the allocator.
///
/// Where a page cannot be had the heap stays empty, and the pages mapped
/// before it stay mapped.
pub fn init<T: Tradutor>(h: &mut Estado, t: &mut T, a: &mut Alocador, inicio: usize) -> (r: Result<
    (),
    &'static str,
>)
    requires
        old(h).wf(),
        old(h).inicio() == old(h).fim(),
        old(t).wf(old(a)),
        inicio % ALINHAMENTO_NO == 0,
        inicio + HEAP_TAMANHO <= usize::MAX,
    ensures
        final(h).wf(),
        match r {
            Ok(_) => {
                &&& final(h).inicio() == inicio
                &&& final(h).fim() == inicio + HEAP_TAMANHO
                &&& final(h).livres() == seq![No { inicio, tamanho: HEAP_TAMANHO }]
                &&& final(h).alocado() == 0
                &&& final(h).alocacoes() == old(h).alocacoes()
                &&& final(h).liberacoes() == old(h).liberacoes()
                &&& final(h).falhas() == old(h).falhas()
                &&& crate::paginacao::mapeadas(
                    old(t),
                    old(a),
                    final(t),
                    final(a),
                    inicio as u64,
                    PAGINAS_DO_HEAP as int,
                    Permissoes::dados_spec(),
                )
            },
            Err(motivo) => {
                &&& *final(h) == *old(h)
                &&& faltou(old(t), old(a), final(t), final(a), inicio as u64, motivo)
            },
        },
{
    let ghost t0 = *t;
    let ghost a0 = *a;
    match mapear_faixa(t, a, inicio as u64, PAGINAS_DO_HEAP, Permissoes::dados()) {
        Err(parada) => {
            proof {
                assert(crate::paginacao::parou(
                    &t0,
                    &a0,
                    inicio as u64,
                    parada.0 as int,
                    Permissoes::dados_spec(),
                    parada.1,
                ));
                assert(faltou(&t0, &a0, t, a, inicio as u64, parada.1));
            }
            return Err(parada.1);
        },
        Ok(_) => {},
    }
    montar(h, inicio);
    Ok(())
}

/// The heap's range was mapped up to a page that was refused for `motivo`.
pub open spec fn faltou<T: Tradutor>(
    t0: &T,
    a0: &Alocador,
    t: &T,
    a: &Alocador,
    inicio: u64,
    motivo: &'static str,
) -> bool {
    exists|n: int|
        0 <= n < PAGINAS_DO_HEAP && #[trigger] crate::paginacao::parou(
            t0,
            a0,
            inicio,
            n,
            Permissoes::dados_spec(),
            motivo,
        ) && crate::paginacao::mapeadas(t0, a0, t, a, inicio, n, Permissoes::dados_spec())
}

/// The heap comes up where its range is empty and there is memory enough.
pub proof fn lei_com_memoria_ha_heap<T: Tradutor>(
    t0: &T,
    a0: &Alocador,
    t: &T,
    a: &Alocador,
    inicio: u64,
    motivo: &'static str,
)
    requires
        inicio + HEAP_TAMANHO <= u64::MAX,
        forall|i: int|
            0 <= i < PAGINAS_DO_HEAP ==> #[trigger] t0.vago(crate::paginacao::endereco(inicio, i)),
        crate::frames::contar(a0.livre()) >= PAGINAS_DO_HEAP * crate::paginacao::POR_PAGINA,
    ensures
        !faltou(t0, a0, t, a, inicio, motivo),
{
    assert forall|n: int| 0 <= n < PAGINAS_DO_HEAP implies !#[trigger] crate::paginacao::parou(
        t0,
        a0,
        inicio,
        n,
        Permissoes::dados_spec(),
        motivo,
    ) by {
        crate::paginacao::lei_com_memoria_nao_para(
            t0,
            a0,
            inicio,
            PAGINAS_DO_HEAP as int,
            n,
            Permissoes::dados_spec(),
            motivo,
        );
    }
}

proof fn lemma_soma_prefixo(s: Seq<No>, n: int)
    requires
        0 <= n <= s.len(),
    ensures
        soma(s.take(n)) <= soma(s),
    decreases s.len(),
{
    if n < s.len() {
        lemma_soma_prefixo(s.drop_last(), n);
        assert(s.drop_last().take(n) =~= s.take(n));
    } else {
        assert(s.take(n) =~= s);
    }
}

/// A picture of the heap.
pub fn estatisticas(h: &Estado) -> (r: Estatisticas)
    requires
        h.wf(),
    ensures
        r.total == h.fim() - h.inicio(),
        r.alocado == h.alocado(),
        r.livre == soma(h.livres()),
        r.blocos_livres == h.livres().len(),
        r.maior_bloco == maior(h.livres()),
        r.alocacoes == h.alocacoes(),
        r.liberacoes == h.liberacoes(),
        r.falhas == h.falhas(),
        r.livre + r.alocado == r.total,
{
    let mut livre: usize = 0;
    let mut maior_: usize = 0;
    let mut i: usize = 0;
    while i < h.livres.len()
        invariant
            h.wf(),
            0 <= i <= h.livres@.len(),
            livre == soma(h.livres@.take(i as int)),
            maior_ == maior(h.livres@.take(i as int)),
        decreases h.livres@.len() - i,
    {
        proof {
            lemma_soma_prefixo(h.livres@, i + 1);
            assert(h.livres@.take(i + 1).drop_last() =~= h.livres@.take(i as int));
        }
        let t: usize = h.livres[i].tamanho;
        livre = livre + t;
        if t > maior_ {
            maior_ = t;
        }
        i = i + 1;
    }
    proof {
        assert(h.livres@.take(i as int) =~= h.livres@);
    }
    Estatisticas {
        total: h.total,
        alocado: h.alocado,
        livre,
        blocos_livres: h.livres.len(),
        maior_bloco: maior_,
        alocacoes: h.alocacoes,
        liberacoes: h.liberacoes,
        falhas: h.falhas,
    }
}

/// A multiple of `a` in a window of `a` numbers is the only one.
proof fn lemma_multiplo_unico(x: int, y: int, a: int)
    requires
        a > 0,
        x % a == 0,
        y % a == 0,
        -a < x - y < a,
    ensures
        x == y,
{
    let p = x / a;
    let q = y / a;
    vstd::arithmetic::div_mod::lemma_fundamental_div_mod(x, a);
    vstd::arithmetic::div_mod::lemma_fundamental_div_mod(y, a);
    assert(p == q) by (nonlinear_arith)
        requires
            x == a * p,
            y == a * q,
            -a < x - y < a,
            a > 0,
    ;
}

/// Every power of two is one.
pub proof fn lei_potencias_de_dois(k: nat)
    ensures
        potencia_de_dois(vstd::arithmetic::power2::pow2(k) as int),
    decreases k,
{
    if k == 0 {
        vstd::arithmetic::power2::lemma2_to64();
    } else {
        lei_potencias_de_dois((k - 1) as nat);
        vstd::arithmetic::power2::lemma_pow2_unfold(k);
        vstd::arithmetic::power2::lemma_pow2_pos((k - 1) as nat);
    }
}

/// A block covers the request it is for: it is as long as the smallest multiple
/// of the alignment, eight at least, that is not below what was asked, and never
/// shorter than sixteen. A request is taken as long as it can be rounded up.
pub proof fn lei_bloco_cobre_o_pedido(tamanho: usize, alinhamento: usize, multiplo: int)
    requires
        alinhamento > 0,
    ensures
        ({
            let a = if alinhamento < 8 {
                8
            } else {
                alinhamento as int
            };
            let t = tamanho_ajustado(tamanho, alinhamento);
            &&& tamanho <= t
            &&& 16 <= t
            &&& t == 16 || (t % a == 0 && t < tamanho + a)
            &&& multiplo % a == 0 && multiplo >= tamanho && multiplo >= 16 ==> t <= multiplo
            &&& alinhamento_ajustado(alinhamento) == a
            &&& pedido_aceito(tamanho, alinhamento) <==> tamanho + a - 1 <= isize::MAX
        }),
{
    let a = alinhamento_ajustado(alinhamento) as int;
    lemma_alinhado(tamanho as int, a);
    let t = alinhado(tamanho as int, a);
    if multiplo % a == 0 && multiplo >= tamanho && multiplo < t {
        lemma_multiplo_unico(multiplo, t, a);
    }
}

/// Two requests that were served one after the other share no byte of what was
/// asked.
pub proof fn lei_pedidos_nao_se_sobrepoem(
    s: Seq<No>,
    t: Seq<No>,
    u: Seq<No>,
    n1: usize,
    a1: usize,
    e1: usize,
    n2: usize,
    a2: usize,
    e2: usize,
)
    requires
        lista_valida(s),
        potencia_de_dois(a1 as int),
        potencia_de_dois(a2 as int),
        pedido_aceito(n1, a1),
        pedido_aceito(n2, a2),
        retirado(s, t, tamanho_ajustado(n1, a1) as usize, alinhamento_ajustado(a1), Some(e1)),
        retirado(t, u, tamanho_ajustado(n2, a2) as usize, alinhamento_ajustado(a2), Some(e2)),
    ensures
        e1 + n1 <= e2 || e2 + n2 <= e1,
        e1 % a1 == 0,
        e2 % a2 == 0,
        forall|x: int| e1 <= x < e1 + n1 ==> #[trigger] contem(s, x) && !contem(t, x),
{
    lemma_ajuste(n1, a1);
    lemma_ajuste(n2, a2);
    lei_bloco_cobre_o_pedido(n1, a1, 0);
    lei_bloco_cobre_o_pedido(n2, a2, 0);
    let t1 = tamanho_ajustado(n1, a1) as usize;
    let t2 = tamanho_ajustado(n2, a2) as usize;
    lei_inserir_desfaz_retirar(s, t, t1, alinhamento_ajustado(a1), e1);
    lei_inserir_desfaz_retirar(t, u, t2, alinhamento_ajustado(a2), e2);
    lemma_multiplo(e1 as int, alinhamento_ajustado(a1), a1);
    lemma_multiplo(e2 as int, alinhamento_ajustado(a2), a2);
    lei_alocacoes_disjuntas(
        s,
        t,
        u,
        t1,
        alinhamento_ajustado(a1),
        e1,
        t2,
        alinhamento_ajustado(a2),
        e2,
    );
    assert forall|x: int| e1 <= x < e1 + n1 implies #[trigger] contem(s, x) && !contem(t, x) by {
        if contem(t, x) {
            let k = choose|k: int| 0 <= k < t.len() && (#[trigger] t[k]).inicio <= x < t[k].fim();
            assert(e1 + t1 <= t[k].inicio || t[k].fim() <= e1);
        }
    }
}

/// A request is served wherever some block has room for it at its first aligned
/// address, with nothing left over on either side or at least sixteen bytes; and
/// it is served at the lowest such address.
pub proof fn lei_serve_no_primeiro_lugar_que_cabe(
    s: Seq<No>,
    t: Seq<No>,
    tamanho: usize,
    alinhamento: usize,
    r: Option<usize>,
    j: int,
    e: int,
)
    requires
        lista_valida(s),
        alinhamento > 0,
        retirado(s, t, tamanho, alinhamento, r),
        0 <= j < s.len(),
        e % alinhamento as int == 0,
        s[j].inicio <= e < s[j].inicio + alinhamento,
        e + tamanho <= s[j].inicio + s[j].tamanho,
        e == s[j].inicio || e - s[j].inicio >= 16,
        e + tamanho == s[j].inicio + s[j].tamanho || s[j].inicio + s[j].tamanho - (e + tamanho) >= 16,
    ensures
        r is Some,
        r->0 <= e,
        r->0 % alinhamento == 0,
        exists|k: int|
            0 <= k <= j && (#[trigger] s[k]).inicio <= r->0 && r->0 + tamanho <= s[k].inicio
                + s[k].tamanho,
{
    let a = alinhamento as int;
    lemma_alinhado(s[j].inicio as int, a);
    lemma_multiplo_unico(e, alinhado(s[j].inicio as int, a), a);
    assert(serve(s[j], tamanho, alinhamento));
    let x = r->0;
    let k = choose|k: int|
        {
            &&& #[trigger] primeiro_que_serve(s, tamanho, alinhamento, k)
            &&& x == alinhado(s[k].inicio as int, alinhamento as int)
            &&& t == s.take(k) + sobras(s[k], x as int, x + tamanho) + s.skip(k + 1)
        };
    lemma_alinhado(s[k].inicio as int, a);
    assert(k <= j);
    if k < j {
        assert(s[k].fim() < s[j].inicio);
    }
}

/// A block that is given back is joined with those it touches: no two blocks of
/// the list ever touch, and the free addresses are those that were free and those
/// of the block.
pub proof fn lei_blocos_que_se_tocam_se_juntam(s: Seq<No>, b: No, x: int)
    requires
        lista_valida(s),
        b.tamanho >= 16,
        b.inicio % 8 == 0,
        b.inicio + b.tamanho <= usize::MAX,
        forall|i: int|
            0 <= i < s.len() ==> b.inicio + b.tamanho <= (#[trigger] s[i]).inicio || s[i].inicio
                + s[i].tamanho <= b.inicio,
    ensures
        forall|i: int, j: int|
            0 <= i < j < inserido(s, b).len() ==> (#[trigger] inserido(s, b)[i]).inicio + inserido(
                s,
                b,
            )[i].tamanho < (#[trigger] inserido(s, b)[j]).inicio,
        (exists|i: int|
            0 <= i < inserido(s, b).len() && (#[trigger] inserido(s, b)[i]).inicio <= x < inserido(
                s,
                b,
            )[i].inicio + inserido(s, b)[i].tamanho) <==> (b.inicio <= x < b.inicio + b.tamanho
            || exists|i: int|
            0 <= i < s.len() && (#[trigger] s[i]).inicio <= x < s[i].inicio + s[i].tamanho),
{
    assert forall|i: int| 0 <= i < s.len() implies 0 <= (#[trigger] s[i]).inicio && s[i].fim()
        <= usize::MAX by {
        assert(s[i].valido());
    }
    lei_inserir_acrescenta(s, b, 0, usize::MAX as int);
    let n = inserido(s, b);
    assert forall|i: int, j: int| 0 <= i < j < n.len() implies (#[trigger] n[i]).inicio + n[i].tamanho
        < (#[trigger] n[j]).inicio by {
        assert(n[i].fim() < n[j].inicio);
    }
    assert(contem(n, x) <==> contem(s, x) || b.inicio <= x < b.fim());
    assert(contem(n, x) <==> exists|i: int|
        0 <= i < n.len() && (#[trigger] n[i]).inicio <= x < n[i].inicio + n[i].tamanho) by {
        if contem(n, x) {
            let i = choose|i: int| 0 <= i < n.len() && (#[trigger] n[i]).inicio <= x < n[i].fim();
            assert(n[i].inicio <= x < n[i].inicio + n[i].tamanho);
        }
    }
    assert(contem(s, x) <==> exists|i: int|
        0 <= i < s.len() && (#[trigger] s[i]).inicio <= x < s[i].inicio + s[i].tamanho) by {
        if contem(s, x) {
            let i = choose|i: int| 0 <= i < s.len() && (#[trigger] s[i]).inicio <= x < s[i].fim();
            assert(s[i].inicio <= x < s[i].inicio + s[i].tamanho);
        }
    }
}

/// The largest block is one of the blocks, and none is larger; each block counts
/// once, and whole, in the sum.
pub proof fn lei_contas_dos_blocos(s: Seq<No>, b: No, i: int)
    ensures
        soma(Seq::empty()) == 0,
        soma(s.push(b)) == soma(s) + b.tamanho,
        0 <= i < s.len() ==> s[i].tamanho <= maior(s),
        s.len() > 0 ==> exists|k: int| 0 <= k < s.len() && (#[trigger] s[k]).tamanho == maior(s),
        s.len() == 0 ==> maior(s) == 0,
        PAGINAS_DO_HEAP == 256,
        HEAP_TAMANHO == 256 * 4096,
    decreases s.len(),
{
    assert(s.push(b).drop_last() =~= s);
    if s.len() > 0 {
        let resto = s.drop_last();
        if i < s.len() - 1 {
            lei_contas_dos_blocos(resto, b, i);
        }
        lei_contas_dos_blocos(resto, b, 0);
        if s.last().tamanho > maior(resto) || resto.len() == 0 {
            assert(s[s.len() - 1].tamanho == maior(s) || s.last().tamanho == 0);
        } else {
            let k = choose|k: int| 0 <= k < resto.len() && (#[trigger] resto[k]).tamanho == maior(resto);
            assert(s[k].tamanho == maior(s));
        }
    }
}

/// Where some block serves a request, the first that does is there to serve it.
pub proof fn lei_ha_bloco(s: Seq<No>, tamanho: usize, alinhamento: usize, j: int)
    requires
        0 <= j < s.len(),
        serve(s[j], tamanho, alinhamento),
    ensures
        exists|k: int| k <= j && #[trigger] primeiro_que_serve(s, tamanho, alinhamento, k),
    decreases j,
{
    if exists|i: int| 0 <= i < j && serve(#[trigger] s[i], tamanho, alinhamento) {
        let i = choose|i: int| 0 <= i < j && serve(#[trigger] s[i], tamanho, alinhamento);
        lei_ha_bloco(s, tamanho, alinhamento, i);
        let k = choose|k: int| k <= i && #[trigger] primeiro_que_serve(s, tamanho, alinhamento, k);
        assert(k <= j && primeiro_que_serve(s, tamanho, alinhamento, k));
    } else {
        assert(primeiro_que_serve(s, tamanho, alinhamento, j));
    }
}

} // verus!
