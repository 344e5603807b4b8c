//! Translation tables of the aarch64: three levels of 512 descriptors.
//!
//! The tables live in physical memory, in frames of the allocator. Everything
//! here reads and writes them there; installing a root in the processor and
//! invalidating its caches is left to the caller.
use vstd::prelude::*;

use crate::arch::memoria::{Memoria, ENTRADAS};
use crate::arch::Permissoes;
use crate::frames::Alocador;
use crate::machine::{Maquina, Regiao, TipoRegiao};
use crate::paginacao::Tradutor;

verus! {

/// First address beyond the configured virtual space: 39 bits.
pub const LIMITE_VIRTUAL: u64 = 0x80_0000_0000;

/// First physical address a descriptor cannot hold: 48 bits.
pub const LIMITE_FISICO: u64 = 0x1_0000_0000_0000;

/// The address bits of a descriptor.
pub const MASCARA_ENDERECO: u64 = 0x0000_FFFF_FFFF_F000;

/// The descriptor means something.
pub const VALIDO: u64 = 1;

/// With [`VALIDO`]: a table in the upper levels, a page in the last. Without
/// this bit the upper levels hold a block.
pub const TABELA: u64 = 2;

/// Memory attribute: normal, cacheable. Its absence is device memory.
pub const ATTR_NORMAL: u64 = 4;

/// Reachable without privilege.
pub const AP_USUARIO: u64 = 0x40;

/// Read only.
pub const AP_SOMENTE_LEITURA: u64 = 0x80;

/// Inner shareable.
pub const SH_INTERNO: u64 = 0x300;

/// Access flag: without it every access faults.
pub const AF: u64 = 0x400;

/// Never executable with privilege.
pub const PXN: u64 = 0x20_0000_0000_0000;

/// Never executable without privilege.
pub const UXN: u64 = 0x40_0000_0000_0000;

/// The descriptor is valid.
pub open spec fn valido(d: u64) -> bool {
    d & VALIDO != 0
}

/// The descriptor points to a table, or is a page in the last level.
pub open spec fn e_tabela(d: u64) -> bool {
    d & VALIDO != 0 && d & TABELA != 0
}

/// The address a descriptor holds.
pub open spec fn alvo(d: u64) -> int {
    (d & MASCARA_ENDERECO) as int
}

/// The descriptor of a table.
pub open spec fn descritor_de_tabela(endereco: u64) -> u64 {
    (endereco & MASCARA_ENDERECO) | VALIDO | TABELA
}

/// The attribute bits of a page.
pub open spec fn bits_spec(p: Permissoes) -> u64 {
    let memoria = if p.dispositivo {
        0u64
    } else {
        ATTR_NORMAL | SH_INTERNO
    };
    let escrita = if p.escrita {
        0u64
    } else {
        AP_SOMENTE_LEITURA
    };
    let execucao = if p.usuario {
        if p.executavel {
            AP_USUARIO | PXN
        } else {
            AP_USUARIO | PXN | UXN
        }
    } else {
        if p.executavel {
            UXN
        } else {
            UXN | PXN
        }
    };
    memoria | escrita | execucao | AF
}

/// The descriptor of a page.
pub open spec fn descritor_de_pagina(fisico: u64, p: Permissoes) -> u64 {
    (fisico & MASCARA_ENDERECO) | VALIDO | TABELA | bits_spec(p)
}

/// What a page's descriptor allows.
pub open spec fn permissoes_spec(d: u64) -> Permissoes {
    Permissoes {
        escrita: d & AP_SOMENTE_LEITURA == 0,
        executavel: d & UXN == 0,
        dispositivo: d & ATTR_NORMAL == 0,
        usuario: d & AP_USUARIO != 0,
    }
}

/// What a page's descriptor allows at the privilege it is meant for: the
/// user's pages to the user, the kernel's to the kernel.
pub open spec fn efetivas(d: u64) -> Permissoes {
    Permissoes {
        executavel: if d & AP_USUARIO != 0 {
            d & UXN == 0
        } else {
            d & PXN == 0
        },
        ..permissoes_spec(d)
    }
}

/// The three table indices of a virtual address.
pub open spec fn i1(v: u64) -> int {
    (v as int / 0x4000_0000) % 512
}

pub open spec fn i2(v: u64) -> int {
    (v as int / 0x20_0000) % 512
}

pub open spec fn i3(v: u64) -> int {
    (v as int / 0x1000) % 512
}

proof fn lemma_tabela(f: u64)
    by (bit_vector)
    requires
        f % 4096 == 0,
        f < 0x1_0000_0000_0000u64,
    ensures
        (f & 0x0000_FFFF_FFFF_F000u64) == f,
        ((f & 0x0000_FFFF_FFFF_F000u64) | 1 | 2) & 1 != 0,
        ((f & 0x0000_FFFF_FFFF_F000u64) | 1 | 2) & 2 != 0,
        ((f & 0x0000_FFFF_FFFF_F000u64) | 1 | 2) & 0x0000_FFFF_FFFF_F000u64 == f,
{
}

proof fn lemma_pagina(f: u64, escrita: bool, executavel: bool, dispositivo: bool, usuario: bool)
    requires
        f % 4096 == 0,
        f < LIMITE_FISICO,
    ensures
        ({
            let p = Permissoes { escrita, executavel, dispositivo, usuario };
            let d = descritor_de_pagina(f, p);
            &&& valido(d)
            &&& e_tabela(d)
            &&& alvo(d) == f
            &&& p.usuario || !p.executavel ==> permissoes_spec(d) == p
            &&& efetivas(d) == p
        }),
{
    let p = Permissoes { escrita, executavel, dispositivo, usuario };
    let b = bits_spec(p);
    assert(b & 0x0000_FFFF_FFFF_F003u64 == 0 && (b & 0x80 == 0) == escrita && (b
        & 0x40_0000_0000_0000u64 == 0) == (usuario && executavel) && (b & 0x20_0000_0000_0000u64
        == 0) == (!usuario && executavel) && (b & 4 == 0) == dispositivo && (b & 0x40 != 0)
        == usuario) by {
        lemma_bits(escrita, executavel, dispositivo, usuario);
    }
    lemma_composicao(f, b);
}

proof fn lemma_composicao(f: u64, b: u64)
    by (bit_vector)
    requires
        f % 4096 == 0,
        f < 0x1_0000_0000_0000u64,
        b & 0x0000_FFFF_FFFF_F003u64 == 0,
    ensures
        ((f & 0x0000_FFFF_FFFF_F000u64) | 1 | 2 | b) & 1 != 0,
        ((f & 0x0000_FFFF_FFFF_F000u64) | 1 | 2 | b) & 2 != 0,
        ((f & 0x0000_FFFF_FFFF_F000u64) | 1 | 2 | b) & 0x0000_FFFF_FFFF_F000u64 == f,
        ((f & 0x0000_FFFF_FFFF_F000u64) | 1 | 2 | b) & 4 == b & 4,
        ((f & 0x0000_FFFF_FFFF_F000u64) | 1 | 2 | b) & 0x40 == b & 0x40,
        ((f & 0x0000_FFFF_FFFF_F000u64) | 1 | 2 | b) & 0x80 == b & 0x80,
        ((f & 0x0000_FFFF_FFFF_F000u64) | 1 | 2 | b) & 0x40_0000_0000_0000u64 == b
            & 0x40_0000_0000_0000u64,
        ((f & 0x0000_FFFF_FFFF_F000u64) | 1 | 2 | b) & 0x20_0000_0000_0000u64 == b
            & 0x20_0000_0000_0000u64,
{
}

proof fn lemma_bits(escrita: bool, executavel: bool, dispositivo: bool, usuario: bool)
    ensures
        ({
            let b = bits_spec(Permissoes { escrita, executavel, dispositivo, usuario });
            &&& b & 0x0000_FFFF_FFFF_F003u64 == 0
            &&& (b & 0x80 == 0) == escrita
            &&& (b & 0x40_0000_0000_0000u64 == 0) == (usuario && executavel)
            &&& (b & 0x20_0000_0000_0000u64 == 0) == (!usuario && executavel)
            &&& (b & 4 == 0) == dispositivo
            &&& (b & 0x40 != 0) == usuario
        }),
{
    let m: u64 = if dispositivo {
        0
    } else {
        0x304
    };
    let e: u64 = if escrita {
        0
    } else {
        0x80
    };
    let x: u64 = if usuario {
        if executavel {
            0x20_0000_0000_0040
        } else {
            0x60_0000_0000_0040
        }
    } else {
        if executavel {
            0x40_0000_0000_0000
        } else {
            0x60_0000_0000_0000
        }
    };
    assert(4u64 | 0x300u64 == 0x304u64) by (bit_vector);
    assert(0x40u64 | 0x20_0000_0000_0000u64 == 0x20_0000_0000_0040u64 && 0x40u64
        | 0x20_0000_0000_0000u64 | 0x40_0000_0000_0000u64 == 0x60_0000_0000_0040u64
        && 0x40_0000_0000_0000u64 | 0x20_0000_0000_0000u64 == 0x60_0000_0000_0000u64) by (bit_vector);
    assert(bits_spec(Permissoes { escrita, executavel, dispositivo, usuario }) == m | e | x | 0x400);
    lemma_uniao(m, e, x);
}

proof fn lemma_uniao(m: u64, e: u64, x: u64)
    by (bit_vector)
    requires
        m == 0 || m == 0x304,
        e == 0 || e == 0x80,
        x == 0x20_0000_0000_0040u64 || x == 0x60_0000_0000_0040u64 || x == 0x40_0000_0000_0000u64 || x
            == 0x60_0000_0000_0000u64,
    ensures
        (m | e | x | 0x400) & 0x0000_FFFF_FFFF_F003u64 == 0,
        ((m | e | x | 0x400) & 0x80 == 0) == (e == 0),
        ((m | e | x | 0x400) & 0x40_0000_0000_0000u64 == 0) == (x == 0x20_0000_0000_0040u64),
        ((m | e | x | 0x400) & 0x20_0000_0000_0000u64 == 0) == (x == 0x40_0000_0000_0000u64),
        ((m | e | x | 0x400) & 4 == 0) == (m == 0),
        ((m | e | x | 0x400) & 0x40 != 0) == (x == 0x20_0000_0000_0040u64 || x
            == 0x60_0000_0000_0040u64),
{
}

proof fn lemma_nulo()
    by (bit_vector)
    ensures
        0u64 & 1 == 0,
        0u64 & 2 == 0,
{
}

/// A page's descriptor gives back the permissions it was made from. The one
/// exception is a privileged page that may be executed: its descriptor says
/// what the user may do, and the user may not.
pub proof fn lei_permissoes_voltam(fisico: u64, p: Permissoes)
    requires
        fisico % 4096 == 0,
        fisico < LIMITE_FISICO,
        p.usuario || !p.executavel,
    ensures
        permissoes_spec(descritor_de_pagina(fisico, p)) == p,
        alvo(descritor_de_pagina(fisico, p)) == fisico,
        e_tabela(descritor_de_pagina(fisico, p)),
{
    lemma_pagina(fisico, p.escrita, p.executavel, p.dispositivo, p.usuario);
}

/// The kernel never executes a page of a process, a process never executes or
/// touches a page of the kernel, and nobody executes a page that was not made
/// for it.
pub proof fn lei_privilegios_nao_se_misturam(fisico: u64, p: Permissoes)
    ensures
        p.usuario ==> descritor_de_pagina(fisico, p) & PXN != 0,
        !p.usuario ==> descritor_de_pagina(fisico, p) & UXN != 0,
        !p.usuario ==> descritor_de_pagina(fisico, p) & AP_USUARIO == 0,
        !p.executavel ==> descritor_de_pagina(fisico, p) & PXN != 0,
        !p.executavel ==> descritor_de_pagina(fisico, p) & UXN != 0,
{
    let d = descritor_de_pagina(fisico, p);
    let e = p.escrita;
    let x = p.executavel;
    let v = p.dispositivo;
    let u = p.usuario;
    assert((u || !x ==> d & 0x20_0000_0000_0000 != 0) && (!u || !x ==> d & 0x40_0000_0000_0000 != 0)
        && (!u ==> d & 0x40 == 0)) by (bit_vector)
        requires
            d == (fisico & 0x0000_FFFF_FFFF_F000) | 1 | 2 | ((if v {
                0u64
            } else {
                4u64 | 0x300
            }) | (if e {
                0u64
            } else {
                0x80u64
            }) | (if u {
                if x {
                    0x40u64 | 0x20_0000_0000_0000
                } else {
                    0x40u64 | 0x20_0000_0000_0000 | 0x40_0000_0000_0000
                }
            } else {
                if x {
                    0x40_0000_0000_0000u64
                } else {
                    0x40_0000_0000_0000u64 | 0x20_0000_0000_0000
                }
            }) | 0x400),
    ;
}

/// The table of level 2 under entry `a` of the root.
pub open spec fn nivel2(m: &Memoria, raiz: int, a: int) -> Option<int> {
    let d = m.quadro(raiz)[a];
    if e_tabela(d) {
        Some(alvo(d))
    } else {
        None
    }
}

/// The table of level 3 under entries `a` and `b`.
pub open spec fn nivel3(m: &Memoria, raiz: int, a: int, b: int) -> Option<int> {
    match nivel2(m, raiz, a) {
        Some(l2) => {
            let d = m.quadro(l2)[b];
            if e_tabela(d) {
                Some(alvo(d))
            } else {
                None
            }
        },
        None => None,
    }
}

/// An index into a table.
pub open spec fn indice(i: int) -> bool {
    0 <= i < ENTRADAS
}

/// The tables under a root are distinct frames of the memory.
pub open spec fn arvore(m: &Memoria, raiz: int) -> bool {
    &&& m.contem(raiz)
    &&& forall|a: int| #![trigger nivel2(m, raiz, a)]
        indice(a) ==> match nivel2(m, raiz, a) {
            Some(x) => m.contem(x) && x != raiz,
            None => true,
        }
    &&& forall|a: int, b: int| #![trigger nivel3(m, raiz, a, b)]
        indice(a) && indice(b) ==> match nivel3(m, raiz, a, b) {
            Some(x) => m.contem(x) && x != raiz,
            None => true,
        }
    &&& forall|a: int, c: int| #![trigger nivel2(m, raiz, a), nivel2(m, raiz, c)]
        indice(a) && indice(c) && a != c && nivel2(m, raiz, a) is Some ==> nivel2(m, raiz, a)
            != nivel2(m, raiz, c)
    &&& forall|a: int, b: int, c: int, d: int|
        #![trigger nivel3(m, raiz, a, b), nivel3(m, raiz, c, d)]
        indice(a) && indice(b) && indice(c) && indice(d) && (a != c || b != d) && nivel3(m, raiz, a, b)
            is Some ==> nivel3(m, raiz, a, b) != nivel3(m, raiz, c, d)
    &&& forall|a: int, c: int, d: int| #![trigger nivel2(m, raiz, a), nivel3(m, raiz, c, d)]
        indice(a) && indice(c) && indice(d) && nivel2(m, raiz, a) is Some ==> nivel2(m, raiz, a)
            != nivel3(m, raiz, c, d)
}

/// The frame holds one of the tables under a root.
pub open spec fn usado(m: &Memoria, raiz: int, e: int) -> bool {
    ||| e == raiz
    ||| exists|a: int| indice(a) && #[trigger] nivel2(m, raiz, a) == Some(e)
    ||| exists|a: int, b: int| indice(a) && indice(b) && #[trigger] nivel3(m, raiz, a, b) == Some(e)
}

/// What the tables say of a page.
pub enum Resolucao {
    /// No translation.
    Nada,
    /// A block of 1 GiB.
    Gigante(u64),
    /// A block of 2 MiB.
    Grande(u64),
    /// A page.
    Pagina(u64),
}

/// What the tables say of the page with these indices.
pub open spec fn resolvido(m: &Memoria, raiz: int, a: int, b: int, c: int) -> Resolucao {
    let e1 = m.quadro(raiz)[a];
    if !valido(e1) {
        Resolucao::Nada
    } else if !e_tabela(e1) {
        Resolucao::Gigante(e1)
    } else {
        let e2 = m.quadro(alvo(e1))[b];
        if !valido(e2) {
            Resolucao::Nada
        } else if !e_tabela(e2) {
            Resolucao::Grande(e2)
        } else {
            let e3 = m.quadro(alvo(e2))[c];
            if valido(e3) {
                Resolucao::Pagina(e3)
            } else {
                Resolucao::Nada
            }
        }
    }
}

/// The physical address of a virtual one.
pub open spec fn traduzido(m: &Memoria, raiz: int, v: u64) -> Option<u64> {
    if v >= LIMITE_VIRTUAL {
        None
    } else {
        match resolvido(m, raiz, i1(v), i2(v), i3(v)) {
            Resolucao::Nada => None,
            Resolucao::Gigante(d) => Some((d & MASCARA_ENDERECO) | (v & 0x3FFF_FFFF)),
            Resolucao::Grande(d) => Some((d & MASCARA_ENDERECO) | (v & 0x1F_FFFF)),
            Resolucao::Pagina(d) => Some((d & MASCARA_ENDERECO) | (v & 0xFFF)),
        }
    }
}

/// What a descriptor says beside its address and its kind.
pub open spec fn atributos(d: u64) -> u64 {
    d & !(MASCARA_ENDERECO | VALIDO | TABELA)
}

/// The attributes of the descriptor that translates an address.
pub open spec fn atributos_em(m: &Memoria, raiz: int, v: u64) -> Option<u64> {
    match resolvido(m, raiz, i1(v), i2(v), i3(v)) {
        Resolucao::Nada => None,
        Resolucao::Gigante(d) => Some(atributos(d)),
        Resolucao::Grande(d) => Some(atributos(d)),
        Resolucao::Pagina(d) => Some(atributos(d)),
    }
}

/// One word of one frame changed.
pub open spec fn escreveu(m: &Memoria, n: &Memoria, f: int, i: int, v: u64) -> bool {
    &&& n.mesma_faixa(m)
    &&& n.quadro(f) == m.quadro(f).update(i, v)
    &&& forall|o: int| o != f && m.contem(o) ==> #[trigger] n.quadro(o) == m.quadro(o)
}

/// Writing a descriptor of the last level changes that page and no other.
proof fn lemma_folha(m: &Memoria, n: &Memoria, raiz: int, a: int, b: int, c: int, v: u64)
    requires
        m.wf(),
        arvore(m, raiz),
        indice(a),
        indice(b),
        indice(c),
        nivel3(m, raiz, a, b) is Some,
        escreveu(m, n, nivel3(m, raiz, a, b)->0, c, v),
    ensures
        arvore(n, raiz),
        forall|x: int| #![trigger nivel2(n, raiz, x)] indice(x) ==> nivel2(n, raiz, x) == nivel2(
            m,
            raiz,
            x,
        ),
        forall|x: int, y: int| #![trigger nivel3(n, raiz, x, y)]
            indice(x) && indice(y) ==> nivel3(n, raiz, x, y) == nivel3(m, raiz, x, y),
        resolvido(n, raiz, a, b, c) == if valido(v) {
            Resolucao::Pagina(v)
        } else {
            Resolucao::Nada
        },
        forall|x: int, y: int, z: int| #![trigger resolvido(n, raiz, x, y, z)]
            indice(x) && indice(y) && indice(z) && (x != a || y != b || z != c) ==> resolvido(
                n,
                raiz,
                x,
                y,
                z,
            ) == resolvido(m, raiz, x, y, z),
{
    let l3 = nivel3(m, raiz, a, b)->0;
    let l2 = nivel2(m, raiz, a)->0;
    m.lemma_quadro(l3);
    assert(n.quadro(raiz) == m.quadro(raiz));
    assert forall|x: int| #![trigger nivel2(n, raiz, x)] indice(x) implies nivel2(n, raiz, x)
        == nivel2(m, raiz, x) by {}
    assert forall|x: int, y: int| #![trigger nivel3(n, raiz, x, y)] indice(x) && indice(y) implies nivel3(
        n,
        raiz,
        x,
        y,
    ) == nivel3(m, raiz, x, y) by {
        if let Some(t) = nivel2(m, raiz, x) {
            assert(nivel2(m, raiz, x) != nivel3(m, raiz, a, b));
            assert(n.quadro(t) == m.quadro(t));
        }
        assert(nivel2(n, raiz, x) == nivel2(m, raiz, x));
    }
    assert forall|x: int, y: int, z: int| #![trigger resolvido(n, raiz, x, y, z)]
        indice(x) && indice(y) && indice(z) && (x != a || y != b || z != c) implies resolvido(
        n,
        raiz,
        x,
        y,
        z,
    ) == resolvido(m, raiz, x, y, z) by {
        if let Some(t) = nivel2(m, raiz, x) {
            assert(nivel2(m, raiz, x) != nivel3(m, raiz, a, b));
            assert(n.quadro(t) == m.quadro(t));
            if let Some(u) = nivel3(m, raiz, x, y) {
                if x != a || y != b {
                    assert(nivel3(m, raiz, x, y) != nivel3(m, raiz, a, b));
                    assert(n.quadro(u) == m.quadro(u));
                }
            }
        }
    }
    assert(nivel2(n, raiz, a) == Some(l2));
    assert(nivel3(n, raiz, a, b) == Some(l3));
}

/// A cleared frame `f` became the table of entry `i` of the table `t`.
pub open spec fn instalou(m: &Memoria, n: &Memoria, t: int, i: int, f: u64) -> bool {
    &&& n.mesma_faixa(m)
    &&& n.quadro(f as int) == crate::arch::memoria::zerado()
    &&& n.quadro(t) == m.quadro(t).update(i, descritor_de_tabela(f))
    &&& forall|o: int| o != f && o != t && m.contem(o) ==> #[trigger] n.quadro(o) == m.quadro(o)
}

/// Every translation is the same.
pub open spec fn mesmas_traducoes(m: &Memoria, n: &Memoria, raiz: int) -> bool {
    forall|x: int, y: int, z: int| #![trigger resolvido(n, raiz, x, y, z)]
        indice(x) && indice(y) && indice(z) ==> resolvido(n, raiz, x, y, z) == resolvido(
            m,
            raiz,
            x,
            y,
            z,
        )
}

/// A new, empty table of level 2 changes no translation.
proof fn lemma_nova2(m: &Memoria, n: &Memoria, raiz: int, a: int, f: u64)
    requires
        m.wf(),
        arvore(m, raiz),
        indice(a),
        !valido(m.quadro(raiz)[a]),
        m.contem(f as int),
        !usado(m, raiz, f as int),
        f < LIMITE_FISICO,
        instalou(m, n, raiz, a, f),
    ensures
        arvore(n, raiz),
        mesmas_traducoes(m, n, raiz),
        nivel2(n, raiz, a) == Some(f as int),
        forall|y: int| #![trigger nivel3(n, raiz, a, y)] indice(y) ==> nivel3(n, raiz, a, y) is None,
        forall|x: int| #![trigger nivel2(n, raiz, x)]
            indice(x) && x != a ==> nivel2(n, raiz, x) == nivel2(m, raiz, x),
        forall|x: int, y: int| #![trigger nivel3(n, raiz, x, y)]
            indice(x) && indice(y) && x != a ==> nivel3(n, raiz, x, y) == nivel3(m, raiz, x, y),
        forall|y: int| #![trigger n.quadro(f as int)[y]] indice(y) ==> n.quadro(f as int)[y] == 0,
        forall|e: int| #[trigger] usado(n, raiz, e) ==> usado(m, raiz, e) || e == f,
        forall|e: int| #[trigger] usado(m, raiz, e) ==> usado(n, raiz, e),
{
    lemma_tabela(f);
    lemma_nulo();
    m.lemma_quadro(raiz);
    assert(alvo(n.quadro(raiz)[a]) == f);
    assert forall|x: int| #![trigger nivel2(n, raiz, x)] indice(x) && x != a implies nivel2(n, raiz, x)
        == nivel2(m, raiz, x) by {}
    assert forall|x: int, y: int| #![trigger nivel3(n, raiz, x, y)]
        indice(x) && indice(y) && x != a implies nivel3(n, raiz, x, y) == nivel3(m, raiz, x, y) by {
        assert(nivel2(n, raiz, x) == nivel2(m, raiz, x));
        if let Some(t) = nivel2(m, raiz, x) {
            assert(t != f);
            assert(n.quadro(t) == m.quadro(t));
        }
    }
    assert forall|y: int| #![trigger nivel3(n, raiz, a, y)] indice(y) implies nivel3(n, raiz, a, y) is None by {
        assert(nivel2(n, raiz, a) == Some(f as int));
        assert(n.quadro(f as int)[y] == 0);
    }
    assert forall|x: int, y: int, z: int| #![trigger resolvido(n, raiz, x, y, z)]
        indice(x) && indice(y) && indice(z) implies resolvido(n, raiz, x, y, z) == resolvido(
        m,
        raiz,
        x,
        y,
        z,
    ) by {
        if x == a {
            assert(n.quadro(f as int)[y] == 0);
        } else if let Some(t) = nivel2(m, raiz, x) {
            assert(t != f);
            assert(n.quadro(t) == m.quadro(t));
            if let Some(u) = nivel3(m, raiz, x, y) {
                assert(u != f);
                assert(n.quadro(u) == m.quadro(u));
            }
        }
    }
    assert forall|e: int| #[trigger] usado(n, raiz, e) implies usado(m, raiz, e) || e == f by {
        if e != raiz && e != f {
            if exists|x: int| indice(x) && #[trigger] nivel2(n, raiz, x) == Some(e) {
                let x = choose|x: int| indice(x) && #[trigger] nivel2(n, raiz, x) == Some(e);
                assert(nivel2(m, raiz, x) == Some(e));
            } else {
                let (x, y) = choose|x: int, y: int|
                    indice(x) && indice(y) && #[trigger] nivel3(n, raiz, x, y) == Some(e);
                assert(nivel3(m, raiz, x, y) == Some(e));
            }
        }
    }
    assert forall|x: int| indice(x) && (#[trigger] nivel2(m, raiz, x)) is Some implies nivel2(n, raiz, x)
        == nivel2(m, raiz, x) by {
        assert(nivel2(n, raiz, x) is Some);
    }
    assert forall|x: int, y: int| indice(x) && indice(y) && (#[trigger] nivel3(m, raiz, x, y)) is Some implies nivel3(
        n,
        raiz,
        x,
        y,
    ) == nivel3(m, raiz, x, y) by {
        assert(nivel3(n, raiz, x, y) == nivel3(m, raiz, x, y));
    }
    lemma_usado_cresce(m, n, raiz);
    lemma_arvore_nova2(m, n, raiz, a, f);
}

proof fn lemma_arvore_nova2(m: &Memoria, n: &Memoria, raiz: int, a: int, f: u64)
    requires
        arvore(m, raiz),
        indice(a),
        m.contem(f as int),
        n.mesma_faixa(m),
        !usado(m, raiz, f as int),
        nivel2(n, raiz, a) == Some(f as int),
        forall|y: int| #![trigger nivel3(n, raiz, a, y)] indice(y) ==> nivel3(n, raiz, a, y) is None,
        forall|x: int| #![trigger nivel2(n, raiz, x)]
            indice(x) && x != a ==> nivel2(n, raiz, x) == nivel2(m, raiz, x),
        forall|x: int, y: int| #![trigger nivel3(n, raiz, x, y)]
            indice(x) && indice(y) && x != a ==> nivel3(n, raiz, x, y) == nivel3(m, raiz, x, y),
    ensures
        arvore(n, raiz),
{
    assert forall|x: int, c: int| #![trigger nivel2(n, raiz, x), nivel2(n, raiz, c)]
        indice(x) && indice(c) && x != c && nivel2(n, raiz, x) is Some implies nivel2(n, raiz, x)
        != nivel2(n, raiz, c) by {
        if x != a && c != a {
            assert(nivel2(m, raiz, x) != nivel2(m, raiz, c));
        } else if x == a {
            assert(nivel2(n, raiz, c) == nivel2(m, raiz, c));
        } else {
            assert(nivel2(n, raiz, x) == nivel2(m, raiz, x));
        }
    }
    assert forall|x: int, c: int, d: int| #![trigger nivel2(n, raiz, x), nivel3(n, raiz, c, d)]
        indice(x) && indice(c) && indice(d) && nivel2(n, raiz, x) is Some implies nivel2(n, raiz, x)
        != nivel3(n, raiz, c, d) by {
        if c != a {
            assert(nivel3(n, raiz, c, d) == nivel3(m, raiz, c, d));
            if x != a {
                assert(nivel2(m, raiz, x) != nivel3(m, raiz, c, d));
            }
        }
    }
    assert forall|x: int, b: int, c: int, d: int|
        #![trigger nivel3(n, raiz, x, b), nivel3(n, raiz, c, d)]
        indice(x) && indice(b) && indice(c) && indice(d) && (x != c || b != d) && nivel3(n, raiz, x, b)
            is Some implies nivel3(n, raiz, x, b) != nivel3(n, raiz, c, d) by {
        if x != a && c != a {
            assert(nivel3(m, raiz, x, b) != nivel3(m, raiz, c, d));
        }
    }
}

/// A new, empty table of level 3 changes no translation.
proof fn lemma_nova3(m: &Memoria, n: &Memoria, raiz: int, a: int, b: int, f: u64)
    requires
        m.wf(),
        arvore(m, raiz),
        indice(a),
        indice(b),
        nivel2(m, raiz, a) is Some,
        !valido(m.quadro(nivel2(m, raiz, a)->0)[b]),
        m.contem(f as int),
        !usado(m, raiz, f as int),
        f < LIMITE_FISICO,
        instalou(m, n, nivel2(m, raiz, a)->0, b, f),
    ensures
        arvore(n, raiz),
        mesmas_traducoes(m, n, raiz),
        forall|x: int| #![trigger nivel2(n, raiz, x)]
            indice(x) ==> nivel2(n, raiz, x) == nivel2(m, raiz, x),
        nivel3(n, raiz, a, b) == Some(f as int),
        forall|x: int, y: int| #![trigger nivel3(n, raiz, x, y)]
            indice(x) && indice(y) && (x != a || y != b) ==> nivel3(n, raiz, x, y) == nivel3(
                m,
                raiz,
                x,
                y,
            ),
        forall|e: int| #[trigger] usado(n, raiz, e) ==> usado(m, raiz, e) || e == f,
        forall|e: int| #[trigger] usado(m, raiz, e) ==> usado(n, raiz, e),
{
    let l2 = nivel2(m, raiz, a)->0;
    lemma_tabela(f);
    lemma_nulo();
    m.lemma_quadro(l2);
    assert(f != raiz);
    assert(l2 != f);
    assert(n.quadro(raiz) == m.quadro(raiz));
    assert(alvo(n.quadro(l2)[b]) == f);
    assert forall|x: int| #![trigger nivel2(n, raiz, x)] indice(x) implies nivel2(n, raiz, x)
        == nivel2(m, raiz, x) by {}
    assert forall|x: int, y: int| #![trigger nivel3(n, raiz, x, y)]
        indice(x) && indice(y) && (x != a || y != b) implies nivel3(n, raiz, x, y) == nivel3(
        m,
        raiz,
        x,
        y,
    ) by {
        assert(nivel2(n, raiz, x) == nivel2(m, raiz, x));
        if x != a {
            if let Some(t) = nivel2(m, raiz, x) {
                assert(nivel2(m, raiz, x) != nivel2(m, raiz, a));
                assert(t != f);
                assert(n.quadro(t) == m.quadro(t));
            }
        }
    }
    assert(nivel2(n, raiz, a) == Some(l2));
    assert(nivel3(n, raiz, a, b) == Some(f as int));
    assert forall|x: int, y: int, z: int| #![trigger resolvido(n, raiz, x, y, z)]
        indice(x) && indice(y) && indice(z) implies resolvido(n, raiz, x, y, z) == resolvido(
        m,
        raiz,
        x,
        y,
        z,
    ) by {
        if let Some(t) = nivel2(m, raiz, x) {
            assert(t != f);
            if x != a {
                assert(nivel2(m, raiz, x) != nivel2(m, raiz, a));
                assert(n.quadro(t) == m.quadro(t));
            }
            if x == a && y == b {
                assert(n.quadro(f as int)[z] == 0);
            } else if let Some(u) = nivel3(m, raiz, x, y) {
                assert(u != f);
                assert(nivel2(m, raiz, a) != nivel3(m, raiz, x, y));
                assert(n.quadro(u) == m.quadro(u));
            }
        }
    }
    assert forall|e: int| #[trigger] usado(n, raiz, e) implies usado(m, raiz, e) || e == f by {
        if e != raiz && e != f {
            if exists|x: int| indice(x) && #[trigger] nivel2(n, raiz, x) == Some(e) {
                let x = choose|x: int| indice(x) && #[trigger] nivel2(n, raiz, x) == Some(e);
                assert(nivel2(m, raiz, x) == Some(e));
            } else {
                let (x, y) = choose|x: int, y: int|
                    indice(x) && indice(y) && #[trigger] nivel3(n, raiz, x, y) == Some(e);
                assert(nivel3(m, raiz, x, y) == Some(e));
            }
        }
    }
    assert forall|x: int| indice(x) && (#[trigger] nivel2(m, raiz, x)) is Some implies nivel2(n, raiz, x)
        == nivel2(m, raiz, x) by {
        assert(nivel2(n, raiz, x) is Some);
    }
    assert forall|x: int, y: int| indice(x) && indice(y) && (#[trigger] nivel3(m, raiz, x, y)) is Some implies nivel3(
        n,
        raiz,
        x,
        y,
    ) == nivel3(m, raiz, x, y) by {
        assert(nivel3(n, raiz, x, y) == nivel3(m, raiz, x, y));
    }
    lemma_usado_cresce(m, n, raiz);
    lemma_arvore_nova3(m, n, raiz, a, b, f);
}

proof fn lemma_arvore_nova3(m: &Memoria, n: &Memoria, raiz: int, a: int, b: int, f: u64)
    requires
        arvore(m, raiz),
        indice(a),
        indice(b),
        m.contem(f as int),
        n.mesma_faixa(m),
        !usado(m, raiz, f as int),
        nivel3(n, raiz, a, b) == Some(f as int),
        forall|x: int| #![trigger nivel2(n, raiz, x)]
            indice(x) ==> nivel2(n, raiz, x) == nivel2(m, raiz, x),
        forall|x: int, y: int| #![trigger nivel3(n, raiz, x, y)]
            indice(x) && indice(y) && (x != a || y != b) ==> nivel3(n, raiz, x, y) == nivel3(
                m,
                raiz,
                x,
                y,
            ),
    ensures
        arvore(n, raiz),
{
    assert forall|x: int, c: int| #![trigger nivel2(n, raiz, x), nivel2(n, raiz, c)]
        indice(x) && indice(c) && x != c && nivel2(n, raiz, x) is Some implies nivel2(n, raiz, x)
        != nivel2(n, raiz, c) by {
        assert(nivel2(m, raiz, x) != nivel2(m, raiz, c));
    }
    assert forall|x: int, c: int, d: int| #![trigger nivel2(n, raiz, x), nivel3(n, raiz, c, d)]
        indice(x) && indice(c) && indice(d) && nivel2(n, raiz, x) is Some implies nivel2(n, raiz, x)
        != nivel3(n, raiz, c, d) by {
        assert(nivel2(n, raiz, x) == nivel2(m, raiz, x));
        if c != a || d != b {
            assert(nivel2(m, raiz, x) != nivel3(m, raiz, c, d));
        }
    }
    assert forall|x: int, y: int, c: int, d: int|
        #![trigger nivel3(n, raiz, x, y), nivel3(n, raiz, c, d)]
        indice(x) && indice(y) && indice(c) && indice(d) && (x != c || y != d) && nivel3(n, raiz, x, y)
            is Some implies nivel3(n, raiz, x, y) != nivel3(n, raiz, c, d) by {
        if x == a && y == b {
            assert(nivel3(n, raiz, c, d) == nivel3(m, raiz, c, d));
        } else if c == a && d == b {
            assert(nivel3(n, raiz, x, y) == nivel3(m, raiz, x, y));
        } else {
            assert(nivel3(m, raiz, x, y) != nivel3(m, raiz, c, d));
        }
    }
}

/// A table with no entry left leaves level 2 without a translation changing.
proof fn lemma_retira3(m: &Memoria, n: &Memoria, raiz: int, a: int, b: int)
    requires
        m.wf(),
        arvore(m, raiz),
        indice(a),
        indice(b),
        nivel3(m, raiz, a, b) is Some,
        m.quadro(nivel3(m, raiz, a, b)->0) == crate::arch::memoria::zerado(),
        escreveu(m, n, nivel2(m, raiz, a)->0, b, 0),
    ensures
        arvore(n, raiz),
        mesmas_traducoes(m, n, raiz),
        forall|x: int| #![trigger nivel2(n, raiz, x)]
            indice(x) ==> nivel2(n, raiz, x) == nivel2(m, raiz, x),
        nivel3(n, raiz, a, b) is None,
        forall|x: int, y: int| #![trigger nivel3(n, raiz, x, y)]
            indice(x) && indice(y) && (x != a || y != b) ==> nivel3(n, raiz, x, y) == nivel3(
                m,
                raiz,
                x,
                y,
            ),
        forall|e: int| #[trigger] usado(n, raiz, e) ==> usado(m, raiz, e) && e != nivel3(
            m,
            raiz,
            a,
            b,
        )->0,
        forall|e: int| #[trigger] usado(m, raiz, e) ==> usado(n, raiz, e) || e == nivel3(m, raiz, a, b)->0,
{
    let l2 = nivel2(m, raiz, a)->0;
    let l3 = nivel3(m, raiz, a, b)->0;
    lemma_nulo();
    m.lemma_quadro(l2);
    assert(n.quadro(raiz) == m.quadro(raiz));
    assert forall|x: int| #![trigger nivel2(n, raiz, x)] indice(x) implies nivel2(n, raiz, x)
        == nivel2(m, raiz, x) by {}
    assert(nivel2(n, raiz, a) == Some(l2));
    assert(nivel3(n, raiz, a, b) is None);
    assert forall|x: int, y: int| #![trigger nivel3(n, raiz, x, y)]
        indice(x) && indice(y) && (x != a || y != b) implies nivel3(n, raiz, x, y) == nivel3(
        m,
        raiz,
        x,
        y,
    ) by {
        assert(nivel2(n, raiz, x) == nivel2(m, raiz, x));
        if x != a {
            if let Some(t) = nivel2(m, raiz, x) {
                assert(nivel2(m, raiz, x) != nivel2(m, raiz, a));
                assert(n.quadro(t) == m.quadro(t));
            }
        }
    }
    assert forall|x: int, y: int, z: int| #![trigger resolvido(n, raiz, x, y, z)]
        indice(x) && indice(y) && indice(z) implies resolvido(n, raiz, x, y, z) == resolvido(
        m,
        raiz,
        x,
        y,
        z,
    ) by {
        if let Some(t) = nivel2(m, raiz, x) {
            if x != a {
                assert(nivel2(m, raiz, x) != nivel2(m, raiz, a));
                assert(n.quadro(t) == m.quadro(t));
            }
            if x == a && y == b {
                assert(m.quadro(l3)[z] == 0);
            } else if let Some(u) = nivel3(m, raiz, x, y) {
                assert(nivel2(m, raiz, a) != nivel3(m, raiz, x, y));
                assert(n.quadro(u) == m.quadro(u));
            }
        }
    }
    assert forall|e: int| #[trigger] usado(m, raiz, e) implies usado(n, raiz, e) || e == l3 by {
        if e != raiz && e != l3 {
            if exists|x: int| indice(x) && #[trigger] nivel2(m, raiz, x) == Some(e) {
                let x = choose|x: int| indice(x) && #[trigger] nivel2(m, raiz, x) == Some(e);
                assert(nivel2(n, raiz, x) == Some(e));
            } else {
                let (x, y) = choose|x: int, y: int|
                    indice(x) && indice(y) && #[trigger] nivel3(m, raiz, x, y) == Some(e);
                assert(nivel3(n, raiz, x, y) == Some(e));
            }
        }
    }
    assert forall|e: int| #[trigger] usado(n, raiz, e) implies usado(m, raiz, e) && e != l3 by {
        assert(l3 != raiz);
        if e != raiz {
            if exists|x: int| indice(x) && #[trigger] nivel2(n, raiz, x) == Some(e) {
                let x = choose|x: int| indice(x) && #[trigger] nivel2(n, raiz, x) == Some(e);
                assert(nivel2(m, raiz, x) == Some(e));
                assert(nivel2(m, raiz, x) != nivel3(m, raiz, a, b));
            } else {
                let (x, y) = choose|x: int, y: int|
                    indice(x) && indice(y) && #[trigger] nivel3(n, raiz, x, y) == Some(e);
                assert(nivel3(m, raiz, x, y) == Some(e));
                assert(nivel3(m, raiz, x, y) != nivel3(m, raiz, a, b));
            }
        }
    }
    lemma_arvore_menor(m, n, raiz);
}

/// A table with no entry left leaves the root without a translation changing.
proof fn lemma_retira2(m: &Memoria, n: &Memoria, raiz: int, a: int)
    requires
        m.wf(),
        arvore(m, raiz),
        indice(a),
        nivel2(m, raiz, a) is Some,
        m.quadro(nivel2(m, raiz, a)->0) == crate::arch::memoria::zerado(),
        escreveu(m, n, raiz, a, 0),
    ensures
        arvore(n, raiz),
        mesmas_traducoes(m, n, raiz),
        nivel2(n, raiz, a) is None,
        forall|x: int| #![trigger nivel2(n, raiz, x)]
            indice(x) && x != a ==> nivel2(n, raiz, x) == nivel2(m, raiz, x),
        forall|e: int| #[trigger] usado(n, raiz, e) ==> usado(m, raiz, e) && e != nivel2(
            m,
            raiz,
            a,
        )->0,
        forall|e: int| #[trigger] usado(m, raiz, e) ==> usado(n, raiz, e) || e == nivel2(m, raiz, a)->0,
{
    let l2 = nivel2(m, raiz, a)->0;
    lemma_nulo();
    m.lemma_quadro(raiz);
    assert(nivel2(n, raiz, a) is None);
    assert forall|x: int| #![trigger nivel2(n, raiz, x)] indice(x) && x != a implies nivel2(n, raiz, x)
        == nivel2(m, raiz, x) by {}
    assert forall|x: int, y: int| #![trigger nivel3(n, raiz, x, y)]
        indice(x) && indice(y) implies nivel3(n, raiz, x, y) == nivel3(m, raiz, x, y) by {
        if x == a {
            assert(nivel2(n, raiz, a) is None);
            assert(m.quadro(l2)[y] == 0);
        } else {
            assert(nivel2(n, raiz, x) == nivel2(m, raiz, x));
            if let Some(t) = nivel2(m, raiz, x) {
                assert(n.quadro(t) == m.quadro(t));
            }
        }
    }
    assert forall|x: int, y: int, z: int| #![trigger resolvido(n, raiz, x, y, z)]
        indice(x) && indice(y) && indice(z) implies resolvido(n, raiz, x, y, z) == resolvido(
        m,
        raiz,
        x,
        y,
        z,
    ) by {
        if x == a {
            assert(m.quadro(l2)[y] == 0);
        } else if let Some(t) = nivel2(m, raiz, x) {
            assert(n.quadro(t) == m.quadro(t));
            if let Some(u) = nivel3(m, raiz, x, y) {
                assert(n.quadro(u) == m.quadro(u));
            }
        }
    }
    assert forall|e: int| #[trigger] usado(m, raiz, e) implies usado(n, raiz, e) || e == l2 by {
        if e != raiz && e != l2 {
            if exists|x: int| indice(x) && #[trigger] nivel2(m, raiz, x) == Some(e) {
                let x = choose|x: int| indice(x) && #[trigger] nivel2(m, raiz, x) == Some(e);
                assert(nivel2(n, raiz, x) == Some(e));
            } else {
                let (x, y) = choose|x: int, y: int|
                    indice(x) && indice(y) && #[trigger] nivel3(m, raiz, x, y) == Some(e);
                assert(nivel3(n, raiz, x, y) == Some(e));
            }
        }
    }
    assert forall|e: int| #[trigger] usado(n, raiz, e) implies usado(m, raiz, e) && e != l2 by {
        assert(l2 != raiz);
        if e != raiz {
            if exists|x: int| indice(x) && #[trigger] nivel2(n, raiz, x) == Some(e) {
                let x = choose|x: int| indice(x) && #[trigger] nivel2(n, raiz, x) == Some(e);
                assert(x != a);
                assert(nivel2(m, raiz, x) == Some(e));
                assert(nivel2(m, raiz, x) != nivel2(m, raiz, a));
            } else {
                let (x, y) = choose|x: int, y: int|
                    indice(x) && indice(y) && #[trigger] nivel3(n, raiz, x, y) == Some(e);
                assert(nivel3(m, raiz, x, y) == Some(e));
                assert(nivel2(m, raiz, a) != nivel3(m, raiz, x, y));
            }
        }
    }
    lemma_arvore_menor(m, n, raiz);
}

/// A tree that lost tables and gained none is a tree.
proof fn lemma_arvore_menor(m: &Memoria, n: &Memoria, raiz: int)
    requires
        arvore(m, raiz),
        n.mesma_faixa(m),
        forall|x: int| #![trigger nivel2(n, raiz, x)]
            indice(x) && nivel2(n, raiz, x) is Some ==> nivel2(n, raiz, x) == nivel2(m, raiz, x),
        forall|x: int, y: int| #![trigger nivel3(n, raiz, x, y)]
            indice(x) && indice(y) && nivel3(n, raiz, x, y) is Some ==> nivel3(n, raiz, x, y)
                == nivel3(m, raiz, x, y),
    ensures
        arvore(n, raiz),
{
    assert forall|x: int, c: int| #![trigger nivel2(n, raiz, x), nivel2(n, raiz, c)]
        indice(x) && indice(c) && x != c && nivel2(n, raiz, x) is Some implies nivel2(n, raiz, x)
        != nivel2(n, raiz, c) by {
        assert(nivel2(m, raiz, x) != nivel2(m, raiz, c));
    }
    assert forall|x: int, c: int, d: int| #![trigger nivel2(n, raiz, x), nivel3(n, raiz, c, d)]
        indice(x) && indice(c) && indice(d) && nivel2(n, raiz, x) is Some implies nivel2(n, raiz, x)
        != nivel3(n, raiz, c, d) by {
        assert(nivel2(m, raiz, x) != nivel3(m, raiz, c, d));
    }
    assert forall|x: int, y: int, c: int, d: int|
        #![trigger nivel3(n, raiz, x, y), nivel3(n, raiz, c, d)]
        indice(x) && indice(y) && indice(c) && indice(d) && (x != c || y != d) && nivel3(n, raiz, x, y)
            is Some implies nivel3(n, raiz, x, y) != nivel3(n, raiz, c, d) by {
        assert(nivel3(m, raiz, x, y) != nivel3(m, raiz, c, d));
    }
}

/// Every free frame is memory, and no free frame holds a table of this root.
pub open spec fn livres_fora(m: &Memoria, raiz: int, a: &Alocador) -> bool {
    forall|e: u64| e % 4096 == 0 && #[trigger] a.livre_em(e) ==> m.contem(e as int) && !usado(
        m,
        raiz,
        e as int,
    )
}

/// Physical memory and the roots of translation.
pub struct Mmu {
    pub memoria: Memoria,
    /// The root in use.
    pub raiz: u64,
    /// The kernel's root, of which every other is a copy.
    pub raiz_do_kernel: u64,
    pub ativa: bool,
}

impl Mmu {
    /// The memory fits the descriptors; once active, the tables in use are a
    /// tree and none of them is free.
    pub open spec fn wf(&self, a: &Alocador) -> bool {
        &&& self.memoria.wf()
        &&& a.wf()
        &&& self.memoria.base() + self.memoria.quadros() * 4096 <= LIMITE_FISICO
        &&& forall|e: u64| e % 4096 == 0 && #[trigger] a.livre_em(e) ==> self.memoria.contem(e as int)
        &&& self.ativa ==> {
            &&& arvore(&self.memoria, self.raiz as int)
            &&& livres_fora(&self.memoria, self.raiz as int, a)
            &&& self.memoria.contem(self.raiz_do_kernel as int)
            &&& !a.livre_em(self.raiz_do_kernel)
            &&& self.raiz_do_kernel == self.raiz || !usado(
                &self.memoria,
                self.raiz as int,
                self.raiz_do_kernel as int,
            )
        }
    }

    /// The kernel's tables are a tree and none of them is free.
    pub open spec fn nucleo_wf(&self, a: &Alocador) -> bool {
        &&& arvore(&self.memoria, self.raiz_do_kernel as int)
        &&& livres_fora(&self.memoria, self.raiz_do_kernel as int, a)
    }

    /// Why a mapping is not removed, or `None` where it is.
    pub open spec fn recusa_desmapear(&self, v: u64) -> Option<&'static str> {
        if !self.ativa {
            Some("mmu ainda nao inicializada")
        } else if v % 4096 != 0 {
            Some("endereco virtual desalinhado")
        } else if v >= LIMITE_VIRTUAL {
            Some("endereco virtual fora do espaco configurado")
        } else if nivel3(&self.memoria, self.raiz as int, i1(v), i2(v)) is None {
            Some("endereco nao mapeado em granularidade de pagina")
        } else if self.pagina(v) is Nada {
            Some("endereco nao estava mapeado")
        } else {
            None
        }
    }

    /// Removing the page of `v` leaves its table of level 3 empty, in a part of
    /// the space that is not shared.
    pub open spec fn esvazia3(&self, v: u64) -> bool {
        let l3 = nivel3(&self.memoria, self.raiz as int, i1(v), i2(v))->0;
        crate::arch::aarch64::privado(v) && self.memoria.quadro(l3).update(i3(v), 0)
            == crate::arch::memoria::zerado()
    }

    /// And then leaves its table of level 2 empty too.
    pub open spec fn esvazia2(&self, v: u64) -> bool {
        let l2 = nivel2(&self.memoria, self.raiz as int, i1(v))->0;
        self.esvazia3(v) && self.memoria.quadro(l2).update(i2(v), 0)
            == crate::arch::memoria::zerado()
    }

    /// What the active tables say of the page of an address.
    pub open spec fn pagina(&self, v: u64) -> Resolucao {
        resolvido(&self.memoria, self.raiz as int, i1(v), i2(v), i3(v))
    }

    /// How many tables are missing on the way to the page of an address.
    pub open spec fn faltam(&self, v: u64) -> int {
        if !valido(self.memoria.quadro(self.raiz as int)[i1(v)]) {
            2
        } else if nivel3(&self.memoria, self.raiz as int, i1(v), i2(v)) is Some {
            0
        } else {
            1
        }
    }

    /// Why a mapping is refused, or `None` where it is made.
    pub open spec fn recusa(&self, a: &Alocador, v: u64, f: u64) -> Option<&'static str> {
        if !self.ativa {
            Some("mmu ainda nao inicializada")
        } else if crate::arch::desalinhado(v, f) is Some {
            crate::arch::desalinhado(v, f)
        } else if v >= LIMITE_VIRTUAL {
            Some("endereco virtual fora do espaco configurado")
        } else if f >= LIMITE_FISICO {
            Some("endereco fisico fora da faixa de 48 bits")
        } else if self.pagina(v) is Gigante || self.pagina(v) is Grande {
            Some("bloco grande no caminho do mapeamento")
        } else if crate::frames::contar(a.livre()) < self.faltam(v) {
            Some("sem frames para tabela de pagina")
        } else if self.pagina(v) is Pagina {
            Some("endereco virtual ja mapeado")
        } else {
            None
        }
    }

    /// Same roots, same memory range.
    pub open spec fn mesmas_raizes(&self, outra: &Mmu) -> bool {
        &&& self.raiz == outra.raiz
        &&& self.raiz_do_kernel == outra.raiz_do_kernel
        &&& self.ativa == outra.ativa
        &&& self.memoria.mesma_faixa(&outra.memoria)
    }

    /// Every page but the one at `v` is translated as before.
    pub open spec fn so_muda(&self, outra: &Mmu, v: u64) -> bool {
        forall|x: int, y: int, z: int|
            #![trigger resolvido(&self.memoria, self.raiz as int, x, y, z)]
            indice(x) && indice(y) && indice(z) && (x != i1(v) || y != i2(v) || z != i3(v))
                ==> resolvido(&self.memoria, self.raiz as int, x, y, z) == resolvido(
                &outra.memoria,
                outra.raiz as int,
                x,
                y,
                z,
            )
    }

    /// Frames that held no table of the active root and were not free are
    /// untouched.
    pub open spec fn resto_intacto(&self, outra: &Mmu, a: &Alocador) -> bool {
        forall|o: u64|
            #![trigger self.memoria.quadro(o as int)]
            outra.memoria.contem(o as int) && (outra.ativa ==> !usado(
                &outra.memoria,
                outra.raiz as int,
                o as int,
            )) && !a.livre_em(o) ==> self.memoria.quadro(o as int) == outra.memoria.quadro(o as int)
    }

    /// Memory with the translation still off.
    pub fn nova(memoria: Memoria) -> (r: Mmu)
        ensures
            !r.ativa,
            r.memoria == memoria,
    {
        Mmu { memoria, raiz: 0, raiz_do_kernel: u64::MAX, ativa: false }
    }
}

/// The three table indices of a virtual address.
fn indices(virtual_: u64) -> (r: (usize, usize, usize))
    ensures
        r.0 == i1(virtual_),
        r.1 == i2(virtual_),
        r.2 == i3(virtual_),
{
    (
        ((virtual_ / 0x4000_0000) % 512) as usize,
        ((virtual_ / 0x20_0000) % 512) as usize,
        ((virtual_ / 0x1000) % 512) as usize,
    )
}

/// The attribute bits of a page.
pub fn bits_de(permissoes: Permissoes) -> (r: u64)
    ensures
        r == bits_spec(permissoes),
{
    let memoria: u64 = if permissoes.dispositivo {
        0
    } else {
        ATTR_NORMAL | SH_INTERNO
    };
    let escrita: u64 = if permissoes.escrita {
        0
    } else {
        AP_SOMENTE_LEITURA
    };
    let execucao: u64 = if permissoes.usuario {
        if permissoes.executavel {
            AP_USUARIO | PXN
        } else {
            AP_USUARIO | PXN | UXN
        }
    } else {
        if permissoes.executavel {
            UXN
        } else {
            UXN | PXN
        }
    };
    memoria | escrita | execucao | AF
}

/// What a page's descriptor allows.
pub fn permissoes_de(descritor: u64) -> (r: Permissoes)
    ensures
        r == permissoes_spec(descritor),
{
    Permissoes {
        escrita: descritor & AP_SOMENTE_LEITURA == 0,
        executavel: descritor & UXN == 0,
        dispositivo: descritor & ATTR_NORMAL == 0,
        usuario: descritor & AP_USUARIO != 0,
    }
}

/// Goes down one level, making the table where there is none yet.
fn descer(m: &mut Memoria, a: &mut Alocador, tabela: u64, i: usize) -> (r: Result<u64, &'static str>)
    requires
        old(m).wf(),
        old(a).wf(),
        old(m).base() + old(m).quadros() * 4096 <= LIMITE_FISICO,
        old(m).contem(tabela as int),
        !old(a).livre_em(tabela),
        i < ENTRADAS,
        forall|e: u64| e % 4096 == 0 && #[trigger] old(a).livre_em(e) ==> old(m).contem(e as int),
    ensures
        final(m).wf(),
        final(a).wf(),
        ({
            let d = old(m).quadro(tabela as int)[i as int];
            match r {
                Ok(x) => if valido(d) {
                    &&& e_tabela(d)
                    &&& x == alvo(d)
                    &&& *final(m) == *old(m)
                    &&& *final(a) == *old(a)
                } else {
                    &&& crate::frames::alocou(old(a), final(a), Some(x))
                    &&& instalou(old(m), final(m), tabela as int, i as int, x)
                    &&& old(m).contem(x as int)
                    &&& x != tabela
                },
                Err(motivo) => {
                    &&& *final(m) == *old(m)
                    &&& *final(a) == *old(a)
                    &&& if valido(d) {
                        !e_tabela(d) && motivo == "bloco grande no caminho do mapeamento"
                    } else {
                        crate::frames::contar(old(a).livre()) == 0 && motivo
                            == "sem frames para tabela de pagina"
                    }
                },
            }
        }),
{
    let atual: u64 = m.ler(tabela, i);
    if atual & VALIDO != 0 {
        if atual & TABELA == 0 {
            return Err("bloco grande no caminho do mapeamento");
        }
        return Ok(atual & MASCARA_ENDERECO);
    }
    let ghost a0 = *a;
    match crate::frames::alocar(a) {
        None => Err("sem frames para tabela de pagina"),
        Some(frame) => {
            proof {
                crate::frames::lemma_alocou(&a0, a, frame);
            }
            let ghost m0 = *m;
            m.zerar(frame);
            let ghost m1 = *m;
            m.escrever(tabela, i, (frame & MASCARA_ENDERECO) | VALIDO | TABELA);
            proof {
                assert(m.quadro(frame as int) == m1.quadro(frame as int));
                assert(m1.quadro(tabela as int) == m0.quadro(tabela as int));
                assert forall|o: int| o != frame && o != tabela && m0.contem(o) implies #[trigger] m.quadro(
                    o,
                ) == m0.quadro(o) by {
                    assert(m1.quadro(o) == m0.quadro(o));
                }
            }
            Ok(frame)
        },
    }
}

/// Maps a page of 4 KiB onto a frame.
///
/// Where the mapping is refused no translation changes, although tables that
/// were already made on the way stay.
pub fn mapear_frame(
    mmu: &mut Mmu,
    a: &mut Alocador,
    virtual_: u64,
    fisico: u64,
    permissoes: Permissoes,
) -> (r: Result<(), &'static str>)
    requires
        old(mmu).wf(old(a)),
    ensures
        final(mmu).wf(final(a)),
        final(mmu).mesmas_raizes(old(mmu)),
        final(mmu).resto_intacto(old(mmu), old(a)),
        final(mmu).ativa ==> final(mmu).so_muda(old(mmu), virtual_),
        forall|e: u64| e % 4096 == 0 && #[trigger] final(a).livre_em(e) ==> old(a).livre_em(e),
        final(a).mesma_janela(old(a)),
        crate::frames::contar(old(a).livre()) <= crate::frames::contar(final(a).livre())
            + crate::paginacao::TABELAS_NO_CAMINHO,
        old(mmu).ativa ==> forall|e: u64| #[trigger]
            usado(&final(mmu).memoria, old(mmu).raiz as int, e as int) ==> usado(
                &old(mmu).memoria,
                old(mmu).raiz as int,
                e as int,
            ) || old(a).livre_em(e),
        old(mmu).ativa ==> forall|e: int| #[trigger]
            usado(&old(mmu).memoria, old(mmu).raiz as int, e) ==> usado(
                &final(mmu).memoria,
                old(mmu).raiz as int,
                e,
            ),
        forall|e: u64|
            e % 4096 == 0 && #[trigger] old(a).livre_em(e) && !final(a).livre_em(e) ==> old(mmu).ativa
                && usado(&final(mmu).memoria, old(mmu).raiz as int, e as int),
        match r {
            Ok(_) => {
                &&& old(mmu).recusa(old(a), virtual_, fisico) is None
                &&& final(mmu).pagina(virtual_) == Resolucao::Pagina(
                    descritor_de_pagina(fisico, permissoes),
                )
            },
            Err(motivo) => {
                &&& old(mmu).recusa(old(a), virtual_, fisico) == Some(motivo)
                &&& old(mmu).ativa ==> final(mmu).pagina(virtual_) == old(mmu).pagina(virtual_)
            },
        },
{
    if let Err(motivo) = validar_endereco(mmu.ativa, virtual_, fisico) {
        return Err(motivo);
    }
    let (a1, a2, a3) = indices(virtual_);
    let ghost raiz = mmu.raiz as int;
    let ghost m0 = mmu.memoria;
    let ghost f0 = *a;
    let ghost livres0 = crate::frames::contar(a.livre());
    proof {
        assert(usado(&m0, raiz, raiz));
        crate::frames::lemma_contar(f0.livre());
    }
    let l2: u64 = match descer(&mut mmu.memoria, a, mmu.raiz, a1) {
        Ok(x) => x,
        Err(motivo) => {
            return Err(motivo);
        },
    };
    let ghost m1 = mmu.memoria;
    let ghost f1 = *a;
    proof {
        if !valido(m0.quadro(raiz)[a1 as int]) {
            crate::frames::lemma_alocou(&f0, &f1, l2);
            lemma_nova2(&m0, &m1, raiz, a1 as int, l2);
        }
        assert(nivel2(&m1, raiz, a1 as int) == Some(l2 as int));
        assert(usado(&m1, raiz, l2 as int));
        assert(livres_fora(&m1, raiz, &f1));
    }
    let l3: u64 = match descer(&mut mmu.memoria, a, l2, a2) {
        Ok(x) => x,
        Err(motivo) => {
            proof {
                assert(resolvido(&m1, raiz, a1 as int, a2 as int, a3 as int) == resolvido(
                    &m0,
                    raiz,
                    a1 as int,
                    a2 as int,
                    a3 as int,
                ));
            }
            return Err(motivo);
        },
    };
    let ghost m2 = mmu.memoria;
    let ghost f2 = *a;
    proof {
        if !valido(m1.quadro(l2 as int)[a2 as int]) {
            crate::frames::lemma_alocou(&f1, &f2, l3);
            lemma_nova3(&m1, &m2, raiz, a1 as int, a2 as int, l3);
        }
        assert(nivel3(&m2, raiz, a1 as int, a2 as int) == Some(l3 as int));
        assert(usado(&m2, raiz, l3 as int));
        assert(livres_fora(&m2, raiz, &f2));
        assert(resolvido(&m2, raiz, a1 as int, a2 as int, a3 as int) == resolvido(
            &m1,
            raiz,
            a1 as int,
            a2 as int,
            a3 as int,
        ));
        assert(resolvido(&m1, raiz, a1 as int, a2 as int, a3 as int) == resolvido(
            &m0,
            raiz,
            a1 as int,
            a2 as int,
            a3 as int,
        ));
    }
    let atual: u64 = mmu.memoria.ler(l3, a3);
    if atual & VALIDO != 0 {
        return Err("endereco virtual ja mapeado");
    }
    let novo: u64 = (fisico & MASCARA_ENDERECO) | VALIDO | TABELA | bits_de(permissoes);
    mmu.memoria.escrever(l3, a3, novo);
    proof {
        lemma_pagina(
            fisico,
            permissoes.escrita,
            permissoes.executavel,
            permissoes.dispositivo,
            permissoes.usuario,
        );
        lemma_folha(&m2, &mmu.memoria, raiz, a1 as int, a2 as int, a3 as int, novo);
        lemma_mesmas_tabelas(&m2, &mmu.memoria, raiz);
        assert(nivel2(&m2, raiz, a1 as int) == Some(l2 as int));
        assert(nivel2(&mmu.memoria, raiz, a1 as int) == Some(l2 as int));
        assert(nivel3(&mmu.memoria, raiz, a1 as int, a2 as int) == Some(l3 as int));
        assert(usado(&mmu.memoria, raiz, l2 as int));
        assert(usado(&mmu.memoria, raiz, l3 as int));
    }
    Ok(())
}

/// The same tables are the same tables in use.
proof fn lemma_usado_igual(m: &Memoria, n: &Memoria, raiz: int)
    requires
        forall|x: int| #![trigger nivel2(n, raiz, x)]
            indice(x) ==> nivel2(n, raiz, x) == nivel2(m, raiz, x),
        forall|x: int, y: int| #![trigger nivel3(n, raiz, x, y)]
            indice(x) && indice(y) ==> nivel3(n, raiz, x, y) == nivel3(m, raiz, x, y),
    ensures
        forall|e: int| #[trigger] usado(n, raiz, e) ==> usado(m, raiz, e),
{
    assert forall|e: int| #[trigger] usado(n, raiz, e) implies usado(m, raiz, e) by {
        if e != raiz {
            if exists|x: int| indice(x) && #[trigger] nivel2(n, raiz, x) == Some(e) {
                let x = choose|x: int| indice(x) && #[trigger] nivel2(n, raiz, x) == Some(e);
                assert(nivel2(m, raiz, x) == Some(e));
            } else {
                let (x, y) = choose|x: int, y: int|
                    indice(x) && indice(y) && #[trigger] nivel3(n, raiz, x, y) == Some(e);
                assert(nivel3(m, raiz, x, y) == Some(e));
            }
        }
    }
}

/// Where every table is still in its place, no table is out of use.
proof fn lemma_usado_cresce(m: &Memoria, n: &Memoria, raiz: int)
    requires
        forall|x: int|
            indice(x) && (#[trigger] nivel2(m, raiz, x)) is Some ==> nivel2(n, raiz, x) == nivel2(
                m,
                raiz,
                x,
            ),
        forall|x: int, y: int|
            indice(x) && indice(y) && (#[trigger] nivel3(m, raiz, x, y)) is Some ==> nivel3(
                n,
                raiz,
                x,
                y,
            ) == nivel3(m, raiz, x, y),
    ensures
        forall|e: int| #[trigger] usado(m, raiz, e) ==> usado(n, raiz, e),
{
    assert forall|e: int| #[trigger] usado(m, raiz, e) implies usado(n, raiz, e) by {
        if e != raiz {
            if exists|x: int| indice(x) && #[trigger] nivel2(m, raiz, x) == Some(e) {
                let x = choose|x: int| indice(x) && #[trigger] nivel2(m, raiz, x) == Some(e);
                assert(nivel2(n, raiz, x) == Some(e));
            } else {
                let (x, y) = choose|x: int, y: int|
                    indice(x) && indice(y) && #[trigger] nivel3(m, raiz, x, y) == Some(e);
                assert(nivel3(n, raiz, x, y) == Some(e));
            }
        }
    }
}

/// Refuses addresses that this configuration cannot map.
fn validar_endereco(ativa: bool, virtual_: u64, fisico: u64) -> (r: Result<(), &'static str>)
    ensures
        match r {
            Ok(_) => ativa && crate::arch::desalinhado(virtual_, fisico) is None && virtual_
                < LIMITE_VIRTUAL && fisico < LIMITE_FISICO,
            Err(motivo) => Some(motivo) == if !ativa {
                Some("mmu ainda nao inicializada")
            } else if crate::arch::desalinhado(virtual_, fisico) is Some {
                crate::arch::desalinhado(virtual_, fisico)
            } else if virtual_ >= LIMITE_VIRTUAL {
                Some("endereco virtual fora do espaco configurado")
            } else if fisico >= LIMITE_FISICO {
                Some("endereco fisico fora da faixa de 48 bits")
            } else {
                None
            },
        },
{
    if !ativa {
        return Err("mmu ainda nao inicializada");
    }
    if let Err(motivo) = crate::arch::validar_alinhamento(virtual_, fisico) {
        return Err(motivo);
    }
    if virtual_ >= LIMITE_VIRTUAL {
        return Err("endereco virtual fora do espaco configurado");
    }
    if fisico >= LIMITE_FISICO {
        return Err("endereco fisico fora da faixa de 48 bits");
    }
    Ok(())
}

/// Are all the entries of a table empty?
fn tabela_vazia(m: &Memoria, tabela: u64) -> (r: bool)
    requires
        m.wf(),
        m.contem(tabela as int),
    ensures
        r == (m.quadro(tabela as int) == crate::arch::memoria::zerado()),
{
    proof {
        m.lemma_quadro(tabela as int);
    }
    let mut i: usize = 0;
    while i < ENTRADAS
        invariant
            m.wf(),
            m.contem(tabela as int),
            m.quadro(tabela as int).len() == ENTRADAS,
            i <= ENTRADAS,
            forall|j: int| 0 <= j < i ==> #[trigger] m.quadro(tabela as int)[j] == 0,
        decreases ENTRADAS - i,
    {
        if m.ler(tabela, i) != 0 {
            proof {
                assert(crate::arch::memoria::zerado()[i as int] == 0);
            }
            return false;
        }
        i = i + 1;
    }
    proof {
        assert(m.quadro(tabela as int) =~= crate::arch::memoria::zerado());
    }
    true
}

/// Removes the mapping of a page and returns the frame it was mapped to.
///
/// Tables that this leaves empty go back to the allocator, but only in the
/// part of the space that no other space shares.
pub fn desmapear(mmu: &mut Mmu, a: &mut Alocador, virtual_: u64) -> (r: Result<u64, &'static str>)
    requires
        old(mmu).wf(old(a)),
    ensures
        final(mmu).wf(final(a)),
        final(mmu).mesmas_raizes(old(mmu)),
        final(mmu).resto_intacto(old(mmu), old(a)),
        final(mmu).ativa ==> final(mmu).so_muda(old(mmu), virtual_),
        forall|e: u64| #[trigger] old(a).livre_em(e) ==> final(a).livre_em(e),
        final(a).mesma_janela(old(a)),
        old(mmu).ativa ==> forall|e: u64| #[trigger]
            usado(&final(mmu).memoria, old(mmu).raiz as int, e as int) ==> usado(
                &old(mmu).memoria,
                old(mmu).raiz as int,
                e as int,
            ),
        old(mmu).ativa ==> forall|e: u64| #[trigger]
            usado(&old(mmu).memoria, old(mmu).raiz as int, e as int) && old(a).circula(e) ==> usado(
                &final(mmu).memoria,
                old(mmu).raiz as int,
                e as int,
            ) || final(a).livre_em(e),
        match r {
            Ok(frame) => {
                let (x, y) = (i1(virtual_), i2(virtual_));
                let raiz = old(mmu).raiz as int;
                let l2 = nivel2(&old(mmu).memoria, raiz, x);
                let l3 = nivel3(&old(mmu).memoria, raiz, x, y);
                &&& old(mmu).recusa_desmapear(virtual_) is None
                &&& match old(mmu).pagina(virtual_) {
                    Resolucao::Pagina(d) => frame == alvo(d),
                    _ => false,
                }
                &&& final(mmu).pagina(virtual_) is Nada
                &&& nivel3(&final(mmu).memoria, raiz, x, y) == if old(mmu).esvazia3(virtual_) {
                    None
                } else {
                    l3
                }
                &&& nivel2(&final(mmu).memoria, raiz, x) == if old(mmu).esvazia2(virtual_) {
                    None
                } else {
                    l2
                }
                &&& forall|e: u64|
                    e % 4096 == 0 && #[trigger] final(a).livre_em(e) ==> {
                        ||| old(a).livre_em(e)
                        ||| old(mmu).esvazia3(virtual_) && l3 == Some(e as int)
                        ||| old(mmu).esvazia2(virtual_) && l2 == Some(e as int)
                    }
                &&& old(mmu).esvazia3(virtual_) && old(a).circula((l3->0) as u64)
                    ==> final(a).livre_em((l3->0) as u64)
                &&& old(mmu).esvazia2(virtual_) && old(a).circula((l2->0) as u64)
                    ==> final(a).livre_em((l2->0) as u64)
            },
            Err(motivo) => {
                &&& old(mmu).recusa_desmapear(virtual_) == Some(motivo)
                &&& *final(mmu) == *old(mmu)
                &&& *final(a) == *old(a)
            },
        },
{
    if !mmu.ativa {
        return Err("mmu ainda nao inicializada");
    }
    if virtual_ % 4096 != 0 {
        return Err("endereco virtual desalinhado");
    }
    if virtual_ >= LIMITE_VIRTUAL {
        return Err("endereco virtual fora do espaco configurado");
    }
    let (a1, a2, a3) = indices(virtual_);
    let ghost raiz = mmu.raiz as int;
    let ghost m0 = mmu.memoria;
    let ghost f0 = *a;
    let ghost x = a1 as int;
    let ghost y = a2 as int;
    let e1: u64 = mmu.memoria.ler(mmu.raiz, a1);
    if e1 & VALIDO == 0 || e1 & TABELA == 0 {
        return Err("endereco nao mapeado em granularidade de pagina");
    }
    let l2: u64 = e1 & MASCARA_ENDERECO;
    proof {
        assert(nivel2(&m0, raiz, x) == Some(l2 as int));
    }
    let e2: u64 = mmu.memoria.ler(l2, a2);
    if e2 & VALIDO == 0 || e2 & TABELA == 0 {
        return Err("endereco nao mapeado em granularidade de pagina");
    }
    let l3: u64 = e2 & MASCARA_ENDERECO;
    proof {
        assert(nivel3(&m0, raiz, x, y) == Some(l3 as int));
    }
    let descritor: u64 = mmu.memoria.ler(l3, a3);
    if descritor & VALIDO == 0 {
        return Err("endereco nao estava mapeado");
    }
    mmu.memoria.escrever(l3, a3, 0);
    let ghost m1 = mmu.memoria;
    proof {
        lemma_nulo();
        lemma_folha(&m0, &m1, raiz, x, y, a3 as int, 0);
        lemma_usado_igual(&m0, &m1, raiz);
        lemma_usado_igual(&m1, &m0, raiz);
        assert(nivel2(&m1, raiz, x) == Some(l2 as int));
        assert(nivel3(&m1, raiz, x, y) == Some(l3 as int));
        assert(l2 as int != l3 as int);
        assert(m1.quadro(l2 as int) == m0.quadro(l2 as int));
        assert(usado(&m0, raiz, l3 as int));
        assert(usado(&m0, raiz, l2 as int));
        assert(livres_fora(&m1, raiz, &f0));
    }
    if crate::arch::aarch64::e_privado(virtual_) && tabela_vazia(&mmu.memoria, l3) {
        mmu.memoria.escrever(l2, a2, 0);
        let ghost m2 = mmu.memoria;
        crate::frames::liberar(a, l3);
        let ghost f1 = *a;
        proof {
            lemma_retira3(&m1, &m2, raiz, x, y);
            crate::frames::lemma_liberou(&f0, &f1, l3);
            assert(livres_fora(&m2, raiz, &f1));
            assert(nivel2(&m2, raiz, x) == Some(l2 as int));
            assert(resolvido(&m2, raiz, x, y, a3 as int) == resolvido(&m1, raiz, x, y, a3 as int));
        }
        if tabela_vazia(&mmu.memoria, l2) {
            mmu.memoria.escrever(mmu.raiz, a1, 0);
            let ghost m3 = mmu.memoria;
            crate::frames::liberar(a, l2);
            proof {
                lemma_retira2(&m2, &m3, raiz, x);
                crate::frames::lemma_liberou(&f1, a, l2);
                assert(livres_fora(&m3, raiz, a));
                assert(resolvido(&m3, raiz, x, y, a3 as int) == resolvido(&m2, raiz, x, y, a3 as int));
            }
        }
    }
    Ok(descritor & MASCARA_ENDERECO)
}

/// The physical address of a virtual one, where there is a translation.
pub fn traduzir(mmu: &Mmu, virtual_: u64) -> (r: Option<u64>)
    requires
        mmu.memoria.wf(),
        arvore(&mmu.memoria, mmu.raiz as int),
    ensures
        r == traduzido(&mmu.memoria, mmu.raiz as int, virtual_),
{
    if virtual_ >= LIMITE_VIRTUAL {
        return None;
    }
    let (a1, a2, a3) = indices(virtual_);
    let ghost raiz = mmu.raiz as int;
    let e1: u64 = mmu.memoria.ler(mmu.raiz, a1);
    if e1 & VALIDO == 0 {
        return None;
    }
    if e1 & TABELA == 0 {
        return Some((e1 & MASCARA_ENDERECO) | (virtual_ & 0x3FFF_FFFF));
    }
    let l2: u64 = e1 & MASCARA_ENDERECO;
    proof {
        assert(nivel2(&mmu.memoria, raiz, a1 as int) == Some(l2 as int));
    }
    let e2: u64 = mmu.memoria.ler(l2, a2);
    if e2 & VALIDO == 0 {
        return None;
    }
    if e2 & TABELA == 0 {
        return Some((e2 & MASCARA_ENDERECO) | (virtual_ & 0x1F_FFFF));
    }
    let l3: u64 = e2 & MASCARA_ENDERECO;
    proof {
        assert(nivel3(&mmu.memoria, raiz, a1 as int, a2 as int) == Some(l3 as int));
    }
    let e3: u64 = mmu.memoria.ler(l3, a3);
    if e3 & VALIDO == 0 {
        return None;
    }
    Some((e3 & MASCARA_ENDERECO) | (virtual_ & 0xFFF))
}

/// Where the kernel sees a physical page: with the identity map, at the same
/// address.
pub fn acesso_fisico(fisico: u64) -> (r: u64)
    ensures
        r == fisico,
{
    fisico
}

/// The root in use.
pub fn espaco_atual(mmu: &Mmu) -> (r: u64)
    ensures
        r == mmu.raiz,
{
    mmu.raiz
}

/// The kernel's root.
pub fn espaco_do_kernel(mmu: &Mmu) -> (r: u64)
    ensures
        r == mmu.raiz_do_kernel,
{
    mmu.raiz_do_kernel
}

proof fn lemma_soma_na_pagina(d: u64, f: u64, w: u64)
    by (bit_vector)
    requires
        d & 0x0000_FFFF_FFFF_F000u64 == f,
        f % 4096 == 0,
        f < 0x1_0000_0000_0000u64,
    ensures
        (d & 0x0000_FFFF_FFFF_F000u64) | (w & 0xFFF) == f + w % 4096,
{
}

proof fn lemma_alvo_alinhado(d: u64)
    by (bit_vector)
    ensures
        (d & 0x0000_FFFF_FFFF_F000u64) % 4096 == 0,
        (d & 0x0000_FFFF_FFFF_F000u64) < 0x1_0000_0000_0000u64,
{
}

/// A mapped page translates every address in it to the same place in the
/// frame.
pub proof fn lei_pagina_mapeada_traduz(mmu: &Mmu, v: u64, f: u64, p: Permissoes, w: u64)
    requires
        v % 4096 == 0,
        v < LIMITE_VIRTUAL,
        f % 4096 == 0,
        f < LIMITE_FISICO,
        mmu.pagina(v) == Resolucao::Pagina(descritor_de_pagina(f, p)),
        w / 4096 == v / 4096,
    ensures
        traduzido(&mmu.memoria, mmu.raiz as int, w) == Some((f + w % 4096) as u64),
{
    lemma_pagina(f, p.escrita, p.executavel, p.dispositivo, p.usuario);
    lemma_mesma_pagina(v, w);
    let d = descritor_de_pagina(f, p);
    lemma_soma_na_pagina(d, f, w);
}

/// Addresses of one page have the same table indices.
proof fn lemma_mesma_pagina(v: u64, w: u64)
    requires
        w / 4096 == v / 4096,
    ensures
        i1(w) == i1(v),
        i2(w) == i2(v),
        i3(w) == i3(v),
        v < LIMITE_VIRTUAL ==> w < LIMITE_VIRTUAL,
{
    assert(v as int / 0x20_0000 == (v as int / 4096) / 512);
    assert(w as int / 0x20_0000 == (w as int / 4096) / 512);
    assert(v as int / 0x4000_0000 == (v as int / 4096) / 262144);
    assert(w as int / 0x4000_0000 == (w as int / 4096) / 262144);
}

/// Addresses of different pages differ in some table index.
proof fn lemma_outra_pagina(v: u64, w: u64)
    requires
        v < LIMITE_VIRTUAL,
        w < LIMITE_VIRTUAL,
        w / 4096 != v / 4096,
    ensures
        i1(w) != i1(v) || i2(w) != i2(v) || i3(w) != i3(v),
{
    let p = v as int / 4096;
    let q = w as int / 4096;
    assert(v as int / 0x20_0000 == p / 512);
    assert(w as int / 0x20_0000 == q / 512);
    assert(v as int / 0x4000_0000 == p / 262144);
    assert(w as int / 0x4000_0000 == q / 262144);
    assert(p == (p / 262144) * 262144 + ((p / 512) % 512) * 512 + p % 512);
    assert(q == (q / 262144) * 262144 + ((q / 512) % 512) * 512 + q % 512);
}

/// Where only the page of `v` changed, every address outside it translates as
/// before.
pub proof fn lei_so_a_pagina_muda(depois: &Mmu, antes: &Mmu, v: u64, w: u64)
    requires
        depois.raiz == antes.raiz,
        depois.so_muda(antes, v),
        v < LIMITE_VIRTUAL,
        w / 4096 != v / 4096,
    ensures
        traduzido(&depois.memoria, depois.raiz as int, w) == traduzido(
            &antes.memoria,
            antes.raiz as int,
            w,
        ),
{
    if w < LIMITE_VIRTUAL {
        lemma_outra_pagina(v, w);
        assert(resolvido(&depois.memoria, depois.raiz as int, i1(w), i2(w), i3(w)) == resolvido(
            &antes.memoria,
            antes.raiz as int,
            i1(w),
            i2(w),
            i3(w),
        ));
    }
}

/// Removing a page that was just mapped leaves every translation as it was
/// before.
pub proof fn lei_desmapear_desfaz_mapear(antes: &Mmu, mapeada: &Mmu, depois: &Mmu, v: u64, w: u64)
    requires
        mapeada.raiz == antes.raiz,
        depois.raiz == antes.raiz,
        v < LIMITE_VIRTUAL,
        antes.pagina(v) is Nada,
        mapeada.so_muda(antes, v),
        depois.so_muda(mapeada, v),
        depois.pagina(v) is Nada,
    ensures
        traduzido(&depois.memoria, depois.raiz as int, w) == traduzido(
            &antes.memoria,
            antes.raiz as int,
            w,
        ),
{
    if w / 4096 == v / 4096 {
        lemma_mesma_pagina(v, w);
    } else {
        lei_so_a_pagina_muda(mapeada, antes, v, w);
        lei_so_a_pagina_muda(depois, mapeada, v, w);
    }
}

/// Makes a space with the kernel mapped and one entry of the top table empty.
pub fn criar_espaco(mmu: &mut Mmu, a: &mut Alocador, entrada_privada: usize) -> (r: Result<
    u64,
    &'static str,
>)
    requires
        old(mmu).wf(old(a)),
        old(mmu).ativa ==> old(mmu).nucleo_wf(old(a)),
    ensures
        final(mmu).wf(final(a)),
        final(mmu).mesmas_raizes(old(mmu)),
        old(mmu).ativa ==> final(mmu).nucleo_wf(final(a)),
        old(mmu).ativa ==> mesmas_traducoes(
            &old(mmu).memoria,
            &final(mmu).memoria,
            old(mmu).raiz as int,
        ),
        match r {
            Ok(nova) => {
                let k = old(mmu).raiz_do_kernel as int;
                &&& old(mmu).ativa
                &&& entrada_privada < ENTRADAS
                &&& crate::frames::alocou(old(a), final(a), Some(nova))
                &&& arvore(&final(mmu).memoria, nova as int)
                &&& final(mmu).memoria.quadro(nova as int)[entrada_privada as int] == 0
                &&& forall|x: int, y: int, z: int|
                    #![trigger resolvido(&final(mmu).memoria, nova as int, x, y, z)]
                    indice(x) && indice(y) && indice(z) ==> resolvido(
                        &final(mmu).memoria,
                        nova as int,
                        x,
                        y,
                        z,
                    ) == if x == entrada_privada {
                        Resolucao::Nada
                    } else {
                        resolvido(&old(mmu).memoria, k, x, y, z)
                    }
                &&& forall|o: int|
                    o != nova && old(mmu).memoria.contem(o)
                        ==> #[trigger] final(mmu).memoria.quadro(o) == old(mmu).memoria.quadro(o)
            },
            Err(motivo) => {
                &&& *final(mmu) == *old(mmu)
                &&& *final(a) == *old(a)
                &&& motivo == if entrada_privada >= ENTRADAS {
                    "entrada de topo fora da tabela"
                } else if !old(mmu).ativa {
                    "mmu ainda nao inicializada"
                } else {
                    "memoria fisica esgotada"
                }
                &&& entrada_privada < ENTRADAS && old(mmu).ativa ==> crate::frames::contar(
                    old(a).livre(),
                ) == 0
            },
        },
{
    if entrada_privada >= ENTRADAS {
        return Err("entrada de topo fora da tabela");
    }
    if !mmu.ativa {
        return Err("mmu ainda nao inicializada");
    }
    let ghost f0 = *a;
    let ghost m0 = mmu.memoria;
    let ghost raiz = mmu.raiz as int;
    let ghost k = mmu.raiz_do_kernel as int;
    let nova: u64 = match crate::frames::alocar(a) {
        Some(f) => f,
        None => {
            return Err("memoria fisica esgotada");
        },
    };
    proof {
        crate::frames::lemma_alocou(&f0, a, nova);
        assert(usado(&m0, k, k));
        m0.lemma_quadro(k);
        m0.lemma_quadro(nova as int);
    }
    let mut i: usize = 0;
    while i < ENTRADAS
        invariant
            i <= ENTRADAS,
            entrada_privada < ENTRADAS,
            mmu.memoria.wf(),
            mmu.memoria.mesma_faixa(&m0),
            mmu.raiz == raiz,
            mmu.raiz_do_kernel == k,
            mmu.ativa,
            m0.wf(),
            m0.contem(k),
            m0.contem(nova as int),
            nova != k,
            m0.quadro(k).len() == ENTRADAS,
            forall|o: int| o != nova && m0.contem(o) ==> #[trigger] mmu.memoria.quadro(o) == m0.quadro(o),
            mmu.memoria.quadro(nova as int).len() == ENTRADAS,
            forall|j: int|
                0 <= j < i ==> #[trigger] mmu.memoria.quadro(nova as int)[j] == if j
                    == entrada_privada {
                    0u64
                } else {
                    m0.quadro(k)[j]
                },
        decreases ENTRADAS - i,
    {
        let valor: u64 = if i == entrada_privada {
            0
        } else {
            mmu.memoria.ler(mmu.raiz_do_kernel, i)
        };
        mmu.memoria.escrever(nova, i, valor);
        i = i + 1;
    }
    proof {
        let n = mmu.memoria;
        lemma_nulo();
        lemma_intocada(&m0, &n, raiz, nova as int);
        lemma_intocada(&m0, &n, k, nova as int);
        lemma_espaco_novo(&m0, &n, k, nova as int, entrada_privada as int);
    }
    Ok(nova)
}

/// Writing a frame that holds no table of a root leaves its tree alone.
proof fn lemma_intocada(m: &Memoria, n: &Memoria, raiz: int, f: int)
    requires
        arvore(m, raiz),
        n.mesma_faixa(m),
        !usado(m, raiz, f),
        forall|o: int| o != f && m.contem(o) ==> #[trigger] n.quadro(o) == m.quadro(o),
    ensures
        arvore(n, raiz),
        mesmas_traducoes(m, n, raiz),
        forall|x: int| #![trigger nivel2(n, raiz, x)]
            indice(x) ==> nivel2(n, raiz, x) == nivel2(m, raiz, x),
        forall|x: int, y: int| #![trigger nivel3(n, raiz, x, y)]
            indice(x) && indice(y) ==> nivel3(n, raiz, x, y) == nivel3(m, raiz, x, y),
        forall|e: int| #[trigger] usado(n, raiz, e) ==> usado(m, raiz, e),
{
    assert(n.quadro(raiz) == m.quadro(raiz));
    assert forall|x: int, y: int| #![trigger nivel3(n, raiz, x, y)]
        indice(x) && indice(y) implies nivel3(n, raiz, x, y) == nivel3(m, raiz, x, y) by {
        assert(nivel2(n, raiz, x) == nivel2(m, raiz, x));
        if let Some(t) = nivel2(m, raiz, x) {
            assert(t != f);
            assert(n.quadro(t) == m.quadro(t));
        }
    }
    assert forall|x: int, y: int, z: int| #![trigger resolvido(n, raiz, x, y, z)]
        indice(x) && indice(y) && indice(z) implies resolvido(n, raiz, x, y, z) == resolvido(
        m,
        raiz,
        x,
        y,
        z,
    ) by {
        if let Some(t) = nivel2(m, raiz, x) {
            assert(t != f);
            assert(n.quadro(t) == m.quadro(t));
            if let Some(u) = nivel3(m, raiz, x, y) {
                assert(u != f);
                assert(n.quadro(u) == m.quadro(u));
            }
        }
    }
    lemma_arvore_menor(m, n, raiz);
    lemma_usado_igual(m, n, raiz);
}

proof fn lemma_espaco_novo(m: &Memoria, n: &Memoria, k: int, nova: int, privada: int)
    requires
        arvore(m, k),
        m.contem(nova),
        n.mesma_faixa(m),
        !usado(m, k, nova),
        forall|o: int| o != nova && m.contem(o) ==> #[trigger] n.quadro(o) == m.quadro(o),
        forall|j: int|
            indice(j) ==> #[trigger] n.quadro(nova)[j] == if j == privada {
                0u64
            } else {
                m.quadro(k)[j]
            },
    ensures
        arvore(n, nova),
        forall|x: int, y: int, z: int| #![trigger resolvido(n, nova, x, y, z)]
            indice(x) && indice(y) && indice(z) ==> resolvido(n, nova, x, y, z) == if x == privada {
                Resolucao::Nada
            } else {
                resolvido(m, k, x, y, z)
            },
{
    lemma_nulo();
    assert forall|x: int| #![trigger nivel2(n, nova, x)] indice(x) implies nivel2(n, nova, x) == if x
        == privada {
        None
    } else {
        nivel2(m, k, x)
    } by {
        assert(n.quadro(nova)[x] == if x == privada {
            0u64
        } else {
            m.quadro(k)[x]
        });
    }
    assert forall|x: int, y: int| #![trigger nivel3(n, nova, x, y)] indice(x) && indice(y) implies nivel3(
        n,
        nova,
        x,
        y,
    ) == if x == privada {
        None
    } else {
        nivel3(m, k, x, y)
    } by {
        assert(nivel2(n, nova, x) == if x == privada {
            None
        } else {
            nivel2(m, k, x)
        });
        if x != privada {
            if let Some(t) = nivel2(m, k, x) {
                assert(t != nova);
                assert(n.quadro(t) == m.quadro(t));
            }
        }
    }
    assert forall|x: int, y: int, z: int| #![trigger resolvido(n, nova, x, y, z)]
        indice(x) && indice(y) && indice(z) implies resolvido(n, nova, x, y, z) == if x == privada {
        Resolucao::Nada
    } else {
        resolvido(m, k, x, y, z)
    } by {
        assert(n.quadro(nova)[x] == if x == privada {
            0u64
        } else {
            m.quadro(k)[x]
        });
        if x != privada {
            if let Some(t) = nivel2(m, k, x) {
                assert(t != nova);
                assert(n.quadro(t) == m.quadro(t));
                if let Some(u) = nivel3(m, k, x, y) {
                    assert(u != nova);
                    assert(n.quadro(u) == m.quadro(u));
                }
            }
        }
    }
    assert forall|x: int| #![trigger nivel2(n, nova, x)] indice(x) implies match nivel2(n, nova, x) {
        Some(e) => n.contem(e) && e != nova,
        None => true,
    } by {
        if x != privada {
            assert(nivel2(n, nova, x) == nivel2(m, k, x));
        }
    }
    assert forall|x: int, y: int| #![trigger nivel3(n, nova, x, y)] indice(x) && indice(y) implies match nivel3(
        n,
        nova,
        x,
        y,
    ) {
        Some(e) => n.contem(e) && e != nova,
        None => true,
    } by {
        if x != privada {
            assert(nivel3(n, nova, x, y) == nivel3(m, k, x, y));
        }
    }
    assert forall|x: int, c: int| #![trigger nivel2(n, nova, x), nivel2(n, nova, c)]
        indice(x) && indice(c) && x != c && nivel2(n, nova, x) is Some implies nivel2(n, nova, x)
        != nivel2(n, nova, c) by {
        assert(nivel2(m, k, x) != nivel2(m, k, c));
    }
    assert forall|x: int, c: int, d: int| #![trigger nivel2(n, nova, x), nivel3(n, nova, c, d)]
        indice(x) && indice(c) && indice(d) && nivel2(n, nova, x) is Some implies nivel2(n, nova, x)
        != nivel3(n, nova, c, d) by {
        assert(nivel2(m, k, x) != nivel3(m, k, c, d));
    }
    assert forall|x: int, y: int, c: int, d: int|
        #![trigger nivel3(n, nova, x, y), nivel3(n, nova, c, d)]
        indice(x) && indice(y) && indice(c) && indice(d) && (x != c || y != d) && nivel3(n, nova, x, y)
            is Some implies nivel3(n, nova, x, y) != nivel3(n, nova, c, d) by {
        assert(nivel3(m, k, x, y) != nivel3(m, k, c, d));
    }
}

/// Everything a descriptor reaches, `nivel` tables deep, is memory.
pub open spec fn alcanca_memoria(m: &Memoria, d: u64, nivel: nat) -> bool
    decreases nivel,
{
    valido(d) && nivel > 0 && e_tabela(d) ==> {
        &&& m.contem(alvo(d))
        &&& forall|i: int|
            indice(i) ==> alcanca_memoria(m, #[trigger] m.quadro(alvo(d))[i], (nivel - 1) as nat)
    }
}

/// The frame at `e` is one that a descriptor reaches, `nivel` tables deep: its
/// own, or one under its table.
pub open spec fn alcanca(m: &Memoria, d: u64, nivel: nat, e: int) -> bool
    decreases nivel,
{
    valido(d) && (alvo(d) == e || (nivel > 0 && e_tabela(d) && exists|i: int|
        indice(i) && alcanca(m, #[trigger] m.quadro(alvo(d))[i], (nivel - 1) as nat, e)))
}

/// One of the first `n` entries of a table reaches the frame at `e`.
pub open spec fn tabela_alcanca(m: &Memoria, t: int, n: int, nivel: nat, e: int) -> bool {
    exists|i: int| 0 <= i < n && alcanca(m, #[trigger] m.quadro(t)[i], nivel, e)
}

/// The free frames after giving back those that `quais` selects.
pub open spec fn devolveu(antes: &Alocador, depois: &Alocador, quais: spec_fn(u64) -> bool) -> bool {
    &&& depois.mesma_janela(antes)
    &&& forall|e: u64| #![trigger depois.livre_em(e)]
        e % 4096 == 0 ==> depois.livre_em(e) == (antes.livre_em(e) || (quais(e) && antes.circula(e)))
}

/// Gives back every frame a descriptor reaches: the pages, the tables above
/// them, and the frame of the descriptor itself.
fn liberar_subarvore(m: &Memoria, a: &mut Alocador, descritor: u64, nivel: u8)
    requires
        m.wf(),
        old(a).wf(),
        alcanca_memoria(m, descritor, nivel as nat),
    ensures
        final(a).wf(),
        devolveu(old(a), final(a), |e: u64| alcanca(m, descritor, nivel as nat, e as int)),
    decreases nivel,
{
    if descritor & VALIDO == 0 {
        return;
    }
    let endereco: u64 = descritor & MASCARA_ENDERECO;
    proof {
        lemma_alvo_alinhado(descritor);
    }
    let ghost f0 = *a;
    if nivel > 0 && descritor & TABELA != 0 {
        let mut i: usize = 0;
        while i < ENTRADAS
            invariant
                m.wf(),
                a.wf(),
                f0.wf(),
                nivel > 0,
                e_tabela(descritor),
                endereco == alvo(descritor),
                alcanca_memoria(m, descritor, nivel as nat),
                i <= ENTRADAS,
                devolveu(
                    &f0,
                    a,
                    |e: u64|
                        tabela_alcanca(
                            m,
                            endereco as int,
                            i as int,
                            (nivel - 1) as nat,
                            e as int,
                        ),
                ),
            decreases ENTRADAS - i,
        {
            let ghost f1 = *a;
            let filho: u64 = m.ler(endereco, i);
            liberar_subarvore(m, a, filho, nivel - 1);
            proof {
                let n1 = (nivel - 1) as nat;
                assert forall|e: u64| #![trigger a.livre_em(e)] e % 4096 == 0 implies a.livre_em(e) == (
                f0.livre_em(e) || (tabela_alcanca(m, endereco as int, i + 1, n1, e as int) && f0.circula(e))) by {
                    let antes = f1.livre_em(e);
                    if tabela_alcanca(m, endereco as int, i + 1, n1, e as int) {
                        let k = choose|k: int|
                            0 <= k < i + 1 && alcanca(
                                m,
                                #[trigger] m.quadro(endereco as int)[k],
                                n1,
                                e as int,
                            );
                        if k < i {
                            assert(tabela_alcanca(m, endereco as int, i as int, n1, e as int));
                        }
                    }
                    if tabela_alcanca(m, endereco as int, i as int, n1, e as int) {
                        let k = choose|k: int|
                            0 <= k < i && alcanca(
                                m,
                                #[trigger] m.quadro(endereco as int)[k],
                                n1,
                                e as int,
                            );
                        assert(alcanca(m, m.quadro(endereco as int)[k], n1, e as int));
                    }
                }
            }
            i = i + 1;
        }
    }
    let ghost f2 = *a;
    crate::frames::liberar(a, endereco);
    proof {
        crate::frames::lemma_liberou(&f2, a, endereco);
        assert forall|e: u64| #![trigger a.livre_em(e)] e % 4096 == 0 implies a.livre_em(e) == (
        f0.livre_em(e) || (alcanca(m, descritor, nivel as nat, e as int) && f0.circula(e))) by {
            let meio = f2.livre_em(e);
            if nivel > 0 && e_tabela(descritor) {
                let n1 = (nivel - 1) as nat;
                if tabela_alcanca(m, endereco as int, ENTRADAS as int, n1, e as int) {
                    let k = choose|k: int|
                        0 <= k < ENTRADAS && alcanca(
                            m,
                            #[trigger] m.quadro(endereco as int)[k],
                            n1,
                            e as int,
                        );
                    assert(indice(k));
                }
                if alcanca(m, descritor, nivel as nat, e as int) && e != endereco {
                    let k = choose|k: int|
                        indice(k) && alcanca(
                            m,
                            #[trigger] m.quadro(alvo(descritor))[k],
                            n1,
                            e as int,
                        );
                    assert(tabela_alcanca(m, endereco as int, ENTRADAS as int, n1, e as int));
                }
            }
        }
    }
}

/// The tree under a root reaches nothing but memory, two tables below each of
/// its entries.
proof fn lemma_arvore_alcanca(m: &Memoria, raiz: int, x: int)
    requires
        arvore(m, raiz),
        indice(x),
    ensures
        alcanca_memoria(m, m.quadro(raiz)[x], 2),
{
    reveal_with_fuel(alcanca_memoria, 3);
    let d = m.quadro(raiz)[x];
    if e_tabela(d) {
        assert(nivel2(m, raiz, x) == Some(alvo(d)));
        assert forall|y: int| indice(y) implies alcanca_memoria(m, #[trigger] m.quadro(alvo(d))[y], 1) by {
            let e = m.quadro(alvo(d))[y];
            if e_tabela(e) {
                assert(nivel3(m, raiz, x, y) == Some(alvo(e)));
            }
        }
    }
}

/// Gives back everything a space owns: the pages of its private entry, their
/// tables, and the root.
///
/// The space is not the active one, and what it owns is its own: no table of
/// the active space and not the kernel's root.
pub fn destruir_espaco(mmu: &mut Mmu, a: &mut Alocador, raiz: u64, entrada_privada: usize)
    requires
        old(mmu).wf(old(a)),
        old(mmu).ativa,
        arvore(&old(mmu).memoria, raiz as int),
        raiz != old(mmu).raiz,
        raiz != old(mmu).raiz_do_kernel,
        entrada_privada < ENTRADAS ==> {
            &&& !usado(&old(mmu).memoria, old(mmu).raiz as int, raiz as int)
            &&& forall|e: u64| #[trigger]
                alcanca(
                    &old(mmu).memoria,
                    old(mmu).memoria.quadro(raiz as int)[entrada_privada as int],
                    2,
                    e as int,
                ) ==> {
                    &&& old(mmu).memoria.contem(e as int)
                    &&& !usado(&old(mmu).memoria, old(mmu).raiz as int, e as int)
                    &&& e != old(mmu).raiz_do_kernel
                }
        },
    ensures
        final(mmu).wf(final(a)),
        final(mmu).mesmas_raizes(old(mmu)),
        mesmas_traducoes(&old(mmu).memoria, &final(mmu).memoria, old(mmu).raiz as int),
        if entrada_privada >= ENTRADAS {
            *final(mmu) == *old(mmu) && *final(a) == *old(a)
        } else {
            let d = old(mmu).memoria.quadro(raiz as int)[entrada_privada as int];
            &&& devolveu(
                old(a),
                final(a),
                |e: u64| e == raiz || alcanca(&old(mmu).memoria, d, 2, e as int),
            )
            &&& escreveu(
                &old(mmu).memoria,
                &final(mmu).memoria,
                raiz as int,
                entrada_privada as int,
                0,
            )
        },
{
    if entrada_privada >= ENTRADAS {
        return;
    }
    let ghost m0 = mmu.memoria;
    let ghost f0 = *a;
    let ghost ativa = mmu.raiz as int;
    proof {
        lemma_arvore_alcanca(&m0, raiz as int, entrada_privada as int);
    }
    let d: u64 = mmu.memoria.ler(raiz, entrada_privada);
    liberar_subarvore(&mmu.memoria, a, d, 2);
    let ghost f1 = *a;
    mmu.memoria.escrever(raiz, entrada_privada, 0);
    crate::frames::liberar(a, raiz);
    proof {
        crate::frames::lemma_liberou(&f1, a, raiz);
        lemma_intocada(&m0, &mmu.memoria, ativa, raiz as int);
        assert forall|e: u64| #![trigger a.livre_em(e)] e % 4096 == 0 implies a.livre_em(e) == (
        f0.livre_em(e) || ((e == raiz || alcanca(&m0, d, 2, e as int)) && f0.circula(e))) by {
            let meio = f1.livre_em(e);
        }
        assert(livres_fora(&mmu.memoria, ativa, a)) by {
            assert forall|e: u64| e % 4096 == 0 && #[trigger] a.livre_em(e) implies mmu.memoria.contem(
                e as int,
            ) && !usado(&mmu.memoria, ativa, e as int) by {
                if !f0.livre_em(e) && e != raiz {
                    assert(alcanca(&m0, d, 2, e as int));
                }
            }
        }
        assert(mmu.raiz_do_kernel % 4096 == 0);
    }
}

/// A page of a space: where it appears, where it is, and what it allows.
#[derive(Clone, Copy, Debug, PartialEq, Eq, Structural)]
pub struct PaginaDeUsuario {
    pub virtual_: u64,
    pub fisico: u64,
    pub permissoes: Permissoes,
}

/// The pages of the first `n` entries of a table of level 3 whose first page
/// is at `base`.
pub open spec fn paginas_da_tabela(t: Seq<u64>, base: int, n: int) -> Seq<PaginaDeUsuario>
    decreases n,
{
    if n <= 0 {
        Seq::empty()
    } else {
        let antes = paginas_da_tabela(t, base, n - 1);
        let d = t[n - 1];
        if e_tabela(d) {
            antes.push(
                PaginaDeUsuario {
                    virtual_: (base + (n - 1) * 0x1000) as u64,
                    fisico: (d & MASCARA_ENDERECO),
                    permissoes: permissoes_spec(d),
                },
            )
        } else {
            antes
        }
    }
}

/// The pages under the first `n` entries of a table of level 2 whose first
/// page is at `base`.
pub open spec fn paginas_do_nivel2(m: &Memoria, t: Seq<u64>, base: int, n: int) -> Seq<PaginaDeUsuario>
    decreases n,
{
    if n <= 0 {
        Seq::empty()
    } else {
        let antes = paginas_do_nivel2(m, t, base, n - 1);
        let d = t[n - 1];
        if e_tabela(d) {
            antes + paginas_da_tabela(
                m.quadro(alvo(d)),
                base + (n - 1) * 0x20_0000,
                ENTRADAS as int,
            )
        } else {
            antes
        }
    }
}

/// The pages of the private entry of a space, in the order of their addresses.
pub open spec fn paginas_do_usuario(m: &Memoria, raiz: int, entrada: int) -> Seq<PaginaDeUsuario> {
    match nivel2(m, raiz, entrada) {
        Some(l2) => paginas_do_nivel2(
            m,
            m.quadro(l2),
            entrada * 0x4000_0000,
            ENTRADAS as int,
        ),
        None => Seq::empty(),
    }
}

/// The pages of a space's private entry, in the order of their addresses.
pub fn percorrer_paginas_do_usuario(mmu: &Mmu, raiz: u64, entrada_privada: usize) -> (r: Vec<
    PaginaDeUsuario,
>)
    requires
        mmu.memoria.wf(),
        arvore(&mmu.memoria, raiz as int),
    ensures
        r@ == if entrada_privada < ENTRADAS {
            paginas_do_usuario(&mmu.memoria, raiz as int, entrada_privada as int)
        } else {
            Seq::empty()
        },
{
    let mut r: Vec<PaginaDeUsuario> = Vec::new();
    if entrada_privada >= ENTRADAS {
        return r;
    }
    let m: &Memoria = &mmu.memoria;
    let e1: u64 = m.ler(raiz, entrada_privada);
    if e1 & VALIDO == 0 || e1 & TABELA == 0 {
        return r;
    }
    let base1: u64 = entrada_privada as u64 * 0x4000_0000;
    let l2: u64 = e1 & MASCARA_ENDERECO;
    let ghost x = entrada_privada as int;
    proof {
        assert(nivel2(m, raiz as int, x) == Some(l2 as int));
    }
    let mut k2: usize = 0;
    while k2 < ENTRADAS
        invariant
            m.wf(),
            arvore(m, raiz as int),
            entrada_privada < ENTRADAS,
            x == entrada_privada,
            nivel2(m, raiz as int, x) == Some(l2 as int),
            base1 == x * 0x4000_0000,
            k2 <= ENTRADAS,
            r@ == paginas_do_nivel2(m, m.quadro(l2 as int), base1 as int, k2 as int),
        decreases ENTRADAS - k2,
    {
        let e2: u64 = m.ler(l2, k2);
        if e2 & VALIDO != 0 && e2 & TABELA != 0 {
            let base2: u64 = base1 + k2 as u64 * 0x20_0000;
            let l3: u64 = e2 & MASCARA_ENDERECO;
            let ghost antes = r@;
            proof {
                assert(nivel3(m, raiz as int, x, k2 as int) == Some(l3 as int));
                assert(antes + Seq::<PaginaDeUsuario>::empty() =~= antes);
            }
            let mut k3: usize = 0;
            while k3 < ENTRADAS
                invariant
                    m.wf(),
                    m.contem(l3 as int),
                    entrada_privada < ENTRADAS,
                    base1 == entrada_privada * 0x4000_0000,
                    k2 < ENTRADAS,
                    base2 == base1 + k2 * 0x20_0000,
                    k3 <= ENTRADAS,
                    r@ == antes + paginas_da_tabela(m.quadro(l3 as int), base2 as int, k3 as int),
                decreases ENTRADAS - k3,
            {
                let e3: u64 = m.ler(l3, k3);
                if e3 & VALIDO != 0 && e3 & TABELA != 0 {
                    let ghost meio = r@;
                    r.push(
                        PaginaDeUsuario {
                            virtual_: base2 + k3 as u64 * 0x1000,
                            fisico: e3 & MASCARA_ENDERECO,
                            permissoes: permissoes_de(e3),
                        },
                    );
                    proof {
                        assert(r@ =~= antes + paginas_da_tabela(
                            m.quadro(l3 as int),
                            base2 as int,
                            k3 + 1,
                        ));
                    }
                }
                k3 = k3 + 1;
            }
        }
        k2 = k2 + 1;
    }
    r
}

/// The descriptor of a block of 1 GiB.
pub open spec fn bloco_spec(endereco: u64, atributo: u64, extras: u64) -> u64 {
    (endereco & MASCARA_ENDERECO) | VALIDO | atributo | AF | SH_INTERNO | extras
}

/// The descriptor of a block of 1 GiB.
pub fn bloco(endereco_fisico: u64, atributo: u64, extras: u64) -> (r: u64)
    ensures
        r == bloco_spec(endereco_fisico, atributo, extras),
{
    (endereco_fisico & MASCARA_ENDERECO) | VALIDO | atributo | AF | SH_INTERNO | extras
}

/// A descriptor of a table that replaces a block: the `i`-th part of it, with
/// the same attributes.
pub open spec fn parte_do_bloco(d: u64, base: int, bits: int, folha: bool, i: int) -> u64 {
    let atributos = d & !(MASCARA_ENDERECO | VALIDO | TABELA);
    let parte = (((base + i * bits) as u64) & MASCARA_ENDERECO) | VALIDO | atributos;
    if folha {
        parte | TABELA
    } else {
        parte
    }
}

/// Replaces a block by a table of smaller entries that covers the same range
/// with the same attributes. `passo` is what each new entry covers.
fn refinar(
    m: &mut Memoria,
    a: &mut Alocador,
    tabela: u64,
    i: usize,
    base: u64,
    passo: u64,
    folha: bool,
) -> (r: Result<u64, &'static str>)
    requires
        old(m).wf(),
        old(a).wf(),
        old(m).contem(tabela as int),
        !old(a).livre_em(tabela),
        i < ENTRADAS,
        base + ENTRADAS * passo <= u64::MAX,
        forall|e: u64| e % 4096 == 0 && #[trigger] old(a).livre_em(e) ==> old(m).contem(e as int),
    ensures
        final(m).wf(),
        final(a).wf(),
        final(m).mesma_faixa(old(m)),
        ({
            let d = old(m).quadro(tabela as int)[i as int];
            match r {
                Ok(nova) => {
                    &&& valido(d) && !e_tabela(d)
                    &&& crate::frames::alocou(old(a), final(a), Some(nova))
                    &&& old(m).contem(nova as int)
                    &&& nova != tabela
                    &&& final(m).quadro(tabela as int) == old(m).quadro(tabela as int).update(
                        i as int,
                        descritor_de_tabela(nova),
                    )
                    &&& final(m).quadro(nova as int).len() == ENTRADAS
                    &&& forall|k: int|
                        indice(k) ==> #[trigger] final(m).quadro(nova as int)[k] == parte_do_bloco(
                            d,
                            base as int,
                            passo as int,
                            folha,
                            k,
                        )
                    &&& forall|o: int|
                        o != nova && o != tabela && old(m).contem(o) ==> #[trigger] final(m).quadro(o)
                            == old(m).quadro(o)
                },
                Err(motivo) => {
                    &&& *final(m) == *old(m)
                    &&& *final(a) == *old(a)
                    &&& motivo == if !valido(d) {
                        "descritor ausente onde se esperava um bloco"
                    } else if e_tabela(d) {
                        "descritor ja e uma tabela"
                    } else {
                        "sem frames para refinar o mapeamento"
                    }
                    &&& valido(d) && !e_tabela(d) ==> crate::frames::contar(old(a).livre()) == 0
                },
            }
        }),
{
    let descritor: u64 = m.ler(tabela, i);
    if descritor & VALIDO == 0 {
        return Err("descritor ausente onde se esperava um bloco");
    }
    if descritor & TABELA != 0 {
        return Err("descritor ja e uma tabela");
    }
    let atributos: u64 = descritor & !(MASCARA_ENDERECO | VALIDO | TABELA);
    let ghost a0 = *a;
    let ghost m0 = *m;
    let nova: u64 = match crate::frames::alocar(a) {
        Some(f) => f,
        None => {
            return Err("sem frames para refinar o mapeamento");
        },
    };
    proof {
        crate::frames::lemma_alocou(&a0, a, nova);
        m0.lemma_quadro(nova as int);
    }
    let mut k: usize = 0;
    while k < ENTRADAS
        invariant
            m.wf(),
            m.mesma_faixa(&m0),
            m0.contem(nova as int),
            k <= ENTRADAS,
            base + ENTRADAS * passo <= u64::MAX,
            atributos == descritor & !(MASCARA_ENDERECO | VALIDO | TABELA),
            m.quadro(nova as int).len() == ENTRADAS,
            forall|j: int|
                0 <= j < k ==> #[trigger] m.quadro(nova as int)[j] == parte_do_bloco(
                    descritor,
                    base as int,
                    passo as int,
                    folha,
                    j,
                ),
            forall|o: int| o != nova && m0.contem(o) ==> #[trigger] m.quadro(o) == m0.quadro(o),
        decreases ENTRADAS - k,
    {
        assert(k * passo <= ENTRADAS * passo) by (nonlinear_arith)
            requires
                k <= ENTRADAS,
        ;
        let alvo_: u64 = base + k as u64 * passo;
        let mut novo: u64 = (alvo_ & MASCARA_ENDERECO) | VALIDO | atributos;
        if folha {
            novo = novo | TABELA;
        }
        m.escrever(nova, k, novo);
        k = k + 1;
    }
    let ghost m1 = *m;
    m.escrever(tabela, i, (nova & MASCARA_ENDERECO) | VALIDO | TABELA);
    proof {
        assert(m1.quadro(tabela as int) == m0.quadro(tabela as int));
        assert(m.quadro(nova as int) == m1.quadro(nova as int));
        assert forall|o: int| o != nova && o != tabela && m0.contem(o) implies #[trigger] m.quadro(o)
            == m0.quadro(o) by {
            assert(m1.quadro(o) == m0.quadro(o));
        }
    }
    Ok(nova)
}

/// Some usable region has a byte in the `i`-th GiB.
pub open spec fn gib_de_ram(regioes: Seq<Regiao>, i: int) -> bool {
    exists|k: int|
        0 <= k < regioes.len() && (#[trigger] regioes[k]).tipo == TipoRegiao::Utilizavel
            && regioes[k].inicio as int / 0x4000_0000 <= i <= (regioes[k].fim - 1) / 0x4000_0000
}

/// How many of the first `n` GiBs have memory, the first of all left out.
pub open spec fn gibs_de_ram(regioes: Seq<Regiao>, n: int) -> int
    decreases n,
{
    if n <= 1 {
        0
    } else {
        gibs_de_ram(regioes, n - 1) + if gib_de_ram(regioes, n - 1) {
            1int
        } else {
            0
        }
    }
}

/// Does some usable region have a byte in the `i`-th GiB?
fn tem_ram(regioes: &[Regiao], i: u64) -> (r: bool)
    requires
        forall|k: int| 0 <= k < regioes@.len() ==> (#[trigger] regioes@[k]).valida(),
    ensures
        r == gib_de_ram(regioes@, i as int),
{
    let mut k: usize = 0;
    while k < regioes.len()
        invariant
            k <= regioes@.len(),
            forall|j: int| 0 <= j < regioes@.len() ==> (#[trigger] regioes@[j]).valida(),
            !gib_de_ram(regioes@.take(k as int), i as int),
        decreases regioes@.len() - k,
    {
        let regiao: Regiao = regioes[k];
        proof {
            assert(regioes@[k as int].valida());
            lemma_gib_de_ram(regioes@, k as int, i as int);
        }
        if regiao.tipo == TipoRegiao::Utilizavel && regiao.inicio / 0x4000_0000 <= i && i <= (regiao.fim
            - 1) / 0x4000_0000 {
            return true;
        }
        k = k + 1;
    }
    proof {
        assert(regioes@.take(k as int) =~= regioes@);
    }
    false
}

/// How many blocks of memory the identity map has. The first GiB is the
/// devices', even where a region of memory reaches into it.
pub fn blocos_de_ram(maquina: &Maquina) -> (r: u64)
    requires
        maquina.wf(),
    ensures
        r == gibs_de_ram(maquina.regioes(), ENTRADAS as int),
{
    let regioes = crate::machine::com_regioes(maquina);
    let mut quantos: u64 = 0;
    let mut i: u64 = 1;
    while i < ENTRADAS as u64
        invariant
            1 <= i <= ENTRADAS,
            quantos < i,
            regioes@ == maquina.regioes(),
            maquina.wf(),
            quantos == gibs_de_ram(regioes@, i as int),
        decreases ENTRADAS - i,
    {
        if tem_ram(regioes, i) {
            quantos = quantos + 1;
        }
        i = i + 1;
    }
    quantos
}

/// The first entry is the devices' GiB; every other is memory where the
/// machine has memory, and nothing elsewhere.
pub open spec fn identidade(t: Seq<u64>, regioes: Seq<Regiao>) -> bool {
    &&& t.len() == ENTRADAS
    &&& forall|i: int| #![trigger t[i]]
        indice(i) ==> t[i] == if i == 0 {
            bloco_spec(0, 0, PXN | UXN)
        } else if gib_de_ram(regioes, i) {
            bloco_spec((i * 0x4000_0000) as u64, ATTR_NORMAL, UXN)
        } else {
            0
        }
}

proof fn lemma_bloco(e: u64, atributo: u64, extras: u64)
    by (bit_vector)
    requires
        e % 0x4000_0000 == 0,
        e < 0x80_0000_0000u64,
        atributo == 0 || atributo == 4,
        extras == 0x60_0000_0000_0000u64 || extras == 0x40_0000_0000_0000u64,
    ensures
        ((e & 0x0000_FFFF_FFFF_F000u64) | 1 | atributo | 0x400 | 0x300 | extras) & 1 != 0,
        ((e & 0x0000_FFFF_FFFF_F000u64) | 1 | atributo | 0x400 | 0x300 | extras) & 2 == 0,
        ((e & 0x0000_FFFF_FFFF_F000u64) | 1 | atributo | 0x400 | 0x300 | extras)
            & 0x0000_FFFF_FFFF_F000u64 == e,
        ((e & 0x0000_FFFF_FFFF_F000u64) | 1 | atributo | 0x400 | 0x300 | extras) != 0,
        ((e & 0x0000_FFFF_FFFF_F000u64) | 1 | atributo | 0x400 | 0x300 | extras) & !(
        0x0000_FFFF_FFFF_F000u64 | 1 | 2) == atributo | 0x400 | 0x300 | extras,
{
}

proof fn lemma_parte(d: u64, x: u64)
    by (bit_vector)
    requires
        x % 4096 == 0,
        x < 0x1_0000_0000_0000u64,
    ensures
        ((x & 0x0000_FFFF_FFFF_F000u64) | 1 | (d & !(0x0000_FFFF_FFFF_F000u64 | 1 | 2))) & 1 != 0,
        ((x & 0x0000_FFFF_FFFF_F000u64) | 1 | (d & !(0x0000_FFFF_FFFF_F000u64 | 1 | 2))) & 2 == 0,
        ((x & 0x0000_FFFF_FFFF_F000u64) | 1 | (d & !(0x0000_FFFF_FFFF_F000u64 | 1 | 2)))
            & 0x0000_FFFF_FFFF_F000u64 == x,
        ((x & 0x0000_FFFF_FFFF_F000u64) | 1 | (d & !(0x0000_FFFF_FFFF_F000u64 | 1 | 2)) | 2) & 1 != 0,
        ((x & 0x0000_FFFF_FFFF_F000u64) | 1 | (d & !(0x0000_FFFF_FFFF_F000u64 | 1 | 2)) | 2) & 2 != 0,
        ((x & 0x0000_FFFF_FFFF_F000u64) | 1 | (d & !(0x0000_FFFF_FFFF_F000u64 | 1 | 2)) | 2)
            & 0x0000_FFFF_FFFF_F000u64 == x,
        ((x & 0x0000_FFFF_FFFF_F000u64) | 1 | (d & !(0x0000_FFFF_FFFF_F000u64 | 1 | 2))) & !(
        0x0000_FFFF_FFFF_F000u64 | 1 | 2) == d & !(0x0000_FFFF_FFFF_F000u64 | 1 | 2),
        ((x & 0x0000_FFFF_FFFF_F000u64) | 1 | (d & !(0x0000_FFFF_FFFF_F000u64 | 1 | 2)) | 2) & !(
        0x0000_FFFF_FFFF_F000u64 | 1 | 2) == d & !(0x0000_FFFF_FFFF_F000u64 | 1 | 2),
{
}

proof fn lemma_dentro(base: u64, v: u64)
    by (bit_vector)
    requires
        base <= v,
        v < 0x80_0000_0000u64,
    ensures
        base % 0x4000_0000 == 0 && v - base < 0x4000_0000 ==> base | (v & 0x3FFF_FFFF) == v,
        base % 0x20_0000 == 0 && v - base < 0x20_0000 ==> base | (v & 0x1F_FFFF) == v,
        base % 0x1000 == 0 && v - base < 0x1000 ==> base | (v & 0xFFF) == v,
{
}

/// What the identity map translates: the devices' GiB and every GiB with
/// memory, each address to itself, but for the page left out.
pub open spec fn na_identidade(regioes: Seq<Regiao>, guarda: Option<u64>, v: u64) -> Option<u64> {
    if v >= LIMITE_VIRTUAL {
        None
    } else if guarda is Some && v / 4096 == guarda->0 / 4096 {
        None
    } else if i1(v) == 0 || gib_de_ram(regioes, i1(v)) {
        Some(v)
    } else {
        None
    }
}

/// The attributes of an address of the identity map: the devices' GiB is device
/// memory that nobody runs, the rest is normal memory that only the kernel runs.
pub open spec fn atributos_da_identidade(v: u64) -> u64 {
    if i1(v) == 0 {
        AF | SH_INTERNO | PXN | UXN
    } else {
        ATTR_NORMAL | AF | SH_INTERNO | UXN
    }
}

proof fn lemma_identidade_sem_guarda(m: &Memoria, raiz: int, regioes: Seq<Regiao>)
    requires
        m.wf(),
        m.contem(raiz),
        identidade(m.quadro(raiz), regioes),
    ensures
        arvore(m, raiz),
        forall|e: int| #[trigger] usado(m, raiz, e) ==> e == raiz,
        forall|v: u64| #[trigger] traduzido(m, raiz, v) == na_identidade(regioes, None, v),
        forall|v: u64| na_identidade(regioes, None, v) is Some ==> #[trigger] atributos_em(m, raiz, v) == Some(
            atributos_da_identidade(v),
        ),
{
    assert forall|v: u64| na_identidade(regioes, None, v) is Some implies #[trigger] atributos_em(
        m,
        raiz,
        v,
    ) == Some(atributos_da_identidade(v)) by {
        lemma_entrada_de_identidade(m, raiz, regioes, i1(v));
    }
    assert forall|a: int| #![trigger nivel2(m, raiz, a)] indice(a) implies nivel2(m, raiz, a) is None by {
        lemma_entrada_de_identidade(m, raiz, regioes, a);
    }
    assert forall|a: int, b: int| #![trigger nivel3(m, raiz, a, b)] indice(a) && indice(b) implies nivel3(
        m,
        raiz,
        a,
        b,
    ) is None by {
        assert(nivel2(m, raiz, a) is None);
    }
    assert forall|v: u64| #[trigger] traduzido(m, raiz, v) == na_identidade(regioes, None, v) by {
        if v < LIMITE_VIRTUAL {
            let a = i1(v);
            lemma_entrada_de_identidade(m, raiz, regioes, a);
            lemma_dentro((a * 0x4000_0000) as u64, v);
        }
    }
}

proof fn lemma_entrada_de_identidade(m: &Memoria, raiz: int, regioes: Seq<Regiao>, a: int)
    requires
        identidade(m.quadro(raiz), regioes),
        indice(a),
    ensures
        ({
            let d = m.quadro(raiz)[a];
            &&& !e_tabela(d)
            &&& valido(d) == (a == 0 || gib_de_ram(regioes, a))
            &&& valido(d) ==> d & TABELA == 0 && alvo(d) == a * 0x4000_0000
            &&& valido(d) ==> atributos(d) == if a == 0 {
                AF | SH_INTERNO | PXN | UXN
            } else {
                ATTR_NORMAL | AF | SH_INTERNO | UXN
            }
        }),
{
    lemma_nulo();
    lemma_uxn();
    let d = m.quadro(raiz)[a];
    lemma_bloco(
        (a * 0x4000_0000) as u64,
        if a == 0 {
            0
        } else {
            4
        },
        if a == 0 {
            0x60_0000_0000_0000u64
        } else {
            0x40_0000_0000_0000u64
        },
    );
}

proof fn lemma_uxn()
    by (bit_vector)
    ensures
        0x20_0000_0000_0000u64 | 0x40_0000_0000_0000u64 == 0x60_0000_0000_0000u64,
        0u64 | 0x400 | 0x300 | 0x60_0000_0000_0000u64 == 0x400u64 | 0x300 | 0x20_0000_0000_0000u64
            | 0x40_0000_0000_0000u64,
{
}

/// Leaves the page at `endereco` without a translation, in the middle of a map
/// of whole GiBs: the block that covers it becomes blocks of 2 MiB, the one of
/// those that covers it becomes pages, and its page becomes nothing.
fn instalar_guard_page(m: &mut Memoria, a: &mut Alocador, raiz: u64, endereco: u64) -> (r: Result<
    u64,
    &'static str,
>)
    requires
        old(m).wf(),
        old(a).wf(),
        old(m).base() + old(m).quadros() * 4096 <= LIMITE_FISICO,
        old(m).contem(raiz as int),
        !old(a).livre_em(raiz),
        endereco < LIMITE_VIRTUAL,
        forall|e: u64| e % 4096 == 0 && #[trigger] old(a).livre_em(e) ==> old(m).contem(e as int),
        valido(old(m).quadro(raiz as int)[i1(endereco)]) ==> alvo(
            old(m).quadro(raiz as int)[i1(endereco)],
        ) == i1(endereco) * 0x4000_0000,
        forall|x: int| #![trigger old(m).quadro(raiz as int)[x]] indice(x) ==> !e_tabela(
            old(m).quadro(raiz as int)[x],
        ),
    ensures
        final(m).wf(),
        final(a).wf(),
        final(m).mesma_faixa(old(m)),
        arvore(final(m), raiz as int),
        livres_fora(final(m), raiz as int, final(a)),
        !final(a).livre_em(raiz),
        match r {
            Ok(e) => {
                &&& e == endereco
                &&& valido(old(m).quadro(raiz as int)[i1(endereco)])
                &&& crate::frames::contar(old(a).livre()) >= 2
            },
            Err(motivo) => if !valido(old(m).quadro(raiz as int)[i1(endereco)]) {
                motivo == "descritor ausente onde se esperava um bloco"
            } else {
                crate::frames::contar(old(a).livre()) < 2 && motivo
                    == "sem frames para refinar o mapeamento"
            },
        },
        forall|v: u64| #[trigger]
            traduzido(final(m), raiz as int, v) == if r is Ok && v / 4096 == endereco / 4096 {
                None
            } else {
                traduzido(old(m), raiz as int, v)
            },
        forall|v: u64|
            v < LIMITE_VIRTUAL && !(r is Ok && v / 4096 == endereco / 4096) ==> #[trigger] atributos_em(
                final(m),
                raiz as int,
                v,
            ) == atributos_em(old(m), raiz as int, v),
        forall|o: u64|
            o != raiz && old(m).contem(o as int) && !old(a).livre_em(o) ==> #[trigger] final(m).quadro(
                o as int,
            ) == old(m).quadro(o as int),
        final(a).mesma_janela(old(a)),
        forall|e: u64| #[trigger] final(a).livre_em(e) ==> old(a).livre_em(e),
        crate::frames::contar(final(a).livre()) == if !valido(
            old(m).quadro(raiz as int)[i1(endereco)],
        ) {
            crate::frames::contar(old(a).livre()) as int
        } else if crate::frames::contar(old(a).livre()) >= 2 {
            crate::frames::contar(old(a).livre()) - 2
        } else {
            0
        },
{
    let (a1, a2, a3) = indices(endereco);
    let ghost m0 = *m;
    let ghost f0 = *a;
    let ghost r0 = raiz as int;
    let ghost d1 = m0.quadro(r0)[a1 as int];
    let base1: u64 = a1 as u64 * 0x4000_0000;
    proof {
        lemma_so_blocos(&m0, r0);
        crate::frames::lemma_contar(f0.livre());
        m0.lemma_quadro(r0);
    }
    let l2: u64 = match refinar(m, a, raiz, a1, base1, 0x20_0000, false) {
        Ok(x) => x,
        Err(motivo) => {
            return Err(motivo);
        },
    };
    let ghost m1 = *m;
    let ghost f1 = *a;
    proof {
        crate::frames::lemma_alocou(&f0, &f1, l2);
        lemma_tabela(l2);
        lemma_refinado2(&m0, &m1, r0, a1 as int, l2);
        assert(usado(&m1, r0, l2 as int));
        crate::frames::lemma_contar(f1.livre());
        assert(m1.quadro(l2 as int)[a2 as int] == parte_do_bloco(
            d1,
            base1 as int,
            0x20_0000,
            false,
            a2 as int,
        ));
        lemma_parte(d1, (base1 + a2 * 0x20_0000) as u64);
    }
    let base2: u64 = base1 + a2 as u64 * 0x20_0000;
    let l3: u64 = match refinar(m, a, l2, a2, base2, 0x1000, true) {
        Ok(x) => x,
        Err(motivo) => {
            return Err(motivo);
        },
    };
    let ghost m2 = *m;
    let ghost f2 = *a;
    proof {
        crate::frames::lemma_alocou(&f1, &f2, l3);
        lemma_tabela(l3);
        lemma_refinado3(&m1, &m2, r0, a1 as int, a2 as int, l2, l3);
        assert(usado(&m2, r0, l3 as int));
    }
    m.escrever(l3, a3, 0);
    proof {
        lemma_nulo();
        lemma_folha(&m2, m, r0, a1 as int, a2 as int, a3 as int, 0);
        lemma_usado_igual(&m2, m, r0);
        assert forall|v: u64| #[trigger] traduzido(m, r0, v) == if v / 4096 == endereco / 4096 {
            None
        } else {
            traduzido(&m0, r0, v)
        } by {
            if v < LIMITE_VIRTUAL {
                if v / 4096 == endereco / 4096 {
                    lemma_mesma_pagina(endereco, v);
                } else {
                    lemma_outra_pagina(endereco, v);
                    assert(resolvido(m, r0, i1(v), i2(v), i3(v)) == resolvido(
                        &m2,
                        r0,
                        i1(v),
                        i2(v),
                        i3(v),
                    ));
                    assert(traduzido(&m2, r0, v) == traduzido(&m1, r0, v));
                    assert(traduzido(&m1, r0, v) == traduzido(&m0, r0, v));
                }
            }
        }
        assert forall|v: u64| v < LIMITE_VIRTUAL && v / 4096 != endereco / 4096 implies #[trigger] atributos_em(
            m,
            r0,
            v,
        ) == atributos_em(&m0, r0, v) by {
            lemma_outra_pagina(endereco, v);
            assert(resolvido(m, r0, i1(v), i2(v), i3(v)) == resolvido(
                &m2,
                r0,
                i1(v),
                i2(v),
                i3(v),
            ));
            assert(atributos_em(&m2, r0, v) == atributos_em(&m1, r0, v));
            assert(atributos_em(&m1, r0, v) == atributos_em(&m0, r0, v));
        }
    }
    Ok(endereco)
}

/// A root of blocks alone has no table under it.
proof fn lemma_so_blocos(m: &Memoria, raiz: int)
    requires
        m.contem(raiz),
        forall|x: int| #![trigger m.quadro(raiz)[x]] indice(x) ==> !e_tabela(m.quadro(raiz)[x]),
    ensures
        arvore(m, raiz),
        forall|e: int| #[trigger] usado(m, raiz, e) ==> e == raiz,
{
    assert forall|a: int| #![trigger nivel2(m, raiz, a)] indice(a) implies nivel2(m, raiz, a) is None by {}
    assert forall|a: int, b: int| #![trigger nivel3(m, raiz, a, b)] indice(a) && indice(b) implies nivel3(
        m,
        raiz,
        a,
        b,
    ) is None by {
        assert(nivel2(m, raiz, a) is None);
    }
}

/// The one block that became blocks of 2 MiB translates as before.
proof fn lemma_refinado2(m: &Memoria, n: &Memoria, raiz: int, a: int, f: u64)
    requires
        m.wf(),
        m.contem(raiz),
        m.contem(f as int),
        f != raiz,
        f < LIMITE_FISICO,
        indice(a),
        n.mesma_faixa(m),
        forall|x: int| #![trigger m.quadro(raiz)[x]] indice(x) ==> !e_tabela(m.quadro(raiz)[x]),
        valido(m.quadro(raiz)[a]),
        alvo(m.quadro(raiz)[a]) == a * 0x4000_0000,
        m.quadro(raiz).len() == ENTRADAS,
        n.quadro(raiz) == m.quadro(raiz).update(a, descritor_de_tabela(f)),
        forall|k: int|
            indice(k) ==> #[trigger] n.quadro(f as int)[k] == parte_do_bloco(
                m.quadro(raiz)[a],
                a * 0x4000_0000,
                0x20_0000,
                false,
                k,
            ),
    ensures
        arvore(n, raiz),
        nivel2(n, raiz, a) == Some(f as int),
        forall|e: int| #[trigger] usado(n, raiz, e) ==> e == raiz || e == f,
        forall|v: u64| #[trigger] traduzido(n, raiz, v) == traduzido(m, raiz, v),
        forall|v: u64|
            v < LIMITE_VIRTUAL ==> #[trigger] atributos_em(n, raiz, v) == atributos_em(m, raiz, v),
        forall|x: int| #![trigger nivel2(n, raiz, x)] indice(x) && x != a ==> nivel2(n, raiz, x) is None,
        forall|x: int, y: int| #![trigger nivel3(n, raiz, x, y)]
            indice(x) && indice(y) ==> nivel3(n, raiz, x, y) is None,
{
    lemma_tabela(f);
    let d = m.quadro(raiz)[a];
    assert forall|x: int| #![trigger nivel2(n, raiz, x)] indice(x) implies nivel2(n, raiz, x) == if x
        == a {
        Some(f as int)
    } else {
        None
    } by {
        assert(!e_tabela(m.quadro(raiz)[x]));
    }
    assert forall|x: int, y: int| #![trigger nivel3(n, raiz, x, y)] indice(x) && indice(y) implies nivel3(
        n,
        raiz,
        x,
        y,
    ) is None by {
        assert(nivel2(n, raiz, x) == if x == a {
            Some(f as int)
        } else {
            None
        });
        if x == a {
            assert(n.quadro(f as int)[y] == parte_do_bloco(d, a * 0x4000_0000, 0x20_0000, false, y));
            lemma_parte(d, (a * 0x4000_0000 + y * 0x20_0000) as u64);
        }
    }
    assert forall|v: u64| #[trigger] traduzido(n, raiz, v) == traduzido(m, raiz, v) by {
        if v < LIMITE_VIRTUAL && i1(v) == a {
            let y = i2(v);
            let base2 = (a * 0x4000_0000 + y * 0x20_0000) as u64;
            assert(n.quadro(f as int)[y] == parte_do_bloco(d, a * 0x4000_0000, 0x20_0000, false, y));
            lemma_parte(d, base2);
            assert(!e_tabela(d));
            lemma_dentro((a * 0x4000_0000) as u64, v);
            lemma_dentro(base2, v);
        }
    }
    assert forall|v: u64| v < LIMITE_VIRTUAL implies #[trigger] atributos_em(n, raiz, v) == atributos_em(
        m,
        raiz,
        v,
    ) by {
        if i1(v) == a {
            let y = i2(v);
            assert(n.quadro(f as int)[y] == parte_do_bloco(d, a * 0x4000_0000, 0x20_0000, false, y));
            lemma_parte(d, (a * 0x4000_0000 + y * 0x20_0000) as u64);
            assert(!e_tabela(d));
        }
    }
}

/// The one block of 2 MiB that became pages translates as before.
proof fn lemma_refinado3(m: &Memoria, n: &Memoria, raiz: int, a: int, b: int, l2: u64, f: u64)
    requires
        m.wf(),
        arvore(m, raiz),
        nivel2(m, raiz, a) == Some(l2 as int),
        forall|x: int| #![trigger nivel2(m, raiz, x)] indice(x) && x != a ==> nivel2(m, raiz, x) is None,
        forall|x: int, y: int| #![trigger nivel3(m, raiz, x, y)]
            indice(x) && indice(y) ==> nivel3(m, raiz, x, y) is None,
        m.contem(f as int),
        f != raiz,
        f != l2,
        f < LIMITE_FISICO,
        indice(a),
        indice(b),
        n.mesma_faixa(m),
        valido(m.quadro(l2 as int)[b]),
        !e_tabela(m.quadro(l2 as int)[b]),
        alvo(m.quadro(l2 as int)[b]) == a * 0x4000_0000 + b * 0x20_0000,
        n.quadro(l2 as int) == m.quadro(l2 as int).update(b, descritor_de_tabela(f)),
        forall|k: int|
            indice(k) ==> #[trigger] n.quadro(f as int)[k] == parte_do_bloco(
                m.quadro(l2 as int)[b],
                a * 0x4000_0000 + b * 0x20_0000,
                0x1000,
                true,
                k,
            ),
        forall|o: int| o != f && o != l2 && m.contem(o) ==> #[trigger] n.quadro(o) == m.quadro(o),
    ensures
        arvore(n, raiz),
        nivel3(n, raiz, a, b) == Some(f as int),
        forall|e: int| #[trigger] usado(n, raiz, e) ==> e == raiz || e == l2 || e == f,
        forall|v: u64| #[trigger] traduzido(n, raiz, v) == traduzido(m, raiz, v),
        forall|v: u64|
            v < LIMITE_VIRTUAL ==> #[trigger] atributos_em(n, raiz, v) == atributos_em(m, raiz, v),
{
    lemma_tabela(f);
    m.lemma_quadro(l2 as int);
    let d = m.quadro(l2 as int)[b];
    assert(l2 as int != raiz);
    assert(n.quadro(raiz) == m.quadro(raiz));
    assert forall|x: int| #![trigger nivel2(n, raiz, x)] indice(x) implies nivel2(n, raiz, x)
        == nivel2(m, raiz, x) by {}
    assert forall|x: int, y: int| #![trigger nivel3(n, raiz, x, y)] indice(x) && indice(y) implies nivel3(
        n,
        raiz,
        x,
        y,
    ) == if x == a && y == b {
        Some(f as int)
    } else {
        None
    } by {
        assert(nivel2(n, raiz, x) == nivel2(m, raiz, x));
        assert(nivel3(m, raiz, x, y) is None);
    }
    assert forall|v: u64| #[trigger] traduzido(n, raiz, v) == traduzido(m, raiz, v) by {
        if v < LIMITE_VIRTUAL && i1(v) == a && i2(v) == b {
            let z = i3(v);
            let base3 = (a * 0x4000_0000 + b * 0x20_0000 + z * 0x1000) as u64;
            assert(n.quadro(f as int)[z] == parte_do_bloco(
                d,
                a * 0x4000_0000 + b * 0x20_0000,
                0x1000,
                true,
                z,
            ));
            lemma_parte(d, base3);
            assert(nivel2(n, raiz, a) == Some(l2 as int));
            assert(nivel3(n, raiz, a, b) == Some(f as int));
            lemma_indices(v);
            lemma_dentro((a * 0x4000_0000 + b * 0x20_0000) as u64, v);
            lemma_dentro(base3, v);
        } else if v < LIMITE_VIRTUAL {
            assert(nivel2(n, raiz, i1(v)) == nivel2(m, raiz, i1(v)));
            assert(nivel3(m, raiz, i1(v), i2(v)) is None);
            assert(nivel3(n, raiz, i1(v), i2(v)) is None);
        }
    }
    assert forall|v: u64| v < LIMITE_VIRTUAL implies #[trigger] atributos_em(n, raiz, v) == atributos_em(
        m,
        raiz,
        v,
    ) by {
        assert(nivel2(n, raiz, i1(v)) == nivel2(m, raiz, i1(v)));
        assert(nivel3(m, raiz, i1(v), i2(v)) is None);
        if i1(v) == a && i2(v) == b {
            let z = i3(v);
            assert(n.quadro(f as int)[z] == parte_do_bloco(
                d,
                a * 0x4000_0000 + b * 0x20_0000,
                0x1000,
                true,
                z,
            ));
            lemma_parte(d, (a * 0x4000_0000 + b * 0x20_0000 + z * 0x1000) as u64);
            assert(nivel3(n, raiz, a, b) == Some(f as int));
        } else {
            assert(nivel3(n, raiz, i1(v), i2(v)) is None);
        }
    }
}

/// An address is the sum of what its indices say.
proof fn lemma_indices(v: u64)
    requires
        v < LIMITE_VIRTUAL,
    ensures
        v == i1(v) * 0x4000_0000 + i2(v) * 0x20_0000 + i3(v) * 0x1000 + v % 4096,
{
    let p = v as int / 4096;
    assert(v as int / 0x20_0000 == p / 512);
    assert(v as int / 0x4000_0000 == p / 262144);
    assert(p == (p / 262144) * 262144 + ((p / 512) % 512) * 512 + p % 512);
}

/// Builds the identity map in the frame `raiz` and activates it: the devices'
/// GiB, every GiB with memory, and a hole at `guarda`, the page just below the
/// kernel's stack. Returns the page left out, or why none was.
pub fn init(mmu: &mut Mmu, a: &mut Alocador, maquina: &Maquina, raiz: u64, guarda: u64) -> (r: Result<
    u64,
    &'static str,
>)
    requires
        !old(mmu).ativa,
        old(mmu).wf(old(a)),
        maquina.wf(),
        old(mmu).memoria.contem(raiz as int),
        !old(a).livre_em(raiz),
        guarda < LIMITE_VIRTUAL,
    ensures
        final(mmu).ativa,
        final(mmu).wf(final(a)),
        final(mmu).nucleo_wf(final(a)),
        final(mmu).raiz == raiz,
        final(mmu).raiz_do_kernel == raiz,
        ({
            let coberta = i1(guarda) == 0 || gib_de_ram(maquina.regioes(), i1(guarda));
            match r {
                Ok(e) => e == guarda && coberta && crate::frames::contar(old(a).livre()) >= 2,
                Err(motivo) => if !coberta {
                    motivo == "descritor ausente onde se esperava um bloco"
                } else {
                    crate::frames::contar(old(a).livre()) < 2 && motivo
                        == "sem frames para refinar o mapeamento"
                },
            }
        }),
        forall|v: u64| #[trigger]
            traduzido(&final(mmu).memoria, raiz as int, v) == na_identidade(
                maquina.regioes(),
                if r is Ok {
                    Some(guarda)
                } else {
                    None
                },
                v,
            ),
        forall|v: u64|
            na_identidade(
                maquina.regioes(),
                if r is Ok {
                    Some(guarda)
                } else {
                    None
                },
                v,
            ) is Some ==> #[trigger] atributos_em(&final(mmu).memoria, raiz as int, v) == Some(
                atributos_da_identidade(v),
            ),
        final(mmu).memoria.mesma_faixa(&old(mmu).memoria),
        forall|o: u64|
            o != raiz && old(mmu).memoria.contem(o as int) && !old(a).livre_em(o)
                ==> #[trigger] final(mmu).memoria.quadro(o as int) == old(mmu).memoria.quadro(o as int),
        final(a).mesma_janela(old(a)),
        forall|e: u64| #[trigger] final(a).livre_em(e) ==> old(a).livre_em(e),
        crate::frames::contar(final(a).livre()) == if !(i1(guarda) == 0 || gib_de_ram(
            maquina.regioes(),
            i1(guarda),
        )) {
            crate::frames::contar(old(a).livre()) as int
        } else if crate::frames::contar(old(a).livre()) >= 2 {
            crate::frames::contar(old(a).livre()) - 2
        } else {
            0
        },
{
    let regioes = crate::machine::com_regioes(maquina);
    let ghost r0 = raiz as int;
    let ghost inicial = mmu.memoria;
    mmu.memoria.zerar(raiz);
    let dispositivos: u64 = bloco(0, 0, PXN | UXN);
    mmu.memoria.escrever(raiz, 0, dispositivos);
    let mut k: usize = 0;
    proof {
        assert forall|i: int| #![trigger mmu.memoria.quadro(r0)[i]] indice(i) implies mmu.memoria.quadro(
            r0,
        )[i] == if i == 0 {
            bloco_spec(0, 0, PXN | UXN)
        } else if gib_de_ram(regioes@.take(0), i) {
            bloco_spec((i * 0x4000_0000) as u64, ATTR_NORMAL, UXN)
        } else {
            0
        } by {}
    }
    while k < regioes.len()
        invariant
            k <= regioes@.len(),
            regioes@ == maquina.regioes(),
            maquina.wf(),
            r0 == raiz,
            mmu.memoria.wf(),
            mmu.memoria.mesma_faixa(&inicial),
            inicial.contem(r0),
            !mmu.ativa,
            forall|o: int|
                o != r0 && inicial.contem(o) ==> #[trigger] mmu.memoria.quadro(o) == inicial.quadro(o),
            identidade(mmu.memoria.quadro(r0), regioes@.take(k as int)),
        decreases regioes@.len() - k,
    {
        let regiao: Regiao = regioes[k];
        let ghost antes = regioes@.take(k as int);
        let ghost depois = regioes@.take(k + 1);
        proof {
            assert(maquina.regioes()[k as int].valida());
            assert forall|i: int| gib_de_ram(depois, i) == (gib_de_ram(antes, i) || (regiao.tipo
                == TipoRegiao::Utilizavel && regiao.inicio as int / 0x4000_0000 <= i <= (regiao.fim - 1)
                / 0x4000_0000)) by {
                lemma_gib_de_ram(regioes@, k as int, i);
            }
        }
        if regiao.tipo == TipoRegiao::Utilizavel {
            let primeiro: u64 = regiao.inicio / 0x4000_0000;
            let ultimo: u64 = (regiao.fim - 1) / 0x4000_0000;
            let mut i: u64 = primeiro;
            while i <= ultimo && i < ENTRADAS as u64
                invariant
                    primeiro <= i,
                    i <= ultimo + 1 || i == primeiro,
                    ultimo < 0x4_0000_0000,
                    r0 == raiz,
                    mmu.memoria.wf(),
                    mmu.memoria.mesma_faixa(&inicial),
                    inicial.contem(r0),
                    !mmu.ativa,
                    forall|o: int|
                        o != r0 && inicial.contem(o) ==> #[trigger] mmu.memoria.quadro(o)
                            == inicial.quadro(o),
                    mmu.memoria.quadro(r0).len() == ENTRADAS,
                    forall|j: int| #![trigger mmu.memoria.quadro(r0)[j]]
                        indice(j) ==> mmu.memoria.quadro(r0)[j] == if j == 0 {
                            bloco_spec(0, 0, PXN | UXN)
                        } else if gib_de_ram(antes, j) || primeiro <= j <= i - 1 {
                            bloco_spec((j * 0x4000_0000) as u64, ATTR_NORMAL, UXN)
                        } else {
                            0
                        },
                decreases ultimo + 1 - i,
            {
                if i != 0 {
                    let atual: u64 = mmu.memoria.ler(raiz, i as usize);
                    if atual == 0 {
                        let novo: u64 = bloco(i * 0x4000_0000, ATTR_NORMAL, UXN);
                        mmu.memoria.escrever(raiz, i as usize, novo);
                    } else {
                        proof {
                            assert(gib_de_ram(antes, i as int));
                        }
                    }
                }
                i = i + 1;
            }
        }
        proof {
            assert(identidade(mmu.memoria.quadro(r0), depois));
        }
        k = k + 1;
    }
    proof {
        assert(regioes@.take(k as int) =~= regioes@);
        lemma_identidade_sem_guarda(&mmu.memoria, r0, regioes@);
        assert forall|x: int| #![trigger mmu.memoria.quadro(r0)[x]] indice(x) implies !e_tabela(
            mmu.memoria.quadro(r0)[x],
        ) by {
            lemma_entrada_de_identidade(&mmu.memoria, r0, regioes@, x);
        }
        lemma_entrada_de_identidade(&mmu.memoria, r0, regioes@, i1(guarda));
    }
    let r = instalar_guard_page(&mut mmu.memoria, a, raiz, guarda);
    mmu.raiz = raiz;
    mmu.raiz_do_kernel = raiz;
    mmu.ativa = true;
    r
}

proof fn lemma_gib_de_ram(s: Seq<Regiao>, k: int, i: int)
    requires
        0 <= k < s.len(),
    ensures
        gib_de_ram(s.take(k + 1), i) == (gib_de_ram(s.take(k), i) || (s[k].tipo
            == TipoRegiao::Utilizavel && s[k].inicio as int / 0x4000_0000 <= i <= (s[k].fim - 1)
            / 0x4000_0000)),
{
    let antes = s.take(k);
    let depois = s.take(k + 1);
    if gib_de_ram(antes, i) {
        let q = choose|q: int|
            0 <= q < antes.len() && (#[trigger] antes[q]).tipo == TipoRegiao::Utilizavel
                && antes[q].inicio as int / 0x4000_0000 <= i <= (antes[q].fim - 1) / 0x4000_0000;
        assert(depois[q] == antes[q]);
    }
    if gib_de_ram(depois, i) {
        let q = choose|q: int|
            0 <= q < depois.len() && (#[trigger] depois[q]).tipo == TipoRegiao::Utilizavel
                && depois[q].inicio as int / 0x4000_0000 <= i <= (depois[q].fim - 1) / 0x4000_0000;
        if q < k {
            assert(antes[q] == depois[q]);
        }
    }
    assert(depois[k] == s[k]);
}

/// Translates by another root from now on.
pub fn trocar_espaco(mmu: &mut Mmu, a: &Alocador, raiz: u64)
    requires
        old(mmu).wf(a),
        old(mmu).ativa,
        arvore(&old(mmu).memoria, raiz as int),
        livres_fora(&old(mmu).memoria, raiz as int, a),
        old(mmu).raiz_do_kernel == raiz || !usado(
            &old(mmu).memoria,
            raiz as int,
            old(mmu).raiz_do_kernel as int,
        ),
    ensures
        final(mmu).wf(a),
        final(mmu).raiz == raiz,
        final(mmu).raiz_do_kernel == old(mmu).raiz_do_kernel,
        final(mmu).ativa,
        final(mmu).memoria == old(mmu).memoria,
{
    mmu.raiz = raiz;
}

/// The frame of the page that holds an address and what it allows, where a
/// page translates it.
pub open spec fn pagina_de(mmu: &Mmu, v: u64) -> Option<(u64, Permissoes)> {
    if v >= LIMITE_VIRTUAL || !mmu.ativa {
        None
    } else {
        match mmu.pagina(v) {
            Resolucao::Pagina(d) => Some((d & MASCARA_ENDERECO, efetivas(d))),
            _ => None,
        }
    }
}

/// Where only the page of `v` changed, every other address is in the same
/// frame as before.
proof fn lemma_outras_paginas(depois: &Mmu, antes: &Mmu, v: u64, w: u64)
    requires
        depois.raiz == antes.raiz,
        depois.ativa == antes.ativa,
        depois.ativa ==> depois.so_muda(antes, v),
        v < LIMITE_VIRTUAL,
        w / 4096 != v / 4096,
    ensures
        pagina_de(depois, w) == pagina_de(antes, w),
{
    if w < LIMITE_VIRTUAL && depois.ativa {
        lemma_outra_pagina(v, w);
        assert(resolvido(&depois.memoria, depois.raiz as int, i1(w), i2(w), i3(w)) == resolvido(
            &antes.memoria,
            antes.raiz as int,
            i1(w),
            i2(w),
            i3(w),
        ));
    }
}

impl Tradutor for Mmu {
    open spec fn wf(&self, a: &Alocador) -> bool {
        self.wf(a)
    }

    open spec fn pagina_de(&self, v: u64) -> Option<(u64, Permissoes)> {
        pagina_de(self, v)
    }

    open spec fn recusa_mapear(&self, a: &Alocador, v: u64, f: u64) -> Option<&'static str> {
        self.recusa(a, v, f)
    }

    open spec fn recusa_desmapear(&self, v: u64) -> Option<&'static str> {
        self.recusa_desmapear(v)
    }

    open spec fn vago(&self, v: u64) -> bool {
        self.ativa && v % 4096 == 0 && v < LIMITE_VIRTUAL && self.pagina(v) is Nada
    }

    open spec fn nomeavel(f: u64) -> bool {
        f % 4096 == 0 && f < LIMITE_FISICO
    }

    open spec fn conteudo(&self, f: u64) -> Seq<u64> {
        self.memoria.quadro(f as int)
    }

    open spec fn disponivel(&self, f: u64) -> bool {
        self.memoria.contem(f as int) && (self.ativa ==> !usado(
            &self.memoria,
            self.raiz as int,
            f as int,
        ) && f != self.raiz_do_kernel)
    }

    proof fn lemma_aceita(&self, a: &Alocador, v: u64, f: u64) {
    }

    proof fn lemma_nomeavel(&self, a: &Alocador, f: u64) {
    }

    proof fn lemma_livre(&self, a: &Alocador, f: u64) {
    }

    proof fn lemma_alocar(&self, a: &Alocador, b: &Alocador, f: u64) {
        crate::frames::lemma_alocou(a, b, f);
    }

    proof fn lemma_liberar(&self, a: &Alocador, b: &Alocador, f: u64) {
        crate::frames::lemma_liberou(a, b, f);
    }

    proof fn lemma_desmapear(&self, a: &Alocador, v: u64) {
    }

    proof fn lemma_alinhado(&self, f: u64) {
    }

    proof fn lemma_wf(&self, a: &Alocador) {
    }

    #[verifier::rlimit(40)]
    fn mapear_frame(
        &mut self,
        a: &mut Alocador,
        virtual_: u64,
        fisico: u64,
        permissoes: Permissoes,
    ) -> (r: Result<(), &'static str>) {
        let ghost antes = *self;
        let r = mapear_frame(self, a, virtual_, fisico, permissoes);
        proof {
            if r is Ok {
                lemma_pagina(
                    fisico,
                    permissoes.escrita,
                    permissoes.executavel,
                    permissoes.dispositivo,
                    permissoes.usuario,
                );
            }
            assert forall|w: u64| #[trigger] pagina_de(self, w) == if r is Ok && w / 4096 == virtual_
                / 4096 {
                Some((fisico, permissoes))
            } else {
                pagina_de(&antes, w)
            } by {
                if virtual_ < LIMITE_VIRTUAL {
                    if w / 4096 == virtual_ / 4096 {
                        lemma_mesma_pagina(virtual_, w);
                    } else {
                        lemma_outras_paginas(self, &antes, virtual_, w);
                    }
                } else {
                    lemma_recusado(self, &antes, virtual_, w);
                }
            }
            assert forall|w: u64| antes.vago(w) && (r is Err || w / 4096 != virtual_ / 4096) implies #[trigger] self.vago(
                w,
            ) by {
                if i1(w) != i1(virtual_) || i2(w) != i2(virtual_) || i3(w) != i3(virtual_) {
                    assert(resolvido(&self.memoria, self.raiz as int, i1(w), i2(w), i3(w))
                        == resolvido(&antes.memoria, antes.raiz as int, i1(w), i2(w), i3(w)));
                } else if r is Ok {
                    lemma_outra_pagina(virtual_, w);
                }
            }
        }
        r
    }

    fn desmapear(&mut self, a: &mut Alocador, virtual_: u64) -> (r: Result<u64, &'static str>) {
        let ghost antes = *self;
        let r = desmapear(self, a, virtual_);
        proof {
            if let Ok(f) = r {
                if let Resolucao::Pagina(d) = antes.pagina(virtual_) {
                    lemma_alvo_alinhado(d);
                }
                assert forall|w: u64| #[trigger] pagina_de(self, w) == if w / 4096 == virtual_ / 4096 {
                    None
                } else {
                    pagina_de(&antes, w)
                } by {
                    if w / 4096 == virtual_ / 4096 {
                        lemma_mesma_pagina(virtual_, w);
                    } else {
                        lemma_outras_paginas(self, &antes, virtual_, w);
                    }
                }
                assert forall|w: u64| antes.vago(w) implies #[trigger] self.vago(w) by {
                    if i1(w) != i1(virtual_) || i2(w) != i2(virtual_) || i3(w) != i3(virtual_) {
                        assert(resolvido(&self.memoria, self.raiz as int, i1(w), i2(w), i3(w))
                            == resolvido(&antes.memoria, antes.raiz as int, i1(w), i2(w), i3(w)));
                    }
                }
            }
        }
        r
    }

    fn zerar(&mut self, a: &Alocador, f: u64) {
        let ghost antes = *self;
        self.memoria.zerar(f);
        proof {
            if antes.ativa {
                lemma_intocada(&antes.memoria, &self.memoria, antes.raiz as int, f as int);
                lemma_mesmas_tabelas(&antes.memoria, &self.memoria, antes.raiz as int);
            }
            assert forall|w: u64| #[trigger] pagina_de(self, w) == pagina_de(&antes, w) by {
                assert(antes.ativa ==> resolvido(&self.memoria, self.raiz as int, i1(w), i2(w), i3(w)) == resolvido(
                    &antes.memoria,
                    antes.raiz as int,
                    i1(w),
                    i2(w),
                    i3(w),
                ));
            }
            assert forall|w: u64| #[trigger] self.vago(w) == antes.vago(w) by {
                assert(antes.ativa ==> resolvido(&self.memoria, self.raiz as int, i1(w), i2(w), i3(w)) == resolvido(
                    &antes.memoria,
                    antes.raiz as int,
                    i1(w),
                    i2(w),
                    i3(w),
                ));
            }
            assert forall|b: Alocador, v: u64, g: u64| #[trigger]
                self.recusa(&b, v, g) == antes.recusa(&b, v, g) by {
                assert(antes.ativa ==> resolvido(&self.memoria, self.raiz as int, i1(v), i2(v), i3(v)) == resolvido(
                    &antes.memoria,
                    antes.raiz as int,
                    i1(v),
                    i2(v),
                    i3(v),
                ));
                assert(antes.ativa ==> nivel3(&self.memoria, self.raiz as int, i1(v), i2(v)) == nivel3(
                    &antes.memoria,
                    antes.raiz as int,
                    i1(v),
                    i2(v),
                ));
            }
        }
    }
}

/// A refused mapping beyond the virtual space changed no page.
proof fn lemma_recusado(depois: &Mmu, antes: &Mmu, v: u64, w: u64)
    requires
        depois.raiz == antes.raiz,
        depois.ativa == antes.ativa,
        depois.ativa ==> depois.so_muda(antes, v),
        depois.ativa ==> depois.pagina(v) == antes.pagina(v),
    ensures
        pagina_de(depois, w) == pagina_de(antes, w),
{
    if w < LIMITE_VIRTUAL && depois.ativa {
        if i1(w) != i1(v) || i2(w) != i2(v) || i3(w) != i3(v) {
            assert(resolvido(&depois.memoria, depois.raiz as int, i1(w), i2(w), i3(w)) == resolvido(
                &antes.memoria,
                antes.raiz as int,
                i1(w),
                i2(w),
                i3(w),
            ));
        }
    }
}

/// The same tables, seen from the other side.
proof fn lemma_mesmas_tabelas(m: &Memoria, n: &Memoria, raiz: int)
    requires
        forall|x: int| #![trigger nivel2(n, raiz, x)]
            indice(x) ==> nivel2(n, raiz, x) == nivel2(m, raiz, x),
        forall|x: int, y: int| #![trigger nivel3(n, raiz, x, y)]
            indice(x) && indice(y) ==> nivel3(n, raiz, x, y) == nivel3(m, raiz, x, y),
    ensures
        forall|e: int| #[trigger] usado(m, raiz, e) ==> usado(n, raiz, e),
        forall|e: int| #[trigger] usado(n, raiz, e) ==> usado(m, raiz, e),
{
    lemma_usado_igual(m, n, raiz);
    assert forall|x: int| indice(x) && (#[trigger] nivel2(m, raiz, x)) is Some implies nivel2(n, raiz, x)
        == nivel2(m, raiz, x) by {
        assert(nivel2(n, raiz, x) == nivel2(m, raiz, x));
    }
    assert forall|x: int, y: int| indice(x) && indice(y) && (#[trigger] nivel3(m, raiz, x, y)) is Some implies nivel3(
        n,
        raiz,
        x,
        y,
    ) == nivel3(m, raiz, x, y) by {
        assert(nivel3(n, raiz, x, y) == nivel3(m, raiz, x, y));
    }
    lemma_usado_cresce(m, n, raiz);
}

/// An empty descriptor reaches nothing.
pub proof fn lemma_descritor_nulo()
    ensures
        !valido(0),
        !e_tabela(0),
{
    lemma_nulo();
}

/// Where memory changed only in a frame that holds no table of the active
/// root, every page is where it was and the same frames hold tables.
pub proof fn lemma_fora_das_tabelas(antes: &Mmu, depois: &Mmu, f: u64)
    requires
        antes.ativa,
        arvore(&antes.memoria, antes.raiz as int),
        depois.mesmas_raizes(antes),
        !usado(&antes.memoria, antes.raiz as int, f as int),
        forall|o: int|
            o != f && antes.memoria.contem(o) ==> #[trigger] depois.memoria.quadro(o)
                == antes.memoria.quadro(o),
    ensures
        forall|w: u64| #[trigger] Tradutor::pagina_de(depois, w) == Tradutor::pagina_de(antes, w),
        forall|e: u64| #[trigger] Tradutor::disponivel(depois, e) == Tradutor::disponivel(antes, e),
{
    lemma_intocada(&antes.memoria, &depois.memoria, antes.raiz as int, f as int);
    lemma_mesmas_tabelas(&antes.memoria, &depois.memoria, antes.raiz as int);
    assert forall|w: u64| #[trigger] Tradutor::pagina_de(depois, w) == Tradutor::pagina_de(antes, w) by {
        assert(resolvido(&depois.memoria, depois.raiz as int, i1(w), i2(w), i3(w)) == resolvido(
            &antes.memoria,
            antes.raiz as int,
            i1(w),
            i2(w),
            i3(w),
        ));
    }
}

/// A frame that was free holds no table of the active root, also after the
/// memory changed in that frame alone.
pub proof fn lemma_livre_nao_usada(antes: &Mmu, a: &Alocador, depois: &Mmu, f: u64)
    requires
        antes.wf(a),
        antes.ativa,
        depois.raiz == antes.raiz,
        depois.memoria.wf(),
        a.livre_em(f),
        f % 4096 == 0,
        antes.memoria.mesma_faixa(&depois.memoria),
        forall|o: int|
            o != f && antes.memoria.contem(o) ==> #[trigger] depois.memoria.quadro(o)
                == antes.memoria.quadro(o),
    ensures
        antes.memoria.contem(f as int),
        !usado(&depois.memoria, depois.raiz as int, f as int),
{
    lemma_intocada(&antes.memoria, &depois.memoria, antes.raiz as int, f as int);
    lemma_mesmas_tabelas(&antes.memoria, &depois.memoria, antes.raiz as int);
}

/// The page that a descriptor of the last level describes.
spec fn pagina_do_descritor(d: u64, v: int) -> PaginaDeUsuario {
    PaginaDeUsuario {
        virtual_: v as u64,
        fisico: d & MASCARA_ENDERECO,
        permissoes: permissoes_spec(d),
    }
}

/// The pages of a table come in the order of their addresses, all within what the
/// table covers; each valid entry has its page there.
proof fn lemma_tabela_em_ordem(t: Seq<u64>, base: int, n: int)
    requires
        0 <= base,
        0 <= n <= 512,
        base + 0x20_0000 <= u64::MAX,
    ensures
        ({
            let s = paginas_da_tabela(t, base, n);
            &&& forall|k: int|
                0 <= k < s.len() ==> base <= (#[trigger] s[k]).virtual_ < base + n * 0x1000
            &&& forall|j: int, k: int|
                0 <= j < k < s.len() ==> (#[trigger] s[j]).virtual_ < (#[trigger] s[k]).virtual_
            &&& forall|i: int|
                0 <= i < n && e_tabela(#[trigger] t[i]) ==> s.contains(
                    pagina_do_descritor(t[i], base + i * 0x1000),
                )
        }),
    decreases n,
{
    if n > 0 {
        lemma_tabela_em_ordem(t, base, n - 1);
        let antes = paginas_da_tabela(t, base, n - 1);
        let s = paginas_da_tabela(t, base, n);
        assert forall|i: int| 0 <= i < n && e_tabela(#[trigger] t[i]) implies s.contains(
            pagina_do_descritor(t[i], base + i * 0x1000),
        ) by {
            let x = pagina_do_descritor(t[i], base + i * 0x1000);
            if i == n - 1 {
                assert(s[antes.len() as int] == x);
            } else {
                assert(antes.contains(x));
                let k = antes.index_of(x);
                assert(s[k] == x);
            }
        }
    }
}

proof fn lemma_de_que_entrada(t: Seq<u64>, base: int, n: int, x: PaginaDeUsuario) -> (i: int)
    requires
        paginas_da_tabela(t, base, n).contains(x),
    ensures
        0 <= i < n,
        e_tabela(t[i]),
        x == pagina_do_descritor(t[i], base + i * 0x1000),
    decreases n,
{
    let s = paginas_da_tabela(t, base, n);
    let antes = paginas_da_tabela(t, base, n - 1);
    let k = s.index_of(x);
    if k < antes.len() {
        assert(antes[k] == s[k]);
        assert(antes.contains(x));
        lemma_de_que_entrada(t, base, n - 1, x)
    } else {
        n - 1
    }
}

proof fn lemma_nivel2_em_ordem(m: &Memoria, t: Seq<u64>, base: int, n: int)
    requires
        0 <= base,
        0 <= n <= 512,
        base + 0x4000_0000 <= u64::MAX,
    ensures
        ({
            let s = paginas_do_nivel2(m, t, base, n);
            &&& forall|k: int|
                0 <= k < s.len() ==> base <= (#[trigger] s[k]).virtual_ < base + n * 0x20_0000
            &&& forall|j: int, k: int|
                0 <= j < k < s.len() ==> (#[trigger] s[j]).virtual_ < (#[trigger] s[k]).virtual_
            &&& forall|i: int, x: PaginaDeUsuario|
                0 <= i < n && e_tabela(#[trigger] t[i]) && (#[trigger] paginas_da_tabela(
                    m.quadro(alvo(t[i])),
                    base + i * 0x20_0000,
                    512,
                ).contains(x)) ==> s.contains(x)
        }),
    decreases n,
{
    if n > 0 {
        lemma_nivel2_em_ordem(m, t, base, n - 1);
        let antes = paginas_do_nivel2(m, t, base, n - 1);
        let s = paginas_do_nivel2(m, t, base, n);
        let d = t[n - 1];
        let b = base + (n - 1) * 0x20_0000;
        let abaixo = paginas_da_tabela(m.quadro(alvo(d)), b, 512);
        lemma_tabela_em_ordem(m.quadro(alvo(d)), b, 512);
        if e_tabela(d) {
            assert(s == antes + abaixo);
            assert forall|k: int| 0 <= k < s.len() implies base <= (#[trigger] s[k]).virtual_ < base
                + n * 0x20_0000 by {
                if k < antes.len() {
                    assert(s[k] == antes[k]);
                } else {
                    assert(s[k] == abaixo[k - antes.len()]);
                }
            }
            assert forall|j: int, k: int| 0 <= j < k < s.len() implies (#[trigger] s[j]).virtual_ < (
            #[trigger] s[k]).virtual_ by {
                if k < antes.len() {
                    assert(s[k] == antes[k] && s[j] == antes[j]);
                } else if j < antes.len() {
                    assert(s[j] == antes[j] && s[k] == abaixo[k - antes.len()]);
                } else {
                    assert(s[j] == abaixo[j - antes.len()] && s[k] == abaixo[k - antes.len()]);
                }
            }
        }
        assert forall|i: int, x: PaginaDeUsuario|
            0 <= i < n && e_tabela(#[trigger] t[i]) && (#[trigger] paginas_da_tabela(
                m.quadro(alvo(t[i])),
                base + i * 0x20_0000,
                512,
            ).contains(x)) implies s.contains(x) by {
            if i == n - 1 {
                let k = abaixo.index_of(x);
                assert(s[antes.len() + k] == x);
            } else {
                assert(antes.contains(x));
                let k = antes.index_of(x);
                assert(s[k] == x);
            }
        }
    }
}

proof fn lemma_de_que_tabela(m: &Memoria, t: Seq<u64>, base: int, n: int, x: PaginaDeUsuario) -> (i:
    int)
    requires
        paginas_do_nivel2(m, t, base, n).contains(x),
    ensures
        0 <= i < n,
        e_tabela(t[i]),
        paginas_da_tabela(m.quadro(alvo(t[i])), base + i * 0x20_0000, 512).contains(x),
    decreases n,
{
    let s = paginas_do_nivel2(m, t, base, n);
    let antes = paginas_do_nivel2(m, t, base, n - 1);
    let k = s.index_of(x);
    if k < antes.len() {
        assert(antes[k] == s[k]);
        assert(antes.contains(x));
        lemma_de_que_tabela(m, t, base, n - 1, x)
    } else {
        let abaixo = paginas_da_tabela(
            m.quadro(alvo(t[n - 1])),
            base + (n - 1) * 0x20_0000,
            512,
        );
        assert(abaixo[k - antes.len()] == x);
        n - 1
    }
}

/// No page of a process is left out: where the descriptors on the way lead to
/// tables and the last one is a page's, the page is listed, once, with the address
/// that its place in the tables gives, the frame and the permissions that its
/// descriptor holds.
pub proof fn lei_nenhuma_pagina_falta(m: &Memoria, raiz: int, entrada: int, b: int, c: int)
    requires
        0 <= entrada < 512,
        0 <= b < 512,
        0 <= c < 512,
    ensures
        ({
            let d1 = m.quadro(raiz)[entrada];
            let d2 = m.quadro((d1 & 0x0000_FFFF_FFFF_F000) as int)[b];
            let d3 = m.quadro((d2 & 0x0000_FFFF_FFFF_F000) as int)[c];
            let v = entrada * 0x4000_0000 + b * 0x20_0000 + c * 0x1000;
            let s = paginas_do_usuario(m, raiz, entrada);
            d1 & 1 != 0 && d1 & 2 != 0 && d2 & 1 != 0 && d2 & 2 != 0 && d3 & 1 != 0 && d3 & 2 != 0
                ==> exists|k: int|
                0 <= k < s.len() && (#[trigger] s[k]).virtual_ == v && s[k].fisico == d3
                    & 0x0000_FFFF_FFFF_F000 && s[k].permissoes.escrita == (d3 & 0x80 == 0)
                    && s[k].permissoes.usuario == (d3 & 0x40 != 0) && s[k].permissoes.dispositivo == (
                d3 & 4 == 0) && s[k].permissoes.executavel == (d3 & 0x40_0000_0000_0000 == 0)
                    && forall|j: int|
                    0 <= j < s.len() && j != k ==> (#[trigger] s[j]).virtual_ != v
        }),
{
    let d1 = m.quadro(raiz)[entrada];
    let t2 = m.quadro(alvo(d1));
    let d2 = t2[b];
    let t3 = m.quadro(alvo(d2));
    let d3 = t3[c];
    let base = entrada * 0x4000_0000;
    let base2 = base + b * 0x20_0000;
    let v = base2 + c * 0x1000;
    if e_tabela(d1) && e_tabela(d2) && e_tabela(d3) {
        let s = paginas_do_usuario(m, raiz, entrada);
        let x = pagina_do_descritor(d3, v);
        lemma_tabela_em_ordem(t3, base2, 512);
        lemma_nivel2_em_ordem(m, t2, base, 512);
        assert(paginas_da_tabela(t3, base2, 512).contains(x));
        assert(s == paginas_do_nivel2(m, t2, base, 512));
        assert(e_tabela(t2[b]));
        assert(s.contains(x));
        let k = s.index_of(x);
        assert(s[k] == x);
        assert forall|j: int| 0 <= j < s.len() && j != k implies (#[trigger] s[j]).virtual_ != v by {
            if j < k {
                assert(s[j].virtual_ < s[k].virtual_);
            } else {
                assert(s[k].virtual_ < s[j].virtual_);
            }
        }
    }
}

/// No page is made up: each one that is listed is at the place of the tables that
/// its address names, behind descriptors that lead to tables, and its own
/// descriptor is a page's and holds its frame and its permissions. They come in the
/// order of their addresses.
pub proof fn lei_nenhuma_pagina_inventada(m: &Memoria, raiz: int, entrada: int, k: int)
    requires
        0 <= entrada < 512,
        0 <= k < paginas_do_usuario(m, raiz, entrada).len(),
    ensures
        ({
            let s = paginas_do_usuario(m, raiz, entrada);
            let x = s[k];
            let v = x.virtual_ as int;
            let d1 = m.quadro(raiz)[entrada];
            let d2 = m.quadro((d1 & 0x0000_FFFF_FFFF_F000) as int)[v / 0x20_0000 % 512];
            let d3 = m.quadro((d2 & 0x0000_FFFF_FFFF_F000) as int)[v / 0x1000 % 512];
            &&& v % 4096 == 0
            &&& v / 0x4000_0000 == entrada
            &&& d1 & 1 != 0 && d1 & 2 != 0
            &&& d2 & 1 != 0 && d2 & 2 != 0
            &&& d3 & 1 != 0 && d3 & 2 != 0
            &&& x.fisico == d3 & 0x0000_FFFF_FFFF_F000
            &&& x.permissoes.escrita == (d3 & 0x80 == 0)
            &&& x.permissoes.usuario == (d3 & 0x40 != 0)
            &&& x.permissoes.dispositivo == (d3 & 4 == 0)
            &&& x.permissoes.executavel == (d3 & 0x40_0000_0000_0000 == 0)
            &&& k > 0 ==> s[k - 1].virtual_ < x.virtual_
        }),
{
    let s = paginas_do_usuario(m, raiz, entrada);
    let x = s[k];
    let d1 = m.quadro(raiz)[entrada];
    let t2 = m.quadro(alvo(d1));
    let base = entrada * 0x4000_0000;
    assert(s == paginas_do_nivel2(m, t2, base, 512));
    assert(s.contains(x));
    let b = lemma_de_que_tabela(m, t2, base, 512, x);
    let base2 = base + b * 0x20_0000;
    let c = lemma_de_que_entrada(m.quadro(alvo(t2[b])), base2, 512, x);
    let v = base2 + c * 0x1000;
    assert(x.virtual_ == v);
    assert(v / 0x1000 % 512 == c);
    assert(v / 0x20_0000 % 512 == b);
    lemma_nivel2_em_ordem(m, t2, base, 512);
}

/// Where an address leads, step by step: the entry of the root that its bits from
/// 30 name, then that of the table it points to that the bits from 21 name, then
/// that of the next that the bits from 12 name. A block ends the walk, and what is
/// not valid leads nowhere.
pub proof fn lei_caminho(m: &Memoria, raiz: int, v: u64)
    ensures
        ({
            let d1 = m.quadro(raiz)[v as int / 0x4000_0000 % 512];
            let d2 = m.quadro((d1 & 0x0000_FFFF_FFFF_F000) as int)[v as int / 0x20_0000 % 512];
            let d3 = m.quadro((d2 & 0x0000_FFFF_FFFF_F000) as int)[v as int / 0x1000 % 512];
            let r = traduzido(m, raiz, v);
            &&& v >= 0x80_0000_0000 ==> r is None
            &&& d1 & 1 == 0 ==> r is None
            &&& d1 & 1 != 0 && d1 & 2 == 0 && v < 0x80_0000_0000 ==> r == Some(
                (d1 & 0x0000_FFFF_FFFF_F000) | (v & 0x3FFF_FFFF),
            )
            &&& d1 & 1 != 0 && d1 & 2 != 0 && d2 & 1 == 0 ==> r is None
            &&& d1 & 1 != 0 && d1 & 2 != 0 && d2 & 1 != 0 && d2 & 2 == 0 && v < 0x80_0000_0000
                ==> r == Some((d2 & 0x0000_FFFF_FFFF_F000) | (v & 0x1F_FFFF))
            &&& d1 & 1 != 0 && d1 & 2 != 0 && d2 & 1 != 0 && d2 & 2 != 0 && d3 & 1 == 0 ==> r is None
            &&& d1 & 1 != 0 && d1 & 2 != 0 && d2 & 1 != 0 && d2 & 2 != 0 && d3 & 1 != 0 && v
                < 0x80_0000_0000 ==> r == Some((d3 & 0x0000_FFFF_FFFF_F000) | (v & 0xFFF))
        }),
{
}

/// The bits of a page say what was asked, each in its place, and no other bit is
/// on: device memory has neither attribute nor sharing, what may not be written is
/// read-only, the user's pages are never the kernel's to run nor the kernel's the
/// user's.
pub proof fn lei_bits_da_pagina(p: Permissoes)
    ensures
        (bits_spec(p) & 4 != 0) == !p.dispositivo,
        (bits_spec(p) & 0x300 == 0x300) == !p.dispositivo,
        p.dispositivo ==> bits_spec(p) & 0x300 == 0,
        (bits_spec(p) & 0x80 != 0) == !p.escrita,
        (bits_spec(p) & 0x40 != 0) == p.usuario,
        (bits_spec(p) & 0x20_0000_0000_0000 != 0) == (p.usuario || !p.executavel),
        (bits_spec(p) & 0x40_0000_0000_0000 != 0) == (!p.usuario || !p.executavel),
        bits_spec(p) & 0x400 != 0,
        bits_spec(p) & 0xFF9F_FFFF_FFFF_F83B == 0,
{
    let (e, x, v, u) = (p.escrita, p.executavel, p.dispositivo, p.usuario);
    let b = bits_spec(p);
    assert((b & 4 != 0) == !v && (b & 0x300 == 0x300) == !v && (v ==> b & 0x300 == 0) && (b & 0x80
        != 0) == !e && (b & 0x40 != 0) == u && (b & 0x20_0000_0000_0000 != 0) == (u || !x) && (b
        & 0x40_0000_0000_0000 != 0) == (!u || !x) && b & 0x400 != 0 && b & 0xFF9F_FFFF_FFFF_F83B == 0)
        by (bit_vector)
        requires
            b == (if v {
                0u64
            } else {
                4u64 | 0x300
            }) | (if e {
                0u64
            } else {
                0x80u64
            }) | (if u {
                if x {
                    0x40u64 | 0x20_0000_0000_0000
                } else {
                    0x40u64 | 0x20_0000_0000_0000 | 0x40_0000_0000_0000
                }
            } else {
                if x {
                    0x40_0000_0000_0000u64
                } else {
                    0x40_0000_0000_0000u64 | 0x20_0000_0000_0000
                }
            }) | 0x400,
    ;
}

/// What the bits of a descriptor allow.
pub proof fn lei_permissoes_do_descritor(d: u64)
    ensures
        permissoes_spec(d).escrita == (d & 0x80 == 0),
        permissoes_spec(d).executavel == (d & 0x40_0000_0000_0000 == 0),
        permissoes_spec(d).dispositivo == (d & 4 == 0),
        permissoes_spec(d).usuario == (d & 0x40 != 0),
        efetivas(d).escrita == (d & 0x80 == 0),
        efetivas(d).dispositivo == (d & 4 == 0),
        efetivas(d).usuario == (d & 0x40 != 0),
        d & 0x40 != 0 ==> efetivas(d).executavel == (d & 0x40_0000_0000_0000 == 0),
        d & 0x40 == 0 ==> efetivas(d).executavel == (d & 0x20_0000_0000_0000 == 0),
{
}

/// A page is mapped exactly where the translation is on, both addresses are
/// multiples of 4096, the virtual one is below 512 GiB and the physical one has 48
/// bits, nothing is there yet, and there are frames for the tables on the way.
pub proof fn lei_quando_se_mapeia(mmu: &Mmu, a: &Alocador, v: u64, f: u64)
    ensures
        mmu.recusa(a, v, f) is None <==> mmu.ativa && v % 4096 == 0 && f % 4096 == 0 && v
            < 0x80_0000_0000 && f < 0x1_0000_0000_0000 && mmu.pagina(v) is Nada && mmu.faltam(v)
            <= crate::frames::contar(a.livre()),
        mmu.ativa && v % 4096 == 0 && f % 4096 == 0 && v < 0x80_0000_0000 && f < 0x1_0000_0000_0000
            && mmu.pagina(v) is Pagina && mmu.faltam(v) <= crate::frames::contar(a.livre())
            ==> mmu.recusa(a, v, f) == Some("endereco virtual ja mapeado"),
        !mmu.ativa ==> mmu.recusa(a, v, f) == Some("mmu ainda nao inicializada"),
{
}

/// A mapping needs a frame for each table that is not there: two where the root's
/// entry is not valid, one where only the next table is missing, none where both
/// are there.
pub proof fn lei_tabelas_que_faltam(mmu: &Mmu, v: u64)
    ensures
        ({
            let d1 = mmu.memoria.quadro(mmu.raiz as int)[v as int / 0x4000_0000 % 512];
            let d2 = mmu.memoria.quadro((d1 & 0x0000_FFFF_FFFF_F000) as int)[v as int / 0x20_0000
                % 512];
            &&& d1 & 1 == 0 ==> mmu.faltam(v) == 2
            &&& d1 & 1 != 0 && d1 & 2 != 0 && d2 & 1 == 0 ==> mmu.faltam(v) == 1
            &&& d1 & 1 != 0 && d1 & 2 != 0 && d2 & 1 != 0 && d2 & 2 != 0 ==> mmu.faltam(v) == 0
        }),
{
}

/// Destroying a space gives back every page of a process, the tables on the way to
/// it and nothing that no valid descriptor leads to.
pub proof fn lei_destruir_alcanca_tudo(m: &Memoria, d1: u64, b: int, c: int, e: int)
    requires
        0 <= b < 512,
        0 <= c < 512,
    ensures
        ({
            let t2 = (d1 & 0x0000_FFFF_FFFF_F000) as int;
            let d2 = m.quadro(t2)[b];
            let t3 = (d2 & 0x0000_FFFF_FFFF_F000) as int;
            let d3 = m.quadro(t3)[c];
            &&& d1 & 1 != 0 ==> alcanca(m, d1, 2, t2)
            &&& d1 & 1 != 0 && d1 & 2 != 0 && d2 & 1 != 0 ==> alcanca(m, d1, 2, t3)
            &&& d1 & 1 != 0 && d1 & 2 != 0 && d2 & 1 != 0 && d2 & 2 != 0 && d3 & 1 != 0 ==> alcanca(
                m,
                d1,
                2,
                (d3 & 0x0000_FFFF_FFFF_F000) as int,
            )
            &&& d1 & 1 == 0 ==> !alcanca(m, d1, 2, e)
        }),
{
    let t2 = alvo(d1);
    let d2 = m.quadro(t2)[b];
    let t3 = alvo(d2);
    let d3 = m.quadro(t3)[c];
    reveal_with_fuel(alcanca, 4);
    assert(indice(b) && indice(c));
    if valido(d3) {
        assert(alcanca(m, m.quadro(t3)[c], 0, alvo(d3)));
        if e_tabela(d2) {
            assert(alcanca(m, m.quadro(t2)[b], 1, alvo(d3)));
        }
    }
    if valido(d2) {
        assert(alcanca(m, m.quadro(t2)[b], 1, t3));
    }
}

/// A frame that destroying a space gives back is led to by a valid descriptor of
/// the space, behind descriptors that lead to tables.
pub proof fn lei_destruir_so_alcanca_o_que_e_do_espaco(m: &Memoria, d1: u64, e: int)
    requires
        alcanca(m, d1, 2, e),
    ensures
        d1 & 1 != 0,
        e == (d1 & 0x0000_FFFF_FFFF_F000) as int || exists|b: int, c: int|
            #![trigger m.quadro((m.quadro((d1 & MASCARA_ENDERECO) as int)[b] & MASCARA_ENDERECO) as int)[c]]
            {
                let d2 = m.quadro((d1 & 0x0000_FFFF_FFFF_F000) as int)[b];
                let d3 = m.quadro((d2 & 0x0000_FFFF_FFFF_F000) as int)[c];
                &&& 0 <= b < 512 && 0 <= c < 512
                &&& d1 & 2 != 0 && d2 & 1 != 0
                &&& {
                    ||| e == (d2 & 0x0000_FFFF_FFFF_F000) as int
                    ||| d2 & 2 != 0 && d3 & 1 != 0 && e == (d3 & 0x0000_FFFF_FFFF_F000) as int
                }
            },
{
    if e != alvo(d1) {
        let b = choose|i: int| indice(i) && alcanca(m, #[trigger] m.quadro(alvo(d1))[i], 1, e);
        let d2 = m.quadro(alvo(d1))[b];
        let c = if e == alvo(d2) {
            0
        } else {
            choose|i: int| indice(i) && alcanca(m, #[trigger] m.quadro(alvo(d2))[i], 0, e)
        };
        let d3 = m.quadro(alvo(d2))[c];
        assert(m.quadro((m.quadro((d1 & MASCARA_ENDERECO) as int)[b] & MASCARA_ENDERECO) as int)[c]
            == d3);
    }
}

/// A GiB has memory exactly where some byte of it is in a usable region.
pub proof fn lei_gib_de_ram(regioes: Seq<Regiao>, i: int, k: int, b: int)
    requires
        forall|j: int| 0 <= j < regioes.len() ==> (#[trigger] regioes[j]).inicio < regioes[j].fim,
    ensures
        0 <= k < regioes.len() && regioes[k].tipo is Utilizavel && regioes[k].inicio <= b
            < regioes[k].fim && b / 0x4000_0000 == i ==> gib_de_ram(regioes, i),
        gib_de_ram(regioes, i) ==> exists|j: int|
            {
                let de = if regioes[j].inicio < i * 0x4000_0000 {
                    i * 0x4000_0000
                } else {
                    regioes[j].inicio as int
                };
                &&& 0 <= j < regioes.len()
                &&& (#[trigger] regioes[j]).tipo is Utilizavel
                &&& regioes[j].inicio <= de < regioes[j].fim
                &&& de / 0x4000_0000 == i
            },
{
    if 0 <= k < regioes.len() && regioes[k].tipo is Utilizavel && regioes[k].inicio <= b
        < regioes[k].fim && b / 0x4000_0000 == i {
        assert(regioes[k].inicio as int / 0x4000_0000 <= i <= (regioes[k].fim - 1) / 0x4000_0000);
    }
    if gib_de_ram(regioes, i) {
        let j = choose|j: int|
            0 <= j < regioes.len() && (#[trigger] regioes[j]).tipo == TipoRegiao::Utilizavel
                && regioes[j].inicio as int / 0x4000_0000 <= i <= (regioes[j].fim - 1) / 0x4000_0000;
        assert(regioes[j].inicio < regioes[j].fim);
    }
}

/// The GiBs with memory are counted one by one, the first of all left out.
pub proof fn lei_contagem_de_gibs(regioes: Seq<Regiao>, n: nat)
    ensures
        gibs_de_ram(regioes, n as int) == Seq::new(n, |i: int| i).filter(
            |i: int| i >= 1 && gib_de_ram(regioes, i),
        ).len(),
    decreases n,
{
    reveal(Seq::filter);
    let f = |i: int| i >= 1 && gib_de_ram(regioes, i);
    if n > 0 {
        lei_contagem_de_gibs(regioes, (n - 1) as nat);
        let s = Seq::new(n, |i: int| i);
        assert(s.drop_last() =~= Seq::new((n - 1) as nat, |i: int| i));
        assert(s.last() == n - 1);
    }
}

/// The identity map translates an address to itself or not at all: it does below
/// 512 GiB, in the first GiB and in every GiB with memory, but not in the page left
/// out.
pub proof fn lei_identidade(regioes: Seq<Regiao>, guarda: Option<u64>, v: u64)
    ensures
        na_identidade(regioes, guarda, v) is Some ==> na_identidade(regioes, guarda, v) == Some(v),
        na_identidade(regioes, guarda, v) is Some <==> v < 0x80_0000_0000 && (v < 0x4000_0000
            || gib_de_ram(regioes, v as int / 0x4000_0000)) && (guarda is Some ==> v / 4096
            != guarda->0 / 4096),
{
}

/// In the identity map the first GiB is device memory that nobody runs; every other
/// is normal memory that only the kernel runs. The blocks that make it say so, each
/// for the GiB whose number it has.
pub proof fn lei_atributos_da_identidade(t: Seq<u64>, regioes: Seq<Regiao>, v: u64, i: int)
    requires
        0 <= i < 512,
        identidade(t, regioes),
    ensures
        v < 0x4000_0000 ==> atributos_da_identidade(v) == 0x60_0000_0000_0700,
        0x4000_0000 <= v < 0x80_0000_0000 ==> atributos_da_identidade(v) == 0x40_0000_0000_0704,
        i == 0 ==> t[i] == 0x60_0000_0000_0701,
        i > 0 && gib_de_ram(regioes, i) ==> t[i] == i * 0x4000_0000 + 0x40_0000_0000_0705,
        i > 0 && !gib_de_ram(regioes, i) ==> t[i] == 0,
{
    let k = (i * 0x4000_0000) as u64;
    assert(0x400u64 | 0x300 | 0x20_0000_0000_0000 | 0x40_0000_0000_0000 == 0x60_0000_0000_0700
        && 4u64 | 0x400 | 0x300 | 0x40_0000_0000_0000 == 0x40_0000_0000_0704 && (0u64
        & 0x0000_FFFF_FFFF_F000) | 1 | 0 | 0x400 | 0x300 | (0x20_0000_0000_0000u64 | 0x40_0000_0000_0000)
        == 0x60_0000_0000_0701 && (k & 0x0000_FFFF_FFFF_F000) | 1 | 4 | 0x400 | 0x300
        | 0x40_0000_0000_0000 == k + 0x40_0000_0000_0705) by (bit_vector)
        requires
            k % 0x4000_0000 == 0,
            k < 0x80_0000_0000,
    ;
}

/// A page is removed exactly where the translation is on, the address is a multiple of
/// 4096 below 512 GiB, tables lead down to the last level, and there is a page there.
pub proof fn lei_quando_se_desmapeia(mmu: &Mmu, v: u64)
    ensures
        ({
            let d1 = mmu.memoria.quadro(mmu.raiz as int)[v as int / 0x4000_0000 % 512];
            let d2 = mmu.memoria.quadro((d1 & 0x0000_FFFF_FFFF_F000) as int)[v as int / 0x20_0000
                % 512];
            let d3 = mmu.memoria.quadro((d2 & 0x0000_FFFF_FFFF_F000) as int)[v as int / 0x1000 % 512];
            let tabelas = d1 & 1 != 0 && d1 & 2 != 0 && d2 & 1 != 0 && d2 & 2 != 0;
            &&& mmu.recusa_desmapear(v) is None <==> mmu.ativa && v % 4096 == 0 && v < 0x80_0000_0000
                && tabelas && d3 & 1 != 0
            &&& mmu.ativa && v % 4096 == 0 && v < 0x80_0000_0000 && tabelas && d3 & 1 == 0
                ==> mmu.recusa_desmapear(v) == Some("endereco nao estava mapeado")
            &&& mmu.ativa && v % 4096 == 0 && v < 0x80_0000_0000 && !tabelas ==> mmu.recusa_desmapear(
                v,
            ) == Some("endereco nao mapeado em granularidade de pagina")
        }),
{
}

/// What is given back becomes free, as far as it was in circulation; what was free
/// stays free, and nothing else becomes so.
pub proof fn lei_devolveu(antes: &Alocador, depois: &Alocador, quais: spec_fn(u64) -> bool, e: u64)
    requires
        devolveu(antes, depois, quais),
        e % 4096 == 0,
    ensures
        quais(e) && antes.circula(e) ==> depois.livre_em(e),
        antes.livre_em(e) ==> depois.livre_em(e),
        depois.livre_em(e) ==> antes.livre_em(e) || quais(e),
        depois.livre().len() == antes.livre().len(),
{
}

} // verus!
