//! A reader of flattened device trees.
//!
//! The tree is a sequence of tokens of four bytes, all numbers with the most
//! significant byte first. Names of properties are kept once, in a block of
//! their own, and referred to by offset. An empty blob stands for the absence
//! of one, and a blob that ends before its tokens say so is refused.
use vstd::prelude::*;

use crate::texto::iguais;

verus! {

/// How every device tree starts.
pub const MAGIC: u32 = 0xd00d_feed;

/// The widest number of cells this reader takes.
pub const MAX_CELULAS: u32 = 4;

const FDT_BEGIN_NODE: u32 = 0x1;

const FDT_END_NODE: u32 = 0x2;

const FDT_PROP: u32 = 0x3;

const FDT_NOP: u32 = 0x4;

const FDT_END: u32 = 0x9;

/// The four bytes at `i`, as a number.
pub open spec fn be32_spec(b: Seq<u8>, i: int) -> u32 {
    (b[i] * 0x100_0000 + b[i + 1] * 0x1_0000 + b[i + 2] * 0x100 + b[i + 3]) as u32
}

/// Where the first `x` at or after `i` is.
pub open spec fn primeiro(b: Seq<u8>, i: int, x: u8) -> Option<int>
    decreases b.len() - i,
{
    if i < 0 || i >= b.len() {
        None
    } else if b[i] == x {
        Some(i)
    } else {
        primeiro(b, i + 1, x)
    }
}

pub proof fn lemma_primeiro(b: Seq<u8>, i: int, x: u8)
    requires
        0 <= i,
    ensures
        match primeiro(b, i, x) {
            Some(k) => i <= k < b.len() && b[k] == x && forall|j: int|
                i <= j < k ==> #[trigger] b[j] != x,
            None => forall|j: int| i <= j < b.len() ==> #[trigger] b[j] != x,
        },
    decreases b.len() - i,
{
    if i < b.len() && b[i] != x {
        lemma_primeiro(b, i + 1, x);
    }
}

/// The text that starts at `i` and ends before the next zero.
pub open spec fn texto_em(b: Seq<u8>, i: int) -> Option<Seq<u8>> {
    match primeiro(b, i, 0) {
        Some(k) => Some(b.subrange(i, k)),
        None => None,
    }
}

/// The name of a node, without the address that follows the `@`.
pub open spec fn sem_endereco(nome: Seq<u8>) -> Seq<u8> {
    match primeiro(nome, 0, 64) {
        Some(k) => nome.subrange(0, k),
        None => nome,
    }
}

/// The bytes spell the text.
pub open spec fn escreve(b: Seq<u8>, s: &str) -> bool {
    b == vstd::utf8::encode_utf8(s@)
}

/// Up to the next multiple of four.
pub open spec fn alinhado4(n: int) -> int {
    (n + 3) / 4 * 4
}

/// A property, as the walk sees it.
pub struct Vista {
    /// Depth of the node that has it: 1 for the root, 2 for its children.
    pub profundidade: int,
    /// Name of the node, without its address.
    pub no: Seq<u8>,
    /// Number of the node, in the order of the walk.
    pub no_seq: u32,
    pub nome: Seq<u8>,
    /// Where the contents are, and how long they are.
    pub dados: int,
    pub tamanho: int,
    /// How many cells the root uses for an address and for a size.
    pub address_cells: u32,
    pub size_cells: u32,
}

/// Where the walk is.
pub struct Ponto {
    pub pos: int,
    pub profundidade: int,
    pub no: Seq<u8>,
    pub no_seq: u32,
    pub address_cells: u32,
    pub size_cells: u32,
}

/// What one token does to the walk.
pub enum Passo {
    Segue(Ponto),
    Visita(Vista, Ponto),
    Fim,
    Erro(&'static str),
}

pub open spec fn truncado() -> &'static str {
    "device tree truncado"
}

/// The number of cells in force after a property of the root: what it
/// declares, where it declares it and it is within bounds.
pub open spec fn celulas_apos(b: Seq<u8>, p: Ponto, v: Vista, qual: &str, antes: u32) -> u32 {
    if p.profundidade == 1 && v.tamanho >= 4 && escreve(v.nome, qual) && be32_spec(b, v.dados)
        <= MAX_CELULAS {
        be32_spec(b, v.dados)
    } else {
        antes
    }
}

/// A node begins.
pub open spec fn passo_no(b: Seq<u8>, p: Ponto) -> Passo {
    match texto_em(b, p.pos + 4) {
        Some(nome) => Passo::Segue(
            Ponto {
                pos: p.pos + 4 + alinhado4(nome.len() as int + 1),
                profundidade: p.profundidade + 1,
                no: sem_endereco(nome),
                no_seq: p.no_seq.wrapping_add(1),
                ..p
            },
        ),
        None => Passo::Erro(truncado()),
    }
}

/// A property.
pub open spec fn passo_propriedade(b: Seq<u8>, textos: int, p: Ponto) -> Passo {
    if p.pos + 12 > b.len() {
        Passo::Erro(truncado())
    } else {
        let tamanho = be32_spec(b, p.pos + 4) as int;
        let dados = p.pos + 12;
        match texto_em(b, textos + be32_spec(b, p.pos + 8)) {
            None => Passo::Erro(truncado()),
            Some(nome) => if dados + tamanho > b.len() {
                Passo::Erro(truncado())
            } else {
                let v = Vista {
                    profundidade: p.profundidade,
                    no: p.no,
                    no_seq: p.no_seq,
                    nome,
                    dados,
                    tamanho,
                    address_cells: p.address_cells,
                    size_cells: p.size_cells,
                };
                let a = celulas_apos(b, p, v, "#address-cells", p.address_cells);
                let s = celulas_apos(b, p, v, "#size-cells", p.size_cells);
                Passo::Visita(
                    Vista { address_cells: a, size_cells: s, ..v },
                    Ponto {
                        pos: dados + alinhado4(tamanho),
                        address_cells: a,
                        size_cells: s,
                        ..p
                    },
                )
            },
        }
    }
}

/// What the token at a point of the walk does.
pub open spec fn passo(b: Seq<u8>, textos: int, p: Ponto) -> Passo {
    if p.pos + 4 > b.len() {
        Passo::Erro(truncado())
    } else {
        let token = be32_spec(b, p.pos);
        if token == 0x1 {
            passo_no(b, p)
        } else if token == 0x2 {
            Passo::Segue(
                Ponto {
                    pos: p.pos + 4,
                    profundidade: if p.profundidade > 0 {
                        p.profundidade - 1
                    } else {
                        0
                    },
                    no: Seq::empty(),
                    ..p
                },
            )
        } else if token == 0x3 {
            passo_propriedade(b, textos, p)
        } else if token == 0x4 {
            Passo::Segue(Ponto { pos: p.pos + 4, ..p })
        } else if token == 0x9 {
            Passo::Fim
        } else {
            Passo::Erro("token desconhecido no device tree")
        }
    }
}

/// Every token moves the walk forward.
pub proof fn lemma_avanca(b: Seq<u8>, textos: int, p: Ponto)
    ensures
        match passo(b, textos, p) {
            Passo::Segue(q) => p.pos < q.pos && p.pos + 4 <= b.len(),
            Passo::Visita(_, q) => p.pos < q.pos && p.pos + 4 <= b.len(),
            _ => true,
        },
{
}

/// Every property from a point of the walk on, and how the walk ends.
pub open spec fn percurso(b: Seq<u8>, textos: int, p: Ponto) -> (Seq<Vista>, Result<(), &'static str>)
    decreases
            if 0 <= p.pos < b.len() {
                b.len() - p.pos
            } else {
                0
            },
{
    proof {
        lemma_avanca(b, textos, p);
    }
    if p.pos < 0 {
        (Seq::empty(), Err(truncado()))
    } else {
        match passo(b, textos, p) {
            Passo::Fim => (Seq::empty(), Ok(())),
            Passo::Erro(motivo) => (Seq::empty(), Err(motivo)),
            Passo::Segue(q) => percurso(b, textos, q),
            Passo::Visita(v, q) => {
                let resto = percurso(b, textos, q);
                (seq![v] + resto.0, resto.1)
            },
        }
    }
}

/// Where every walk starts: at the tokens, outside all nodes, with the widths
/// that hold where the root declares none.
pub open spec fn partida(pos: int) -> Ponto {
    Ponto {
        pos,
        profundidade: 0,
        no: Seq::empty(),
        no_seq: 0,
        address_cells: 2,
        size_cells: 2,
    }
}

/// Every property of a tree, and how the walk ends.
pub open spec fn arvore(b: Seq<u8>) -> (Seq<Vista>, Result<(), &'static str>) {
    if b.len() == 0 {
        (Seq::empty(), Err("ponteiro de device tree nulo"))
    } else if b.len() < 16 {
        (Seq::empty(), Err(truncado()))
    } else if be32_spec(b, 0) != MAGIC {
        (Seq::empty(), Err("assinatura de device tree invalida"))
    } else {
        percurso(b, be32_spec(b, 12) as int, partida(be32_spec(b, 8) as int))
    }
}

/// A property found on the walk.
pub struct Propriedade<'a> {
    /// Depth of the node that has it: 1 for the root, 2 for its children.
    pub profundidade: usize,
    /// Name of the node, without its address.
    pub no: &'a [u8],
    /// Number of the node, in the order of the walk.
    pub no_seq: u32,
    /// Name of the property.
    pub nome: &'a [u8],
    /// Where the contents are in the blob.
    pub dados: usize,
    /// How long they are, in bytes.
    pub tamanho: usize,
    /// How many cells the root uses for an address and for a size.
    pub address_cells: u32,
    pub size_cells: u32,
}

impl<'a> View for Propriedade<'a> {
    type V = Vista;

    open spec fn view(&self) -> Vista {
        Vista {
            profundidade: self.profundidade as int,
            no: self.no@,
            no_seq: self.no_seq,
            nome: self.nome@,
            dados: self.dados as int,
            tamanho: self.tamanho as int,
            address_cells: self.address_cells,
            size_cells: self.size_cells,
        }
    }
}

/// What each of them is.
pub open spec fn vistas(s: Seq<Propriedade>) -> Seq<Vista> {
    s.map_values(|p: Propriedade| p@)
}

/// The four bytes at `i`, as a number.
fn be32(b: &[u8], i: usize) -> (r: u32)
    requires
        i + 4 <= b@.len(),
    ensures
        r == be32_spec(b@, i as int),
{
    b[i] as u32 * 0x100_0000 + b[i + 1] as u32 * 0x1_0000 + b[i + 2] as u32 * 0x100 + b[i + 3] as u32
}

/// Where the first `x` at or after `de` is.
fn achar(b: &[u8], de: usize, x: u8) -> (r: Option<usize>)
    ensures
        match r {
            Some(k) => primeiro(b@, de as int, x) == Some(k as int) && de <= k < b@.len(),
            None => primeiro(b@, de as int, x) is None,
        },
{
    let mut k: usize = de;
    while k < b.len()
        invariant
            de <= k,
            primeiro(b@, de as int, x) == primeiro(b@, k as int, x),
        decreases b@.len() - k,
    {
        if b[k] == x {
            return Some(k);
        }
        k = k + 1;
    }
    None
}

/// The text that starts at `de` and ends before the next zero.
fn cstr(b: &[u8], de: usize) -> (r: Option<&[u8]>)
    ensures
        match r {
            Some(s) => texto_em(b@, de as int) == Some(s@) && de + s@.len() < b@.len(),
            None => texto_em(b@, de as int) is None,
        },
{
    match achar(b, de, 0) {
        Some(k) => Some(&b[de..k]),
        None => None,
    }
}

/// Up to the next multiple of four.
fn alinhar4(n: usize) -> (r: usize)
    requires
        n + 3 <= usize::MAX,
    ensures
        r == alinhado4(n as int),
{
    (n + 3) / 4 * 4
}

/// A number written in `n` cells, of which the last two count.
pub open spec fn celulas(b: Seq<u8>, i: int, n: int) -> u64 {
    if n <= 0 {
        0
    } else if n == 1 {
        be32_spec(b, i) as u64
    } else {
        (be32_spec(b, i + (n - 2) * 4) * 0x1_0000_0000 + be32_spec(b, i + (n - 1) * 4)) as u64
    }
}

/// Reads an address or a size written in `cells` cells.
fn ler_celulas(b: &[u8], i: usize, cells: u32) -> (r: u64)
    requires
        i + cells * 4 <= b@.len(),
        cells <= MAX_CELULAS,
    ensures
        r == celulas(b@, i as int, cells as int),
{
    let total: usize = b.len();
    let mut valor: u64 = 0;
    let mut k: u32 = 0;
    while k < cells
        invariant
            k <= cells,
            total == b@.len(),
            i + cells * 4 <= total,
            cells <= MAX_CELULAS,
            valor == celulas(b@, i as int, k as int),
        decreases cells - k,
    {
        let palavra: u32 = be32(b, i + k as usize * 4);
        valor = (valor % 0x1_0000_0000) * 0x1_0000_0000 + palavra as u64;
        k = k + 1;
    }
    valor
}

/// The size of the whole blob, as its header says it.
pub fn tamanho_total(b: &[u8]) -> (r: Option<u64>)
    ensures
        r == if b@.len() >= 8 && be32_spec(b@, 0) == MAGIC {
            Some(be32_spec(b@, 4) as u64)
        } else {
            None
        },
{
    if b.len() < 8 {
        return None;
    }
    if be32(b, 0) != MAGIC {
        return None;
    }
    Some(be32(b, 4) as u64)
}

/// The contents of a property are inside the blob, and its widths are within
/// bounds.
pub open spec fn cabe(b: Seq<u8>, v: Vista) -> bool {
    &&& 0 <= v.dados
    &&& 0 <= v.tamanho
    &&& v.dados + v.tamanho <= b.len()
    &&& v.address_cells <= MAX_CELULAS
    &&& v.size_cells <= MAX_CELULAS
}

/// Walks the tree and returns every property, and how the walk ended.
///
/// Where it ends in an error, the properties are those that came before it.
fn percorrer(b: &[u8]) -> (r: (Vec<Propriedade<'_>>, Result<(), &'static str>))
    requires
        b@.len() <= isize::MAX,
    ensures
        vistas(r.0@) == arvore(b@).0,
        r.1 == arvore(b@).1,
        forall|i: int| 0 <= i < r.0@.len() ==> cabe(b@, (#[trigger] r.0@[i])@),
{
    let mut saida: Vec<Propriedade<'_>> = Vec::new();
    proof {
        assert(vistas(saida@) =~= Seq::<Vista>::empty());
    }
    if b.len() == 0 {
        return (saida, Err("ponteiro de device tree nulo"));
    }
    if b.len() < 16 {
        return (saida, Err("device tree truncado"));
    }
    if be32(b, 0) != MAGIC {
        return (saida, Err("assinatura de device tree invalida"));
    }
    let textos: u32 = be32(b, 12);
    let inicio: u32 = be32(b, 8);
    if inicio as u64 >= b.len() as u64 {
        proof {
            assert(percurso(b@, textos as int, partida(inicio as int)) == (
                Seq::<Vista>::empty(),
                Err::<(), &'static str>(truncado()),
            ));
        }
        return (saida, Err("device tree truncado"));
    }
    let mut pos: usize = inicio as usize;
    let mut profundidade: usize = 0;
    let mut address_cells: u32 = 2;
    let mut size_cells: u32 = 2;
    let mut no: &[u8] = &b[0..0];
    let mut no_seq: u32 = 0;
    let ghost ts = textos as int;
    proof {
        assert(no@ =~= Seq::<u8>::empty());
        assert(vistas(saida@) + percurso(b@, ts, partida(inicio as int)).0 =~= percurso(
            b@,
            ts,
            partida(inicio as int),
        ).0);
    }
    loop
        invariant
            b@.len() <= isize::MAX,
            b@.len() >= 16,
            be32_spec(b@, 0) == MAGIC,
            be32_spec(b@, 12) == textos,
            be32_spec(b@, 8) == inicio,
            ts == textos,
            profundidade <= pos,
            pos <= b@.len() + 8,
            address_cells <= MAX_CELULAS,
            size_cells <= MAX_CELULAS,
            forall|i: int| 0 <= i < saida@.len() ==> cabe(b@, (#[trigger] saida@[i])@),
            ({
                let p = Ponto {
                    pos: pos as int,
                    profundidade: profundidade as int,
                    no: no@,
                    no_seq,
                    address_cells,
                    size_cells,
                };
                &&& vistas(saida@) + percurso(b@, ts, p).0 == arvore(b@).0
                &&& percurso(b@, ts, p).1 == arvore(b@).1
            }),
        decreases b@.len() + 8 - pos,
    {
        let ghost p = Ponto {
            pos: pos as int,
            profundidade: profundidade as int,
            no: no@,
            no_seq,
            address_cells,
            size_cells,
        };
        proof {
            lemma_avanca(b@, ts, p);
            assert(vistas(saida@) + Seq::<Vista>::empty() =~= vistas(saida@));
        }
        if pos + 4 > b.len() {
            return (saida, Err("device tree truncado"));
        }
        let token: u32 = be32(b, pos);
        if token == FDT_BEGIN_NODE {
            match cstr(b, pos + 4) {
                None => {
                    return (saida, Err("device tree truncado"));
                },
                Some(nome) => {
                    pos = pos + 4 + alinhar4(nome.len() + 1);
                    profundidade = profundidade + 1;
                    no_seq = no_seq.wrapping_add(1);
                    no = match achar(nome, 0, 64) {
                        Some(corte) => &nome[0..corte],
                        None => nome,
                    };
                },
            }
        } else if token == FDT_END_NODE {
            pos = pos + 4;
            profundidade = profundidade.saturating_sub(1);
            no = &b[0..0];
            proof {
                assert(no@ =~= Seq::<u8>::empty());
            }
        } else if token == FDT_PROP {
            match ler_propriedade(b, textos, pos, profundidade, no, no_seq, address_cells, size_cells) {
                None => {
                    return (saida, Err("device tree truncado"));
                },
                Some(prop) => {
                    let ghost antes = saida@;
                    let ghost v = prop@;
                    address_cells = prop.address_cells;
                    size_cells = prop.size_cells;
                    pos = prop.dados + alinhar4(prop.tamanho);
                    saida.push(prop);
                    proof {
                        let q = Ponto {
                            pos: pos as int,
                            profundidade: profundidade as int,
                            no: no@,
                            no_seq,
                            address_cells,
                            size_cells,
                        };
                        assert(passo(b@, ts, p) == Passo::Visita(v, q));
                        assert(vistas(saida@) =~= vistas(antes).push(v));
                        assert(vistas(saida@) + percurso(b@, ts, q).0 =~= vistas(antes) + (seq![v]
                            + percurso(b@, ts, q).0));
                    }
                },
            }
        } else if token == FDT_NOP {
            pos = pos + 4;
        } else if token == FDT_END {
            return (saida, Ok(()));
        } else {
            return (saida, Err("token desconhecido no device tree"));
        }
    }
}

/// Reads the property at a point of the walk.
fn ler_propriedade<'a>(
    b: &'a [u8],
    textos: u32,
    pos: usize,
    profundidade: usize,
    no: &'a [u8],
    no_seq: u32,
    address_cells: u32,
    size_cells: u32,
) -> (r: Option<Propriedade<'a>>)
    requires
        b@.len() <= isize::MAX,
        pos + 4 <= b@.len(),
        address_cells <= MAX_CELULAS,
        size_cells <= MAX_CELULAS,
    ensures
        ({
            let p = Ponto {
                pos: pos as int,
                profundidade: profundidade as int,
                no: no@,
                no_seq,
                address_cells,
                size_cells,
            };
            match r {
                None => passo_propriedade(b@, textos as int, p) == Passo::Erro(truncado()),
                Some(prop) => {
                    &&& passo_propriedade(b@, textos as int, p) == Passo::Visita(
                        prop@,
                        Ponto {
                            pos: prop.dados + alinhado4(prop.tamanho as int),
                            address_cells: prop.address_cells,
                            size_cells: prop.size_cells,
                            ..p
                        },
                    )
                    &&& cabe(b@, prop@)
                    &&& prop.dados == pos + 12
                },
            }
        }),
{
    if pos + 12 > b.len() {
        return None;
    }
    let tamanho: u32 = be32(b, pos + 4);
    let nome_off: u32 = be32(b, pos + 8);
    let onde: u64 = textos as u64 + nome_off as u64;
    if onde >= b.len() as u64 {
        return None;
    }
    let nome: &'a [u8] = match cstr(b, onde as usize) {
        None => {
            return None;
        },
        Some(n) => n,
    };
    let dados: usize = pos + 12;
    if tamanho as u64 > (b.len() - dados) as u64 {
        return None;
    }
    let tamanho: usize = tamanho as usize;
    let mut a: u32 = address_cells;
    let mut s: u32 = size_cells;
    if profundidade == 1 && tamanho >= 4 {
        let valor: u32 = be32(b, dados);
        proof {
            lemma_nomes_das_celulas();
        }
        if valor <= MAX_CELULAS {
            if iguais(nome, "#address-cells".as_bytes()) {
                a = valor;
            } else if iguais(nome, "#size-cells".as_bytes()) {
                s = valor;
            }
        }
    }
    Some(
        Propriedade {
            profundidade,
            no,
            no_seq,
            nome,
            dados,
            tamanho,
            address_cells: a,
            size_cells: s,
        },
    )
}

/// The two names are not the same.
proof fn lemma_nomes_das_celulas()
    ensures
        vstd::utf8::encode_utf8("#address-cells"@) != vstd::utf8::encode_utf8("#size-cells"@),
{
    vstd::utf8::encode_utf8_decode_utf8("#address-cells"@);
    vstd::utf8::encode_utf8_decode_utf8("#size-cells"@);
    reveal_strlit("#address-cells");
    reveal_strlit("#size-cells");
    assert("#address-cells"@.len() != "#size-cells"@.len());
}

/// The pairs of address and size that a `reg` holds.
pub open spec fn pares(b: Seq<u8>, v: Vista) -> Seq<(u64, u64)> {
    let largura = (v.address_cells + v.size_cells) * 4;
    if largura == 0 {
        Seq::empty()
    } else {
        Seq::new(
            (v.tamanho / largura) as nat,
            |k: int|
                (
                    celulas(b, v.dados + k * largura, v.address_cells as int),
                    celulas(
                        b,
                        v.dados + k * largura + v.address_cells * 4,
                        v.size_cells as int,
                    ),
                ),
        )
    }
}

/// How many whole entries fit, and where each of them is.
proof fn lemma_entradas(tamanho: int, largura: int, k: int)
    requires
        0 <= k,
        0 < largura,
        0 <= tamanho,
    ensures
        k * largura + largura <= tamanho <==> k < tamanho / largura,
        (k + 1) * largura == k * largura + largura,
        0 <= k * largura,
{
    assert((k + 1) * largura == k * largura + largura) by (nonlinear_arith);
    assert(0 <= k * largura) by (nonlinear_arith)
        requires
            0 <= k,
            0 < largura,
    ;
    let q = tamanho / largura;
    assert(tamanho == q * largura + tamanho % largura && 0 <= tamanho % largura < largura) by (nonlinear_arith)
        requires
            0 < largura,
            q == tamanho / largura,
    ;
    if k < q {
        assert((k + 1) * largura <= q * largura) by (nonlinear_arith)
            requires
                k + 1 <= q,
                0 < largura,
        ;
    } else {
        assert(k * largura >= q * largura) by (nonlinear_arith)
            requires
                k >= q,
                0 < largura,
        ;
    }
}

/// Reads the pairs of address and size of a `reg`.
fn ler_reg(b: &[u8], prop: &Propriedade<'_>) -> (r: Vec<(u64, u64)>)
    requires
        cabe(b@, prop@),
        b@.len() <= isize::MAX,
    ensures
        r@ == pares(b@, prop@),
{
    let mut saida: Vec<(u64, u64)> = Vec::new();
    let largura: usize = (prop.address_cells as usize + prop.size_cells as usize) * 4;
    if largura == 0 {
        return saida;
    }
    let mut deslocamento: usize = 0;
    let ghost mut k: int = 0;
    proof {
        lemma_entradas(prop.tamanho as int, largura as int, 0);
    }
    while deslocamento + largura <= prop.tamanho
        invariant
            cabe(b@, prop@),
            b@.len() <= isize::MAX,
            largura == (prop.address_cells + prop.size_cells) * 4,
            0 < largura <= 32,
            deslocamento <= prop.tamanho,
            0 <= k,
            deslocamento == k * largura,
            saida@.len() == k,
            k <= prop.tamanho as int / largura as int,
            forall|j: int| 0 <= j < k ==> #[trigger] saida@[j] == pares(b@, prop@)[j],
        decreases prop.tamanho - deslocamento,
    {
        proof {
            lemma_entradas(prop.tamanho as int, largura as int, k);
        }
        let em: usize = prop.dados + deslocamento;
        let inicio: u64 = ler_celulas(b, em, prop.address_cells);
        let tam: u64 = ler_celulas(b, em + prop.address_cells as usize * 4, prop.size_cells);
        saida.push((inicio, tam));
        deslocamento = deslocamento + largura;
        proof {
            k = k + 1;
        }
    }
    proof {
        lemma_entradas(prop.tamanho as int, largura as int, k);
        assert(saida@ =~= pares(b@, prop@));
    }
    saida
}

/// The property tells where memory is.
pub open spec fn de_memoria(v: Vista) -> bool {
    v.profundidade == 2 && escreve(v.no, "memory") && escreve(v.nome, "reg")
}

/// The ranges of memory that a run of properties tells of.
pub open spec fn faixas(b: Seq<u8>, vs: Seq<Vista>) -> Seq<(u64, u64)>
    decreases vs.len(),
{
    if vs.len() == 0 {
        Seq::empty()
    } else if de_memoria(vs.last()) {
        faixas(b, vs.drop_last()) + pares(b, vs.last())
    } else {
        faixas(b, vs.drop_last())
    }
}

/// The ranges of memory, each with its start and its size, and how the walk
/// ended: where in an error, the ranges are those that came before it.
pub fn percorrer_memoria(b: &[u8]) -> (r: (Vec<(u64, u64)>, Result<(), &'static str>))
    requires
        b@.len() <= isize::MAX,
    ensures
        r.0@ == faixas(b@, arvore(b@).0),
        r.1 == arvore(b@).1,
{
    let (props, fim) = percorrer(b);
    let mut saida: Vec<(u64, u64)> = Vec::new();
    let mut i: usize = 0;
    let ghost vs = arvore(b@).0;
    while i < props.len()
        invariant
            i <= props@.len(),
            vs == vistas(props@),
            b@.len() <= isize::MAX,
            forall|j: int| 0 <= j < props@.len() ==> cabe(b@, (#[trigger] props@[j])@),
            saida@ == faixas(b@, vs.take(i as int)),
        decreases props@.len() - i,
    {
        let prop = &props[i];
        proof {
            assert(vs.take(i + 1).drop_last() =~= vs.take(i as int));
            assert(vs[i as int] == prop@);
        }
        if prop.profundidade == 2 && iguais(prop.no, "memory".as_bytes()) && iguais(
            prop.nome,
            "reg".as_bytes(),
        ) {
            let mut mais = ler_reg(b, prop);
            saida.append(&mut mais);
        }
        i = i + 1;
    }
    proof {
        assert(vs.take(vs.len() as int) =~= vs);
    }
    (saida, fim)
}

/// The first property of a run that `f` selects.
pub open spec fn primeira(vs: Seq<Vista>, f: spec_fn(Vista) -> bool) -> Option<Vista>
    decreases vs.len(),
{
    if vs.len() == 0 {
        None
    } else {
        match primeira(vs.drop_last(), f) {
            Some(v) => Some(v),
            None => if f(vs.last()) {
                Some(vs.last())
            } else {
                None
            },
        }
    }
}

/// The last property of a run that `f` selects.
pub open spec fn ultima(vs: Seq<Vista>, f: spec_fn(Vista) -> bool) -> Option<Vista>
    decreases vs.len(),
{
    if vs.len() == 0 {
        None
    } else if f(vs.last()) {
        Some(vs.last())
    } else {
        ultima(vs.drop_last(), f)
    }
}

/// The bytes from `i` to `j` are one of the texts of a list in which each ends
/// in a zero.
pub open spec fn peca(l: Seq<u8>, i: int, j: int) -> bool {
    &&& 0 <= i <= j <= l.len()
    &&& i == 0 || l[i - 1] == 0
    &&& j == l.len() || l[j] == 0
    &&& forall|k: int| i <= k < j ==> #[trigger] l[k] != 0
}

/// One of the texts of the list is `alvo`.
pub open spec fn lista_contem(l: Seq<u8>, alvo: Seq<u8>) -> bool {
    exists|i: int, j: int| #[trigger] peca(l, i, j) && l.subrange(i, j) == alvo
}

/// Is one of the texts of the list `alvo`?
fn na_lista(l: &[u8], alvo: &[u8]) -> (r: bool)
    requires
        l@.len() <= isize::MAX,
    ensures
        r == lista_contem(l@, alvo@),
{
    let mut i: usize = 0;
    loop
        invariant
            l@.len() <= isize::MAX,
            i <= l@.len(),
            i == 0 || l@[i - 1] == 0,
            forall|x: int, y: int|
                x < i && #[trigger] peca(l@, x, y) ==> l@.subrange(x, y) != alvo@,
        decreases l@.len() - i,
    {
        let fim: usize = match achar(l, i, 0) {
            Some(k) => k,
            None => l.len(),
        };
        proof {
            lemma_primeiro(l@, i as int, 0);
            assert(peca(l@, i as int, fim as int));
        }
        if iguais(&l[i..fim], alvo) {
            return true;
        }
        proof {
            assert forall|x: int, y: int| x <= fim && #[trigger] peca(l@, x, y) implies l@.subrange(x, y)
                != alvo@ by {
                if x >= i {
                    if x > i {
                        assert(l@[x - 1] == 0);
                    }
                    assert(x == i);
                    if y < fim {
                        assert(l@[y] == 0);
                    }
                    if y > fim {
                        assert(l@[fim as int] == 0);
                    }
                    assert(y == fim);
                }
            }
        }
        if fim == l.len() {
            return false;
        }
        i = fim + 1;
    }
}

/// The property says that its node is a host bridge of PCI this kernel knows.
pub open spec fn de_host_bridge(b: Seq<u8>, v: Vista) -> bool {
    v.profundidade == 2 && escreve(v.nome, "compatible") && lista_contem(
        b.subrange(v.dados, v.dados + v.tamanho),
        vstd::utf8::encode_utf8("pci-host-ecam-generic"@),
    )
}

/// The node of the host bridge.
pub open spec fn host_bridge(b: Seq<u8>) -> Option<u32> {
    match primeira(arvore(b).0, |v: Vista| de_host_bridge(b, v)) {
        Some(v) => Some(v.no_seq),
        None => None,
    }
}

/// Finds the node of the host bridge among the properties of the tree.
fn no_do_host_bridge(b: &[u8], props: &Vec<Propriedade<'_>>) -> (r: Option<u32>)
    requires
        b@.len() <= isize::MAX,
        vistas(props@) == arvore(b@).0,
        forall|j: int| 0 <= j < props@.len() ==> cabe(b@, (#[trigger] props@[j])@),
    ensures
        r == host_bridge(b@),
{
    let ghost vs = arvore(b@).0;
    let ghost f = |v: Vista| de_host_bridge(b@, v);
    let mut i: usize = 0;
    while i < props.len()
        invariant
            i <= props@.len(),
            b@.len() <= isize::MAX,
            vs == vistas(props@),
            vs == arvore(b@).0,
            f == (|v: Vista| de_host_bridge(b@, v)),
            forall|j: int| 0 <= j < props@.len() ==> cabe(b@, (#[trigger] props@[j])@),
            primeira(vs.take(i as int), f) is None,
        decreases props@.len() - i,
    {
        let prop = &props[i];
        proof {
            assert(vs.take(i + 1).drop_last() =~= vs.take(i as int));
            assert(vs[i as int] == prop@);
        }
        if prop.profundidade == 2 && iguais(prop.nome, "compatible".as_bytes()) && na_lista(
            &b[prop.dados..prop.dados + prop.tamanho],
            "pci-host-ecam-generic".as_bytes(),
        ) {
            proof {
                lemma_primeira(vs, f, i + 1);
            }
            return Some(prop.no_seq);
        }
        i = i + 1;
    }
    proof {
        assert(vs.take(vs.len() as int) =~= vs);
    }
    None
}

/// What is first in a prefix is first.
proof fn lemma_primeira(vs: Seq<Vista>, f: spec_fn(Vista) -> bool, n: int)
    requires
        0 <= n <= vs.len(),
        primeira(vs.take(n), f) is Some,
    ensures
        primeira(vs, f) == primeira(vs.take(n), f),
    decreases vs.len(),
{
    if n == vs.len() {
        assert(vs.take(n) =~= vs);
    } else {
        assert(vs.drop_last().take(n) =~= vs.take(n));
        lemma_primeira(vs.drop_last(), f, n);
    }
}

/// Bytes of an entry of `ranges`: three cells of address on the bus, an
/// address of the parent, two cells of size.
pub open spec fn largura_de_ranges(v: Vista) -> int {
    (5 + v.address_cells) * 4
}

/// The entry at `e` is a window of memory of 32 bits.
pub open spec fn de_memoria_32(b: Seq<u8>, e: int) -> bool {
    be32_spec(b, e) as int / 0x100_0000 % 4 == 2
}

/// The window that the entry at `e` describes: its address on the bus, its
/// address for the processor, and its size.
pub open spec fn janela_em(b: Seq<u8>, e: int, celulas_do_pai: int) -> (u64, u64, u64) {
    (
        celulas(b, e + 4, 2),
        celulas(b, e + 12, celulas_do_pai),
        celulas(b, e + 12 + celulas_do_pai * 4, 2),
    )
}

/// The first window of memory of 32 bits, from entry `k` of a `ranges` on.
pub open spec fn janela_32(b: Seq<u8>, v: Vista, k: int) -> Option<(u64, u64, u64)>
    decreases v.tamanho / largura_de_ranges(v) - k,
{
    if k < 0 || k >= v.tamanho / largura_de_ranges(v) {
        None
    } else if de_memoria_32(b, v.dados + k * largura_de_ranges(v)) {
        Some(janela_em(b, v.dados + k * largura_de_ranges(v), v.address_cells as int))
    } else {
        janela_32(b, v, k + 1)
    }
}

/// Reads the first window of memory of 32 bits of a `ranges`.
fn ler_ranges(b: &[u8], prop: &Propriedade<'_>) -> (r: Option<(u64, u64, u64)>)
    requires
        cabe(b@, prop@),
        b@.len() <= isize::MAX,
    ensures
        r == janela_32(b@, prop@, 0),
{
    let celulas_do_pai: usize = prop.address_cells as usize;
    let largura: usize = (3 + celulas_do_pai + 2) * 4;
    let mut deslocamento: usize = 0;
    let ghost mut k: int = 0;
    proof {
        lemma_entradas(prop.tamanho as int, largura as int, 0);
    }
    while deslocamento + largura <= prop.tamanho
        invariant
            cabe(b@, prop@),
            b@.len() <= isize::MAX,
            celulas_do_pai == prop.address_cells,
            largura == largura_de_ranges(prop@),
            0 < largura <= 36,
            deslocamento <= prop.tamanho,
            0 <= k,
            deslocamento == k * largura,
            janela_32(b@, prop@, 0) == janela_32(b@, prop@, k),
        decreases prop.tamanho - deslocamento,
    {
        proof {
            lemma_entradas(prop.tamanho as int, largura as int, k);
        }
        let entrada: usize = prop.dados + deslocamento;
        let alto: u32 = be32(b, entrada);
        if alto / 0x100_0000 % 4 == 2 {
            let no_barramento: u64 = ler_celulas(b, entrada + 4, 2);
            let na_cpu: u64 = ler_celulas(b, entrada + 12, celulas_do_pai as u32);
            let tamanho: u64 = ler_celulas(b, entrada + 12 + celulas_do_pai * 4, 2);
            return Some((no_barramento, na_cpu, tamanho));
        }
        deslocamento = deslocamento + largura;
        proof {
            k = k + 1;
        }
    }
    proof {
        lemma_entradas(prop.tamanho as int, largura as int, k);
    }
    None
}

/// What the tree says about the PCI bus.
#[derive(Clone, Copy, Debug, PartialEq, Eq)]
pub struct BarramentoPci {
    /// Where the configuration space starts, and how long it is.
    pub ecam: (u64, u64),
    /// The window of memory of 32 bits: its address on the bus, its address
    /// for the processor, and its size.
    pub mmio32: Option<(u64, u64, u64)>,
}

/// The property belongs to a node and has a name.
pub open spec fn do_no(v: Vista, no: u32, nome: &str) -> bool {
    v.no_seq == no && escreve(v.nome, nome)
}

/// The first pair that a `reg` of a node holds.
pub open spec fn primeiro_par(b: Seq<u8>, vs: Seq<Vista>, no: u32) -> Option<(u64, u64)>
    decreases vs.len(),
{
    if vs.len() == 0 {
        None
    } else {
        match primeiro_par(b, vs.drop_last(), no) {
            Some(p) => Some(p),
            None => if do_no(vs.last(), no, "reg") && pares(b, vs.last()).len() > 0 {
                Some(pares(b, vs.last())[0])
            } else {
                None
            },
        }
    }
}

/// The window of memory of 32 bits of a node: that of its last `ranges`.
pub open spec fn janela_do_no(b: Seq<u8>, vs: Seq<Vista>, no: u32) -> Option<(u64, u64, u64)> {
    match ultima(vs, |v: Vista| do_no(v, no, "ranges")) {
        Some(v) => janela_32(b, v, 0),
        None => None,
    }
}

/// The PCI bus of a tree.
pub open spec fn barramento(b: Seq<u8>) -> Option<BarramentoPci> {
    match host_bridge(b) {
        None => None,
        Some(no) => match primeiro_par(b, arvore(b).0, no) {
            None => None,
            Some(ecam) => Some(BarramentoPci { ecam, mmio32: janela_do_no(b, arvore(b).0, no) }),
        },
    }
}

/// What the tree says about the PCI bus, where it has one.
pub fn encontrar_barramento_pci(b: &[u8]) -> (r: Option<BarramentoPci>)
    requires
        b@.len() <= isize::MAX,
    ensures
        r == barramento(b@),
{
    let (props, _fim) = percorrer(b);
    let alvo: u32 = match no_do_host_bridge(b, &props) {
        None => {
            return None;
        },
        Some(n) => n,
    };
    let mut ecam: Option<(u64, u64)> = None;
    let mut mmio32: Option<(u64, u64, u64)> = None;
    let ghost vs = arvore(b@).0;
    let mut i: usize = 0;
    proof {
        lemma_nomes_do_barramento();
    }
    while i < props.len()
        invariant
            i <= props@.len(),
            b@.len() <= isize::MAX,
            vs == vistas(props@),
            forall|j: int| 0 <= j < props@.len() ==> cabe(b@, (#[trigger] props@[j])@),
            vstd::utf8::encode_utf8("reg"@) != vstd::utf8::encode_utf8("ranges"@),
            ecam == primeiro_par(b@, vs.take(i as int), alvo),
            mmio32 == janela_do_no(b@, vs.take(i as int), alvo),
        decreases props@.len() - i,
    {
        let prop = &props[i];
        proof {
            assert(vs.take(i + 1).drop_last() =~= vs.take(i as int));
            assert(vs[i as int] == prop@);
        }
        if prop.no_seq == alvo {
            if iguais(prop.nome, "reg".as_bytes()) {
                let lidos = ler_reg(b, prop);
                if ecam.is_none() && lidos.len() > 0 {
                    ecam = Some(lidos[0]);
                }
            } else if iguais(prop.nome, "ranges".as_bytes()) {
                mmio32 = ler_ranges(b, prop);
            }
        }
        i = i + 1;
    }
    proof {
        assert(vs.take(vs.len() as int) =~= vs);
    }
    match ecam {
        None => None,
        Some(e) => Some(BarramentoPci { ecam: e, mmio32 }),
    }
}

proof fn lemma_nomes_do_barramento()
    ensures
        vstd::utf8::encode_utf8("reg"@) != vstd::utf8::encode_utf8("ranges"@),
{
    vstd::utf8::encode_utf8_decode_utf8("reg"@);
    vstd::utf8::encode_utf8_decode_utf8("ranges"@);
    reveal_strlit("reg");
    reveal_strlit("ranges");
    assert("reg"@.len() != "ranges"@.len());
}

/// An interrupt, as the controller that serves it describes it.
#[derive(Clone, Copy, Debug, PartialEq, Eq, Structural)]
pub struct Interrupcao {
    pub tipo: u32,
    pub numero: u32,
    pub flags: u32,
}

/// How many cells a controller declares for an address and for an interrupt.
#[derive(Clone, Copy, Debug, PartialEq, Eq, Structural)]
pub struct Larguras {
    pub endereco: u32,
    pub interrupcao: u32,
}

/// The property is a handle of its node, with the given value.
pub open spec fn e_phandle(b: Seq<u8>, v: Vista, phandle: u32) -> bool {
    escreve(v.nome, "phandle") && v.tamanho >= 4 && be32_spec(b, v.dados) == phandle
}

/// The property of a node declares a width within bounds.
pub open spec fn declara(b: Seq<u8>, v: Vista, no: u32, nome: &str) -> bool {
    do_no(v, no, nome) && v.tamanho >= 4 && be32_spec(b, v.dados) <= MAX_CELULAS
}

/// The last width of a name that a node declares.
pub open spec fn declarada(b: Seq<u8>, vs: Seq<Vista>, no: u32, nome: &str) -> Option<u32> {
    match ultima(vs, |v: Vista| declara(b, v, no, nome)) {
        Some(v) => Some(be32_spec(b, v.dados)),
        None => None,
    }
}

/// The property of a node declares a width out of bounds.
pub open spec fn absurda(b: Seq<u8>, v: Vista, no: u32) -> bool {
    &&& v.no_seq == no
    &&& escreve(v.nome, "#address-cells") || escreve(v.nome, "#interrupt-cells")
    &&& v.tamanho >= 4
    &&& be32_spec(b, v.dados) > MAX_CELULAS
}

/// A node declares a width out of bounds.
pub open spec fn tem_absurda(b: Seq<u8>, vs: Seq<Vista>, no: u32) -> bool {
    ultima(vs, |v: Vista| absurda(b, v, no)) is Some
}

/// The widths that the node of a handle declares: none for addresses counts as
/// zero, and none for interrupts is no controller. A controller that declares a
/// width out of bounds cannot be read.
pub open spec fn larguras(b: Seq<u8>, vs: Seq<Vista>, phandle: u32) -> Option<Larguras> {
    match primeira(vs, |v: Vista| e_phandle(b, v, phandle)) {
        None => None,
        Some(alvo) => if tem_absurda(b, vs, alvo.no_seq) {
            None
        } else {
            match declarada(b, vs, alvo.no_seq, "#interrupt-cells") {
                None => None,
                Some(interrupcao) => Some(
                    Larguras {
                        endereco: match declarada(b, vs, alvo.no_seq, "#address-cells") {
                            Some(e) => e,
                            None => 0,
                        },
                        interrupcao,
                    },
                ),
            }
        },
    }
}

/// Finds the node of a handle.
fn no_do_phandle(b: &[u8], props: &Vec<Propriedade<'_>>, phandle: u32) -> (r: Option<u32>)
    requires
        b@.len() <= isize::MAX,
        forall|j: int| 0 <= j < props@.len() ==> cabe(b@, (#[trigger] props@[j])@),
    ensures
        r == match primeira(vistas(props@), |v: Vista| e_phandle(b@, v, phandle)) {
            Some(v) => Some(v.no_seq),
            None => None,
        },
{
    let ghost vs = vistas(props@);
    let ghost f = |v: Vista| e_phandle(b@, v, phandle);
    let mut i: usize = 0;
    while i < props.len()
        invariant
            i <= props@.len(),
            b@.len() <= isize::MAX,
            vs == vistas(props@),
            f == (|v: Vista| e_phandle(b@, v, phandle)),
            forall|j: int| 0 <= j < props@.len() ==> cabe(b@, (#[trigger] props@[j])@),
            primeira(vs.take(i as int), f) is None,
        decreases props@.len() - i,
    {
        let prop = &props[i];
        proof {
            assert(vs.take(i + 1).drop_last() =~= vs.take(i as int));
            assert(vs[i as int] == prop@);
        }
        if iguais(prop.nome, "phandle".as_bytes()) && prop.tamanho >= 4 && be32(b, prop.dados)
            == phandle {
            proof {
                lemma_primeira(vs, f, i + 1);
            }
            return Some(prop.no_seq);
        }
        i = i + 1;
    }
    proof {
        assert(vs.take(vs.len() as int) =~= vs);
    }
    None
}

/// How many cells the node of a handle declares.
fn larguras_do_phandle(b: &[u8], props: &Vec<Propriedade<'_>>, phandle: u32) -> (r: Option<Larguras>)
    requires
        b@.len() <= isize::MAX,
        forall|j: int| 0 <= j < props@.len() ==> cabe(b@, (#[trigger] props@[j])@),
    ensures
        r == larguras(b@, vistas(props@), phandle),
        r is Some ==> r->0.endereco <= MAX_CELULAS && r->0.interrupcao <= MAX_CELULAS,
{
    let ghost vs = vistas(props@);
    let alvo: u32 = match no_do_phandle(b, props, phandle) {
        None => {
            return None;
        },
        Some(n) => n,
    };
    let mut endereco: u32 = 0;
    let mut interrupcao: Option<u32> = None;
    let mut recusado: bool = false;
    let mut i: usize = 0;
    proof {
        lemma_nomes_do_controlador();
    }
    while i < props.len()
        invariant
            i <= props@.len(),
            b@.len() <= isize::MAX,
            vs == vistas(props@),
            forall|j: int| 0 <= j < props@.len() ==> cabe(b@, (#[trigger] props@[j])@),
            vstd::utf8::encode_utf8("#address-cells"@) != vstd::utf8::encode_utf8(
                "#interrupt-cells"@,
            ),
            endereco <= MAX_CELULAS,
            interrupcao is Some ==> interrupcao->0 <= MAX_CELULAS,
            recusado == tem_absurda(b@, vs.take(i as int), alvo),
            interrupcao == declarada(b@, vs.take(i as int), alvo, "#interrupt-cells"),
            endereco == match declarada(b@, vs.take(i as int), alvo, "#address-cells") {
                Some(e) => e,
                None => 0,
            },
        decreases props@.len() - i,
    {
        let prop = &props[i];
        proof {
            assert(vs.take(i + 1).drop_last() =~= vs.take(i as int));
            assert(vs[i as int] == prop@);
        }
        if prop.no_seq == alvo && prop.tamanho >= 4 {
            let valor: u32 = be32(b, prop.dados);
            if valor <= MAX_CELULAS {
                if iguais(prop.nome, "#address-cells".as_bytes()) {
                    endereco = valor;
                } else if iguais(prop.nome, "#interrupt-cells".as_bytes()) {
                    interrupcao = Some(valor);
                }
            } else if iguais(prop.nome, "#address-cells".as_bytes()) || iguais(
                prop.nome,
                "#interrupt-cells".as_bytes(),
            ) {
                recusado = true;
            }
        }
        i = i + 1;
    }
    proof {
        assert(vs.take(vs.len() as int) =~= vs);
    }
    if recusado {
        return None;
    }
    match interrupcao {
        None => None,
        Some(n) => Some(Larguras { endereco, interrupcao: n }),
    }
}

proof fn lemma_nomes_do_controlador()
    ensures
        vstd::utf8::encode_utf8("#address-cells"@) != vstd::utf8::encode_utf8("#interrupt-cells"@),
{
    vstd::utf8::encode_utf8_decode_utf8("#address-cells"@);
    vstd::utf8::encode_utf8_decode_utf8("#interrupt-cells"@);
    reveal_strlit("#address-cells");
    reveal_strlit("#interrupt-cells");
    assert("#address-cells"@.len() != "#interrupt-cells"@.len());
}

/// The table of interrupts of a host bridge: the mask for the address, the
/// mask for the pin, where the entries are, and how they are laid out.
pub struct Mapa {
    pub mascara_alto: u32,
    pub mascara_do_pino: u32,
    pub em: int,
    pub bytes: int,
    pub larguras: Larguras,
}

/// The table of interrupts, where the node of the host bridge has one that can
/// be read: a mask, at least one entry, and a controller whose interrupts take
/// three cells or more.
pub open spec fn mapa(b: Seq<u8>) -> Option<Mapa> {
    let vs = arvore(b).0;
    match host_bridge(b) {
        None => None,
        Some(no) => {
            let mascara = ultima(vs, |v: Vista| do_no(v, no, "interrupt-map-mask"));
            let tabela = ultima(vs, |v: Vista| do_no(v, no, "interrupt-map"));
            if mascara is None || tabela is None || mascara->0.tamanho < 16 || tabela->0.tamanho < 20 {
                None
            } else {
                let m = mascara->0.dados;
                let t = tabela->0.dados;
                match larguras(b, vs, be32_spec(b, t + 16)) {
                    None => None,
                    Some(l) => if l.interrupcao < 3 {
                        None
                    } else {
                        Some(
                            Mapa {
                                mascara_alto: be32_spec(b, m),
                                mascara_do_pino: be32_spec(b, m + 12),
                                em: t,
                                bytes: tabela->0.tamanho,
                                larguras: l,
                            },
                        )
                    },
                }
            }
        },
    }
}

impl Mapa {
    /// Bytes of an entry: four cells of the device, the handle, and the two
    /// widths of the controller.
    pub open spec fn por_entrada(self) -> int {
        (5 + self.larguras.endereco + self.larguras.interrupcao) * 4
    }

    /// The entry at `e` is about the device and the pin, under the masks.
    pub open spec fn combina(self, b: Seq<u8>, e: int, alto: u32, pino: u32) -> bool {
        &&& be32_spec(b, e) & self.mascara_alto == alto & self.mascara_alto
        &&& be32_spec(b, e + 12) & self.mascara_do_pino == pino & self.mascara_do_pino
    }

    /// The interrupt that the entry at `e` leads to.
    pub open spec fn interrupcao_em(self, b: Seq<u8>, e: int) -> Interrupcao {
        let em = e + (5 + self.larguras.endereco) * 4;
        Interrupcao {
            tipo: be32_spec(b, em),
            numero: be32_spec(b, em + 4),
            flags: be32_spec(b, em + 8),
        }
    }

    /// The first entry from `k` on that is about the device and the pin.
    pub open spec fn procura(self, b: Seq<u8>, alto: u32, pino: u32, k: int) -> Option<Interrupcao>
        decreases self.bytes / self.por_entrada() - k,
    {
        let e = self.em + k * self.por_entrada();
        if k < 0 || k >= self.bytes / self.por_entrada() {
            None
        } else if self.combina(b, e, alto, pino) {
            Some(self.interrupcao_em(b, e))
        } else {
            self.procura(b, alto, pino, k + 1)
        }
    }
}

/// The line on which a device interrupts: the first cell of its PCI address
/// and its pin, looked up in the table of the host bridge.
pub open spec fn interrupcao_de(b: Seq<u8>, alto: u32, pino: u8) -> Option<Interrupcao> {
    match mapa(b) {
        None => None,
        Some(m) => m.procura(b, alto, pino as u32, 0),
    }
}

/// Finds the last property of a name that a node has: where its contents are,
/// and how long they are.
fn ultima_do_no(b: &[u8], props: &Vec<Propriedade<'_>>, no: u32, nome: &str) -> (r: Option<(usize, usize)>)
    requires
        forall|j: int| 0 <= j < props@.len() ==> cabe(b@, (#[trigger] props@[j])@),
    ensures
        match r {
            Some(d) => {
                let u = ultima(vistas(props@), |v: Vista| do_no(v, no, nome));
                u is Some && u->0.dados == d.0 && u->0.tamanho == d.1 && d.0 + d.1 <= b@.len()
            },
            None => ultima(vistas(props@), |v: Vista| do_no(v, no, nome)) is None,
        },
{
    let ghost vs = vistas(props@);
    let ghost f = |v: Vista| do_no(v, no, nome);
    let mut achada: Option<(usize, usize)> = None;
    let mut i: usize = 0;
    while i < props.len()
        invariant
            i <= props@.len(),
            vs == vistas(props@),
            f == (|v: Vista| do_no(v, no, nome)),
            forall|j: int| 0 <= j < props@.len() ==> cabe(b@, (#[trigger] props@[j])@),
            match achada {
                Some(d) => {
                    let u = ultima(vs.take(i as int), f);
                    u is Some && u->0.dados == d.0 && u->0.tamanho == d.1 && d.0 + d.1 <= b@.len()
                },
                None => ultima(vs.take(i as int), f) is None,
            },
        decreases props@.len() - i,
    {
        let prop = &props[i];
        proof {
            assert(vs.take(i + 1).drop_last() =~= vs.take(i as int));
            assert(vs[i as int] == prop@);
            assert(cabe(b@, prop@));
        }
        if prop.no_seq == no && iguais(prop.nome, nome.as_bytes()) {
            achada = Some((prop.dados, prop.tamanho));
        }
        i = i + 1;
    }
    proof {
        assert(vs.take(vs.len() as int) =~= vs);
    }
    achada
}

/// The line of the controller on which a PCI device interrupts.
///
/// `endereco_alto` is the first cell of the device's address, the one with
/// bus, slot and function.
pub fn interrupcao_pci(b: &[u8], endereco_alto: u32, pino: u8) -> (r: Option<Interrupcao>)
    requires
        b@.len() <= isize::MAX,
    ensures
        r == interrupcao_de(b@, endereco_alto, pino),
{
    let (props, _fim) = percorrer(b);
    let alvo: u32 = match no_do_host_bridge(b, &props) {
        None => {
            return None;
        },
        Some(n) => n,
    };
    let (mascara_em, mascara_bytes): (usize, usize) = match ultima_do_no(
        b,
        &props,
        alvo,
        "interrupt-map-mask",
    ) {
        None => {
            return None;
        },
        Some(d) => d,
    };
    let (mapa_em, mapa_bytes): (usize, usize) = match ultima_do_no(b, &props, alvo, "interrupt-map") {
        None => {
            return None;
        },
        Some(d) => d,
    };
    if mascara_bytes < 16 {
        return None;
    }
    let mascara_alto: u32 = be32(b, mascara_em);
    let mascara_do_pino: u32 = be32(b, mascara_em + 12);
    if mapa_bytes < 20 {
        return None;
    }
    let phandle: u32 = be32(b, mapa_em + 16);
    let larguras: Larguras = match larguras_do_phandle(b, &props, phandle) {
        None => {
            return None;
        },
        Some(l) => l,
    };
    if larguras.interrupcao < 3 {
        return None;
    }
    let por_entrada: usize = (5 + larguras.endereco as usize + larguras.interrupcao as usize) * 4;
    let ghost m = mapa(b@)->0;
    proof {
        assert(mapa(b@) is Some);
        assert(m.em == mapa_em);
        assert(m.bytes == mapa_bytes);
        assert(m.por_entrada() == por_entrada);
        lemma_entradas(mapa_bytes as int, por_entrada as int, 0);
    }
    let procurado_alto: u32 = endereco_alto & mascara_alto;
    let procurado_pino: u32 = pino as u32 & mascara_do_pino;
    let mut deslocamento: usize = 0;
    let ghost mut k: int = 0;
    while deslocamento + por_entrada <= mapa_bytes
        invariant
            b@.len() <= isize::MAX,
            mapa(b@) == Some(m),
            m.em == mapa_em,
            m.bytes == mapa_bytes,
            m.por_entrada() == por_entrada,
            m.larguras == larguras,
            m.mascara_alto == mascara_alto,
            m.mascara_do_pino == mascara_do_pino,
            larguras.endereco <= MAX_CELULAS,
            3 <= larguras.interrupcao <= MAX_CELULAS,
            mapa_em + mapa_bytes <= b@.len(),
            procurado_alto == endereco_alto & mascara_alto,
            procurado_pino == pino as u32 & mascara_do_pino,
            deslocamento <= mapa_bytes,
            0 <= k,
            deslocamento == k * por_entrada,
            m.procura(b@, endereco_alto, pino as u32, 0) == m.procura(
                b@,
                endereco_alto,
                pino as u32,
                k,
            ),
        decreases mapa_bytes - deslocamento,
    {
        proof {
            lemma_entradas(mapa_bytes as int, por_entrada as int, k);
        }
        let entrada: usize = mapa_em + deslocamento;
        if be32(b, entrada) & mascara_alto == procurado_alto && be32(b, entrada + 12)
            & mascara_do_pino == procurado_pino {
            let em: usize = entrada + (5 + larguras.endereco as usize) * 4;
            return Some(
                Interrupcao {
                    tipo: be32(b, em),
                    numero: be32(b, em + 4),
                    flags: be32(b, em + 8),
                },
            );
        }
        deslocamento = deslocamento + por_entrada;
        proof {
            k = k + 1;
        }
    }
    proof {
        lemma_entradas(mapa_bytes as int, por_entrada as int, k);
    }
    None
}

/// The order of the properties does not matter: the one property that is
/// looked for is found wherever it stands.
pub proof fn lei_a_unica_e_achada(vs: Seq<Vista>, f: spec_fn(Vista) -> bool, i: int)
    requires
        0 <= i < vs.len(),
        f(vs[i]),
        forall|j: int| 0 <= j < vs.len() && j != i ==> !f(#[trigger] vs[j]),
    ensures
        primeira(vs, f) == Some(vs[i]),
        ultima(vs, f) == Some(vs[i]),
    decreases vs.len(),
{
    let resto = vs.drop_last();
    if i < vs.len() - 1 {
        assert forall|j: int| 0 <= j < resto.len() && j != i implies !f(#[trigger] resto[j]) by {
            assert(resto[j] == vs[j]);
        }
        lei_a_unica_e_achada(resto, f, i);
    } else {
        lemma_nenhuma(resto, f);
    }
}

proof fn lemma_nenhuma(vs: Seq<Vista>, f: spec_fn(Vista) -> bool)
    requires
        forall|j: int| 0 <= j < vs.len() ==> !f(#[trigger] vs[j]),
    ensures
        primeira(vs, f) is None,
        ultima(vs, f) is None,
    decreases vs.len(),
{
    if vs.len() > 0 {
        assert forall|j: int| 0 <= j < vs.drop_last().len() implies !f(#[trigger] vs.drop_last()[j]) by {
            assert(vs.drop_last()[j] == vs[j]);
        }
        lemma_nenhuma(vs.drop_last(), f);
    }
}

/// Properties in the order of the walk: their numbers never go back, and those
/// that share a number share the node, or come after its end, where the name
/// is empty.
pub open spec fn numeradas(vs: Seq<Vista>) -> bool {
    forall|i: int, j: int|
        0 <= i <= j < vs.len() ==> {
            &&& (#[trigger] vs[i]).no_seq <= (#[trigger] vs[j]).no_seq
            &&& vs[i].no_seq == vs[j].no_seq ==> vs[j].no == vs[i].no || vs[j].no.len() == 0
        }
}

/// Two nodes never share a number, in a blob of any size that its header can
/// state.
pub proof fn lei_numeros_nao_se_repetem(b: Seq<u8>)
    requires
        b.len() <= u32::MAX,
    ensures
        numeradas(arvore(b).0),
{
    if b.len() >= 16 && be32_spec(b, 0) == MAGIC {
        lemma_numeradas(b, be32_spec(b, 12) as int, partida(be32_spec(b, 8) as int));
    }
}

proof fn lemma_numeradas(b: Seq<u8>, textos: int, p: Ponto)
    requires
        0 <= p.pos,
        p.pos < b.len() ==> p.no_seq + b.len() - p.pos <= u32::MAX,
    ensures
        ({
            let vs = percurso(b, textos, p).0;
            &&& numeradas(vs)
            &&& forall|j: int|
                0 <= j < vs.len() ==> {
                    &&& p.no_seq <= (#[trigger] vs[j]).no_seq
                    &&& p.no_seq == vs[j].no_seq ==> vs[j].no == p.no || vs[j].no.len() == 0
                }
        }),
    decreases
            if p.pos < b.len() {
                b.len() - p.pos
            } else {
                0
            },
{
    lemma_avanca(b, textos, p);
    let vs = percurso(b, textos, p).0;
    match passo(b, textos, p) {
        Passo::Fim => {},
        Passo::Erro(_) => {},
        Passo::Segue(q) => {
            lemma_numeradas(b, textos, q);
        },
        Passo::Visita(v, q) => {
            lemma_numeradas(b, textos, q);
            let resto = percurso(b, textos, q).0;
            assert(vs == seq![v] + resto);
            assert forall|j: int| 0 < j < vs.len() implies #[trigger] vs[j] == resto[j - 1] by {}
        },
    }
}

/// A cell has its most significant byte first. A number of two cells has the
/// first of them above the second; of three or four cells the last two count.
pub proof fn lei_celulas(b: Seq<u8>, i: int)
    ensures
        be32_spec(b, i) == b[i] * 0x100_0000 + b[i + 1] * 0x1_0000 + b[i + 2] * 0x100 + b[i + 3],
        celulas(b, i, 0) == 0,
        celulas(b, i, 1) == b[i] * 0x100_0000 + b[i + 1] * 0x1_0000 + b[i + 2] * 0x100 + b[i + 3],
        celulas(b, i, 2) == b[i] * 0x100_0000_0000_0000 + b[i + 1] * 0x1_0000_0000_0000 + b[i + 2]
            * 0x100_0000_0000 + b[i + 3] * 0x1_0000_0000 + b[i + 4] * 0x100_0000 + b[i + 5] * 0x1_0000
            + b[i + 6] * 0x100 + b[i + 7],
        celulas(b, i, 3) == celulas(b, i + 4, 2),
        celulas(b, i, 4) == celulas(b, i + 8, 2),
{
}

/// Every whole pair of a `reg` is read, one after the other: the cells of the
/// address, and then those of the size.
pub proof fn lei_pares_de_reg(b: Seq<u8>, v: Vista, k: int)
    requires
        v.address_cells <= 4,
        v.size_cells <= 4,
        v.address_cells + v.size_cells > 0,
        0 <= v.tamanho,
        0 <= k,
    ensures
        ({
            let largura = (v.address_cells + v.size_cells) * 4;
            let em = v.dados + k * largura;
            &&& k < pares(b, v).len() <==> (k + 1) * largura <= v.tamanho
            &&& k < pares(b, v).len() ==> pares(b, v)[k].0 == celulas(b, em, v.address_cells as int)
                && pares(b, v)[k].1 == celulas(b, em + v.address_cells * 4, v.size_cells as int)
        }),
{
    lemma_entradas(v.tamanho, (v.address_cells + v.size_cells) * 4, k);
}

/// What two cells of address and two of size write is what a `reg` says, for
/// every address and every size.
pub proof fn lei_reg_de_64_bits(b: Seq<u8>, v: Vista, k: int, endereco: u64, tamanho: u64)
    requires
        v.address_cells == 2,
        v.size_cells == 2,
        0 <= v.tamanho,
        0 <= k,
        k * 16 + 16 <= v.tamanho,
        ({
            let i = v.dados + k * 16;
            &&& endereco == b[i] * 0x100_0000_0000_0000 + b[i + 1] * 0x1_0000_0000_0000 + b[i + 2]
                * 0x100_0000_0000 + b[i + 3] * 0x1_0000_0000 + b[i + 4] * 0x100_0000 + b[i + 5]
                * 0x1_0000 + b[i + 6] * 0x100 + b[i + 7]
            &&& tamanho == b[i + 8] * 0x100_0000_0000_0000 + b[i + 9] * 0x1_0000_0000_0000 + b[i + 10]
                * 0x100_0000_0000 + b[i + 11] * 0x1_0000_0000 + b[i + 12] * 0x100_0000 + b[i + 13]
                * 0x1_0000 + b[i + 14] * 0x100 + b[i + 15]
        }),
    ensures
        k < pares(b, v).len(),
        pares(b, v)[k] == (endereco, tamanho),
{
    lei_pares_de_reg(b, v, k);
    lei_celulas(b, v.dados + k * 16);
    lei_celulas(b, v.dados + k * 16 + 8);
}

/// The memory of a tree is that of the `reg` of each node `memory` below the
/// root, in the order of the tree, and of no other property.
pub proof fn lei_memoria_dos_nos(b: Seq<u8>, antes: Seq<Vista>, v: Vista)
    ensures
        faixas(b, Seq::empty()) == Seq::<(u64, u64)>::empty(),
        faixas(b, antes.push(v)) == faixas(b, antes) + if v.profundidade == 2 && v.no
            == vstd::utf8::encode_utf8("memory"@) && v.nome == vstd::utf8::encode_utf8("reg"@) {
            pares(b, v)
        } else {
            Seq::empty()
        },
{
    assert(antes.push(v).drop_last() =~= antes);
    assert(faixas(b, antes) + Seq::<(u64, u64)>::empty() =~= faixas(b, antes));
}

/// A tree starts with `d00dfeed`; its tokens are where the third cell says and its
/// names where the fourth does. Where the root says nothing, addresses and sizes
/// take two cells.
pub proof fn lei_cabecalho_da_arvore(b: Seq<u8>)
    ensures
        b.len() == 0 ==> arvore(b).1 == Err::<(), &'static str>("ponteiro de device tree nulo"),
        0 < b.len() < 16 ==> arvore(b).1 == Err::<(), &'static str>("device tree truncado"),
        b.len() < 16 ==> arvore(b).0.len() == 0,
        b.len() >= 16 ==> if b[0] == 0xd0 && b[1] == 0x0d && b[2] == 0xfe && b[3] == 0xed {
            arvore(b) == percurso(
                b,
                b[12] * 0x100_0000 + b[13] * 0x1_0000 + b[14] * 0x100 + b[15],
                Ponto {
                    pos: b[8] * 0x100_0000 + b[9] * 0x1_0000 + b[10] * 0x100 + b[11],
                    profundidade: 0,
                    no: Seq::empty(),
                    no_seq: 0,
                    address_cells: 2,
                    size_cells: 2,
                },
            )
        } else {
            arvore(b).0.len() == 0 && arvore(b).1 == Err::<(), &'static str>(
                "assinatura de device tree invalida",
            )
        },
{
}

/// A node that begins is one level deeper and has the next number; its name is
/// what stands before the `@`, and the walk goes on at the multiple of four after
/// the zero that ends it.
pub proof fn lei_no_comeca(b: Seq<u8>, textos: int, p: Ponto, nome: Seq<u8>, corte: int, cheio: int)
    requires
        0 <= p.pos,
        p.pos + 4 + nome.len() < b.len(),
        b[p.pos] == 0 && b[p.pos + 1] == 0 && b[p.pos + 2] == 0 && b[p.pos + 3] == 1,
        b.subrange(p.pos + 4, p.pos + 4 + nome.len()) == nome,
        b[p.pos + 4 + nome.len()] == 0,
        forall|j: int| 0 <= j < nome.len() ==> #[trigger] nome[j] != 0,
        0 <= corte <= nome.len(),
        corte == nome.len() || nome[corte] == 0x40,
        forall|j: int| 0 <= j < corte ==> #[trigger] nome[j] != 0x40,
        cheio % 4 == 0,
        nome.len() < cheio <= nome.len() + 4,
    ensures
        percurso(b, textos, p) == percurso(
            b,
            textos,
            Ponto {
                pos: p.pos + 4 + cheio,
                profundidade: p.profundidade + 1,
                no: nome.take(corte),
                no_seq: p.no_seq.wrapping_add(1),
                address_cells: p.address_cells,
                size_cells: p.size_cells,
            },
        ),
{
    lemma_texto_em(b, p.pos + 4, nome);
    lemma_primeiro(nome, 0, 64);
    match primeiro(nome, 0, 64) {
        Some(k) => {
            assert(k == corte) by {
                if k < corte {
                    assert(nome[k] == 0x40);
                }
                if corte < k {
                    assert(nome[corte] == 0x40);
                }
            }
            assert(nome.subrange(0, k) =~= nome.take(corte));
        },
        None => {
            assert(corte == nome.len());
            assert(nome.take(corte) =~= nome);
        },
    }
    assert(be32_spec(b, p.pos) == 1);
    assert(alinhado4(nome.len() as int + 1) == cheio);
    assert(passo(b, textos, p) == passo_no(b, p));
}

proof fn lemma_texto_em(b: Seq<u8>, i: int, nome: Seq<u8>)
    requires
        0 <= i,
        i + nome.len() < b.len(),
        b.subrange(i, i + nome.len()) == nome,
        b[i + nome.len()] == 0,
        forall|j: int| 0 <= j < nome.len() ==> #[trigger] nome[j] != 0,
    ensures
        texto_em(b, i) == Some(nome),
{
    lemma_primeiro(b, i, 0);
    let k = primeiro(b, i, 0);
    assert(k is Some) by {
        if k is None {
            assert(b[i + nome.len()] != 0);
        }
    }
    if k->0 < i + nome.len() {
        assert(nome[k->0 - i] == b[k->0]);
    }
    if k->0 > i + nome.len() {
        assert(b[i + nome.len()] != 0);
    }
}

/// A property is visited, with the contents that its length says, under the name
/// that its offset leads to, and in the node that the walk is in; the walk goes on
/// at the multiple of four after it. The root's widths hold from the property that
/// declares them on, where they are four cells at most.
pub proof fn lei_propriedade_e_visitada(
    b: Seq<u8>,
    textos: int,
    p: Ponto,
    nome: Seq<u8>,
    cheio: int,
)
    requires
        0 <= p.pos,
        p.pos + 12 <= b.len(),
        b[p.pos] == 0 && b[p.pos + 1] == 0 && b[p.pos + 2] == 0 && b[p.pos + 3] == 3,
        ({
            let tamanho = b[p.pos + 4] * 0x100_0000 + b[p.pos + 5] * 0x1_0000 + b[p.pos + 6] * 0x100
                + b[p.pos + 7];
            let em = textos + (b[p.pos + 8] * 0x100_0000 + b[p.pos + 9] * 0x1_0000 + b[p.pos + 10]
                * 0x100 + b[p.pos + 11]);
            &&& p.pos + 12 + tamanho <= b.len()
            &&& 0 <= em
            &&& em + nome.len() < b.len()
            &&& b.subrange(em, em + nome.len()) == nome
            &&& b[em + nome.len()] == 0
            &&& cheio % 4 == 0
            &&& tamanho <= cheio < tamanho + 4
        }),
        forall|j: int| 0 <= j < nome.len() ==> #[trigger] nome[j] != 0,
    ensures
        ({
            let tamanho = b[p.pos + 4] * 0x100_0000 + b[p.pos + 5] * 0x1_0000 + b[p.pos + 6] * 0x100
                + b[p.pos + 7];
            let valor = b[p.pos + 12] * 0x100_0000 + b[p.pos + 13] * 0x1_0000 + b[p.pos + 14] * 0x100
                + b[p.pos + 15];
            let declara_ = p.profundidade == 1 && tamanho >= 4 && valor <= 4;
            let a = if declara_ && nome == vstd::utf8::encode_utf8("#address-cells"@) {
                valor as u32
            } else {
                p.address_cells
            };
            let s = if declara_ && nome == vstd::utf8::encode_utf8("#size-cells"@) {
                valor as u32
            } else {
                p.size_cells
            };
            let resto = percurso(
                b,
                textos,
                Ponto {
                    pos: p.pos + 12 + cheio,
                    profundidade: p.profundidade,
                    no: p.no,
                    no_seq: p.no_seq,
                    address_cells: a,
                    size_cells: s,
                },
            );
            percurso(b, textos, p) == (
                seq![
                    Vista {
                        profundidade: p.profundidade,
                        no: p.no,
                        no_seq: p.no_seq,
                        nome,
                        dados: p.pos + 12,
                        tamanho,
                        address_cells: a,
                        size_cells: s,
                    },
                ] + resto.0,
                resto.1,
            )
        }),
{
    let tamanho = b[p.pos + 4] * 0x100_0000 + b[p.pos + 5] * 0x1_0000 + b[p.pos + 6] * 0x100 + b[p.pos
        + 7];
    let em = textos + (b[p.pos + 8] * 0x100_0000 + b[p.pos + 9] * 0x1_0000 + b[p.pos + 10] * 0x100
        + b[p.pos + 11]);
    lemma_texto_em(b, em, nome);
    assert(be32_spec(b, p.pos) == 3);
    assert(be32_spec(b, p.pos + 4) == tamanho);
    assert(textos + be32_spec(b, p.pos + 8) == em);
    assert(alinhado4(tamanho) == cheio);
    assert(passo(b, textos, p) == passo_propriedade(b, textos, p));
    lei_celulas(b, p.pos + 12);
}

/// The end of a node leads one level up, a token that says nothing changes
/// nothing, the last token ends the walk, and any other refuses the tree.
pub proof fn lei_outros_tokens(b: Seq<u8>, textos: int, p: Ponto)
    requires
        0 <= p.pos,
        p.pos + 4 <= b.len(),
        b[p.pos] == 0 && b[p.pos + 1] == 0 && b[p.pos + 2] == 0,
    ensures
        b[p.pos + 3] == 2 && p.profundidade > 0 ==> percurso(b, textos, p) == percurso(
            b,
            textos,
            (Ponto {
                pos: p.pos + 4,
                profundidade: p.profundidade - 1,
                no: Seq::empty(),
                no_seq: p.no_seq,
                address_cells: p.address_cells,
                size_cells: p.size_cells,
            }),
        ),
        b[p.pos + 3] == 4 ==> percurso(b, textos, p) == percurso(
            b,
            textos,
            (Ponto {
                pos: p.pos + 4,
                profundidade: p.profundidade,
                no: p.no,
                no_seq: p.no_seq,
                address_cells: p.address_cells,
                size_cells: p.size_cells,
            }),
        ),
        b[p.pos + 3] == 9 ==> percurso(b, textos, p).0.len() == 0 && percurso(b, textos, p).1 == Ok::<
            (),
            &'static str,
        >(()),
        b[p.pos + 3] == 0 || b[p.pos + 3] > 9 || 4 < b[p.pos + 3] < 9 ==> percurso(b, textos, p).0.len()
            == 0 && percurso(b, textos, p).1 == Err::<(), &'static str>(
            "token desconhecido no device tree",
        ),
{
    assert(be32_spec(b, p.pos) == b[p.pos + 3]);
}

/// The first of a run that is selected has none selected before it, the last has
/// none after it, and there is none exactly where nothing is selected.
pub proof fn lei_primeira_e_ultima(vs: Seq<Vista>, f: spec_fn(Vista) -> bool)
    ensures
        match primeira(vs, f) {
            Some(v) => exists|i: int|
                0 <= i < vs.len() && #[trigger] vs[i] == v && f(v) && forall|j: int|
                    0 <= j < i ==> !f(#[trigger] vs[j]),
            None => forall|j: int| 0 <= j < vs.len() ==> !f(#[trigger] vs[j]),
        },
        match ultima(vs, f) {
            Some(v) => exists|i: int|
                0 <= i < vs.len() && #[trigger] vs[i] == v && f(v) && forall|j: int|
                    i < j < vs.len() ==> !f(#[trigger] vs[j]),
            None => forall|j: int| 0 <= j < vs.len() ==> !f(#[trigger] vs[j]),
        },
    decreases vs.len(),
{
    if vs.len() > 0 {
        let resto = vs.drop_last();
        lei_primeira_e_ultima(resto, f);
        assert forall|j: int| 0 <= j < resto.len() implies #[trigger] vs[j] == resto[j] by {}
        match primeira(resto, f) {
            Some(v) => {
                let i = choose|i: int|
                    0 <= i < resto.len() && #[trigger] resto[i] == v && f(v) && forall|j: int|
                        0 <= j < i ==> !f(#[trigger] resto[j]);
                assert(vs[i] == v);
                assert forall|j: int| 0 <= j < i implies !f(#[trigger] vs[j]) by {
                    assert(vs[j] == resto[j]);
                }
            },
            None => {
                assert forall|j: int| 0 <= j < resto.len() implies !f(#[trigger] vs[j]) by {
                    assert(vs[j] == resto[j]);
                }
                if f(vs.last()) {
                    assert(vs[vs.len() - 1] == vs.last());
                }
            },
        }
        if f(vs.last()) {
            assert(vs[vs.len() - 1] == vs.last());
        } else {
            match ultima(resto, f) {
                Some(v) => {
                    let i = choose|i: int|
                        0 <= i < resto.len() && #[trigger] resto[i] == v && f(v) && forall|j: int|
                            i < j < resto.len() ==> !f(#[trigger] resto[j]);
                    assert(vs[i] == v);
                    assert forall|j: int| i < j < vs.len() implies !f(#[trigger] vs[j]) by {
                        if j < resto.len() {
                            assert(vs[j] == resto[j]);
                        }
                    }
                },
                None => {
                    assert forall|j: int| 0 <= j < vs.len() implies !f(#[trigger] vs[j]) by {
                        if j < resto.len() {
                            assert(vs[j] == resto[j]);
                        }
                    }
                },
            }
        }
    }
}

/// A text is in a list wherever it stands between two ends of text.
pub proof fn lei_texto_na_lista(antes: Seq<u8>, alvo: Seq<u8>, depois: Seq<u8>)
    requires
        antes.len() == 0 || antes.last() == 0,
        depois.len() == 0 || depois[0] == 0,
        forall|j: int| 0 <= j < alvo.len() ==> #[trigger] alvo[j] != 0,
    ensures
        lista_contem(antes + alvo + depois, alvo),
{
    let l = antes + alvo + depois;
    let i = antes.len() as int;
    let j = i + alvo.len();
    assert(l.subrange(i, j) =~= alvo);
    assert forall|k: int| i <= k < j implies #[trigger] l[k] != 0 by {
        assert(l[k] == alvo[k - i]);
    }
    if antes.len() > 0 {
        assert(l[i - 1] == antes.last());
    }
    if depois.len() > 0 {
        assert(l[j] == depois[0]);
    }
    assert(peca(l, i, j));
}

/// A list that has a text has it between two ends of text.
pub proof fn lei_da_lista_para_o_texto(l: Seq<u8>, alvo: Seq<u8>)
    requires
        lista_contem(l, alvo),
    ensures
        exists|i: int|
            0 <= i && i + alvo.len() <= l.len() && #[trigger] l.subrange(i, i + alvo.len()) == alvo && (i
                == 0 || l[i - 1] == 0) && (i + alvo.len() == l.len() || l[i + alvo.len()] == 0),
        forall|j: int| 0 <= j < alvo.len() ==> #[trigger] alvo[j] != 0,
{
    let (i, j) = choose|i: int, j: int| #[trigger] peca(l, i, j) && l.subrange(i, j) == alvo;
    assert(j == i + alvo.len());
    assert(l.subrange(i, i + alvo.len()) == alvo);
    assert forall|k: int| 0 <= k < alvo.len() implies #[trigger] alvo[k] != 0 by {
        assert(l[i + k] != 0);
    }
}

/// The host bridge is the node of the first `compatible` below the root that
/// names the generic one.
pub proof fn lei_host_bridge(b: Seq<u8>, i: int)
    requires
        0 <= i < arvore(b).0.len(),
    ensures
        ({
            let v = arvore(b).0[i];
            let e = |v: Vista|
                v.profundidade == 2 && v.nome == vstd::utf8::encode_utf8("compatible"@) && lista_contem(
                    b.subrange(v.dados, v.dados + v.tamanho),
                    vstd::utf8::encode_utf8("pci-host-ecam-generic"@),
                );
            e(v) && (forall|j: int| 0 <= j < i ==> !e(#[trigger] arvore(b).0[j])) ==> host_bridge(b)
                == Some(v.no_seq)
        }),
        host_bridge(b) is None ==> !(arvore(b).0[i].profundidade == 2 && arvore(b).0[i].nome
            == vstd::utf8::encode_utf8("compatible"@) && lista_contem(
            b.subrange(arvore(b).0[i].dados, arvore(b).0[i].dados + arvore(b).0[i].tamanho),
            vstd::utf8::encode_utf8("pci-host-ecam-generic"@),
        )),
{
    let vs = arvore(b).0;
    let f = |v: Vista| de_host_bridge(b, v);
    let e = |v: Vista|
        v.profundidade == 2 && v.nome == vstd::utf8::encode_utf8("compatible"@) && lista_contem(
            b.subrange(v.dados, v.dados + v.tamanho),
            vstd::utf8::encode_utf8("pci-host-ecam-generic"@),
        );
    lei_primeira_e_ultima(vs, f);
    let v = vs[i];
    assert(f(v) == e(v));
    if e(v) && (forall|j: int| 0 <= j < i ==> !e(#[trigger] vs[j])) {
        let w = primeira(vs, f)->0;
        let k = choose|k: int|
            0 <= k < vs.len() && #[trigger] vs[k] == w && f(w) && forall|j: int|
                0 <= j < k ==> !f(#[trigger] vs[j]);
        if k < i {
            assert(e(vs[k]));
        }
        if i < k {
            assert(f(vs[i]));
        }
    }
}

/// The window of memory is that of the first entry of `ranges` whose first byte
/// says memory of 32 bits: three cells of address on the bus, of which the last
/// two count, the address for the processor, and two cells of size.
pub proof fn lei_janela_de_ranges(b: Seq<u8>, v: Vista, k: int)
    requires
        v.address_cells <= 4,
        0 <= v.tamanho,
        0 <= k,
        ({
            let largura = (3 + v.address_cells + 2) * 4;
            &&& (k + 1) * largura <= v.tamanho
            &&& b[v.dados + k * largura] % 4 == 2
            &&& forall|j: int| 0 <= j < k ==> b[v.dados + #[trigger] (j * largura)] % 4 != 2
        }),
    ensures
        ({
            let e = v.dados + k * ((3 + v.address_cells + 2) * 4);
            janela_32(b, v, 0) == Some(
                (
                    celulas(b, e + 4, 2),
                    celulas(b, e + 12, v.address_cells as int),
                    celulas(b, e + 12 + v.address_cells * 4, 2),
                ),
            )
        }),
{
    lemma_janela(b, v, k, 0);
}

proof fn lemma_janela(b: Seq<u8>, v: Vista, k: int, de: int)
    requires
        v.address_cells <= 4,
        0 <= v.tamanho,
        0 <= de <= k,
        ({
            let largura = (3 + v.address_cells + 2) * 4;
            &&& (k + 1) * largura <= v.tamanho
            &&& b[v.dados + k * largura] % 4 == 2
            &&& forall|j: int| de <= j < k ==> b[v.dados + #[trigger] (j * largura)] % 4 != 2
        }),
    ensures
        ({
            let e = v.dados + k * ((3 + v.address_cells + 2) * 4);
            janela_32(b, v, de) == Some(
                (
                    celulas(b, e + 4, 2),
                    celulas(b, e + 12, v.address_cells as int),
                    celulas(b, e + 12 + v.address_cells * 4, 2),
                ),
            )
        }),
    decreases k - de,
{
    let largura = (3 + v.address_cells + 2) * 4;
    lemma_entradas(v.tamanho, largura, de);
    assert((de + 1) * largura <= (k + 1) * largura) by (nonlinear_arith)
        requires
            de <= k,
            largura > 0,
    ;
    let e = v.dados + de * largura;
    lei_celulas(b, e);
    assert(be32_spec(b, e) as int / 0x100_0000 == b[e]);
    assert(de_memoria_32(b, e) == (b[v.dados + de * largura] % 4 == 2));
    if de < k {
        lemma_janela(b, v, k, de + 1);
    }
}

/// Where no entry of `ranges` is memory of 32 bits there is no window.
pub proof fn lei_sem_janela(b: Seq<u8>, v: Vista, de: int)
    requires
        v.address_cells <= 4,
        0 <= v.tamanho,
        0 <= de,
        forall|j: int|
            de <= j && (j + 1) * ((3 + v.address_cells + 2) * 4) <= v.tamanho ==> b[v.dados
                + #[trigger] (j * ((3 + v.address_cells + 2) * 4))] % 4 != 2,
    ensures
        janela_32(b, v, de) is None,
    decreases v.tamanho / ((3 + v.address_cells + 2) * 4) - de,
{
    let largura = (3 + v.address_cells + 2) * 4;
    lemma_entradas(v.tamanho, largura, de);
    if de < v.tamanho / largura {
        let e = v.dados + de * largura;
        lei_celulas(b, e);
        assert(be32_spec(b, e) as int / 0x100_0000 == b[e]);
        assert(b[v.dados + de * largura] % 4 != 2);
        lei_sem_janela(b, v, de + 1);
    }
}

/// The bus has the first range of the first `reg` with one of the host bridge's
/// node as its configuration space, and the window of its last `ranges`.
pub proof fn lei_barramento(b: Seq<u8>, i: int, j: int)
    requires
        0 <= i < arvore(b).0.len(),
        0 <= j < arvore(b).0.len(),
        host_bridge(b) is Some,
        ({
            let vs = arvore(b).0;
            let no = host_bridge(b)->0;
            &&& vs[i].no_seq == no && vs[i].nome == vstd::utf8::encode_utf8("reg"@)
            &&& pares(b, vs[i]).len() > 0
            &&& forall|k: int|
                0 <= k < i ==> !((#[trigger] vs[k]).no_seq == no && vs[k].nome == vstd::utf8::encode_utf8(
                    "reg"@,
                ))
            &&& vs[j].no_seq == no && vs[j].nome == vstd::utf8::encode_utf8("ranges"@)
            &&& forall|k: int|
                j < k < vs.len() ==> !((#[trigger] vs[k]).no_seq == no && vs[k].nome
                    == vstd::utf8::encode_utf8("ranges"@))
        }),
    ensures
        barramento(b) is Some,
        barramento(b)->0.ecam == pares(b, arvore(b).0[i])[0],
        barramento(b)->0.mmio32 == janela_32(b, arvore(b).0[j], 0),
{
    let vs = arvore(b).0;
    let no = host_bridge(b)->0;
    lemma_primeiro_par(b, vs, no, i);
    let f = |v: Vista| do_no(v, no, "ranges");
    lei_primeira_e_ultima(vs, f);
    let w = ultima(vs, f);
    assert(f(vs[j]));
    let q = choose|q: int|
        0 <= q < vs.len() && #[trigger] vs[q] == w->0 && f(w->0) && forall|k: int|
            q < k < vs.len() ==> !f(#[trigger] vs[k]);
    if q < j {
        assert(!f(vs[j]));
    }
    if j < q {
        assert(!(vs[q].no_seq == no && vs[q].nome == vstd::utf8::encode_utf8("ranges"@)));
    }
}

proof fn lemma_primeiro_par(b: Seq<u8>, vs: Seq<Vista>, no: u32, i: int)
    requires
        0 <= i < vs.len(),
        do_no(vs[i], no, "reg"),
        pares(b, vs[i]).len() > 0,
        forall|k: int| 0 <= k < i ==> !do_no(#[trigger] vs[k], no, "reg"),
    ensures
        primeiro_par(b, vs, no) == Some(pares(b, vs[i])[0]),
    decreases vs.len(),
{
    let resto = vs.drop_last();
    if i < vs.len() - 1 {
        assert(resto[i] == vs[i]);
        assert forall|k: int| 0 <= k < i implies !do_no(#[trigger] resto[k], no, "reg") by {
            assert(resto[k] == vs[k]);
        }
        lemma_primeiro_par(b, resto, no, i);
    } else {
        lemma_sem_par(b, resto, no);
    }
}

proof fn lemma_sem_par(b: Seq<u8>, vs: Seq<Vista>, no: u32)
    requires
        forall|k: int| 0 <= k < vs.len() ==> !do_no(#[trigger] vs[k], no, "reg"),
    ensures
        primeiro_par(b, vs, no) is None,
    decreases vs.len(),
{
    if vs.len() > 0 {
        assert forall|k: int| 0 <= k < vs.drop_last().len() implies !do_no(
            #[trigger] vs.drop_last()[k],
            no,
            "reg",
        ) by {
            assert(vs.drop_last()[k] == vs[k]);
        }
        lemma_sem_par(b, vs.drop_last(), no);
    }
}

/// The route of an interrupt is that of the first entry of the table whose address
/// and pin agree with the device's where the masks say. An entry has four cells of
/// the device, the handle, and the cells of the controller; the interrupt is in the
/// first three of those of interrupts.
pub proof fn lei_rota_da_interrupcao(m: Mapa, b: Seq<u8>, alto: u32, pino: u32, k: int)
    requires
        m.larguras.endereco <= 4,
        m.larguras.interrupcao <= 4,
        0 <= m.bytes,
        0 <= k,
        ({
            let largura = (4 + 1 + m.larguras.endereco + m.larguras.interrupcao) * 4;
            let e = m.em + k * largura;
            &&& (k + 1) * largura <= m.bytes
            &&& be32_spec(b, e) & m.mascara_alto == alto & m.mascara_alto
            &&& be32_spec(b, e + 12) & m.mascara_do_pino == pino & m.mascara_do_pino
            &&& forall|j: int|
                0 <= j < k ==> !(be32_spec(b, m.em + #[trigger] (j * largura)) & m.mascara_alto == alto
                    & m.mascara_alto && be32_spec(b, m.em + j * largura + 12) & m.mascara_do_pino == pino
                    & m.mascara_do_pino)
        }),
    ensures
        ({
            let largura = (4 + 1 + m.larguras.endereco + m.larguras.interrupcao) * 4;
            let em = m.em + k * largura + (4 + 1 + m.larguras.endereco) * 4;
            m.procura(b, alto, pino, 0) == Some(
                Interrupcao {
                    tipo: be32_spec(b, em),
                    numero: be32_spec(b, em + 4),
                    flags: be32_spec(b, em + 8),
                },
            )
        }),
{
    lemma_rota(m, b, alto, pino, k, 0);
}

proof fn lemma_rota(m: Mapa, b: Seq<u8>, alto: u32, pino: u32, k: int, de: int)
    requires
        m.larguras.endereco <= 4,
        m.larguras.interrupcao <= 4,
        0 <= m.bytes,
        0 <= de <= k,
        ({
            let largura = (4 + 1 + m.larguras.endereco + m.larguras.interrupcao) * 4;
            let e = m.em + k * largura;
            &&& (k + 1) * largura <= m.bytes
            &&& be32_spec(b, e) & m.mascara_alto == alto & m.mascara_alto
            &&& be32_spec(b, e + 12) & m.mascara_do_pino == pino & m.mascara_do_pino
            &&& forall|j: int|
                de <= j < k ==> !(be32_spec(b, m.em + #[trigger] (j * largura)) & m.mascara_alto == alto
                    & m.mascara_alto && be32_spec(b, m.em + j * largura + 12) & m.mascara_do_pino == pino
                    & m.mascara_do_pino)
        }),
    ensures
        ({
            let largura = (4 + 1 + m.larguras.endereco + m.larguras.interrupcao) * 4;
            let em = m.em + k * largura + (4 + 1 + m.larguras.endereco) * 4;
            m.procura(b, alto, pino, de) == Some(
                Interrupcao {
                    tipo: be32_spec(b, em),
                    numero: be32_spec(b, em + 4),
                    flags: be32_spec(b, em + 8),
                },
            )
        }),
    decreases k - de,
{
    let largura = m.por_entrada();
    lemma_entradas(m.bytes, largura, de);
    assert((de + 1) * largura <= (k + 1) * largura) by (nonlinear_arith)
        requires
            de <= k,
            largura > 0,
    ;
    let e = m.em + de * largura;
    if de < k {
        assert(!m.combina(b, e, alto, pino));
        lemma_rota(m, b, alto, pino, k, de + 1);
    }
}

/// The table of interrupts is read from the last `interrupt-map` of the host
/// bridge's node, under the first and the fourth cell of its last
/// `interrupt-map-mask`, with the widths of the controller that the handle of the
/// first entry names.
pub proof fn lei_mapa_de_interrupcoes(b: Seq<u8>, i: int, j: int)
    requires
        0 <= i < arvore(b).0.len(),
        0 <= j < arvore(b).0.len(),
        host_bridge(b) is Some,
        ({
            let vs = arvore(b).0;
            let no = host_bridge(b)->0;
            &&& vs[i].no_seq == no && vs[i].nome == vstd::utf8::encode_utf8("interrupt-map-mask"@)
            &&& vs[i].tamanho >= 16
            &&& forall|k: int|
                i < k < vs.len() ==> !((#[trigger] vs[k]).no_seq == no && vs[k].nome
                    == vstd::utf8::encode_utf8("interrupt-map-mask"@))
            &&& vs[j].no_seq == no && vs[j].nome == vstd::utf8::encode_utf8("interrupt-map"@)
            &&& vs[j].tamanho >= 20
            &&& forall|k: int|
                j < k < vs.len() ==> !((#[trigger] vs[k]).no_seq == no && vs[k].nome
                    == vstd::utf8::encode_utf8("interrupt-map"@))
        }),
    ensures
        ({
            let vs = arvore(b).0;
            match larguras(b, vs, be32_spec(b, vs[j].dados + 16)) {
                Some(l) => if l.interrupcao >= 3 {
                    &&& mapa(b) is Some
                    &&& mapa(b)->0.larguras == l
                    &&& mapa(b)->0.em == vs[j].dados
                    &&& mapa(b)->0.bytes == vs[j].tamanho
                    &&& mapa(b)->0.mascara_alto == be32_spec(b, vs[i].dados)
                    &&& mapa(b)->0.mascara_do_pino == be32_spec(b, vs[i].dados + 12)
                } else {
                    mapa(b) is None
                },
                None => mapa(b) is None,
            }
        }),
{
    let vs = arvore(b).0;
    let no = host_bridge(b)->0;
    let f = |v: Vista| do_no(v, no, "interrupt-map-mask");
    let g = |v: Vista| do_no(v, no, "interrupt-map");
    lemma_a_ultima(vs, f, i);
    lemma_a_ultima(vs, g, j);
}

proof fn lemma_a_ultima(vs: Seq<Vista>, f: spec_fn(Vista) -> bool, i: int)
    requires
        0 <= i < vs.len(),
        f(vs[i]),
        forall|k: int| i < k < vs.len() ==> !f(#[trigger] vs[k]),
    ensures
        ultima(vs, f) == Some(vs[i]),
{
    lei_primeira_e_ultima(vs, f);
    let w = ultima(vs, f)->0;
    let q = choose|q: int|
        0 <= q < vs.len() && #[trigger] vs[q] == w && f(w) && forall|k: int|
            q < k < vs.len() ==> !f(#[trigger] vs[k]);
    if q < i {
        assert(!f(vs[i]));
    }
    if i < q {
        assert(!f(vs[q]));
    }
}

/// The widths of a controller are those that the node with the handle declares:
/// four cells at most, none for addresses counting as zero.
pub proof fn lei_larguras_do_controlador(b: Seq<u8>, vs: Seq<Vista>, phandle: u32, p: int, i: int)
    requires
        0 <= p < vs.len(),
        0 <= i < vs.len(),
        vs[p].nome == vstd::utf8::encode_utf8("phandle"@),
        vs[p].tamanho >= 4,
        be32_spec(b, vs[p].dados) == phandle,
        forall|k: int|
            0 <= k < p ==> !((#[trigger] vs[k]).nome == vstd::utf8::encode_utf8("phandle"@)
                && vs[k].tamanho >= 4 && be32_spec(b, vs[k].dados) == phandle),
        vs[i].no_seq == vs[p].no_seq,
        vs[i].nome == vstd::utf8::encode_utf8("#interrupt-cells"@),
        vs[i].tamanho >= 4,
        be32_spec(b, vs[i].dados) <= 4,
        forall|k: int|
            i < k < vs.len() ==> !((#[trigger] vs[k]).no_seq == vs[p].no_seq && vs[k].nome
                == vstd::utf8::encode_utf8("#interrupt-cells"@)),
        forall|k: int|
            0 <= k < vs.len() && (#[trigger] vs[k]).no_seq == vs[p].no_seq && vs[k].tamanho >= 4 && (
            vs[k].nome == vstd::utf8::encode_utf8("#address-cells"@) || vs[k].nome
                == vstd::utf8::encode_utf8("#interrupt-cells"@)) ==> be32_spec(b, vs[k].dados) <= 4,
    ensures
        larguras(b, vs, phandle) is Some,
        larguras(b, vs, phandle)->0.interrupcao == be32_spec(b, vs[i].dados),
        (forall|k: int|
            0 <= k < vs.len() ==> !((#[trigger] vs[k]).no_seq == vs[p].no_seq && vs[k].nome
                == vstd::utf8::encode_utf8("#address-cells"@))) ==> larguras(b, vs, phandle)->0.endereco
            == 0,
        forall|e: int|
            0 <= e < vs.len() && (#[trigger] vs[e]).no_seq == vs[p].no_seq && vs[e].nome
                == vstd::utf8::encode_utf8("#address-cells"@) && vs[e].tamanho >= 4 && (forall|k: int|
                e < k < vs.len() ==> !((#[trigger] vs[k]).no_seq == vs[p].no_seq && vs[k].nome
                    == vstd::utf8::encode_utf8("#address-cells"@))) ==> larguras(
                b,
                vs,
                phandle,
            )->0.endereco == be32_spec(b, vs[e].dados),
{
    let no = vs[p].no_seq;
    let f = |v: Vista| e_phandle(b, v, phandle);
    lei_primeira_e_ultima(vs, f);
    let w = primeira(vs, f)->0;
    assert(f(vs[p]));
    let q = choose|q: int|
        0 <= q < vs.len() && #[trigger] vs[q] == w && f(w) && forall|k: int|
            0 <= k < q ==> !f(#[trigger] vs[k]);
    if q < p {
        assert(f(vs[q]));
    }
    if p < q {
        assert(!f(vs[p]));
    }
    let g = |v: Vista| absurda(b, v, no);
    lei_primeira_e_ultima(vs, g);
    if ultima(vs, g) is Some {
        let a = ultima(vs, g)->0;
        let k = choose|k: int|
            0 <= k < vs.len() && #[trigger] vs[k] == a && g(a) && forall|j: int|
                k < j < vs.len() ==> !g(#[trigger] vs[j]);
        assert(absurda(b, vs[k], no));
    }
    let h = |v: Vista| declara(b, v, no, "#interrupt-cells");
    lemma_a_ultima(vs, h, i);
    let d = |v: Vista| declara(b, v, no, "#address-cells");
    lei_primeira_e_ultima(vs, d);
    if forall|k: int|
        0 <= k < vs.len() ==> !((#[trigger] vs[k]).no_seq == vs[p].no_seq && vs[k].nome
            == vstd::utf8::encode_utf8("#address-cells"@)) {
        if ultima(vs, d) is Some {
            let a = ultima(vs, d)->0;
            let k = choose|k: int|
                0 <= k < vs.len() && #[trigger] vs[k] == a && d(a) && forall|j: int|
                    k < j < vs.len() ==> !d(#[trigger] vs[j]);
            assert(declara(b, vs[k], no, "#address-cells"));
        }
    }
    assert forall|e: int|
        0 <= e < vs.len() && (#[trigger] vs[e]).no_seq == vs[p].no_seq && vs[e].nome
            == vstd::utf8::encode_utf8("#address-cells"@) && vs[e].tamanho >= 4 && (forall|k: int|
            e < k < vs.len() ==> !((#[trigger] vs[k]).no_seq == vs[p].no_seq && vs[k].nome
                == vstd::utf8::encode_utf8("#address-cells"@))) implies larguras(
        b,
        vs,
        phandle,
    )->0.endereco == be32_spec(b, vs[e].dados) by {
        assert(d(vs[e]));
        assert forall|k: int| e < k < vs.len() implies !d(#[trigger] vs[k]) by {}
        lemma_a_ultima(vs, d, e);
    }
}

proof fn lemma_sem_zero(b: Seq<u8>, i: int, x: u8)
    requires
        0 <= i,
        forall|k: int| i <= k < b.len() ==> #[trigger] b[k] != x,
    ensures
        primeiro(b, i, x) is None,
    decreases b.len() - i,
{
    if i < b.len() {
        lemma_sem_zero(b, i + 1, x);
    }
}

/// A tree that ends in the middle of something is refused, and nothing that is not
/// whole is reported of it: a token without its four bytes, a property without its
/// twelve or without its contents, a node whose name has no end.
pub proof fn lei_arvore_truncada(b: Seq<u8>, textos: int, p: Ponto)
    requires
        0 <= p.pos,
        ({
            let token = b[p.pos] == 0 && b[p.pos + 1] == 0 && b[p.pos + 2] == 0;
            ||| p.pos + 4 > b.len()
            ||| token && b[p.pos + 3] == 3 && p.pos + 12 > b.len()
            ||| token && b[p.pos + 3] == 3 && p.pos + 12 + (b[p.pos + 4] * 0x100_0000 + b[p.pos + 5]
                * 0x1_0000 + b[p.pos + 6] * 0x100 + b[p.pos + 7]) > b.len()
            ||| token && b[p.pos + 3] == 1 && forall|k: int|
                p.pos + 4 <= k < b.len() ==> #[trigger] b[k] != 0
        }),
    ensures
        percurso(b, textos, p).0.len() == 0,
        percurso(b, textos, p).1 == Err::<(), &'static str>("device tree truncado"),
{
    if p.pos + 4 <= b.len() {
        assert(be32_spec(b, p.pos) == b[p.pos + 3]);
        if b[p.pos + 3] == 1 {
            lemma_sem_zero(b, p.pos + 4, 0);
        }
    }
}

/// A controller that declares a width above four cells is not read, nor is one that
/// declares none for interrupts, nor one that no handle names.
pub proof fn lei_controlador_ilegivel(b: Seq<u8>, vs: Seq<Vista>, phandle: u32, p: int, k: int)
    requires
        0 <= p < vs.len(),
        0 <= k < vs.len(),
        vs[p].nome == vstd::utf8::encode_utf8("phandle"@),
        vs[p].tamanho >= 4,
        be32_spec(b, vs[p].dados) == phandle,
        forall|j: int|
            0 <= j < p ==> !((#[trigger] vs[j]).nome == vstd::utf8::encode_utf8("phandle"@)
                && vs[j].tamanho >= 4 && be32_spec(b, vs[j].dados) == phandle),
    ensures
        vs[k].no_seq == vs[p].no_seq && vs[k].tamanho >= 4 && (vs[k].nome == vstd::utf8::encode_utf8(
            "#address-cells"@,
        ) || vs[k].nome == vstd::utf8::encode_utf8("#interrupt-cells"@)) && be32_spec(b, vs[k].dados)
            > 4 ==> larguras(b, vs, phandle) is None,
        (forall|j: int|
            0 <= j < vs.len() ==> !((#[trigger] vs[j]).no_seq == vs[p].no_seq && vs[j].nome
                == vstd::utf8::encode_utf8("#interrupt-cells"@))) ==> larguras(b, vs, phandle) is None,
{
    let no = vs[p].no_seq;
    let f = |v: Vista| e_phandle(b, v, phandle);
    lei_primeira_e_ultima(vs, f);
    let w = primeira(vs, f)->0;
    assert(f(vs[p]));
    let q = choose|q: int|
        0 <= q < vs.len() && #[trigger] vs[q] == w && f(w) && forall|j: int|
            0 <= j < q ==> !f(#[trigger] vs[j]);
    if q < p {
        assert(f(vs[q]));
    }
    if p < q {
        assert(!f(vs[p]));
    }
    let g = |v: Vista| absurda(b, v, no);
    lei_primeira_e_ultima(vs, g);
    if absurda(b, vs[k], no) {
        assert(g(vs[k]));
    }
    let h = |v: Vista| declara(b, v, no, "#interrupt-cells");
    lei_primeira_e_ultima(vs, h);
    if forall|j: int|
        0 <= j < vs.len() ==> !((#[trigger] vs[j]).no_seq == vs[p].no_seq && vs[j].nome
            == vstd::utf8::encode_utf8("#interrupt-cells"@)) {
        if ultima(vs, h) is Some {
            let a = ultima(vs, h)->0;
            let j = choose|j: int|
                0 <= j < vs.len() && #[trigger] vs[j] == a && h(a) && forall|i: int|
                    j < i < vs.len() ==> !h(#[trigger] vs[i]);
            assert(declara(b, vs[j], no, "#interrupt-cells"));
        }
    }
}

} // verus!
