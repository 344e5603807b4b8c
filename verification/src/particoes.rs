//! The partition table of a disk.
use vstd::prelude::*;

use crate::inteiros::{u32_em, u64_em};
use crate::texto::iguais;

verus! {

/// Size of a sector of the disk.
pub const TAMANHO_DO_SETOR: usize = 512;

/// The sector with the header of the table.
pub const CABECALHO_EM: u64 = 1;

/// Where, in the header, the sector of the entries is written.
pub const ENTRADAS_EM: usize = 72;

/// Where, in the header, the number of entries is written.
pub const QUANTAS_EM: usize = 80;

/// Where, in the header, the size of an entry is written.
pub const TAMANHO_EM: usize = 84;

/// Where, in an entry, its first sector is written.
pub const PRIMEIRO_EM: usize = 32;

/// Where, in an entry, its last sector is written.
pub const ULTIMO_EM: usize = 40;

/// How many partitions are kept.
pub const MAX: usize = 8;

/// The first eight bytes of the header: `EFI PART`.
pub const ASSINATURA: [u8; 8] = [0x45, 0x46, 0x49, 0x20, 0x50, 0x41, 0x52, 0x54];

/// The type of the partition that a firmware starts from,
/// `C12A7328-F81F-11D2-BA4B-00A0C93EC93B`. The first three fields have the
/// least significant byte first.
pub const GUID_ESP: [u8; 16] = [
    0x28,
    0x73,
    0x2A,
    0xC1,
    0x1F,
    0xF8,
    0xD2,
    0x11,
    0xBA,
    0x4B,
    0x00,
    0xA0,
    0xC9,
    0x3E,
    0xC9,
    0x3B,
];

/// The type of a partition of data,
/// `0FC63DAF-8483-4772-8E79-3D69D8477DE4`.
pub const GUID_DADOS: [u8; 16] = [
    0xAF,
    0x3D,
    0xC6,
    0x0F,
    0x83,
    0x84,
    0x72,
    0x47,
    0x8E,
    0x79,
    0x3D,
    0x69,
    0xD8,
    0x47,
    0x7D,
    0xE4,
];

/// What a partition is for.
#[derive(Clone, Copy, Debug, PartialEq, Eq, Structural)]
pub enum Tipo {
    /// A firmware starts from it.
    Esp,
    /// It holds data.
    Dados,
    /// Any other type.
    Outro,
}

/// What a type means.
pub open spec fn tipo_de(guid: Seq<u8>) -> Tipo {
    if guid == GUID_ESP@ {
        Tipo::Esp
    } else if guid == GUID_DADOS@ {
        Tipo::Dados
    } else {
        Tipo::Outro
    }
}

impl Tipo {
    /// The name of the use on the channel.
    pub open spec fn nome_spec(self) -> &'static str {
        match self {
            Tipo::Esp => "esp",
            Tipo::Dados => "dados",
            Tipo::Outro => "outro",
        }
    }

    /// The name of the use on the channel.
    pub fn como_str(self) -> (r: &'static str)
        ensures
            r == self.nome_spec(),
    {
        match self {
            Tipo::Esp => "esp",
            Tipo::Dados => "dados",
            Tipo::Outro => "outro",
        }
    }

    /// What a type means.
    pub fn do_guid(guid: &[u8]) -> (r: Tipo)
        ensures
            r == tipo_de(guid@),
    {
        let esp = GUID_ESP;
        let dados = GUID_DADOS;
        if iguais(guid, &esp) {
            Tipo::Esp
        } else if iguais(guid, &dados) {
            Tipo::Dados
        } else {
            Tipo::Outro
        }
    }
}

/// A partition.
#[derive(Clone, Copy, Debug, PartialEq, Eq, Structural)]
pub struct Particao {
    /// Its first sector, from the start of the disk.
    pub primeiro: u64,
    /// How many sectors it has.
    pub setores: u64,
    pub tipo: Tipo,
}

/// The entry is free: its type is all zeros.
pub open spec fn livre(b: Seq<u8>) -> bool {
    forall|i: int| 0 <= i < 16 ==> b[i] == 0
}

/// The partition that an entry describes. A free entry describes none, and
/// neither does one that is cut short, or one whose last sector comes before
/// its first.
pub open spec fn entrada(b: Seq<u8>) -> Option<Particao> {
    if b.len() < ULTIMO_EM + 8 || livre(b) {
        None
    } else {
        let primeiro = crate::inteiros::le(b, PRIMEIRO_EM as int, 8);
        let ultimo = crate::inteiros::le(b, ULTIMO_EM as int, 8);
        if primeiro <= ultimo && ultimo - primeiro + 1 <= u64::MAX {
            Some(
                Particao {
                    primeiro: primeiro as u64,
                    setores: (ultimo - primeiro + 1) as u64,
                    tipo: tipo_de(b.take(16)),
                },
            )
        } else {
            None
        }
    }
}

/// The partition that an entry describes.
pub fn ler_entrada(b: &[u8]) -> (r: Option<Particao>)
    ensures
        r == entrada(b@),
{
    if b.len() < 16 {
        return None;
    }
    let mut zeros: bool = true;
    let mut i: usize = 0;
    while i < 16
        invariant
            i <= 16 <= b@.len(),
            zeros == forall|j: int| 0 <= j < i ==> b@[j] == 0,
        decreases 16 - i,
    {
        if b[i] != 0 {
            zeros = false;
        }
        i = i + 1;
    }
    if zeros {
        return None;
    }
    let primeiro: u64 = match u64_em(b, PRIMEIRO_EM) {
        None => {
            return None;
        },
        Some(v) => v,
    };
    let ultimo: u64 = match u64_em(b, ULTIMO_EM) {
        None => {
            return None;
        },
        Some(v) => v,
    };
    let setores: u64 = match ultimo.checked_sub(primeiro) {
        None => {
            return None;
        },
        Some(d) => match d.checked_add(1) {
            None => {
                return None;
            },
            Some(s) => s,
        },
    };
    let guid = vstd::slice::slice_subrange(b, 0, 16);
    proof {
        assert(b@.subrange(0, 16) =~= b@.take(16));
    }
    Some(Particao { primeiro, setores, tipo: Tipo::do_guid(guid) })
}

/// The partitions that were found.
pub struct Tabela {
    particoes: Vec<Particao>,
}

/// The first partition of a type.
pub open spec fn primeira_de(s: Seq<Particao>, tipo: Tipo) -> Option<Particao>
    decreases s.len(),
{
    if s.len() == 0 {
        None
    } else if s[0].tipo == tipo {
        Some(s[0])
    } else {
        primeira_de(s.skip(1), tipo)
    }
}

impl Tabela {
    /// The partitions, in the order of the table.
    pub closed spec fn view(&self) -> Seq<Particao> {
        self.particoes@
    }

    /// A table without partitions.
    pub fn vazia() -> (r: Tabela)
        ensures
            r@ == Seq::<Particao>::empty(),
    {
        Tabela { particoes: Vec::new() }
    }

    /// The partitions, in the order of the table.
    pub fn iter(&self) -> (r: &[Particao])
        ensures
            r@ == self@,
    {
        self.particoes.as_slice()
    }

    /// The first partition of a type.
    pub fn primeira(&self, tipo: Tipo) -> (r: Option<&Particao>)
        ensures
            match r {
                Some(p) => primeira_de(self@, tipo) == Some(*p),
                None => primeira_de(self@, tipo) is None,
            },
    {
        let mut i: usize = 0;
        proof {
            assert(self@.skip(0) =~= self@);
        }
        while i < self.particoes.len()
            invariant
                i <= self.particoes@.len(),
                primeira_de(self@, tipo) == primeira_de(self@.skip(i as int), tipo),
            decreases self.particoes@.len() - i,
        {
            if self.particoes[i].tipo == tipo {
                return Some(&self.particoes[i]);
            }
            proof {
                assert(self@.skip(i as int).skip(1) =~= self@.skip(i + 1));
            }
            i = i + 1;
        }
        None
    }
}

/// What the header says.
#[derive(Clone, Copy, Debug, PartialEq, Eq, Structural)]
pub struct Cabecalho {
    /// The first sector of the entries.
    pub entradas_em: u64,
    /// How many entries there are.
    pub quantas: u32,
    /// The size of an entry.
    pub tamanho: u32,
}

impl Cabecalho {
    /// An entry fits in a sector and has the fields that are read.
    pub open spec fn plausivel(self) -> bool {
        ULTIMO_EM + 8 <= self.tamanho <= TAMANHO_DO_SETOR
    }

    /// How many whole entries a sector holds.
    pub open spec fn por_setor(self) -> int {
        TAMANHO_DO_SETOR as int / self.tamanho as int
    }
}

/// What the sector of the header says, or what is wrong with it.
pub open spec fn cabecalho_de(b: Seq<u8>) -> Result<Cabecalho, &'static str> {
    let c = Cabecalho {
        entradas_em: crate::inteiros::le(b, ENTRADAS_EM as int, 8) as u64,
        quantas: crate::inteiros::le(b, QUANTAS_EM as int, 4) as u32,
        tamanho: crate::inteiros::le(b, TAMANHO_EM as int, 4) as u32,
    };
    if b.take(8) != ASSINATURA@ {
        Err("o setor um nao traz o cabecalho da GPT")
    } else if !c.plausivel() {
        Err("tamanho de entrada implausivel na GPT")
    } else {
        Ok(c)
    }
}

/// What the sector of the header says, or what is wrong with it.
pub fn ler_cabecalho(setor: &[u8]) -> (r: Result<Cabecalho, &'static str>)
    requires
        setor@.len() == TAMANHO_DO_SETOR,
    ensures
        r == cabecalho_de(setor@),
{
    let assinatura = ASSINATURA;
    proof {
        assert(setor@.subrange(0, 8) =~= setor@.take(8));
    }
    if !iguais(vstd::slice::slice_subrange(setor, 0, 8), &assinatura) {
        return Err("o setor um nao traz o cabecalho da GPT");
    }
    match (u64_em(setor, ENTRADAS_EM), u32_em(setor, QUANTAS_EM), u32_em(setor, TAMANHO_EM)) {
        (Some(entradas_em), Some(quantas), Some(tamanho)) => {
            if (tamanho as usize) < ULTIMO_EM + 8 || tamanho as usize > TAMANHO_DO_SETOR {
                return Err("tamanho de entrada implausivel na GPT");
            }
            Ok(Cabecalho { entradas_em, quantas, tamanho })
        },
        _ => Err("cabecalho truncado"),
    }
}

/// The reading of a table: what was read so far.
pub struct Varredura {
    cabecalho: Option<Cabecalho>,
    indice: u32,
    particoes: Vec<Particao>,
}

/// What came of the reading of a sector.
#[derive(Clone, Copy, Debug)]
pub enum Lido<'a> {
    /// There is no disk.
    SemDisco,
    /// The disk refused.
    Falhou(&'static str),
    /// What the sector holds.
    Setor(&'a [u8]),
}

/// What to do next.
pub enum Passo {
    /// Read the next sector.
    LerMais,
    /// The table is complete.
    Pronta(Tabela),
    /// There is no table.
    Erro(&'static str),
}

/// Reads the entries of a sector from the place `dentro` on, as long as the
/// table has entries and there is room for partitions: how many entries were
/// read in all, and the partitions that were found.
pub open spec fn lote(
    setor: Seq<u8>,
    c: Cabecalho,
    dentro: int,
    indice: int,
    achadas: Seq<Particao>,
) -> (int, Seq<Particao>)
    decreases c.por_setor() - dentro,
{
    if dentro >= c.por_setor() || indice >= c.quantas || achadas.len() >= MAX {
        (indice, achadas)
    } else {
        lote(
            setor,
            c,
            dentro + 1,
            indice + 1,
            com_entrada(achadas, setor.skip(dentro * c.tamanho)),
        )
    }
}

/// The partitions with that of an entry, if it describes one.
pub open spec fn com_entrada(achadas: Seq<Particao>, b: Seq<u8>) -> Seq<Particao> {
    match entrada(b) {
        Some(p) => achadas.push(p),
        None => achadas,
    }
}

impl Varredura {
    /// What the header says, once it was read.
    pub closed spec fn cabecalho(&self) -> Option<Cabecalho> {
        self.cabecalho
    }

    /// How many entries were read.
    pub closed spec fn indice(&self) -> int {
        self.indice as int
    }

    /// The partitions that were found.
    pub closed spec fn achadas(&self) -> Seq<Particao> {
        self.particoes@
    }

    /// There is something left to read.
    pub open spec fn wf(&self) -> bool {
        match self.cabecalho() {
            None => self.indice() == 0 && self.achadas().len() == 0,
            Some(c) => c.plausivel() && self.indice() < c.quantas && self.achadas().len() < MAX,
        }
    }

    /// Nothing was read yet.
    pub fn nova() -> (r: Varredura)
        ensures
            r.wf(),
            r.cabecalho() is None,
    {
        Varredura { cabecalho: None, indice: 0, particoes: Vec::new() }
    }

    /// The sector to read next.
    pub open spec fn alvo(&self) -> int {
        match self.cabecalho() {
            None => CABECALHO_EM as int,
            Some(c) => c.entradas_em + self.indice() / c.por_setor(),
        }
    }

    /// The sector to read next, or `None` where its number is beyond any disk.
    pub fn setor(&self) -> (r: Option<u64>)
        requires
            self.wf(),
        ensures
            match r {
                Some(s) => s == self.alvo(),
                None => self.alvo() > u64::MAX,
            },
    {
        match self.cabecalho {
            None => Some(CABECALHO_EM),
            Some(c) => {
                proof {
                    lemma_por_setor(c);
                }
                let por_setor: u64 = TAMANHO_DO_SETOR as u64 / c.tamanho as u64;
                c.entradas_em.checked_add(self.indice as u64 / por_setor)
            },
        }
    }
}

/// A sector holds at least one entry of a plausible size.
pub proof fn lemma_por_setor(c: Cabecalho)
    requires
        c.plausivel(),
    ensures
        1 <= c.por_setor() <= 10,
        c.por_setor() * c.tamanho <= TAMANHO_DO_SETOR,
{
    let t = c.tamanho as int;
    let q = c.por_setor();
    vstd::arithmetic::div_mod::lemma_fundamental_div_mod(512, t);
    vstd::arithmetic::div_mod::lemma_div_non_zero(512, t);
    assert(q <= 10) by (nonlinear_arith)
        requires
            48 <= t,
            t * q <= 512,
    ;
    vstd::arithmetic::mul::lemma_mul_is_commutative(t, q);
}

/// Goes on with the reading of the table, given what came of the last sector.
pub fn varrer(v: &mut Varredura, lido: Lido<'_>) -> (r: Passo)
    requires
        old(v).wf(),
        lido matches Lido::Setor(s) ==> s@.len() == TAMANHO_DO_SETOR,
    ensures
        r is Erro ==> *final(v) == *old(v),
        match lido {
            Lido::SemDisco => r == Passo::Erro("nao ha disco nesta maquina"),
            Lido::Falhou(motivo) => r == Passo::Erro(motivo),
            Lido::Setor(s) => match old(v).cabecalho() {
                None => match cabecalho_de(s@) {
                    Err(motivo) => r == Passo::Erro(motivo),
                    Ok(c) => if c.quantas == 0 {
                        &&& r matches Passo::Pronta(t) && t@ == Seq::<Particao>::empty()
                        &&& *final(v) == *old(v)
                    } else {
                        &&& r is LerMais
                        &&& final(v).wf()
                        &&& final(v).cabecalho() == Some(c)
                        &&& final(v).indice() == 0
                        &&& final(v).achadas() == Seq::<Particao>::empty()
                    },
                },
                Some(c) => {
                    let l = lote(s@, c, 0, old(v).indice(), old(v).achadas());
                    if l.0 >= c.quantas || l.1.len() >= MAX {
                        &&& r matches Passo::Pronta(t) && t@ == l.1
                        &&& final(v).cabecalho() == Some(c)
                        &&& final(v).indice() == l.0
                        &&& final(v).achadas() == Seq::<Particao>::empty()
                    } else {
                        &&& r is LerMais
                        &&& final(v).wf()
                        &&& final(v).cabecalho() == Some(c)
                        &&& final(v).indice() == l.0
                        &&& final(v).achadas() == l.1
                    }
                },
            },
        },
{
    let setor: &[u8] = match lido {
        Lido::SemDisco => {
            return Passo::Erro("nao ha disco nesta maquina");
        },
        Lido::Falhou(motivo) => {
            return Passo::Erro(motivo);
        },
        Lido::Setor(s) => s,
    };
    let c: Cabecalho = match v.cabecalho {
        None => {
            return match ler_cabecalho(setor) {
                Err(motivo) => Passo::Erro(motivo),
                Ok(c) => {
                    if c.quantas == 0 {
                        return Passo::Pronta(Tabela::vazia());
                    }
                    v.cabecalho = Some(c);
                    proof {
                        assert(v.particoes@ =~= Seq::<Particao>::empty());
                    }
                    Passo::LerMais
                },
            };
        },
        Some(c) => c,
    };
    proof {
        lemma_por_setor(c);
    }
    let tamanho: usize = c.tamanho as usize;
    let por_setor: usize = TAMANHO_DO_SETOR / tamanho;
    let ghost l = lote(setor@, c, 0, v.indice(), v.achadas());
    let mut dentro: usize = 0;
    while dentro < por_setor && v.indice < c.quantas && v.particoes.len() < MAX
        invariant
            setor@.len() == TAMANHO_DO_SETOR,
            tamanho == c.tamanho,
            c.plausivel(),
            por_setor == c.por_setor(),
            por_setor * tamanho <= TAMANHO_DO_SETOR,
            dentro <= por_setor,
            v.cabecalho == Some(c),
            v.indice <= c.quantas,
            v.particoes@.len() <= MAX,
            lote(setor@, c, dentro as int, v.indice(), v.achadas()) == l,
        decreases por_setor - dentro,
    {
        proof {
            assert((dentro + 1) * tamanho <= por_setor * tamanho) by (nonlinear_arith)
                requires
                    dentro + 1 <= por_setor,
            ;
            assert((dentro + 1) * tamanho == dentro * tamanho + tamanho) by (nonlinear_arith);
        }
        let em: usize = dentro * tamanho;
        let resto = vstd::slice::slice_subrange(setor, em, setor.len());
        proof {
            assert(resto@ =~= setor@.skip(dentro * c.tamanho));
        }
        if let Some(p) = ler_entrada(resto) {
            v.particoes.push(p);
        }
        v.indice = v.indice + 1;
        dentro = dentro + 1;
    }
    if v.indice >= c.quantas || v.particoes.len() >= MAX {
        let mut particoes: Vec<Particao> = Vec::new();
        core::mem::swap(&mut particoes, &mut v.particoes);
        return Passo::Pronta(Tabela { particoes });
    }
    Passo::LerMais
}

/// The entry `i` of the table of a disk: the sectors that hold the entries come
/// one after the other, and an entry is whole in one of them.
pub open spec fn entrada_do_disco(disco: spec_fn(int) -> Seq<u8>, c: Cabecalho, i: int) -> Seq<u8> {
    disco(c.entradas_em + i / c.por_setor()).skip((i % c.por_setor()) * c.tamanho)
}

/// The partitions that the first `n` entries of a disk describe.
pub open spec fn descritas(disco: spec_fn(int) -> Seq<u8>, c: Cabecalho, n: int) -> Seq<Particao>
    decreases n,
{
    if n <= 0 {
        Seq::empty()
    } else {
        com_entrada(descritas(disco, c, n - 1), entrada_do_disco(disco, c, n - 1))
    }
}

/// The partitions that come out where every sector that is asked for is
/// answered with what the disk holds.
pub open spec fn corrida(
    disco: spec_fn(int) -> Seq<u8>,
    c: Cabecalho,
    indice: int,
    achadas: Seq<Particao>,
) -> Seq<Particao>
    decreases c.quantas - indice,
{
    if !c.plausivel() || indice >= c.quantas || achadas.len() >= MAX {
        achadas
    } else {
        let l = lote(disco(c.entradas_em + indice / c.por_setor()), c, 0, indice, achadas);
        proof {
            lemma_por_setor(c);
            lemma_lote_avanca(
                disco(c.entradas_em + indice / c.por_setor()),
                c,
                0,
                indice,
                achadas,
            );
        }
        corrida(disco, c, l.0, l.1)
    }
}

/// Reading a sector moves on, and stays in bounds.
pub proof fn lemma_lote_avanca(setor: Seq<u8>, c: Cabecalho, dentro: int, indice: int, achadas: Seq<Particao>)
    requires
        indice <= c.quantas,
        achadas.len() <= MAX,
    ensures
        ({
            let l = lote(setor, c, dentro, indice, achadas);
            &&& indice <= l.0 <= c.quantas
            &&& l.1.len() <= MAX
            &&& dentro < c.por_setor() && indice < c.quantas && achadas.len() < MAX ==> indice < l.0
        }),
    decreases c.por_setor() - dentro,
{
    if dentro >= c.por_setor() || indice >= c.quantas || achadas.len() >= MAX {
    } else {
        lemma_lote_avanca(
            setor,
            c,
            dentro + 1,
            indice + 1,
            com_entrada(achadas, setor.skip(dentro * c.tamanho)),
        );
    }
}

/// A sector that is read from the place `dentro` on follows the entries of the
/// disk from `base + dentro` on.
proof fn lemma_lote_descreve(
    disco: spec_fn(int) -> Seq<u8>,
    c: Cabecalho,
    base: int,
    dentro: int,
    achadas: Seq<Particao>,
)
    requires
        c.plausivel(),
        0 <= base,
        base % c.por_setor() == 0,
        0 <= dentro <= c.por_setor(),
        base + dentro <= c.quantas,
        achadas == descritas(disco, c, base + dentro),
        achadas.len() <= MAX,
    ensures
        ({
            let l = lote(
                disco(c.entradas_em + base / c.por_setor()),
                c,
                dentro,
                base + dentro,
                achadas,
            );
            &&& l.1 == descritas(disco, c, l.0)
            &&& l.0 == base + c.por_setor() || l.0 >= c.quantas || l.1.len() >= MAX
        }),
    decreases c.por_setor() - dentro,
{
    let p = c.por_setor();
    lemma_por_setor(c);
    let i = base + dentro;
    if dentro >= p || i >= c.quantas || achadas.len() >= MAX {
    } else {
        vstd::arithmetic::div_mod::lemma_fundamental_div_mod(base, p);
        let q = base / p;
        assert(i == q * p + dentro) by (nonlinear_arith)
            requires
                base == p * q + 0,
                i == base + dentro,
        ;
        vstd::arithmetic::div_mod::lemma_fundamental_div_mod_converse(i, p, q, dentro);
        let setor = disco(c.entradas_em + q);
        assert(entrada_do_disco(disco, c, i) == setor.skip(dentro * c.tamanho));
        let novas = com_entrada(achadas, setor.skip(dentro * c.tamanho));
        assert(novas == descritas(disco, c, i + 1));
        lemma_lote_descreve(disco, c, base, dentro + 1, novas);
    }
}

proof fn lemma_descritas_crescem(disco: spec_fn(int) -> Seq<u8>, c: Cabecalho, n: int, m: int)
    requires
        0 <= n <= m,
    ensures
        descritas(disco, c, n).len() <= descritas(disco, c, m).len(),
        descritas(disco, c, m).take(descritas(disco, c, n).len() as int) == descritas(disco, c, n),
    decreases m - n,
{
    let a = descritas(disco, c, n);
    if n == m {
        assert(a.take(a.len() as int) =~= a);
    } else {
        lemma_descritas_crescem(disco, c, n, m - 1);
        let b = descritas(disco, c, m - 1);
        let d = descritas(disco, c, m);
        assert(d.take(a.len() as int) =~= b.take(a.len() as int));
    }
}

/// What the reading of a disk gives is what its entries describe, in their
/// order, up to the ceiling: nothing is left out, repeated or made up.
pub proof fn lei_varrer_acha_as_primeiras(disco: spec_fn(int) -> Seq<u8>, c: Cabecalho)
    requires
        c.plausivel(),
    ensures
        ({
            let todas = descritas(disco, c, c.quantas as int);
            corrida(disco, c, 0, Seq::empty()) == if todas.len() <= MAX {
                todas
            } else {
                todas.take(MAX as int)
            }
        }),
{
    lemma_por_setor(c);
    assert(0int % c.por_setor() == 0);
    lemma_corrida(disco, c, 0, Seq::empty());
}

proof fn lemma_corrida(disco: spec_fn(int) -> Seq<u8>, c: Cabecalho, indice: int, achadas: Seq<Particao>)
    requires
        c.plausivel(),
        0 <= indice <= c.quantas,
        indice % c.por_setor() == 0 || indice == c.quantas || achadas.len() == MAX,
        achadas == descritas(disco, c, indice),
        achadas.len() <= MAX,
    ensures
        ({
            let todas = descritas(disco, c, c.quantas as int);
            corrida(disco, c, indice, achadas) == if todas.len() <= MAX {
                todas
            } else {
                todas.take(MAX as int)
            }
        }),
    decreases c.quantas - indice,
{
    lemma_por_setor(c);
    let todas = descritas(disco, c, c.quantas as int);
    if indice >= c.quantas {
    } else if achadas.len() >= MAX {
        lemma_descritas_crescem(disco, c, indice, c.quantas as int);
        assert(todas.len() == MAX ==> todas.take(MAX as int) =~= todas);
    } else {
        let setor = disco(c.entradas_em + indice / c.por_setor());
        let l = lote(setor, c, 0, indice, achadas);
        lemma_lote_avanca(setor, c, 0, indice, achadas);
        lemma_lote_descreve(disco, c, indice, 0, achadas);
        if l.0 == indice + c.por_setor() {
            vstd::arithmetic::div_mod::lemma_mod_add_multiples_vanish(indice, c.por_setor());
        }
        lemma_corrida(disco, c, l.0, l.1);
    }
}

/// A partition starts at the sector written in bytes 32 to 39 of its entry, ends
/// at the one written in bytes 40 to 47, and is of the type written in the first
/// sixteen. An entry without a partition is short, free, or says that the end
/// comes before the start or that there are more sectors than can be counted.
pub proof fn lei_particao_e_a_dos_bytes(b: Seq<u8>)
    ensures
        ({
            let primeiro = b[32] + 0x100 * b[33] + 0x1_0000 * b[34] + 0x100_0000 * b[35]
                + 0x1_0000_0000 * b[36] + 0x100_0000_0000 * b[37] + 0x1_0000_0000_0000 * b[38]
                + 0x100_0000_0000_0000 * b[39];
            let ultimo = b[40] + 0x100 * b[41] + 0x1_0000 * b[42] + 0x100_0000 * b[43]
                + 0x1_0000_0000 * b[44] + 0x100_0000_0000 * b[45] + 0x1_0000_0000_0000 * b[46]
                + 0x100_0000_0000_0000 * b[47];
            match entrada(b) {
                Some(p) => {
                    &&& b.len() >= 48
                    &&& exists|i: int| 0 <= i < 16 && b[i] != 0
                    &&& p.primeiro == primeiro
                    &&& p.setores >= 1
                    &&& p.primeiro + p.setores - 1 == ultimo
                    &&& p.tipo == Tipo::Esp <==> b.take(16) == seq![
                        0x28u8, 0x73, 0x2A, 0xC1, 0x1F, 0xF8, 0xD2, 0x11, 0xBA, 0x4B, 0x00, 0xA0, 0xC9,
                        0x3E, 0xC9, 0x3B,
                    ]
                    &&& p.tipo == Tipo::Dados <==> b.take(16) == seq![
                        0xAFu8, 0x3D, 0xC6, 0x0F, 0x83, 0x84, 0x72, 0x47, 0x8E, 0x79, 0x3D, 0x69, 0xD8,
                        0x47, 0x7D, 0xE4,
                    ]
                },
                None => {
                    ||| b.len() < 48
                    ||| forall|i: int| 0 <= i < 16 ==> b[i] == 0
                    ||| ultimo < primeiro
                    ||| primeiro == 0 && ultimo == u64::MAX
                },
            }
        }),
{
    crate::inteiros::lei_bytes_do_menos_significativo(b, 32);
    crate::inteiros::lei_bytes_do_menos_significativo(b, 40);
    let esp = seq![
        0x28u8, 0x73, 0x2A, 0xC1, 0x1F, 0xF8, 0xD2, 0x11, 0xBA, 0x4B, 0x00, 0xA0, 0xC9, 0x3E, 0xC9, 0x3B,
    ];
    let dados = seq![
        0xAFu8, 0x3D, 0xC6, 0x0F, 0x83, 0x84, 0x72, 0x47, 0x8E, 0x79, 0x3D, 0x69, 0xD8, 0x47, 0x7D, 0xE4,
    ];
    assert(GUID_ESP@ =~= esp);
    assert(GUID_DADOS@ =~= dados);
    assert(esp[0] != dados[0]);
}

/// The header is taken exactly where the sector begins with `EFI PART` and the
/// size of an entry is from 48 to 512 bytes, and it says what is written at 72,
/// 80 and 84.
pub proof fn lei_cabecalho_e_o_dos_bytes(b: Seq<u8>)
    requires
        b.len() == 512,
    ensures
        ({
            let tamanho = b[84] + 0x100 * b[85] + 0x1_0000 * b[86] + 0x100_0000 * b[87];
            let assinado = b[0] == 0x45 && b[1] == 0x46 && b[2] == 0x49 && b[3] == 0x20 && b[4] == 0x50
                && b[5] == 0x41 && b[6] == 0x52 && b[7] == 0x54;
            match cabecalho_de(b) {
                Ok(c) => {
                    &&& assinado
                    &&& 48 <= tamanho <= 512
                    &&& c.tamanho == tamanho
                    &&& c.quantas == b[80] + 0x100 * b[81] + 0x1_0000 * b[82] + 0x100_0000 * b[83]
                    &&& c.entradas_em == b[72] + 0x100 * b[73] + 0x1_0000 * b[74] + 0x100_0000 * b[75]
                        + 0x1_0000_0000 * b[76] + 0x100_0000_0000 * b[77] + 0x1_0000_0000_0000 * b[78]
                        + 0x100_0000_0000_0000 * b[79]
                },
                Err(motivo) => {
                    &&& !assinado ==> motivo == "o setor um nao traz o cabecalho da GPT"
                    &&& assinado ==> motivo == "tamanho de entrada implausivel na GPT" && !(48 <= tamanho
                        <= 512)
                },
            }
        }),
{
    crate::inteiros::lei_bytes_do_menos_significativo(b, 72);
    crate::inteiros::lei_bytes_do_menos_significativo(b, 80);
    crate::inteiros::lei_bytes_do_menos_significativo(b, 84);
    let s = seq![0x45u8, 0x46, 0x49, 0x20, 0x50, 0x41, 0x52, 0x54];
    assert(ASSINATURA@ =~= s);
    assert forall|i: int| 0 <= i < 8 implies b.take(8)[i] == #[trigger] b[i] by {}
    if b[0] == 0x45 && b[1] == 0x46 && b[2] == 0x49 && b[3] == 0x20 && b[4] == 0x50 && b[5] == 0x41
        && b[6] == 0x52 && b[7] == 0x54 {
        assert(b.take(8) =~= s);
    } else {
        assert(b.take(8)[0] == b[0] && b.take(8)[1] == b[1] && b.take(8)[2] == b[2] && b.take(8)[3]
            == b[3] && b.take(8)[4] == b[4] && b.take(8)[5] == b[5] && b.take(8)[6] == b[6]
            && b.take(8)[7] == b[7]);
    }
}

/// The header is in the second sector of the disk; the entries go on from the
/// sector that it names, as many in each as fit whole, one right after another.
pub proof fn lei_onde_esta_a_entrada(
    v: &Varredura,
    disco: spec_fn(int) -> Seq<u8>,
    c: Cabecalho,
    i: int,
    j: int,
)
    requires
        c.plausivel(),
        0 <= i,
        0 <= j < c.tamanho,
        forall|s: int| (#[trigger] disco(s)).len() == 512,
    ensures
        v.cabecalho() is None ==> v.alvo() == 1,
        v.cabecalho() == Some(c) ==> v.alvo() == c.entradas_em + v.indice() / (512int
            / c.tamanho as int),
        entrada_do_disco(disco, c, i)[j] == disco(c.entradas_em + i / (512int / c.tamanho as int))[i % (
        512int / c.tamanho as int) * c.tamanho + j],
        i % (512int / c.tamanho as int) * c.tamanho + j < 512,
{
    lemma_por_setor(c);
    let p = c.por_setor();
    let dentro = i % p;
    vstd::arithmetic::div_mod::lemma_fundamental_div_mod(i, p);
    assert(0 <= dentro < p);
    assert(dentro * c.tamanho + c.tamanho <= p * c.tamanho) by (nonlinear_arith)
        requires
            dentro + 1 <= p,
            c.tamanho >= 0,
    ;
    assert(0 <= dentro * c.tamanho) by (nonlinear_arith)
        requires
            0 <= dentro,
            c.tamanho >= 0,
    ;
}

/// How many of the first `n` entries of a disk describe a partition.
pub open spec fn ocupadas(disco: spec_fn(int) -> Seq<u8>, c: Cabecalho, n: int) -> nat
    decreases n,
{
    if n <= 0 {
        0
    } else {
        ocupadas(disco, c, n - 1) + if entrada(entrada_do_disco(disco, c, n - 1)) is Some {
            1nat
        } else {
            0
        }
    }
}

proof fn lemma_descritas(disco: spec_fn(int) -> Seq<u8>, c: Cabecalho, n: int, i: int)
    ensures
        descritas(disco, c, n).len() == ocupadas(disco, c, n),
        0 <= i < n && entrada(entrada_do_disco(disco, c, i)) is Some ==> {
            &&& ocupadas(disco, c, i) < ocupadas(disco, c, n)
            &&& descritas(disco, c, n)[ocupadas(disco, c, i) as int] == entrada(
                entrada_do_disco(disco, c, i),
            )->0
        },
    decreases n,
{
    if n > 0 {
        lemma_descritas(disco, c, n - 1, i);
        if i == n - 1 {
            lemma_descritas(disco, c, i, i);
        }
    }
}

/// A partition that an entry describes is found, in the place that the number of
/// partitions before it gives; there are as many as entries that describe one,
/// eight at most.
pub proof fn lei_nenhuma_particao_falta(disco: spec_fn(int) -> Seq<u8>, c: Cabecalho, i: int)
    requires
        c.plausivel(),
        0 <= i < c.quantas,
    ensures
        ({
            let achadas = corrida(disco, c, 0, Seq::empty());
            let todas = ocupadas(disco, c, c.quantas as int);
            let antes = ocupadas(disco, c, i);
            &&& achadas.len() == if todas <= 8 {
                todas as int
            } else {
                8
            }
            &&& entrada(entrada_do_disco(disco, c, i)) is Some && antes < 8 ==> antes < achadas.len()
                && achadas[antes as int] == entrada(entrada_do_disco(disco, c, i))->0
        }),
{
    lei_varrer_acha_as_primeiras(disco, c);
    lemma_descritas(disco, c, c.quantas as int, i);
}

/// The first partition of a type is one of that type, and none of those before
/// it is; where there is none, none is of that type.
pub proof fn lei_primeira_do_tipo(s: Seq<Particao>, tipo: Tipo)
    ensures
        match primeira_de(s, tipo) {
            Some(p) => exists|k: int|
                0 <= k < s.len() && #[trigger] s[k] == p && p.tipo == tipo && forall|j: int|
                    0 <= j < k ==> (#[trigger] s[j]).tipo != tipo,
            None => forall|j: int| 0 <= j < s.len() ==> (#[trigger] s[j]).tipo != tipo,
        },
    decreases s.len(),
{
    if s.len() > 0 && s[0].tipo != tipo {
        let resto = s.skip(1);
        lei_primeira_do_tipo(resto, tipo);
        match primeira_de(resto, tipo) {
            Some(p) => {
                let k = choose|k: int|
                    0 <= k < resto.len() && #[trigger] resto[k] == p && p.tipo == tipo && forall|j: int|
                        0 <= j < k ==> (#[trigger] resto[j]).tipo != tipo;
                assert(s[k + 1] == p);
                assert forall|j: int| 0 <= j < k + 1 implies (#[trigger] s[j]).tipo != tipo by {
                    if j > 0 {
                        assert(resto[j - 1] == s[j]);
                    }
                }
            },
            None => {
                assert forall|j: int| 0 <= j < s.len() implies (#[trigger] s[j]).tipo != tipo by {
                    if j > 0 {
                        assert(resto[j - 1] == s[j]);
                    }
                }
            },
        }
    } else if s.len() > 0 {
        assert(s[0].tipo == tipo);
    }
}

} // verus!
