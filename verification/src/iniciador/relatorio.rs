//! What is checked and what is reported.
use vstd::prelude::*;

use crate::iniciador::crc32::Parcial;
use crate::iniciador::efi::{
    deu_errado, Cabecalho, Descritor, InformacaoDeVideo, ModoDeVideo, BUFFER_PEQUENO,
    CODIGO_DE_BOOT, CODIGO_DO_CARREGADOR, CONVENCIONAL, CRC_EM, DADOS_DE_BOOT, DADOS_DO_CARREGADOR,
    PAGINA, TAMANHO_DO_CABECALHO, TAMANHO_DO_DESCRITOR,
};
use crate::iniciador::linha::{escrever_utf16, Linha};
use crate::texto::{acrescentar_decimal, acrescentar_hex, acrescentar_hex_fixo};

verus! {

/// The largest size of a table that is taken for true.
pub const MAIOR_TABELA: u32 = 4096;

/// The size that a header declares can be that of a table.
pub open spec fn plausivel(c: Cabecalho) -> bool {
    TAMANHO_DO_CABECALHO <= c.tamanho <= MAIOR_TABELA
}

/// What the CRC of a table is worked out over: its bytes, with those of the CRC
/// itself at zero.
pub open spec fn conferido(tabela: Seq<u8>) -> Seq<u8> {
    tabela.take(CRC_EM as int) + seq![0u8, 0u8, 0u8, 0u8] + tabela.skip(CRC_EM + 4)
}

/// Why a table is not what it is said to be.
pub open spec fn recusa(c: Cabecalho, assinatura: u64, tabela: Seq<u8>) -> Option<&'static str> {
    if c.assinatura != assinatura {
        Some("assinatura de tabela errada")
    } else if !plausivel(c) {
        Some("tabela com tamanho implausivel")
    } else if crate::iniciador::crc32::crc(conferido(tabela)) != c.crc32 {
        Some("crc de tabela nao confere")
    } else {
        None
    }
}

/// How many bytes of a table have to be read to check it: none, where its
/// header already tells that it is not one.
pub fn quanto_ler(c: &Cabecalho, assinatura: u64) -> (r: usize)
    ensures
        r == if c.assinatura == assinatura && plausivel(*c) {
            c.tamanho as int
        } else {
            0
        },
{
    if c.assinatura != assinatura || (c.tamanho as usize) < TAMANHO_DO_CABECALHO || c.tamanho
        > MAIOR_TABELA {
        return 0;
    }
    c.tamanho as usize
}

/// Checks the signature, the size and the CRC of a table.
pub fn conferir_cabecalho(c: &Cabecalho, assinatura: u64, tabela: &[u8]) -> (r: Result<
    (),
    &'static str,
>)
    requires
        c.assinatura == assinatura && plausivel(*c) ==> tabela@.len() == c.tamanho,
    ensures
        match r {
            Ok(_) => recusa(*c, assinatura, tabela@) is None,
            Err(motivo) => recusa(*c, assinatura, tabela@) == Some(motivo),
        },
{
    if c.assinatura != assinatura {
        return Err("assinatura de tabela errada");
    }
    if (c.tamanho as usize) < TAMANHO_DO_CABECALHO || c.tamanho > MAIOR_TABELA {
        return Err("tabela com tamanho implausivel");
    }
    if crc_da_tabela(tabela) != c.crc32 {
        return Err("crc de tabela nao confere");
    }
    Ok(())
}

/// The CRC of a table, worked out over its bytes.
fn crc_da_tabela(tabela: &[u8]) -> (r: u32)
    requires
        tabela@.len() >= TAMANHO_DO_CABECALHO,
    ensures
        r == crate::iniciador::crc32::crc(conferido(tabela@)),
{
    let zeros: [u8; 4] = [0, 0, 0, 0];
    let antes = vstd::slice::slice_subrange(tabela, 0, CRC_EM);
    let depois = vstd::slice::slice_subrange(tabela, CRC_EM + 4, tabela.len());
    let mut soma = Parcial::nova();
    soma.somar(antes);
    soma.somar(&zeros);
    soma.somar(depois);
    proof {
        assert(zeros@ =~= seq![0u8, 0u8, 0u8, 0u8]);
        assert(antes@ =~= tabela@.take(CRC_EM as int));
        assert(depois@ =~= tabela@.skip(CRC_EM + 4));
        crate::iniciador::crc32::lei_pedacos(0xFFFF_FFFF, antes@, zeros@);
        crate::iniciador::crc32::lei_pedacos(0xFFFF_FFFF, antes@ + zeros@, depois@);
        assert(antes@ + zeros@ + depois@ =~= conferido(tabela@));
    }
    soma.terminar()
}

/// The text of the line that tells what is wrong with a table, where there are
/// numbers to show.
pub open spec fn queixa_de(
    c: Cabecalho,
    assinatura: u64,
    tabela: Seq<u8>,
    quem: &str,
) -> Option<Seq<char>> {
    if c.assinatura != assinatura {
        Some(
            "ERRO "@ + quem@ + " tem assinatura 0x"@ + crate::texto::hex_fixo(c.assinatura as nat, 16)
                + ", esperava 0x"@ + crate::texto::hex_fixo(assinatura as nat, 16),
        )
    } else if !plausivel(c) {
        None
    } else if crate::iniciador::crc32::crc(conferido(tabela)) != c.crc32 {
        Some(
            "ERRO "@ + quem@ + ": crc 0x"@ + crate::texto::hex_fixo(c.crc32 as nat, 8)
                + ", calculado 0x"@ + crate::texto::hex_fixo(
                crate::iniciador::crc32::crc(conferido(tabela)) as nat,
                8,
            ),
        )
    } else {
        None
    }
}

/// The line that tells what is wrong with a table, where there are numbers to
/// show.
pub fn queixa(c: &Cabecalho, assinatura: u64, tabela: &[u8], quem: &str) -> (r: Option<String>)
    requires
        c.assinatura == assinatura && plausivel(*c) ==> tabela@.len() == c.tamanho,
    ensures
        match r {
            Some(t) => queixa_de(*c, assinatura, tabela@, quem) == Some(t@),
            None => queixa_de(*c, assinatura, tabela@, quem) is None,
        },
{
    let mut t = String::new();
    t.append("ERRO ");
    t.append(quem);
    if c.assinatura != assinatura {
        t.append(" tem assinatura 0x");
        acrescentar_hex_fixo(&mut t, c.assinatura, 16);
        t.append(", esperava 0x");
        acrescentar_hex_fixo(&mut t, assinatura, 16);
        proof {
            assert(t@ =~= queixa_de(*c, assinatura, tabela@, quem)->0);
        }
        return Some(t);
    }
    if (c.tamanho as usize) < TAMANHO_DO_CABECALHO || c.tamanho > MAIOR_TABELA {
        return None;
    }
    let calculado: u32 = crc_da_tabela(tabela);
    if calculado != c.crc32 {
        t.append(": crc 0x");
        acrescentar_hex_fixo(&mut t, c.crc32 as u64, 8);
        t.append(", calculado 0x");
        acrescentar_hex_fixo(&mut t, calculado as u64, 8);
        proof {
            assert(t@ =~= queixa_de(*c, assinatura, tabela@, quem)->0);
        }
        return Some(t);
    }
    None
}

/// What is checked or reported next.
#[derive(Clone, Copy, Debug, PartialEq, Eq, Structural)]
pub enum Etapa {
    /// The table of the system.
    Sistema,
    /// The table of the services that are there until the kernel takes over.
    Boot,
    /// The table of the services that stay.
    Execucao,
    /// The report of memory.
    Memoria,
}

impl Etapa {
    /// The signature of the table of a stage.
    pub open spec fn assinatura_spec(self) -> u64 {
        match self {
            Etapa::Sistema => crate::iniciador::efi::ASSINATURA_DO_SISTEMA,
            Etapa::Boot => crate::iniciador::efi::ASSINATURA_DOS_SERVICOS_DE_BOOT,
            _ => crate::iniciador::efi::ASSINATURA_DOS_SERVICOS_DE_EXECUCAO,
        }
    }

    /// What is said where the table of a stage is not there.
    pub open spec fn ausencia_spec(self) -> &'static str {
        match self {
            Etapa::Sistema => "a tabela do sistema veio nula",
            Etapa::Boot => "os servicos de boot vieram nulos",
            _ => "os servicos de execucao vieram nulos",
        }
    }

    /// The stage that follows.
    pub open spec fn seguinte_spec(self) -> Etapa {
        match self {
            Etapa::Sistema => Etapa::Boot,
            Etapa::Boot => Etapa::Execucao,
            _ => Etapa::Memoria,
        }
    }

    /// What the table of a stage is called.
    pub open spec fn quem_spec(self) -> &'static str {
        match self {
            Etapa::Sistema => "a tabela do sistema",
            Etapa::Boot => "os servicos de boot",
            _ => "os servicos de execucao",
        }
    }

    /// What the table of a stage is called.
    pub fn quem(self) -> (r: &'static str)
        ensures
            r == self.quem_spec(),
    {
        match self {
            Etapa::Sistema => "a tabela do sistema",
            Etapa::Boot => "os servicos de boot",
            _ => "os servicos de execucao",
        }
    }

    /// The signature of the table of a stage.
    pub fn assinatura(self) -> (r: u64)
        ensures
            r == self.assinatura_spec(),
    {
        match self {
            Etapa::Sistema => crate::iniciador::efi::ASSINATURA_DO_SISTEMA,
            Etapa::Boot => crate::iniciador::efi::ASSINATURA_DOS_SERVICOS_DE_BOOT,
            _ => crate::iniciador::efi::ASSINATURA_DOS_SERVICOS_DE_EXECUCAO,
        }
    }
}

/// A table that was read: its header, and all of its bytes.
#[derive(Clone, Copy, Debug)]
pub struct Lida<'a> {
    pub cabecalho: Cabecalho,
    pub bytes: &'a [u8],
}

/// The revision of a table is one of the second UEFI: its upper half is the
/// major number.
pub open spec fn da_segunda(c: Cabecalho) -> bool {
    0x2_0000 <= c.revisao < 0x3_0000
}

/// Checks the table of a stage: signature, size, CRC and revision. No table is
/// looked at before those that lead to it are checked.
pub fn relatorio(etapa: Etapa, tabela: Option<Lida<'_>>) -> (r: Result<Etapa, &'static str>)
    requires
        etapa != Etapa::Memoria,
        tabela matches Some(t) ==> t.cabecalho.assinatura == etapa.assinatura_spec() && plausivel(
            t.cabecalho,
        ) ==> t.bytes@.len() == t.cabecalho.tamanho,
    ensures
        match tabela {
            None => r == Err::<Etapa, &'static str>(etapa.ausencia_spec()),
            Some(t) => match recusa(t.cabecalho, etapa.assinatura_spec(), t.bytes@) {
                Some(motivo) => r == Err::<Etapa, &'static str>(motivo),
                None => if da_segunda(t.cabecalho) {
                    r == Ok::<Etapa, &'static str>(etapa.seguinte_spec())
                } else {
                    r == Err::<Etapa, &'static str>("tabela com revisao implausivel")
                },
            },
        },
{
    let t = match tabela {
        None => {
            return Err(
                match etapa {
                    Etapa::Sistema => "a tabela do sistema veio nula",
                    Etapa::Boot => "os servicos de boot vieram nulos",
                    _ => "os servicos de execucao vieram nulos",
                },
            );
        },
        Some(t) => t,
    };
    match conferir_cabecalho(&t.cabecalho, etapa.assinatura(), t.bytes) {
        Err(motivo) => Err(motivo),
        Ok(_) => if t.cabecalho.revisao < 0x2_0000 || t.cabecalho.revisao >= 0x3_0000 {
            Err("tabela com revisao implausivel")
        } else {
            Ok(
                match etapa {
                    Etapa::Sistema => Etapa::Boot,
                    Etapa::Boot => Etapa::Execucao,
                    _ => Etapa::Memoria,
                },
            )
        },
    }
}

/// The text of the line that reports the table of the system.
pub open spec fn linha_do_sistema(c: Cabecalho) -> Seq<char> {
    "tabela do sistema confere: uefi "@ + crate::texto::decimal((c.revisao / 65536) as nat) + "."@
        + crate::texto::decimal((c.revisao % 65536) as nat) + ", "@ + crate::texto::decimal(
        c.tamanho as nat,
    ) + " bytes"@
}

/// The line that reports the table of the system.
pub fn relatar_sistema(c: &Cabecalho) -> (r: String)
    ensures
        r@ == linha_do_sistema(*c),
{
    let mut t = String::new();
    t.append("tabela do sistema confere: uefi ");
    acrescentar_decimal(&mut t, (c.revisao / 65536) as u64);
    t.append(".");
    acrescentar_decimal(&mut t, (c.revisao % 65536) as u64);
    t.append(", ");
    acrescentar_decimal(&mut t, c.tamanho as u64);
    t.append(" bytes");
    proof {
        assert(t@ =~= linha_do_sistema(*c));
    }
    t
}

/// The text of the line that reports the firmware.
pub open spec fn linha_do_firmware(nome: Option<&[u16]>, revisao: u32) -> Seq<char> {
    let aberta = crate::iniciador::linha::cabendo(Seq::empty(), "firmware `"@);
    let com_nome = match nome {
        None => crate::iniciador::linha::cabendo(aberta, "<sem nome>"@),
        Some(u) => crate::iniciador::linha::cada_um(aberta, crate::iniciador::linha::nome_de(u@, 0)),
    };
    crate::iniciador::linha::cabendo(com_nome, "` revisao 0x"@ + crate::texto::hex(revisao as nat))
}

/// The line that reports the firmware, by its name and its revision.
pub fn relatar_firmware(nome: Option<&[u16]>, revisao: u32) -> (r: Linha)
    ensures
        r.wf(),
        r@ == linha_do_firmware(nome, revisao),
{
    let mut linha = Linha::nova();
    linha.write_str("firmware `");
    escrever_utf16(&mut linha, nome);
    let mut fim = String::new();
    fim.append("` revisao 0x");
    acrescentar_hex(&mut fim, revisao as u64);
    proof {
        assert(fim@ =~= "` revisao 0x"@ + crate::texto::hex(revisao as nat));
    }
    linha.write_str(fim.as_str());
    linha
}

/// How far the reading of the map of memory is.
#[derive(Clone, Copy, Debug, PartialEq, Eq, Structural)]
pub enum Fase {
    /// The size of the map is being asked for.
    Sondando,
    /// Room for the map is being asked for: so many bytes.
    Alocando(usize),
    /// The map is being asked for.
    Pedindo,
}

/// What the firmware answered.
#[derive(Clone, Copy, Debug)]
pub enum Resposta<'a> {
    /// To the question of the size: the size of the map, and of a descriptor.
    Sondagem { status: u64, tamanho: usize, por_descritor: usize },
    /// To the request for room: whether there is any.
    Alocacao { status: u64, nulo: bool },
    /// To the request for the map: the map, and the size of a descriptor.
    Mapa { status: u64, por_descritor: usize, bytes: &'a [u8] },
}

/// What to do next.
pub enum Acao {
    /// Ask for so many bytes of room.
    Alocar(usize),
    /// Ask for the map, with so many bytes of room.
    Pedir(usize),
    /// Nothing more; where room was given, give it back.
    Fim { liberar: bool, resultado: Result<Contagem, &'static str> },
}

/// What the map of memory holds.
#[derive(Clone, Copy, Debug, PartialEq, Eq, Structural)]
pub struct Contagem {
    pub descritores: usize,
    pub por_descritor: usize,
    pub descritas: u64,
    pub livres: u64,
    /// The largest range that is free.
    pub maior: u64,
    /// What this program takes.
    pub do_iniciador: u64,
}

/// Memory of this type is free once the kernel takes the machine. This program
/// still runs in its own.
pub open spec fn e_livre(tipo: u32) -> bool {
    tipo == CONVENCIONAL || tipo == CODIGO_DE_BOOT || tipo == DADOS_DE_BOOT
}

/// Memory of this type is this program's.
pub open spec fn e_do_iniciador(tipo: u32) -> bool {
    tipo == CODIGO_DO_CARREGADOR || tipo == DADOS_DO_CARREGADOR
}

/// The descriptor `i` of a map. The firmware says how far one is from the next.
pub open spec fn descritor(mapa: Seq<u8>, por: int, i: int) -> Descritor {
    crate::iniciador::efi::descritor_em(mapa, i * por)
}

/// The pages of the first `n` descriptors whose type is selected.
pub open spec fn paginas(mapa: Seq<u8>, por: int, n: int, quais: spec_fn(u32) -> bool) -> int
    decreases n,
{
    if n <= 0 {
        0
    } else {
        paginas(mapa, por, n - 1, quais) + if quais(descritor(mapa, por, n - 1).tipo) {
            descritor(mapa, por, n - 1).paginas as int
        } else {
            0
        }
    }
}

/// The pages of the largest free range of the first `n`.
pub open spec fn maior_livre(mapa: Seq<u8>, por: int, n: int) -> int
    decreases n,
{
    if n <= 0 {
        0
    } else {
        let antes = maior_livre(mapa, por, n - 1);
        let d = descritor(mapa, por, n - 1);
        if e_livre(d.tipo) && d.paginas > antes {
            d.paginas as int
        } else {
            antes
        }
    }
}

/// What a map of memory holds.
pub open spec fn contagem_de(mapa: Seq<u8>, por: int) -> Contagem {
    let n = mapa.len() as int / por;
    Contagem {
        descritores: n as usize,
        por_descritor: por as usize,
        descritas: paginas(mapa, por, n, |t: u32| true) as u64,
        livres: paginas(mapa, por, n, |t: u32| e_livre(t)) as u64,
        maior: maior_livre(mapa, por, n) as u64,
        do_iniciador: paginas(mapa, por, n, |t: u32| e_do_iniciador(t)) as u64,
    }
}

proof fn lemma_paginas(mapa: Seq<u8>, por: int, n: int, m: int, quais: spec_fn(u32) -> bool)
    requires
        0 <= n <= m,
    ensures
        0 <= paginas(mapa, por, n, quais) <= paginas(mapa, por, m, |t: u32| true),
    decreases m,
{
    if m > 0 {
        if n < m {
            lemma_paginas(mapa, por, n, m - 1, quais);
        } else {
            lemma_paginas(mapa, por, n - 1, m - 1, quais);
        }
    }
}

/// Counts what a map of memory holds.
pub fn contar(mapa: &[u8], por: usize) -> (r: Contagem)
    requires
        por >= TAMANHO_DO_DESCRITOR,
        paginas(mapa@, por as int, mapa@.len() as int / por as int, |t: u32| true) <= u64::MAX,
    ensures
        r == contagem_de(mapa@, por as int),
{
    let quantos: usize = mapa.len() / por;
    let mut livres: u64 = 0;
    let mut descritas: u64 = 0;
    let mut do_iniciador: u64 = 0;
    let mut maior: u64 = 0;
    let mut i: usize = 0;
    let ghost p = por as int;
    let ghost b = mapa@;
    while i < quantos
        invariant
            i <= quantos,
            b == mapa@,
            p == por,
            por >= TAMANHO_DO_DESCRITOR,
            quantos == b.len() as int / p,
            paginas(b, p, quantos as int, |t: u32| true) <= u64::MAX,
            descritas == paginas(b, p, i as int, |t: u32| true),
            livres == paginas(b, p, i as int, |t: u32| e_livre(t)),
            do_iniciador == paginas(b, p, i as int, |t: u32| e_do_iniciador(t)),
            maior == maior_livre(b, p, i as int),
        decreases quantos - i,
    {
        let total: usize = mapa.len();
        proof {
            vstd::arithmetic::div_mod::lemma_fundamental_div_mod(b.len() as int, p);
            assert((i + 1) * p <= quantos * p) by (nonlinear_arith)
                requires
                    i + 1 <= quantos,
                    p > 0,
            ;
            vstd::arithmetic::mul::lemma_mul_is_commutative(p, quantos as int);
            assert((i + 1) * p == i * p + p) by (nonlinear_arith);
            assert(i * p + p <= total);
            assert(0 <= i * p) by (nonlinear_arith)
                requires
                    0 <= i,
                    0 < p,
            ;
            lemma_paginas(b, p, i + 1, quantos as int, |t: u32| true);
            lemma_paginas(b, p, i + 1, quantos as int, |t: u32| e_livre(t));
            lemma_paginas(b, p, i + 1, quantos as int, |t: u32| e_do_iniciador(t));
        }
        if let Some(d) = Descritor::ler(mapa, i * por) {
            proof {
                assert(d == descritor(b, p, i as int));
            }
            descritas = descritas + d.paginas;
            if d.tipo == CONVENCIONAL || d.tipo == CODIGO_DE_BOOT || d.tipo == DADOS_DE_BOOT {
                livres = livres + d.paginas;
                if d.paginas > maior {
                    maior = d.paginas;
                }
            }
            if d.tipo == CODIGO_DO_CARREGADOR || d.tipo == DADOS_DO_CARREGADOR {
                do_iniciador = do_iniciador + d.paginas;
            }
        }
        i = i + 1;
    }
    Contagem { descritores: quantos, por_descritor: por, descritas, livres, maior, do_iniciador }
}

/// Goes on with the reading of the map of memory, given what the firmware
/// answered.
///
/// The first question is asked to be refused: the refusal tells the size. The
/// room that is asked for is two descriptors more, since asking for it may
/// split a range.
pub fn descrever_memoria(fase: &mut Fase, resposta: Resposta<'_>) -> (r: Acao)
    requires
        match resposta {
            Resposta::Sondagem { status, tamanho, por_descritor } => {
                &&& *old(fase) == Fase::Sondando
                &&& status == BUFFER_PEQUENO && por_descritor >= TAMANHO_DO_DESCRITOR ==> tamanho + 2
                    * por_descritor <= usize::MAX
            },
            Resposta::Alocacao { .. } => *old(fase) is Alocando,
            Resposta::Mapa { status, por_descritor, bytes } => {
                &&& *old(fase) == Fase::Pedindo
                &&& status < crate::iniciador::efi::BIT_DE_ERRO ==> por_descritor
                    >= TAMANHO_DO_DESCRITOR && paginas(
                    bytes@,
                    por_descritor as int,
                    bytes@.len() as int / por_descritor as int,
                    |t: u32| true,
                ) <= u64::MAX
            },
        },
    ensures
        r is Fim ==> *final(fase) == *old(fase),
        match resposta {
            Resposta::Sondagem { status, tamanho, por_descritor } => if status != BUFFER_PEQUENO {
                r == (Acao::Fim {
                    liberar: false,
                    resultado: Err("o mapa de memoria nao respondeu como esperado"),
                })
            } else if por_descritor < TAMANHO_DO_DESCRITOR {
                r == (Acao::Fim {
                    liberar: false,
                    resultado: Err("o firmware declarou descritores menores que o formato"),
                })
            } else {
                let pedido = (tamanho + 2 * por_descritor) as usize;
                r == Acao::Alocar(pedido) && *final(fase) == Fase::Alocando(pedido)
            },
            Resposta::Alocacao { status, nulo } => if status >= crate::iniciador::efi::BIT_DE_ERRO
                || nulo {
                r == (Acao::Fim {
                    liberar: false,
                    resultado: Err("o firmware recusou alocar o buffer do mapa"),
                })
            } else {
                r == Acao::Pedir(old(fase)->Alocando_0) && *final(fase) == Fase::Pedindo
            },
            Resposta::Mapa { status, por_descritor, bytes } => r == (Acao::Fim {
                liberar: true,
                resultado: if status >= crate::iniciador::efi::BIT_DE_ERRO {
                    Err("o firmware recusou entregar o mapa")
                } else {
                    Ok(contagem_de(bytes@, por_descritor as int))
                },
            }),
        },
{
    match resposta {
        Resposta::Sondagem { status, tamanho, por_descritor } => {
            if status != BUFFER_PEQUENO {
                return Acao::Fim {
                    liberar: false,
                    resultado: Err("o mapa de memoria nao respondeu como esperado"),
                };
            }
            if por_descritor < TAMANHO_DO_DESCRITOR {
                return Acao::Fim {
                    liberar: false,
                    resultado: Err("o firmware declarou descritores menores que o formato"),
                };
            }
            let folga: usize = 2 * por_descritor;
            let pedido: usize = tamanho + folga;
            *fase = Fase::Alocando(pedido);
            Acao::Alocar(pedido)
        },
        Resposta::Alocacao { status, nulo } => {
            if deu_errado(status) || nulo {
                return Acao::Fim {
                    liberar: false,
                    resultado: Err("o firmware recusou alocar o buffer do mapa"),
                };
            }
            let pedido: usize = match *fase {
                Fase::Alocando(p) => p,
                _ => 0,
            };
            *fase = Fase::Pedindo;
            Acao::Pedir(pedido)
        },
        Resposta::Mapa { status, por_descritor, bytes } => {
            if deu_errado(status) {
                return Acao::Fim {
                    liberar: true,
                    resultado: Err("o firmware recusou entregar o mapa"),
                };
            }
            Acao::Fim { liberar: true, resultado: Ok(contar(bytes, por_descritor)) }
        },
    }
}

/// The text of the line that tells what the firmware answered, where the map of
/// memory is not to be had.
pub open spec fn queixa_do_mapa_de(fase: Fase, status: u64) -> Option<Seq<char>> {
    match fase {
        Fase::Sondando => if status != BUFFER_PEQUENO {
            Some("ERRO a sondagem do mapa devolveu 0x"@ + crate::texto::hex(status as nat))
        } else {
            None
        },
        Fase::Alocando(_) => None,
        Fase::Pedindo => if status >= crate::iniciador::efi::BIT_DE_ERRO {
            Some("ERRO o mapa de memoria devolveu 0x"@ + crate::texto::hex(status as nat))
        } else {
            None
        },
    }
}

/// The line that tells what the firmware answered, where the map of memory is
/// not to be had.
pub fn queixa_do_mapa(fase: Fase, status: u64) -> (r: Option<String>)
    ensures
        match r {
            Some(t) => queixa_do_mapa_de(fase, status) == Some(t@),
            None => queixa_do_mapa_de(fase, status) is None,
        },
{
    let mut t = String::new();
    match fase {
        Fase::Sondando => {
            if status == BUFFER_PEQUENO {
                return None;
            }
            t.append("ERRO a sondagem do mapa devolveu 0x");
        },
        Fase::Alocando(_) => {
            return None;
        },
        Fase::Pedindo => {
            if !deu_errado(status) {
                return None;
            }
            t.append("ERRO o mapa de memoria devolveu 0x");
        },
    }
    acrescentar_hex(&mut t, status);
    proof {
        assert(t@ =~= queixa_do_mapa_de(fase, status)->0);
    }
    Some(t)
}

/// No range is counted twice: what is free and what this program takes are
/// apart, and the largest free range is part of what is free.
pub proof fn lei_contagem_coerente(mapa: Seq<u8>, por: int, n: int)
    requires
        0 <= n,
    ensures
        paginas(mapa, por, n, |t: u32| e_livre(t)) + paginas(
            mapa,
            por,
            n,
            |t: u32| e_do_iniciador(t),
        ) <= paginas(mapa, por, n, |t: u32| true),
        0 <= maior_livre(mapa, por, n) <= paginas(mapa, por, n, |t: u32| e_livre(t)),
        0 <= paginas(mapa, por, n, |t: u32| e_do_iniciador(t)),
    decreases n,
{
    if n > 0 {
        lei_contagem_coerente(mapa, por, n - 1);
    }
}

/// Pages, in mebibytes.
pub open spec fn mib(n: u64) -> nat {
    (n * PAGINA / 0x10_0000) as nat
}

/// The text of the lines that report memory.
pub open spec fn linhas_da_memoria(c: Contagem) -> (Seq<char>, Seq<char>) {
    (
        "memoria: "@ + crate::texto::decimal(c.descritores as nat) + " descritores de "@
            + crate::texto::decimal(c.por_descritor as nat) + " bytes, "@ + crate::texto::decimal(
            mib(c.descritas),
        ) + " MiB descritos, "@ + crate::texto::decimal(mib(c.livres)) + " MiB livres, maior faixa "@
            + crate::texto::decimal(mib(c.maior)) + " MiB"@,
        "o iniciador ocupa "@ + crate::texto::decimal((c.do_iniciador * PAGINA / 1024) as nat)
            + " KiB em "@ + crate::texto::decimal(c.do_iniciador as nat) + " paginas"@,
    )
}

/// The lines that report memory.
pub fn relatar_memoria(c: &Contagem) -> (r: (String, String))
    requires
        c.descritas * PAGINA <= u64::MAX,
        c.livres <= c.descritas,
        c.maior <= c.descritas,
        c.do_iniciador <= c.descritas,
    ensures
        (r.0@, r.1@) == linhas_da_memoria(*c),
{
    let mut t = String::new();
    t.append("memoria: ");
    acrescentar_decimal(&mut t, c.descritores as u64);
    t.append(" descritores de ");
    acrescentar_decimal(&mut t, c.por_descritor as u64);
    t.append(" bytes, ");
    acrescentar_decimal(&mut t, c.descritas * PAGINA / 0x10_0000);
    t.append(" MiB descritos, ");
    acrescentar_decimal(&mut t, c.livres * PAGINA / 0x10_0000);
    t.append(" MiB livres, maior faixa ");
    acrescentar_decimal(&mut t, c.maior * PAGINA / 0x10_0000);
    t.append(" MiB");
    let mut u = String::new();
    u.append("o iniciador ocupa ");
    acrescentar_decimal(&mut u, c.do_iniciador * PAGINA / 1024);
    u.append(" KiB em ");
    acrescentar_decimal(&mut u, c.do_iniciador);
    u.append(" paginas");
    proof {
        assert(t@ =~= linhas_da_memoria(*c).0);
        assert(u@ =~= linhas_da_memoria(*c).1);
    }
    (t, u)
}

/// What came of looking for video.
#[derive(Clone, Copy, Debug)]
pub enum VideoAchado {
    /// There is none; this is what the firmware answered.
    Nenhum(u64),
    /// There is no mode.
    SemModo,
    /// There is a mode that tells nothing of itself.
    SemInformacao,
    /// There is a mode.
    Completo { modo: ModoDeVideo, info: InformacaoDeVideo },
}

/// The text of the line that reports video.
pub open spec fn linha_do_video(modo: ModoDeVideo, info: InformacaoDeVideo) -> Seq<char> {
    "video: "@ + crate::texto::decimal(info.largura as nat) + "x"@ + crate::texto::decimal(
        info.altura as nat,
    ) + " "@ + crate::iniciador::efi::nome_do_formato(info.formato)@ + ", "@
        + crate::texto::decimal(info.pixels_por_linha as nat) + " pixels por linha, buffer em 0x"@
        + crate::texto::hex(modo.buffer as nat) + " com "@ + crate::texto::decimal(
        (modo.tamanho_do_buffer / 1024) as nat,
    ) + " KiB, modo "@ + crate::texto::decimal(modo.modo_atual as nat) + " de "@
        + crate::texto::decimal(modo.quantos_modos as nat)
}

/// The line that reports video. A machine without video is a machine; a mode
/// that cannot be described is not.
pub fn descrever_video(achado: &VideoAchado) -> (r: Result<String, &'static str>)
    ensures
        match *achado {
            VideoAchado::Nenhum(status) => r matches Ok(t) && t@
                == "video: nenhum (o firmware devolveu 0x"@ + crate::texto::hex(status as nat) + ")"@,
            VideoAchado::SemModo => r == Err::<String, &'static str>(
                "o protocolo de video veio sem modo",
            ),
            VideoAchado::SemInformacao => r == Err::<String, &'static str>(
                "o modo de video veio sem informacao",
            ),
            VideoAchado::Completo { modo, info } => r matches Ok(t) && t@ == linha_do_video(
                modo,
                info,
            ),
        },
{
    match achado {
        VideoAchado::Nenhum(status) => {
            let mut t = String::new();
            t.append("video: nenhum (o firmware devolveu 0x");
            acrescentar_hex(&mut t, *status);
            t.append(")");
            proof {
                assert(t@ =~= "video: nenhum (o firmware devolveu 0x"@ + crate::texto::hex(
                    *status as nat,
                ) + ")"@);
            }
            Ok(t)
        },
        VideoAchado::SemModo => Err("o protocolo de video veio sem modo"),
        VideoAchado::SemInformacao => Err("o modo de video veio sem informacao"),
        VideoAchado::Completo { modo, info } => {
            let mut t = String::new();
            t.append("video: ");
            acrescentar_decimal(&mut t, info.largura as u64);
            t.append("x");
            acrescentar_decimal(&mut t, info.altura as u64);
            t.append(" ");
            t.append(info.nome_do_formato());
            t.append(", ");
            acrescentar_decimal(&mut t, info.pixels_por_linha as u64);
            t.append(" pixels por linha, buffer em 0x");
            acrescentar_hex(&mut t, modo.buffer);
            t.append(" com ");
            acrescentar_decimal(&mut t, modo.tamanho_do_buffer / 1024);
            t.append(" KiB, modo ");
            acrescentar_decimal(&mut t, modo.modo_atual as u64);
            t.append(" de ");
            acrescentar_decimal(&mut t, modo.quantos_modos as u64);
            proof {
                assert(t@ =~= linha_do_video(*modo, *info));
            }
            Ok(t)
        },
    }
}

/// A table is what it is said to be exactly where it has the signature, a size
/// between that of a header and a page, and the CRC of its bytes with those of the
/// CRC itself at zero. What is wrong first is what is said.
pub proof fn lei_recusa(c: Cabecalho, assinatura: u64, tabela: Seq<u8>)
    ensures
        ({
            let soma = crate::iniciador::crc32::crc(conferido(tabela));
            let r = recusa(c, assinatura, tabela);
            &&& r is None <==> c.assinatura == assinatura && 24 <= c.tamanho <= 4096 && soma == c.crc32
            &&& c.assinatura != assinatura ==> r == Some("assinatura de tabela errada")
            &&& c.assinatura == assinatura && !(24 <= c.tamanho <= 4096) ==> r == Some(
                "tabela com tamanho implausivel",
            )
            &&& c.assinatura == assinatura && 24 <= c.tamanho <= 4096 && soma != c.crc32 ==> r == Some(
                "crc de tabela nao confere",
            )
        }),
{
}

/// What the CRC of a table is worked out over: every byte of it, but for the four
/// from 16 on, which are zero.
pub proof fn lei_conferido(tabela: Seq<u8>, i: int)
    requires
        tabela.len() >= 20,
        0 <= i < tabela.len(),
    ensures
        conferido(tabela).len() == tabela.len(),
        conferido(tabela)[i] == if 16 <= i < 20 {
            0
        } else {
            tabela[i]
        },
{
}

/// A second UEFI has 2 in the upper half of its revision.
pub proof fn lei_da_segunda(c: Cabecalho)
    ensures
        da_segunda(c) <==> c.revisao / 65536 == 2,
{
}

/// The memory that is free is that of types 7, 3 and 4; what is this program's is
/// that of types 1 and 2.
pub proof fn lei_tipos_de_memoria(tipo: u32)
    ensures
        e_livre(tipo) <==> tipo == 7 || tipo == 3 || tipo == 4,
        e_do_iniciador(tipo) <==> tipo == 1 || tipo == 2,
{
}

/// One more descriptor adds its pages where its type counts, and none where it does
/// not.
pub proof fn lei_paginas(mapa: Seq<u8>, por: int, n: int, quais: spec_fn(u32) -> bool)
    requires
        0 <= n,
    ensures
        ({
            let d = crate::iniciador::efi::descritor_em(mapa, n * por);
            &&& quais(d.tipo) ==> paginas(mapa, por, n + 1, quais) == paginas(mapa, por, n, quais)
                + d.paginas
            &&& !quais(d.tipo) ==> paginas(mapa, por, n + 1, quais) == paginas(mapa, por, n, quais)
            &&& paginas(mapa, por, 0, quais) == 0
        }),
{
}

/// The largest free range has as many pages as some free descriptor, and no free
/// descriptor has more.
pub proof fn lei_maior_livre(mapa: Seq<u8>, por: int, n: int, i: int)
    requires
        0 <= i < n,
    ensures
        ({
            let d = descritor(mapa, por, i);
            (d.tipo == 7 || d.tipo == 3 || d.tipo == 4) ==> d.paginas <= maior_livre(mapa, por, n)
        }),
        maior_livre(mapa, por, n) == 0 || exists|k: int|
            0 <= k < n && e_livre((#[trigger] descritor(mapa, por, k)).tipo) && descritor(
                mapa,
                por,
                k,
            ).paginas == maior_livre(mapa, por, n),
    decreases n,
{
    assert(maior_livre(mapa, por, 0) == 0);
    if n > 1 {
        if i < n - 1 {
            lei_maior_livre(mapa, por, n - 1, i);
        } else {
            lei_maior_livre(mapa, por, n - 1, 0);
        }
    }
    let d = descritor(mapa, por, n - 1);
    if e_livre(d.tipo) && d.paginas > maior_livre(mapa, por, n - 1) {
        assert(descritor(mapa, por, n - 1).paginas == maior_livre(mapa, por, n));
    } else if n > 1 && maior_livre(mapa, por, n) != 0 {
        let k = choose|k: int|
            0 <= k < n - 1 && e_livre((#[trigger] descritor(mapa, por, k)).tipo) && descritor(
                mapa,
                por,
                k,
            ).paginas == maior_livre(mapa, por, n - 1);
        assert(descritor(mapa, por, k).paginas == maior_livre(mapa, por, n));
    }
}

/// What a map holds: as many descriptors as go into its bytes, and the pages of all of
/// them, of the free ones, of the largest free one, and of those of this program.
pub proof fn lei_contagem(mapa: Seq<u8>, por: int)
    requires
        por > 0,
        mapa.len() <= usize::MAX,
        por <= usize::MAX,
        paginas(mapa, por, mapa.len() as int / por, |t: u32| true) <= u64::MAX,
    ensures
        ({
            let c = contagem_de(mapa, por);
            let n = mapa.len() as int / por;
            &&& c.descritores * por <= mapa.len() < (c.descritores + 1) * por
            &&& c.por_descritor == por
            &&& c.descritas == paginas(mapa, por, n, |t: u32| true)
            &&& c.livres == paginas(mapa, por, n, |t: u32| e_livre(t))
            &&& c.do_iniciador == paginas(mapa, por, n, |t: u32| e_do_iniciador(t))
            &&& c.maior == maior_livre(mapa, por, n)
        }),
{
    let l = mapa.len() as int;
    let n = l / por;
    vstd::arithmetic::div_mod::lemma_fundamental_div_mod(l, por);
    vstd::arithmetic::div_mod::lemma_mod_bound(l, por);
    vstd::arithmetic::div_mod::lemma_div_pos_is_pos(l, por);
    assert(n * por <= l && l < (n + 1) * por) by (nonlinear_arith)
        requires
            l == por * n + l % por,
            0 <= l % por < por,
    ;
    assert(n <= l) by (nonlinear_arith)
        requires
            n * por <= l,
            por >= 1,
            n >= 0,
    ;
    lei_contagem_coerente(mapa, por, n);
}

/// A mebibyte is 256 pages.
pub proof fn lei_mib(n: u64)
    ensures
        mib(n) == n / 256,
{
}

/// Texts, one after another.
pub open spec fn emendados(s: Seq<Seq<char>>) -> Seq<char>
    decreases s.len(),
{
    if s.len() == 0 {
        Seq::empty()
    } else {
        emendados(s.drop_last()) + s.last()
    }
}

proof fn lemma_emendados(s: Seq<Seq<char>>, t: Seq<char>)
    ensures
        emendados(s.push(t)) == emendados(s) + t,
{
    assert(s.push(t).drop_last() =~= s);
}

/// The numbers of the lines that report memory, each after its own words: how many
/// descriptors, of how many bytes, and in mebibytes of 256 pages what is described,
/// what is free, and the largest range; then the kibibytes, four to a page, and the
/// pages of this program.
pub proof fn lei_linhas_da_memoria(c: Contagem)
    ensures
        linhas_da_memoria(c).0 == emendados(
            Seq::<Seq<char>>::empty().push("memoria: "@).push(
                crate::texto::decimal(c.descritores as nat),
            ).push(" descritores de "@).push(crate::texto::decimal(c.por_descritor as nat)).push(
                " bytes, "@,
            ).push(crate::texto::decimal((c.descritas / 256) as nat)).push(" MiB descritos, "@).push(
                crate::texto::decimal((c.livres / 256) as nat),
            ).push(" MiB livres, maior faixa "@).push(crate::texto::decimal((c.maior / 256) as nat)).push(
                " MiB"@,
            ),
        ),
        linhas_da_memoria(c).1 == emendados(
            Seq::<Seq<char>>::empty().push("o iniciador ocupa "@).push(
                crate::texto::decimal((c.do_iniciador * 4) as nat),
            ).push(" KiB em "@).push(crate::texto::decimal(c.do_iniciador as nat)).push(" paginas"@),
        ),
{
    lei_mib(c.descritas);
    lei_mib(c.livres);
    lei_mib(c.maior);
    let v = Seq::<Seq<char>>::empty();
    let a1 = v.push("memoria: "@);
    let a2 = a1.push(crate::texto::decimal(c.descritores as nat));
    let a3 = a2.push(" descritores de "@);
    let a4 = a3.push(crate::texto::decimal(c.por_descritor as nat));
    let a5 = a4.push(" bytes, "@);
    let a6 = a5.push(crate::texto::decimal((c.descritas / 256) as nat));
    let a7 = a6.push(" MiB descritos, "@);
    let a8 = a7.push(crate::texto::decimal((c.livres / 256) as nat));
    let a9 = a8.push(" MiB livres, maior faixa "@);
    let a10 = a9.push(crate::texto::decimal((c.maior / 256) as nat));
    lemma_emendados(v, "memoria: "@);
    lemma_emendados(a1, crate::texto::decimal(c.descritores as nat));
    lemma_emendados(a2, " descritores de "@);
    lemma_emendados(a3, crate::texto::decimal(c.por_descritor as nat));
    lemma_emendados(a4, " bytes, "@);
    lemma_emendados(a5, crate::texto::decimal((c.descritas / 256) as nat));
    lemma_emendados(a6, " MiB descritos, "@);
    lemma_emendados(a7, crate::texto::decimal((c.livres / 256) as nat));
    lemma_emendados(a8, " MiB livres, maior faixa "@);
    lemma_emendados(a9, crate::texto::decimal((c.maior / 256) as nat));
    lemma_emendados(a10, " MiB"@);
    assert(emendados(v) + "memoria: "@ =~= "memoria: "@);
    let b1 = v.push("o iniciador ocupa "@);
    let b2 = b1.push(crate::texto::decimal((c.do_iniciador * 4) as nat));
    let b3 = b2.push(" KiB em "@);
    let b4 = b3.push(crate::texto::decimal(c.do_iniciador as nat));
    lemma_emendados(v, "o iniciador ocupa "@);
    lemma_emendados(b1, crate::texto::decimal((c.do_iniciador * 4) as nat));
    lemma_emendados(b2, " KiB em "@);
    lemma_emendados(b3, crate::texto::decimal(c.do_iniciador as nat));
    lemma_emendados(b4, " paginas"@);
    assert(emendados(v) + "o iniciador ocupa "@ =~= "o iniciador ocupa "@);
    assert(c.do_iniciador * 4096 / 1024 == c.do_iniciador * 4);
}

/// The numbers of the line that reports video, each after its own words: width and
/// height, the format, the pixels of a line, where the buffer is and how many
/// kibibytes it has, and which mode of how many.
pub proof fn lei_linha_do_video(modo: ModoDeVideo, info: InformacaoDeVideo)
    ensures
        linha_do_video(modo, info) == emendados(
            Seq::<Seq<char>>::empty().push("video: "@).push(crate::texto::decimal(info.largura as nat)).push(
                "x"@,
            ).push(crate::texto::decimal(info.altura as nat)).push(" "@).push(
                crate::iniciador::efi::nome_do_formato(info.formato)@,
            ).push(", "@).push(crate::texto::decimal(info.pixels_por_linha as nat)).push(
                " pixels por linha, buffer em 0x"@,
            ).push(crate::texto::hex(modo.buffer as nat)).push(" com "@).push(
                crate::texto::decimal((modo.tamanho_do_buffer / 1024) as nat),
            ).push(" KiB, modo "@).push(crate::texto::decimal(modo.modo_atual as nat)).push(" de "@).push(
                crate::texto::decimal(modo.quantos_modos as nat),
            ),
        ),
{
    let v = Seq::<Seq<char>>::empty();
    let a1 = v.push("video: "@);
    let a2 = a1.push(crate::texto::decimal(info.largura as nat));
    let a3 = a2.push("x"@);
    let a4 = a3.push(crate::texto::decimal(info.altura as nat));
    let a5 = a4.push(" "@);
    let a6 = a5.push(crate::iniciador::efi::nome_do_formato(info.formato)@);
    let a7 = a6.push(", "@);
    let a8 = a7.push(crate::texto::decimal(info.pixels_por_linha as nat));
    let a9 = a8.push(" pixels por linha, buffer em 0x"@);
    let a10 = a9.push(crate::texto::hex(modo.buffer as nat));
    let a11 = a10.push(" com "@);
    let a12 = a11.push(crate::texto::decimal((modo.tamanho_do_buffer / 1024) as nat));
    let a13 = a12.push(" KiB, modo "@);
    let a14 = a13.push(crate::texto::decimal(modo.modo_atual as nat));
    let a15 = a14.push(" de "@);
    lemma_emendados(v, "video: "@);
    lemma_emendados(a1, crate::texto::decimal(info.largura as nat));
    lemma_emendados(a2, "x"@);
    lemma_emendados(a3, crate::texto::decimal(info.altura as nat));
    lemma_emendados(a4, " "@);
    lemma_emendados(a5, crate::iniciador::efi::nome_do_formato(info.formato)@);
    lemma_emendados(a6, ", "@);
    lemma_emendados(a7, crate::texto::decimal(info.pixels_por_linha as nat));
    lemma_emendados(a8, " pixels por linha, buffer em 0x"@);
    lemma_emendados(a9, crate::texto::hex(modo.buffer as nat));
    lemma_emendados(a10, " com "@);
    lemma_emendados(a11, crate::texto::decimal((modo.tamanho_do_buffer / 1024) as nat));
    lemma_emendados(a12, " KiB, modo "@);
    lemma_emendados(a13, crate::texto::decimal(modo.modo_atual as nat));
    lemma_emendados(a14, " de "@);
    lemma_emendados(a15, crate::texto::decimal(modo.quantos_modos as nat));
    assert(emendados(v) + "video: "@ =~= "video: "@);
}

/// The line that reports the table of the system shows the two halves of the
/// revision, the upper one first, and the size.
pub proof fn lei_linha_do_sistema(c: Cabecalho)
    ensures
        linha_do_sistema(c) == emendados(
            Seq::<Seq<char>>::empty().push("tabela do sistema confere: uefi "@).push(
                crate::texto::decimal((c.revisao / 65536) as nat),
            ).push("."@).push(crate::texto::decimal((c.revisao % 65536) as nat)).push(", "@).push(
                crate::texto::decimal(c.tamanho as nat),
            ).push(" bytes"@),
        ),
{
    let v = Seq::<Seq<char>>::empty();
    let a1 = v.push("tabela do sistema confere: uefi "@);
    let a2 = a1.push(crate::texto::decimal((c.revisao / 65536) as nat));
    let a3 = a2.push("."@);
    let a4 = a3.push(crate::texto::decimal((c.revisao % 65536) as nat));
    let a5 = a4.push(", "@);
    let a6 = a5.push(crate::texto::decimal(c.tamanho as nat));
    lemma_emendados(v, "tabela do sistema confere: uefi "@);
    lemma_emendados(a1, crate::texto::decimal((c.revisao / 65536) as nat));
    lemma_emendados(a2, "."@);
    lemma_emendados(a3, crate::texto::decimal((c.revisao % 65536) as nat));
    lemma_emendados(a4, ", "@);
    lemma_emendados(a5, crate::texto::decimal(c.tamanho as nat));
    lemma_emendados(a6, " bytes"@);
    assert(emendados(v) + "tabela do sistema confere: uefi "@ =~= "tabela do sistema confere: uefi "@);
}

/// There are numbers to show of a table exactly where its signature or its CRC is
/// wrong; of the map of memory, where the firmware answered what it should not.
pub proof fn lei_quando_ha_queixa(
    c: Cabecalho,
    assinatura: u64,
    tabela: Seq<u8>,
    quem: &str,
    fase: Fase,
    status: u64,
)
    ensures
        queixa_de(c, assinatura, tabela, quem) is Some <==> c.assinatura != assinatura || (24
            <= c.tamanho <= 4096 && crate::iniciador::crc32::crc(conferido(tabela)) != c.crc32),
        queixa_do_mapa_de(fase, status) is Some <==> (fase is Sondando && status
            != 0x8000_0000_0000_0005) || (fase is Pedindo && status >= 0x8000_0000_0000_0000),
{
}

/// The tables are looked at in order, the system's, the boot services', the runtime
/// services'; then comes memory.
pub proof fn lei_ordem_das_tabelas(e: Etapa)
    ensures
        e is Sistema ==> e.seguinte_spec() is Boot,
        e is Boot ==> e.seguinte_spec() is Execucao,
        !(e is Sistema) && !(e is Boot) ==> e.seguinte_spec() is Memoria,
{
}

} // verus!
