//! What the firmware hands over, as plain values.
use vstd::prelude::*;

use crate::inteiros::{u32_em, u64_em};

verus! {

/// The call worked.
pub const SUCESSO: u64 = 0;

/// The bit that tells an error from a warning.
pub const BIT_DE_ERRO: u64 = 0x8000_0000_0000_0000;

/// The buffer is too small: how the firmware tells the size that it needs.
pub const BUFFER_PEQUENO: u64 = 0x8000_0000_0000_0005;

/// Is the answer of the firmware an error?
pub fn deu_errado(status: u64) -> (r: bool)
    ensures
        r == (status >= BIT_DE_ERRO),
{
    proof {
        assert((status & 0x8000_0000_0000_0000 != 0) == (status >= 0x8000_0000_0000_0000))
            by (bit_vector);
    }
    status & BIT_DE_ERRO != 0
}

/// The name of a protocol.
#[derive(Clone, Copy, Debug, PartialEq, Eq)]
pub struct Guid {
    pub a: u32,
    pub b: u16,
    pub c: u16,
    pub d: [u8; 8],
}

/// The name of the protocol of video,
/// `9042a9de-23dc-4a38-96fb-7aded080516a`.
pub fn guid_do_video() -> (r: Guid)
    ensures
        r.a == 0x9042_a9de,
        r.b == 0x23dc,
        r.c == 0x4a38,
        r.d@ == seq![0x96u8, 0xfb, 0x7a, 0xde, 0xd0, 0x80, 0x51, 0x6a],
{
    let d: [u8; 8] = [0x96, 0xfb, 0x7a, 0xde, 0xd0, 0x80, 0x51, 0x6a];
    proof {
        assert(d@ =~= seq![0x96u8, 0xfb, 0x7a, 0xde, 0xd0, 0x80, 0x51, 0x6a]);
    }
    Guid { a: 0x9042_a9de, b: 0x23dc, c: 0x4a38, d }
}

/// The header that every table of the firmware starts with.
#[derive(Clone, Copy, Debug, PartialEq, Eq, Structural)]
pub struct Cabecalho {
    pub assinatura: u64,
    pub revisao: u32,
    /// The size of the whole table.
    pub tamanho: u32,
    /// The CRC of the table, worked out with this field at zero.
    pub crc32: u32,
    pub reservado: u32,
}

/// How many bytes a header takes.
pub const TAMANHO_DO_CABECALHO: usize = 24;

/// Where, in a header, its CRC is.
pub const CRC_EM: usize = 16;

/// `IBI SYST`, the least significant byte first.
pub const ASSINATURA_DO_SISTEMA: u64 = 0x5453_5953_2049_4249;

/// `BOOTSERV`.
pub const ASSINATURA_DOS_SERVICOS_DE_BOOT: u64 = 0x5652_4553_544f_4f42;

/// `RUNTSERV`.
pub const ASSINATURA_DOS_SERVICOS_DE_EXECUCAO: u64 = 0x5652_4553_544e_5552;

/// The header that some bytes start with.
pub open spec fn cabecalho_de(b: Seq<u8>) -> Cabecalho {
    Cabecalho {
        assinatura: crate::inteiros::le(b, 0, 8) as u64,
        revisao: crate::inteiros::le(b, 8, 4) as u32,
        tamanho: crate::inteiros::le(b, 12, 4) as u32,
        crc32: crate::inteiros::le(b, 16, 4) as u32,
        reservado: crate::inteiros::le(b, 20, 4) as u32,
    }
}

impl Cabecalho {
    /// The header that some bytes start with, where there are enough of them.
    pub fn ler(b: &[u8]) -> (r: Option<Cabecalho>)
        ensures
            r == if b@.len() >= TAMANHO_DO_CABECALHO {
                Some(cabecalho_de(b@))
            } else {
                None
            },
    {
        match (u64_em(b, 0), u32_em(b, 8), u32_em(b, 12), u32_em(b, 16), u32_em(b, 20)) {
            (Some(assinatura), Some(revisao), Some(tamanho), Some(crc32), Some(reservado)) => Some(
                Cabecalho { assinatura, revisao, tamanho, crc32, reservado },
            ),
            _ => None,
        }
    }
}

/// A range of the map of memory.
#[derive(Clone, Copy, Debug, PartialEq, Eq, Structural)]
pub struct Descritor {
    pub tipo: u32,
    pub fisico: u64,
    pub virtual_: u64,
    pub paginas: u64,
    pub atributos: u64,
}

/// How many bytes of a descriptor have a meaning here. The firmware may add
/// more after them.
pub const TAMANHO_DO_DESCRITOR: usize = 40;

/// The descriptor at a place of the map.
pub open spec fn descritor_em(b: Seq<u8>, em: int) -> Descritor {
    Descritor {
        tipo: crate::inteiros::le(b, em, 4) as u32,
        fisico: crate::inteiros::le(b, em + 8, 8) as u64,
        virtual_: crate::inteiros::le(b, em + 16, 8) as u64,
        paginas: crate::inteiros::le(b, em + 24, 8) as u64,
        atributos: crate::inteiros::le(b, em + 32, 8) as u64,
    }
}

impl Descritor {
    /// The descriptor at a place of the map.
    pub fn ler(b: &[u8], em: usize) -> (r: Option<Descritor>)
        ensures
            r == if em + TAMANHO_DO_DESCRITOR <= b@.len() {
                Some(descritor_em(b@, em as int))
            } else {
                None
            },
    {
        if b.len() < TAMANHO_DO_DESCRITOR || em > b.len() - TAMANHO_DO_DESCRITOR {
            return None;
        }
        match (
            u32_em(b, em),
            u64_em(b, em + 8),
            u64_em(b, em + 16),
            u64_em(b, em + 24),
            u64_em(b, em + 32),
        ) {
            (Some(tipo), Some(fisico), Some(virtual_), Some(paginas), Some(atributos)) => Some(
                Descritor { tipo, fisico, virtual_, paginas, atributos },
            ),
            _ => None,
        }
    }
}

/// Code of the program that the firmware started.
pub const CODIGO_DO_CARREGADOR: u32 = 1;

/// Data of the program that the firmware started.
pub const DADOS_DO_CARREGADOR: u32 = 2;

/// Code of the firmware that is over once the kernel takes the machine.
pub const CODIGO_DE_BOOT: u32 = 3;

/// Data of the firmware that is over once the kernel takes the machine.
pub const DADOS_DE_BOOT: u32 = 4;

/// Free memory.
pub const CONVENCIONAL: u32 = 7;

/// Size of a page of the map.
pub const PAGINA: u64 = 4096;

/// What the reset does: turn the machine off.
pub const DESLIGAR: u32 = 2;

/// A mode of video, without what it points to.
#[derive(Clone, Copy, Debug, PartialEq, Eq, Structural)]
pub struct ModoDeVideo {
    pub quantos_modos: u32,
    pub modo_atual: u32,
    pub buffer: u64,
    pub tamanho_do_buffer: u64,
}

/// What a mode of video looks like.
#[derive(Clone, Copy, Debug, PartialEq, Eq, Structural)]
pub struct InformacaoDeVideo {
    pub versao: u32,
    pub largura: u32,
    pub altura: u32,
    pub formato: u32,
    pub pixels_por_linha: u32,
}

/// Red, green, blue, reserved.
pub const FORMATO_RGB: u32 = 0;

/// Blue, green, red, reserved.
pub const FORMATO_BGR: u32 = 1;

/// Told by masks.
pub const FORMATO_MASCARAS: u32 = 2;

/// There is no buffer to reach.
pub const FORMATO_SO_TRANSFERENCIA: u32 = 3;

/// The name of a format of pixel.
pub open spec fn nome_do_formato(formato: u32) -> &'static str {
    if formato == FORMATO_RGB {
        "rgb"
    } else if formato == FORMATO_BGR {
        "bgr"
    } else if formato == FORMATO_MASCARAS {
        "mascaras"
    } else if formato == FORMATO_SO_TRANSFERENCIA {
        "so-transferencia"
    } else {
        "desconhecido"
    }
}

impl InformacaoDeVideo {
    /// The name of the format of pixel.
    pub fn nome_do_formato(&self) -> (r: &'static str)
        ensures
            r == nome_do_formato(self.formato),
    {
        match self.formato {
            FORMATO_RGB => "rgb",
            FORMATO_BGR => "bgr",
            FORMATO_MASCARAS => "mascaras",
            FORMATO_SO_TRANSFERENCIA => "so-transferencia",
            _ => "desconhecido",
        }
    }
}

/// The header of a table is in its first 24 bytes, the least significant byte of
/// each number first.
pub proof fn lei_cabecalho_e_o_dos_bytes(b: Seq<u8>)
    requires
        b.len() >= 24,
    ensures
        ({
            let c = cabecalho_de(b);
            &&& c.assinatura == b[0] + 0x100 * b[1] + 0x10000 * b[2] + 0x1000000 * b[3] + 0x100000000 * b[4] + 0x10000000000 * b[5] + 0x1000000000000 * b[6] + 0x100000000000000 * b[7]
            &&& c.revisao == b[8] + 0x100 * b[9] + 0x10000 * b[10] + 0x1000000 * b[11]
            &&& c.tamanho == b[12] + 0x100 * b[13] + 0x10000 * b[14] + 0x1000000 * b[15]
            &&& c.crc32 == b[16] + 0x100 * b[17] + 0x10000 * b[18] + 0x1000000 * b[19]
            &&& c.reservado == b[20] + 0x100 * b[21] + 0x10000 * b[22] + 0x1000000 * b[23]
        }),
{
    crate::inteiros::lei_bytes_do_menos_significativo(b, 0);
    crate::inteiros::lei_bytes_do_menos_significativo(b, 8);
    crate::inteiros::lei_bytes_do_menos_significativo(b, 12);
    crate::inteiros::lei_bytes_do_menos_significativo(b, 16);
    crate::inteiros::lei_bytes_do_menos_significativo(b, 20);
}

/// A descriptor of the map of memory is in 40 bytes from its place on: its type,
/// where it starts, where it is seen, how many pages it has, and its attributes.
pub proof fn lei_descritor_e_o_dos_bytes(b: Seq<u8>, em: int)
    requires
        0 <= em,
        em + 40 <= b.len(),
    ensures
        ({
            let d = descritor_em(b, em);
            &&& d.tipo == b[em] + 0x100 * b[em + 1] + 0x10000 * b[em + 2] + 0x1000000 * b[em + 3]
            &&& d.fisico == b[em + 8] + 0x100 * b[em + 9] + 0x10000 * b[em + 10] + 0x1000000 * b[em + 11] + 0x100000000 * b[em + 12] + 0x10000000000 * b[em + 13] + 0x1000000000000 * b[em + 14] + 0x100000000000000 * b[em + 15]
            &&& d.virtual_ == b[em + 16] + 0x100 * b[em + 17] + 0x10000 * b[em + 18] + 0x1000000 * b[em + 19] + 0x100000000 * b[em + 20] + 0x10000000000 * b[em + 21] + 0x1000000000000 * b[em + 22] + 0x100000000000000 * b[em + 23]
            &&& d.paginas == b[em + 24] + 0x100 * b[em + 25] + 0x10000 * b[em + 26] + 0x1000000 * b[em + 27] + 0x100000000 * b[em + 28] + 0x10000000000 * b[em + 29] + 0x1000000000000 * b[em + 30] + 0x100000000000000 * b[em + 31]
            &&& d.atributos == b[em + 32] + 0x100 * b[em + 33] + 0x10000 * b[em + 34] + 0x1000000 * b[em + 35] + 0x100000000 * b[em + 36] + 0x10000000000 * b[em + 37] + 0x1000000000000 * b[em + 38] + 0x100000000000000 * b[em + 39]
        }),
{
    crate::inteiros::lei_bytes_do_menos_significativo(b, em);
    crate::inteiros::lei_bytes_do_menos_significativo(b, em + 8);
    crate::inteiros::lei_bytes_do_menos_significativo(b, em + 16);
    crate::inteiros::lei_bytes_do_menos_significativo(b, em + 24);
    crate::inteiros::lei_bytes_do_menos_significativo(b, em + 32);
}

} // verus!
