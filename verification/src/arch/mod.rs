//! What both architectures share, and one module for each of them.
use vstd::prelude::*;

use crate::texto::de_utf8;

pub mod aarch64;
pub mod memoria;
pub mod x86_64;

verus! {

/// Size of a page: 4 KiB on both architectures.
pub const TAMANHO_PAGINA: u64 = 4096;

/// What a mapped page allows.
#[derive(Clone, Copy, Debug, PartialEq, Eq, Structural)]
pub struct Permissoes {
    pub escrita: bool,
    pub executavel: bool,
    /// Registers of a device: no caching, no reordering.
    pub dispositivo: bool,
    /// Reachable without privilege.
    pub usuario: bool,
}

impl Permissoes {
    /// The kernel's own data: written, never executed.
    pub open spec fn dados_spec() -> Permissoes {
        Permissoes { escrita: true, executavel: false, dispositivo: false, usuario: false }
    }

    /// Registers of a device: written, never executed, never the user's.
    pub open spec fn de_dispositivo_spec() -> Permissoes {
        Permissoes { escrita: true, executavel: false, dispositivo: true, usuario: false }
    }

    /// The kernel's own data: written, never executed.
    pub fn dados() -> (r: Permissoes)
        ensures
            r == Permissoes::dados_spec(),
    {
        Permissoes { escrita: true, executavel: false, dispositivo: false, usuario: false }
    }

    /// Registers of a device: written, never executed, never the user's.
    pub fn de_dispositivo() -> (r: Permissoes)
        ensures
            r == Permissoes::de_dispositivo_spec(),
    {
        Permissoes { escrita: true, executavel: false, dispositivo: true, usuario: false }
    }
}

/// Whether a request to map is aligned: the first complaint, if any.
pub open spec fn desalinhado(virtual_: u64, fisico: u64) -> Option<&'static str> {
    if virtual_ % TAMANHO_PAGINA != 0 {
        Some("endereco virtual desalinhado")
    } else if fisico % TAMANHO_PAGINA != 0 {
        Some("endereco fisico desalinhado")
    } else {
        None
    }
}

/// Refuses addresses that do not start a page.
pub fn validar_alinhamento(virtual_: u64, fisico: u64) -> (r: Result<(), &'static str>)
    ensures
        match r {
            Ok(_) => desalinhado(virtual_, fisico) is None,
            Err(m) => desalinhado(virtual_, fisico) == Some(m),
        },
{
    if virtual_ % TAMANHO_PAGINA != 0 {
        return Err("endereco virtual desalinhado");
    }
    if fisico % TAMANHO_PAGINA != 0 {
        return Err("endereco fisico desalinhado");
    }
    Ok(())
}

/// How many bytes of the processor's name are kept.
pub const MAX_ID_CPU: usize = 24;

/// Identification of the processor.
#[derive(Debug)]
pub struct IdCpu {
    bytes: Vec<u8>,
}

impl IdCpu {
    pub closed spec fn view(&self) -> Seq<u8> {
        self.bytes@
    }

    pub fn vazio() -> (r: IdCpu)
        ensures
            r@ == Seq::<u8>::empty(),
    {
        IdCpu { bytes: Vec::new() }
    }

    /// Built from bytes the hardware gave, cut at [`MAX_ID_CPU`].
    pub fn de_bytes(origem: &[u8]) -> (r: IdCpu)
        ensures
            r@ == if origem@.len() <= MAX_ID_CPU {
                origem@
            } else {
                origem@.take(MAX_ID_CPU as int)
            },
    {
        let n: usize = if origem.len() < MAX_ID_CPU {
            origem.len()
        } else {
            MAX_ID_CPU
        };
        let mut bytes: Vec<u8> = Vec::new();
        let mut i: usize = 0;
        while i < n
            invariant
                i <= n <= origem@.len(),
                bytes@ == origem@.take(i as int),
            decreases n - i,
        {
            bytes.push(origem[i]);
            proof {
                assert(bytes@ =~= origem@.take(i + 1));
            }
            i = i + 1;
        }
        proof {
            assert(origem@.len() <= MAX_ID_CPU ==> origem@.take(n as int) =~= origem@);
        }
        IdCpu { bytes }
    }

    /// The name as text.
    pub fn como_str(&self) -> (r: &str)
        ensures
            r@ == if vstd::utf8::valid_utf8(self@) {
                vstd::utf8::decode_utf8(self@)
            } else {
                "desconhecido"@
            },
    {
        match de_utf8(self.bytes.as_slice()) {
            Some(s) => s,
            None => "desconhecido",
        }
    }
}

/// What the processor does while there is nothing to do.
#[derive(Clone, Copy, Debug, PartialEq, Eq, Structural)]
pub enum Repouso {
    /// Sleep until an interrupt comes.
    Dormir,
    /// Only look again: with interrupts off, nothing would end the sleep.
    Girar,
    /// Go on.
    Seguir,
}

/// A request to map is aligned where both addresses are multiples of 4096; the
/// virtual one is looked at first.
pub proof fn lei_alinhamento(virtual_: u64, fisico: u64)
    ensures
        desalinhado(virtual_, fisico) is None <==> virtual_ % 4096 == 0 && fisico % 4096 == 0,
        virtual_ % 4096 != 0 ==> desalinhado(virtual_, fisico) == Some("endereco virtual desalinhado"),
        virtual_ % 4096 == 0 && fisico % 4096 != 0 ==> desalinhado(virtual_, fisico) == Some(
            "endereco fisico desalinhado",
        ),
{
}

} // verus!
