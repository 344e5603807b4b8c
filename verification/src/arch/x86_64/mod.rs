//! The x86_64: its map of the virtual space and the parts that decide.
use vstd::prelude::*;

pub mod apic;
pub mod contexto;
pub mod idt;
pub mod paginacao;
pub mod pci;
pub mod pic;
pub mod usuario;

use crate::arch::{IdCpu, Repouso};
use crate::machine::TipoRegiao;

verus! {

/// Where the whole of physical memory is mapped.
pub const BASE_DA_MEMORIA_FISICA: u64 = 0xFFFF_8800_0000_0000;

/// Where the kernel heap starts.
pub const BASE_DO_HEAP: u64 = 0xFFFF_9000_0000_0000;

/// Where the thread stacks start.
pub const BASE_DAS_PILHAS: u64 = 0xFFFF_9800_0000_0000;

/// Where what the bootloader places on its own starts.
pub const BASE_DO_RESTO: u64 = 0xFFFF_A000_0000_0000;

/// Where the kernel is.
pub const BASE_DO_KERNEL: u64 = 0xFFFF_8000_0000_0000;

/// How much one entry of the top table covers: 512 GiB.
pub const COBERTURA_DA_ENTRADA_DE_TOPO: u64 = 0x80_0000_0000;

/// The entry of the top table that holds the user's space.
pub const ENTRADA_DO_USUARIO: usize = 0;

/// The address belongs to the entry of the top table that is not shared.
pub open spec fn privado(virtual_: u64) -> bool {
    virtual_ / COBERTURA_DA_ENTRADA_DE_TOPO == ENTRADA_DO_USUARIO
}

/// Does the address belong to the entry of the top table that each space has
/// for itself? Every other entry is shared between all spaces.
pub fn e_privado(virtual_: u64) -> (r: bool)
    ensures
        r == privado(virtual_),
{
    virtual_ / COBERTURA_DA_ENTRADA_DE_TOPO == ENTRADA_DO_USUARIO as u64
}

/// Name of the architecture on the agent's channel.
pub fn nome() -> (r: &'static str)
    ensures
        r@ == "x86_64"@,
{
    "x86_64"
}

/// The fault a stack overflow raises: with no stack to raise a page fault on,
/// the processor raises another.
pub fn falha_de_estouro_de_pilha() -> (r: &'static str)
    ensures
        r@ == "double_fault"@,
{
    "double_fault"
}

/// The regions of the kernel, the heap, the stacks, physical memory and the
/// rest are in the upper half of the space and share no entry of the top table
/// with each other, nor with the user's space.
pub proof fn lei_regioes_separadas()
    ensures
        ({
            let c = COBERTURA_DA_ENTRADA_DE_TOPO;
            let k = BASE_DO_KERNEL / c;
            let m = BASE_DA_MEMORIA_FISICA / c;
            let h = BASE_DO_HEAP / c;
            let p = BASE_DAS_PILHAS / c;
            let r = BASE_DO_RESTO / c;
            &&& ENTRADA_DO_USUARIO < k < m < h < p < r
            &&& !privado(BASE_DO_KERNEL) && !privado(BASE_DA_MEMORIA_FISICA)
            &&& !privado(BASE_DO_HEAP) && !privado(BASE_DAS_PILHAS) && !privado(BASE_DO_RESTO)
            &&& paginacao::e_canonico(BASE_DO_KERNEL) && paginacao::e_canonico(
                BASE_DA_MEMORIA_FISICA,
            )
            &&& paginacao::e_canonico(BASE_DO_HEAP) && paginacao::e_canonico(BASE_DAS_PILHAS)
                && paginacao::e_canonico(BASE_DO_RESTO)
        }),
{
}

/// What the bootloader says of a region of memory.
#[derive(Clone, Copy, Debug, PartialEq, Eq, Structural)]
pub enum Especie {
    Utilizavel,
    Bootloader,
    /// What the firmware says, as it is.
    DoFirmware(u32),
}

/// What a region of memory is to the kernel. What only the firmware knows is
/// not for the kernel to use.
pub fn tipo_da_regiao(especie: Especie) -> (r: TipoRegiao)
    ensures
        r == match especie {
            Especie::Utilizavel => TipoRegiao::Utilizavel,
            Especie::Bootloader => TipoRegiao::Bootloader,
            Especie::DoFirmware(_) => TipoRegiao::Reservada,
        },
{
    match especie {
        Especie::Utilizavel => TipoRegiao::Utilizavel,
        Especie::Bootloader => TipoRegiao::Bootloader,
        Especie::DoFirmware(_) => TipoRegiao::Reservada,
    }
}

/// How the bootloader says that a pixel is written.
#[derive(Clone, Copy, Debug, PartialEq, Eq, Structural)]
pub enum Formato {
    Rgb,
    Bgr,
    Cinza,
    Outro,
}

/// The name of a format on the agent's channel.
pub fn nome_formato_pixel(formato: Formato) -> (r: &'static str)
    ensures
        r == match formato {
            Formato::Rgb => "rgb",
            Formato::Bgr => "bgr",
            Formato::Cinza => "grayscale8",
            Formato::Outro => "desconhecido",
        },
{
    match formato {
        Formato::Rgb => "rgb",
        Formato::Bgr => "bgr",
        Formato::Cinza => "grayscale8",
        Formato::Outro => "desconhecido",
    }
}

/// Interrupts of the timer per second that are asked for.
pub const HZ: u32 = 100;

/// Ranges that no frame may be taken from: the bootloader's map already tells
/// them.
pub fn reservar_faixas() -> (r: Vec<(u64, u64)>)
    ensures
        r@ == Seq::<(u64, u64)>::empty(),
{
    Vec::new()
}

/// What to do to wait for an interrupt.
pub fn esperar_interrupcao(habilitadas: bool) -> (r: Repouso)
    ensures
        r == if habilitadas {
            Repouso::Dormir
        } else {
            Repouso::Girar
        },
{
    if habilitadas {
        Repouso::Dormir
    } else {
        Repouso::Girar
    }
}

/// What to do, with interrupts held back, once it is known whether there is
/// something to do; `estavam` says whether they were on before, which is how
/// they are left.
pub fn dormir_se_ocioso(estavam: bool, ocioso: bool) -> (r: Repouso)
    ensures
        r == if !ocioso {
            Repouso::Seguir
        } else if estavam {
            Repouso::Dormir
        } else {
            Repouso::Girar
        },
{
    if !ocioso {
        return Repouso::Seguir;
    }
    if estavam {
        Repouso::Dormir
    } else {
        Repouso::Girar
    }
}

/// The bytes of a register, the least significant first.
pub open spec fn bytes_de(v: u32) -> Seq<u8> {
    seq![
        (v % 256) as u8,
        ((v / 256) % 256) as u8,
        ((v / 65536) % 256) as u8,
        (v / 16777216) as u8,
    ]
}

/// Who made the processor, out of what it says of itself: twelve letters in
/// three registers.
pub fn identificar_cpu(ebx: u32, edx: u32, ecx: u32) -> (r: IdCpu)
    ensures
        r@ == bytes_de(ebx) + bytes_de(edx) + bytes_de(ecx),
{
    let mut bytes: Vec<u8> = Vec::new();
    acrescentar_registro(&mut bytes, ebx);
    acrescentar_registro(&mut bytes, edx);
    acrescentar_registro(&mut bytes, ecx);
    proof {
        assert(bytes@ =~= bytes_de(ebx) + bytes_de(edx) + bytes_de(ecx));
    }
    IdCpu::de_bytes(bytes.as_slice())
}

/// Appends the bytes of a register.
fn acrescentar_registro(bytes: &mut Vec<u8>, v: u32)
    ensures
        final(bytes)@ == old(bytes)@ + bytes_de(v),
{
    bytes.push((v % 256) as u8);
    bytes.push(((v / 256) % 256) as u8);
    bytes.push(((v / 65536) % 256) as u8);
    bytes.push((v / 16777216) as u8);
    proof {
        assert(bytes@ =~= old(bytes)@ + bytes_de(v));
    }
}

/// What is a process's own is the first 512 GiB.
pub proof fn lei_privado(v: u64)
    ensures
        privado(v) <==> v < 0x80_0000_0000,
{
}

/// The bytes of a register are its own, the least significant first.
pub proof fn lei_bytes_do_registro(v: u32)
    ensures
        bytes_de(v).len() == 4,
        bytes_de(v)[0] + 0x100 * bytes_de(v)[1] + 0x1_0000 * bytes_de(v)[2] + 0x100_0000 * bytes_de(v)[3]
            == v,
{
}

} // verus!
