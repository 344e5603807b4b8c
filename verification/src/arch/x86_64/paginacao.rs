//! Translation tables of the x86_64: four levels of 512 descriptors.
//!
//! The translation is on from the start, so the tables are edited through the
//! place where the whole of physical memory is mapped. What maps a page in the
//! active tables is left to the caller, with what is decided here: whether the
//! request is sound, which bits the descriptor has, and what an answer means.
use vstd::prelude::*;

use crate::arch::memoria::{Memoria, ENTRADAS};
use crate::arch::{validar_alinhamento, Permissoes, TAMANHO_PAGINA};
use crate::frames::Alocador;

verus! {

/// First physical address a descriptor cannot hold: 52 bits.
pub const LIMITE_FISICO: u64 = 0x10_0000_0000_0000;

/// The address bits of a descriptor.
pub const MASCARA_ENDERECO: u64 = 0x000F_FFFF_FFFF_F000;

/// The descriptor means something.
pub const PRESENTE: u64 = 1;

/// What the descriptor leads to can be written.
pub const GRAVAVEL: u64 = 2;

/// What the descriptor leads to is reachable without privilege.
pub const DE_USUARIO: u64 = 4;

/// Writes go through the cache.
pub const ATRAVES: u64 = 8;

/// No caching.
pub const SEM_CACHE: u64 = 0x10;

/// The descriptor is of a large page, not of a table.
pub const GRANDE: u64 = 0x80;

/// Never executable.
pub const NAO_EXECUTAVEL: u64 = 0x8000_0000_0000_0000;

/// The bits 48 to 63 of the address repeat its bit 47.
pub open spec fn e_canonico(endereco: u64) -> bool {
    endereco < 0x8000_0000_0000 || endereco >= 0xFFFF_8000_0000_0000
}

/// Do the bits 48 to 63 of the address repeat its bit 47? The processor takes
/// no other address.
pub fn canonico(endereco: u64) -> (r: bool)
    ensures
        r == e_canonico(endereco),
{
    endereco < 0x8000_0000_0000 || endereco >= 0xFFFF_8000_0000_0000
}

/// Does a descriptor hold the physical address?
pub fn fisico_valido(endereco: u64) -> (r: bool)
    ensures
        r == (endereco < LIMITE_FISICO),
{
    endereco < LIMITE_FISICO
}

/// A property of a page that has a bit of its own in the descriptor.
#[derive(Clone, Copy, Debug, PartialEq, Eq, Structural)]
pub enum Bandeira {
    Presente,
    Gravavel,
    DeUsuario,
    Atraves,
    SemCache,
    NaoExecutavel,
}

impl Bandeira {
    /// The bit of the property.
    pub open spec fn bit(self) -> u64 {
        match self {
            Bandeira::Presente => PRESENTE,
            Bandeira::Gravavel => GRAVAVEL,
            Bandeira::DeUsuario => DE_USUARIO,
            Bandeira::Atraves => ATRAVES,
            Bandeira::SemCache => SEM_CACHE,
            Bandeira::NaoExecutavel => NAO_EXECUTAVEL,
        }
    }
}

/// The bits of the constants of `x86_64::structures::paging::PageTableFlags`
/// with the name of each property: bit 0 for `PRESENT`, 1 for `WRITABLE`, 2
/// for `USER_ACCESSIBLE`, 3 for `WRITE_THROUGH`, 4 for `NO_CACHE` and 63 for
/// `NO_EXECUTE`.
#[verifier::external_body]
fn bits_da_bandeira(b: Bandeira) -> (r: u64)
    ensures
        r == b.bit(),
{
    match b {
        Bandeira::Presente => x86_64::structures::paging::PageTableFlags::PRESENT.bits(),
        Bandeira::Gravavel => x86_64::structures::paging::PageTableFlags::WRITABLE.bits(),
        Bandeira::DeUsuario => x86_64::structures::paging::PageTableFlags::USER_ACCESSIBLE.bits(),
        Bandeira::Atraves => x86_64::structures::paging::PageTableFlags::WRITE_THROUGH.bits(),
        Bandeira::SemCache => x86_64::structures::paging::PageTableFlags::NO_CACHE.bits(),
        Bandeira::NaoExecutavel => x86_64::structures::paging::PageTableFlags::NO_EXECUTE.bits(),
    }
}

/// `PageTableFlags::from_bits_truncate` and `contains` on the bits of a
/// descriptor: whether the bit of a property that the crate knows is on.
#[verifier::external_body]
fn tem_bandeira(descritor: u64, bit: u64) -> (r: bool)
    requires
        exists|b: Bandeira| b.bit() == bit,
    ensures
        r == (descritor & bit != 0),
{
    let flags = x86_64::structures::paging::PageTableFlags::from_bits_truncate(descritor);
    flags.contains(x86_64::structures::paging::PageTableFlags::from_bits_truncate(bit))
}

/// The bits of the descriptor of a page.
pub open spec fn bits_spec(p: Permissoes) -> u64 {
    PRESENTE | (if p.escrita {
        GRAVAVEL
    } else {
        0u64
    }) | (if !p.executavel {
        NAO_EXECUTAVEL
    } else {
        0u64
    }) | (if p.dispositivo {
        SEM_CACHE | ATRAVES
    } else {
        0u64
    }) | (if p.usuario {
        DE_USUARIO
    } else {
        0u64
    })
}

/// What the descriptor of a page allows.
pub open spec fn permissoes_spec(d: u64) -> Permissoes {
    Permissoes {
        escrita: d & GRAVAVEL != 0,
        executavel: d & NAO_EXECUTAVEL == 0,
        dispositivo: d & SEM_CACHE != 0,
        usuario: d & DE_USUARIO != 0,
    }
}

proof fn lemma_ou_zero(a: u64)
    ensures
        a | 0 == a,
{
    assert(a | 0 == a) by (bit_vector);
}

/// The bits of the descriptor of a page. Registers of a device are not cached.
pub fn flags_de(p: Permissoes) -> (r: u64)
    ensures
        r == bits_spec(p),
{
    let mut flags: u64 = bits_da_bandeira(Bandeira::Presente);
    proof {
        lemma_ou_zero(flags);
    }
    if p.escrita {
        flags = flags | bits_da_bandeira(Bandeira::Gravavel);
    }
    proof {
        lemma_ou_zero(flags);
    }
    if !p.executavel {
        flags = flags | bits_da_bandeira(Bandeira::NaoExecutavel);
    }
    proof {
        lemma_ou_zero(flags);
    }
    if p.dispositivo {
        flags = flags | (bits_da_bandeira(Bandeira::SemCache) | bits_da_bandeira(Bandeira::Atraves));
    }
    proof {
        lemma_ou_zero(flags);
    }
    if p.usuario {
        flags = flags | bits_da_bandeira(Bandeira::DeUsuario);
    }
    flags
}

/// What the descriptor of a page allows.
pub fn permissoes_de(descritor: u64) -> (r: Permissoes)
    ensures
        r == permissoes_spec(descritor),
{
    proof {
        assert(Bandeira::Gravavel.bit() == GRAVAVEL);
        assert(Bandeira::NaoExecutavel.bit() == NAO_EXECUTAVEL);
        assert(Bandeira::SemCache.bit() == SEM_CACHE);
        assert(Bandeira::DeUsuario.bit() == DE_USUARIO);
    }
    Permissoes {
        escrita: tem_bandeira(descritor, GRAVAVEL),
        executavel: !tem_bandeira(descritor, NAO_EXECUTAVEL),
        dispositivo: tem_bandeira(descritor, SEM_CACHE),
        usuario: tem_bandeira(descritor, DE_USUARIO),
    }
}

/// What a page was mapped with is what its descriptor tells: a copy of a space
/// keeps what every page allows.
pub proof fn lei_permissoes_voltam(fisico: u64, p: Permissoes)
    ensures
        permissoes_spec((fisico & MASCARA_ENDERECO) | bits_spec(p)) == p,
{
    let f = fisico;
    let w = if p.escrita {
        2u64
    } else {
        0
    };
    let x = if !p.executavel {
        0x8000_0000_0000_0000u64
    } else {
        0
    };
    let d = if p.dispositivo {
        0x10u64 | 8u64
    } else {
        0
    };
    let u = if p.usuario {
        4u64
    } else {
        0
    };
    let todo = (f & 0x000F_FFFF_FFFF_F000) | (1u64 | w | x | d | u);
    assert((todo & 2 != 0) == (w == 2) && (todo & 0x8000_0000_0000_0000 == 0) == (x == 0) && (todo
        & 0x10 != 0) == (d != 0) && (todo & 4 != 0) == (u == 4)) by (bit_vector)
        requires
            todo == (f & 0x000F_FFFF_FFFF_F000) | (1u64 | w | x | d | u),
            w == 0 || w == 2,
            x == 0 || x == 0x8000_0000_0000_0000u64,
            d == 0 || d == 0x10u64 | 8u64,
            u == 0 || u == 4,
    ;
    assert(0x10u64 | 8u64 != 0) by (bit_vector);
}

/// Why a page is not mapped before the tables are looked at.
pub open spec fn recusa_mapear(virtual_: u64, fisico: u64) -> Option<&'static str> {
    if crate::arch::desalinhado(virtual_, fisico) is Some {
        crate::arch::desalinhado(virtual_, fisico)
    } else if !e_canonico(virtual_) {
        Some("endereco virtual nao canonico")
    } else if fisico >= LIMITE_FISICO {
        Some("endereco fisico fora da faixa de 52 bits")
    } else {
        None
    }
}

/// What is asked of the active tables.
#[derive(Clone, Copy, Debug, PartialEq, Eq, Structural)]
pub struct Pedido {
    pub virtual_: u64,
    pub fisico: u64,
    /// The bits of the page.
    pub flags: u64,
    /// The bits of a table on the way to the page. They allow everything: what
    /// is allowed is decided by the page alone.
    pub flags_de_tabela: u64,
}

/// Why the tables do not take a page.
#[derive(Clone, Copy, Debug, PartialEq, Eq, Structural)]
pub enum FalhaAoMapear {
    /// There is a page at the address.
    JaMapeado,
    /// There is no frame for a table.
    SemFrame,
    /// There is a large page on the way.
    Grande,
}

/// What is asked of the active tables to map a page.
pub fn mapear_frame(virtual_: u64, fisico: u64, permissoes: Permissoes) -> (r: Result<
    Pedido,
    &'static str,
>)
    ensures
        match r {
            Ok(p) => {
                &&& recusa_mapear(virtual_, fisico) is None
                &&& p.virtual_ == virtual_
                &&& p.fisico == fisico
                &&& p.flags == bits_spec(permissoes)
                &&& p.flags_de_tabela == PRESENTE | GRAVAVEL | DE_USUARIO
            },
            Err(motivo) => recusa_mapear(virtual_, fisico) == Some(motivo),
        },
{
    match validar_alinhamento(virtual_, fisico) {
        Ok(_) => {},
        Err(motivo) => {
            return Err(motivo);
        },
    }
    if !canonico(virtual_) {
        return Err("endereco virtual nao canonico");
    }
    if !fisico_valido(fisico) {
        return Err("endereco fisico fora da faixa de 52 bits");
    }
    let flags_de_tabela: u64 = bits_da_bandeira(Bandeira::Presente) | bits_da_bandeira(
        Bandeira::Gravavel,
    ) | bits_da_bandeira(Bandeira::DeUsuario);
    Ok(Pedido { virtual_, fisico, flags: flags_de(permissoes), flags_de_tabela })
}

/// What the answer of the tables to a mapping means.
pub fn desfecho_ao_mapear(resposta: Result<(), FalhaAoMapear>) -> (r: Result<(), &'static str>)
    ensures
        r == match resposta {
            Ok(_) => Ok::<(), &'static str>(()),
            Err(FalhaAoMapear::JaMapeado) => Err("endereco virtual ja mapeado"),
            Err(FalhaAoMapear::SemFrame) => Err("sem frames para tabela de pagina"),
            Err(FalhaAoMapear::Grande) => Err("bloco grande no caminho do mapeamento"),
        },
{
    match resposta {
        Ok(_) => Ok(()),
        Err(FalhaAoMapear::JaMapeado) => Err("endereco virtual ja mapeado"),
        Err(FalhaAoMapear::SemFrame) => Err("sem frames para tabela de pagina"),
        Err(FalhaAoMapear::Grande) => Err("bloco grande no caminho do mapeamento"),
    }
}

/// Why the tables do not give a page up.
#[derive(Clone, Copy, Debug, PartialEq, Eq, Structural)]
pub enum FalhaAoDesmapear {
    /// There is no page at the address.
    NaoMapeado,
    /// There is a large page at the address.
    Grande,
    /// The descriptor holds no address.
    EnderecoInvalido,
}

/// Whether a page may be taken out of the active tables, and whether the
/// tables that it leaves empty go with it. Those that are shared between
/// spaces stay: other spaces lead to them too.
pub fn desmapear(virtual_: u64) -> (r: Result<bool, &'static str>)
    ensures
        match r {
            Ok(limpar) => virtual_ % TAMANHO_PAGINA == 0 && e_canonico(virtual_) && limpar
                == crate::arch::x86_64::privado(virtual_),
            Err(motivo) => motivo == if virtual_ % TAMANHO_PAGINA != 0 {
                "endereco virtual desalinhado"
            } else {
                "endereco virtual nao canonico"
            } && (virtual_ % TAMANHO_PAGINA != 0 || !e_canonico(virtual_)),
        },
{
    if virtual_ % TAMANHO_PAGINA != 0 {
        return Err("endereco virtual desalinhado");
    }
    if !canonico(virtual_) {
        return Err("endereco virtual nao canonico");
    }
    Ok(crate::arch::x86_64::e_privado(virtual_))
}

/// What the answer of the tables to the removal of a page means.
pub fn desfecho_ao_desmapear(resposta: Result<u64, FalhaAoDesmapear>) -> (r: Result<
    u64,
    &'static str,
>)
    ensures
        r == match resposta {
            Ok(f) => Ok::<u64, &'static str>(f),
            Err(FalhaAoDesmapear::NaoMapeado) => Err("endereco nao estava mapeado"),
            Err(FalhaAoDesmapear::Grande) => Err("endereco nao mapeado em granularidade de pagina"),
            Err(FalhaAoDesmapear::EnderecoInvalido) => Err("descritor com endereco invalido"),
        },
{
    match resposta {
        Ok(f) => Ok(f),
        Err(FalhaAoDesmapear::NaoMapeado) => Err("endereco nao estava mapeado"),
        Err(FalhaAoDesmapear::Grande) => Err("endereco nao mapeado em granularidade de pagina"),
        Err(FalhaAoDesmapear::EnderecoInvalido) => Err("descritor com endereco invalido"),
    }
}

/// The physical address of a virtual one, given the frame that the active
/// tables lead to and the place in it. An address that the processor does not
/// take has none.
pub fn traduzir(virtual_: u64, achado: Option<(u64, u64)>) -> (r: Option<u64>)
    requires
        achado is Some ==> (achado->0).0 + (achado->0).1 <= u64::MAX,
    ensures
        r == if e_canonico(virtual_) && achado is Some {
            Some(((achado->0).0 + (achado->0).1) as u64)
        } else {
            None
        },
{
    if !canonico(virtual_) {
        return None;
    }
    match achado {
        Some((frame, dentro)) => Some(frame + dentro),
        None => None,
    }
}

/// Physical memory, where it is mapped, and the root of the kernel's space.
pub struct Paginacao {
    pub memoria: Memoria,
    /// Where the whole of physical memory is mapped, once it is known.
    pub deslocamento: Option<u64>,
    /// The kernel's root, of which every other is a copy, once it is known.
    pub raiz_do_kernel: Option<u64>,
}

/// An entry of a table.
pub open spec fn indice(i: int) -> bool {
    0 <= i < ENTRADAS
}

/// The descriptor means something.
pub open spec fn presente(d: u64) -> bool {
    d & PRESENTE != 0
}

/// The descriptor leads to a table.
pub open spec fn e_tabela(d: u64) -> bool {
    d & PRESENTE != 0 && d & GRANDE == 0
}

/// The address a descriptor holds.
pub open spec fn alvo(d: u64) -> int {
    (d & MASCARA_ENDERECO) as int
}

proof fn lemma_alvo_alinhado(d: u64)
    ensures
        (d & MASCARA_ENDERECO) % 4096 == 0,
{
    assert((d & 0x000F_FFFF_FFFF_F000u64) % 4096 == 0) by (bit_vector);
}

impl Paginacao {
    /// Every free frame is memory, and the kernel's root is memory that is not
    /// free.
    pub open spec fn wf(&self, a: &Alocador) -> bool {
        &&& self.memoria.wf()
        &&& a.wf()
        &&& forall|e: u64| e % 4096 == 0 && #[trigger] a.livre_em(e) ==> self.memoria.contem(e as int)
        &&& self.raiz_do_kernel is Some ==> self.memoria.contem(self.raiz_do_kernel->0 as int)
            && !a.livre_em(self.raiz_do_kernel->0)
    }

    /// Memory of which nothing is known yet.
    pub fn nova(memoria: Memoria) -> (r: Paginacao)
        ensures
            r.memoria == memoria,
            r.deslocamento is None,
            r.raiz_do_kernel is None,
    {
        Paginacao { memoria, deslocamento: None, raiz_do_kernel: None }
    }
}

/// Takes over the tables that are active: where physical memory is mapped, and
/// the root in use, which is the kernel's.
pub fn init(p: &mut Paginacao, deslocamento: u64, raiz_ativa: u64)
    ensures
        final(p).memoria == old(p).memoria,
        final(p).deslocamento == Some(deslocamento),
        final(p).raiz_do_kernel == Some(raiz_ativa),
{
    p.deslocamento = Some(deslocamento);
    p.raiz_do_kernel = Some(raiz_ativa);
}

/// The virtual address through which a physical one is reached.
pub fn acesso_fisico(p: &Paginacao, fisico: u64) -> (r: Option<u64>)
    requires
        p.deslocamento is Some ==> p.deslocamento->0 + fisico <= u64::MAX,
    ensures
        r == match p.deslocamento {
            Some(d) => Some((d + fisico) as u64),
            None => None,
        },
{
    match p.deslocamento {
        Some(d) => Some(d + fisico),
        None => None,
    }
}

/// The root of the kernel's space.
pub fn espaco_do_kernel(p: &Paginacao) -> (r: Option<u64>)
    ensures
        r == p.raiz_do_kernel,
{
    p.raiz_do_kernel
}

/// Why no space is made, apart from memory running out.
pub open spec fn recusa_criar(p: &Paginacao, entrada_privada: usize) -> Option<&'static str> {
    if entrada_privada >= ENTRADAS {
        Some("entrada de topo fora da tabela")
    } else if p.raiz_do_kernel is None {
        Some("paginacao ainda nao inicializada")
    } else {
        None
    }
}

/// Makes a space with the kernel mapped and one entry of the top table empty.
pub fn criar_espaco(p: &mut Paginacao, a: &mut Alocador, entrada_privada: usize) -> (r: Result<
    u64,
    &'static str,
>)
    requires
        old(p).wf(old(a)),
    ensures
        final(p).wf(final(a)),
        final(p).deslocamento == old(p).deslocamento,
        final(p).raiz_do_kernel == old(p).raiz_do_kernel,
        final(p).memoria.mesma_faixa(&old(p).memoria),
        match r {
            Ok(nova) => {
                let k = old(p).raiz_do_kernel->0 as int;
                &&& recusa_criar(old(p), entrada_privada) is None
                &&& old(p).deslocamento is Some
                &&& crate::frames::alocou(old(a), final(a), Some(nova))
                &&& final(p).memoria.contem(nova as int)
                &&& final(p).memoria.quadro(nova as int) == old(p).memoria.quadro(k).update(
                    entrada_privada as int,
                    0,
                )
                &&& forall|o: int|
                    o != nova && old(p).memoria.contem(o) ==> #[trigger] final(p).memoria.quadro(o)
                        == old(p).memoria.quadro(o)
            },
            Err(motivo) => {
                &&& final(p).memoria == old(p).memoria
                &&& final(a).livre() == old(a).livre()
                &&& final(a).base() == old(a).base()
                &&& motivo == if recusa_criar(old(p), entrada_privada) is Some {
                    recusa_criar(old(p), entrada_privada)->0
                } else if crate::frames::contar(old(a).livre()) == 0 {
                    "memoria fisica esgotada"
                } else {
                    "memoria fisica nao esta acessivel"
                }
                &&& recusa_criar(old(p), entrada_privada) is Some || crate::frames::contar(
                    old(a).livre(),
                ) == 0 || old(p).deslocamento is None
            },
        },
{
    if entrada_privada >= ENTRADAS {
        return Err("entrada de topo fora da tabela");
    }
    let raiz: u64 = match p.raiz_do_kernel {
        None => {
            return Err("paginacao ainda nao inicializada");
        },
        Some(k) => k,
    };
    let ghost f0 = *a;
    let ghost m0 = p.memoria;
    let ghost k = raiz as int;
    let nova: u64 = match crate::frames::alocar(a) {
        Some(f) => f,
        None => {
            return Err("memoria fisica esgotada");
        },
    };
    let ghost f1 = *a;
    proof {
        crate::frames::lemma_alocou(&f0, a, nova);
        assert(f0.livre_em(nova));
        m0.lemma_quadro(k);
        m0.lemma_quadro(nova as int);
    }
    if p.deslocamento.is_none() {
        crate::frames::liberar(a, nova);
        proof {
            crate::frames::lemma_liberou(&f1, a, nova);
            lemma_devolvido(&f0, &f1, a, nova);
        }
        return Err("memoria fisica nao esta acessivel");
    }
    let mut i: usize = 0;
    while i < ENTRADAS
        invariant
            i <= ENTRADAS,
            entrada_privada < ENTRADAS,
            p.memoria.wf(),
            p.memoria.mesma_faixa(&m0),
            p.raiz_do_kernel == Some(raiz),
            p.deslocamento == old(p).deslocamento,
            raiz == k,
            m0.wf(),
            m0.contem(k),
            m0.contem(nova as int),
            nova != k,
            m0.quadro(k).len() == ENTRADAS,
            forall|o: int| o != nova && m0.contem(o) ==> #[trigger] p.memoria.quadro(o) == m0.quadro(o),
            p.memoria.quadro(nova as int).len() == ENTRADAS,
            forall|j: int|
                0 <= j < i ==> #[trigger] p.memoria.quadro(nova as int)[j] == if j
                    == entrada_privada {
                    0u64
                } else {
                    m0.quadro(k)[j]
                },
        decreases ENTRADAS - i,
    {
        let valor: u64 = if i == entrada_privada {
            0
        } else {
            p.memoria.ler(raiz, i)
        };
        p.memoria.escrever(nova, i, valor);
        i = i + 1;
    }
    proof {
        assert(p.memoria.quadro(nova as int) =~= m0.quadro(k).update(entrada_privada as int, 0));
    }
    Ok(nova)
}

proof fn lemma_devolvido(f0: &Alocador, f1: &Alocador, f2: &Alocador, nova: u64)
    requires
        f0.wf(),
        f1.wf(),
        f2.wf(),
        crate::frames::alocou(f0, f1, Some(nova)),
        crate::frames::liberou(f1, f2, nova),
    ensures
        f2.livre() == f0.livre(),
        f2.base() == f0.base(),
{
    crate::frames::lemma_alocou(f0, f1, nova);
    assert(f2.livre() =~= f0.livre());
}

/// Everything a descriptor reaches, `nivel` tables deep, is memory.
pub open spec fn alcanca_memoria(m: &Memoria, d: u64, nivel: nat) -> bool
    decreases nivel,
{
    nivel > 0 && e_tabela(d) ==> {
        &&& m.contem(alvo(d))
        &&& forall|i: int|
            indice(i) ==> alcanca_memoria(m, #[trigger] m.quadro(alvo(d))[i], (nivel - 1) as nat)
    }
}

/// The frame at `e` is one that a descriptor reaches, `nivel` tables deep: its
/// own, or one under its table.
pub open spec fn alcanca(m: &Memoria, d: u64, nivel: nat, e: int) -> bool
    decreases nivel,
{
    presente(d) && (alvo(d) == e || (nivel > 0 && e_tabela(d) && exists|i: int|
        indice(i) && alcanca(m, #[trigger] m.quadro(alvo(d))[i], (nivel - 1) as nat, e)))
}

/// One of the first `n` entries of a table reaches the frame at `e`.
pub open spec fn tabela_alcanca(m: &Memoria, t: int, n: int, nivel: nat, e: int) -> bool {
    exists|i: int| 0 <= i < n && alcanca(m, #[trigger] m.quadro(t)[i], nivel, e)
}

/// The free frames after giving back those that `quais` selects.
pub open spec fn devolveu(antes: &Alocador, depois: &Alocador, quais: spec_fn(u64) -> bool) -> bool {
    &&& depois.mesma_janela(antes)
    &&& forall|e: u64| #![trigger depois.livre_em(e)]
        e % 4096 == 0 ==> depois.livre_em(e) == (antes.livre_em(e) || (quais(e) && antes.circula(e)))
}

/// Gives back every frame a descriptor reaches: the pages, the tables above
/// them, and the frame of the descriptor itself. A large page has no table
/// under it.
fn liberar_subarvore(m: &Memoria, a: &mut Alocador, descritor: u64, nivel: u8)
    requires
        m.wf(),
        old(a).wf(),
        alcanca_memoria(m, descritor, nivel as nat),
    ensures
        final(a).wf(),
        devolveu(old(a), final(a), |e: u64| alcanca(m, descritor, nivel as nat, e as int)),
    decreases nivel,
{
    if descritor & PRESENTE == 0 {
        return;
    }
    let endereco: u64 = descritor & MASCARA_ENDERECO;
    proof {
        lemma_alvo_alinhado(descritor);
    }
    let ghost f0 = *a;
    if nivel > 0 && descritor & GRANDE == 0 {
        let mut i: usize = 0;
        while i < ENTRADAS
            invariant
                m.wf(),
                a.wf(),
                f0.wf(),
                nivel > 0,
                e_tabela(descritor),
                endereco == alvo(descritor),
                alcanca_memoria(m, descritor, nivel as nat),
                i <= ENTRADAS,
                devolveu(
                    &f0,
                    a,
                    |e: u64|
                        tabela_alcanca(
                            m,
                            endereco as int,
                            i as int,
                            (nivel - 1) as nat,
                            e as int,
                        ),
                ),
            decreases ENTRADAS - i,
        {
            let ghost f1 = *a;
            let filho: u64 = m.ler(endereco, i);
            liberar_subarvore(m, a, filho, nivel - 1);
            proof {
                lemma_mais_um(m, &f0, &f1, a, endereco as int, i as int, (nivel - 1) as nat);
            }
            i = i + 1;
        }
    }
    let ghost f2 = *a;
    crate::frames::liberar(a, endereco);
    proof {
        crate::frames::lemma_liberou(&f2, a, endereco);
        assert forall|e: u64| #![trigger a.livre_em(e)] e % 4096 == 0 implies a.livre_em(e) == (
        f0.livre_em(e) || (alcanca(m, descritor, nivel as nat, e as int) && f0.circula(e))) by {
            let meio = f2.livre_em(e);
            if nivel > 0 && e_tabela(descritor) {
                let n1 = (nivel - 1) as nat;
                if tabela_alcanca(m, endereco as int, ENTRADAS as int, n1, e as int) {
                    let k = choose|k: int|
                        0 <= k < ENTRADAS && alcanca(
                            m,
                            #[trigger] m.quadro(endereco as int)[k],
                            n1,
                            e as int,
                        );
                    assert(indice(k));
                }
                if alcanca(m, descritor, nivel as nat, e as int) && e != endereco {
                    let k = choose|k: int|
                        indice(k) && alcanca(
                            m,
                            #[trigger] m.quadro(alvo(descritor))[k],
                            n1,
                            e as int,
                        );
                    assert(tabela_alcanca(m, endereco as int, ENTRADAS as int, n1, e as int));
                }
            }
        }
    }
}

/// Giving back what the entry `i` reaches, after what the entries before it
/// reach.
proof fn lemma_mais_um(
    m: &Memoria,
    f0: &Alocador,
    f1: &Alocador,
    f2: &Alocador,
    t: int,
    i: int,
    nivel: nat,
)
    requires
        0 <= i < ENTRADAS,
        devolveu(f0, f1, |e: u64| tabela_alcanca(m, t, i, nivel, e as int)),
        devolveu(f1, f2, |e: u64| alcanca(m, m.quadro(t)[i], nivel, e as int)),
    ensures
        devolveu(f0, f2, |e: u64| tabela_alcanca(m, t, i + 1, nivel, e as int)),
{
    assert forall|e: u64| #![trigger f2.livre_em(e)] e % 4096 == 0 implies f2.livre_em(e) == (
    f0.livre_em(e) || (tabela_alcanca(m, t, i + 1, nivel, e as int) && f0.circula(e))) by {
        let antes = f1.livre_em(e);
        if tabela_alcanca(m, t, i + 1, nivel, e as int) {
            let k = choose|k: int|
                0 <= k < i + 1 && alcanca(m, #[trigger] m.quadro(t)[k], nivel, e as int);
            if k < i {
                assert(tabela_alcanca(m, t, i, nivel, e as int));
            }
        }
        if tabela_alcanca(m, t, i, nivel, e as int) {
            let k = choose|k: int| 0 <= k < i && alcanca(m, #[trigger] m.quadro(t)[k], nivel, e as int);
            assert(alcanca(m, m.quadro(t)[k], nivel, e as int));
        }
    }
}

/// Gives back everything a space owns: the pages of its private entry, their
/// tables, and the root. Where physical memory is not reachable, only the
/// root.
pub fn destruir_espaco(p: &mut Paginacao, a: &mut Alocador, raiz: u64, entrada_privada: usize)
    requires
        old(p).memoria.wf(),
        old(a).wf(),
        old(p).memoria.contem(raiz as int),
        entrada_privada < ENTRADAS ==> alcanca_memoria(
            &old(p).memoria,
            old(p).memoria.quadro(raiz as int)[entrada_privada as int],
            3,
        ),
    ensures
        final(a).wf(),
        final(p).memoria.wf(),
        final(p).memoria.mesma_faixa(&old(p).memoria),
        final(p).deslocamento == old(p).deslocamento,
        final(p).raiz_do_kernel == old(p).raiz_do_kernel,
        if entrada_privada >= ENTRADAS {
            *final(p) == *old(p) && *final(a) == *old(a)
        } else if old(p).deslocamento is None {
            *final(p) == *old(p) && devolveu(old(a), final(a), |e: u64| e == raiz)
        } else {
            let d = old(p).memoria.quadro(raiz as int)[entrada_privada as int];
            &&& devolveu(
                old(a),
                final(a),
                |e: u64| e == raiz || alcanca(&old(p).memoria, d, 3, e as int),
            )
            &&& final(p).memoria.quadro(raiz as int) == old(p).memoria.quadro(raiz as int).update(
                entrada_privada as int,
                0,
            )
            &&& forall|o: int|
                o != raiz && old(p).memoria.contem(o) ==> #[trigger] final(p).memoria.quadro(o)
                    == old(p).memoria.quadro(o)
        },
{
    if entrada_privada >= ENTRADAS {
        return;
    }
    let ghost m0 = p.memoria;
    let ghost f0 = *a;
    if p.deslocamento.is_none() {
        crate::frames::liberar(a, raiz);
        proof {
            crate::frames::lemma_liberou(&f0, a, raiz);
        }
        return;
    }
    let d: u64 = p.memoria.ler(raiz, entrada_privada);
    liberar_subarvore(&p.memoria, a, d, 3);
    let ghost f1 = *a;
    p.memoria.escrever(raiz, entrada_privada, 0);
    crate::frames::liberar(a, raiz);
    proof {
        crate::frames::lemma_liberou(&f1, a, raiz);
        assert forall|e: u64| #![trigger a.livre_em(e)] e % 4096 == 0 implies a.livre_em(e) == (
        f0.livre_em(e) || ((e == raiz || alcanca(&m0, d, 3, e as int)) && f0.circula(e))) by {
            let meio = f1.livre_em(e);
        }
    }
}

/// A page of a space: where it appears, where it is, and what it allows.
#[derive(Clone, Copy, Debug, PartialEq, Eq, Structural)]
pub struct PaginaDeUsuario {
    pub virtual_: u64,
    pub fisico: u64,
    pub permissoes: Permissoes,
}

/// How much an entry of a table covers: 4 KiB in the last level, and 512 times
/// as much in each level above it.
pub open spec fn cobertura(nivel: nat) -> int {
    if nivel == 0 {
        0x1000
    } else if nivel == 1 {
        0x20_0000
    } else if nivel == 2 {
        0x4000_0000
    } else {
        0x80_0000_0000
    }
}

/// The pages under the first `n` entries of a table that has `nivel` levels
/// below it, where the first entry covers what starts at `base`.
pub open spec fn paginas(m: &Memoria, t: int, nivel: nat, base: int, n: int) -> Seq<PaginaDeUsuario>
    decreases nivel, n,
{
    if n <= 0 {
        Seq::empty()
    } else {
        let antes = paginas(m, t, nivel, base, n - 1);
        let d = m.quadro(t)[n - 1];
        let aqui = base + (n - 1) * cobertura(nivel);
        if nivel == 0 {
            if presente(d) {
                antes.push(
                    PaginaDeUsuario {
                        virtual_: aqui as u64,
                        fisico: d & MASCARA_ENDERECO,
                        permissoes: permissoes_spec(d),
                    },
                )
            } else {
                antes
            }
        } else if e_tabela(d) {
            antes + paginas(m, alvo(d), (nivel - 1) as nat, aqui, ENTRADAS as int)
        } else {
            antes
        }
    }
}

/// The pages of the private entry of a space, in the order of the tables.
pub open spec fn paginas_do_usuario(m: &Memoria, raiz: int, entrada: int) -> Seq<PaginaDeUsuario> {
    let d = m.quadro(raiz)[entrada];
    if presente(d) {
        paginas(m, alvo(d), 2, entrada * cobertura(3), ENTRADAS as int)
    } else {
        Seq::empty()
    }
}

/// Everything under a table, which has `nivel` levels below it, is memory.
pub open spec fn tabela_em_memoria(m: &Memoria, t: int, nivel: nat) -> bool {
    &&& m.contem(t)
    &&& forall|i: int| indice(i) ==> alcanca_memoria(m, #[trigger] m.quadro(t)[i], nivel)
}

/// Appends the pages under a table.
fn percorrer_tabela(m: &Memoria, t: u64, nivel: u8, base: u64, r: &mut Vec<PaginaDeUsuario>)
    requires
        m.wf(),
        nivel <= 2,
        tabela_em_memoria(m, t as int, nivel as nat),
        base + ENTRADAS * cobertura(nivel as nat) <= u64::MAX,
    ensures
        final(r)@ == old(r)@ + paginas(m, t as int, nivel as nat, base as int, ENTRADAS as int),
    decreases nivel,
{
    let passo: u64 = match nivel {
        0 => 0x1000,
        1 => 0x20_0000,
        _ => 0x4000_0000,
    };
    let ghost antes = r@;
    let mut i: usize = 0;
    proof {
        assert(antes + Seq::<PaginaDeUsuario>::empty() =~= antes);
    }
    while i < ENTRADAS
        invariant
            m.wf(),
            nivel <= 2,
            passo == cobertura(nivel as nat),
            tabela_em_memoria(m, t as int, nivel as nat),
            base + ENTRADAS * passo <= u64::MAX,
            i <= ENTRADAS,
            r@ == antes + paginas(m, t as int, nivel as nat, base as int, i as int),
        decreases ENTRADAS - i,
    {
        let d: u64 = m.ler(t, i);
        let ghost meio = r@;
        proof {
            assert(indice(i as int));
            assert(i * passo + passo <= ENTRADAS * passo) by (nonlinear_arith)
                requires
                    i + 1 <= ENTRADAS,
            ;
        }
        let aqui: u64 = base + i as u64 * passo;
        if nivel == 0 {
            if d & PRESENTE != 0 {
                r.push(
                    PaginaDeUsuario {
                        virtual_: aqui,
                        fisico: d & MASCARA_ENDERECO,
                        permissoes: permissoes_de(d),
                    },
                );
            }
        } else if d & PRESENTE != 0 && d & GRANDE == 0 {
            proof {
                assert(alcanca_memoria(m, d, nivel as nat));
                assert(cobertura(nivel as nat) == ENTRADAS * cobertura((nivel - 1) as nat));
            }
            percorrer_tabela(m, d & MASCARA_ENDERECO, nivel - 1, aqui, r);
        }
        proof {
            assert(r@ =~= antes + paginas(m, t as int, nivel as nat, base as int, i + 1));
        }
        i = i + 1;
    }
}

/// The pages of a space's private entry, in the order of their addresses. They
/// cannot be told where physical memory is not reachable.
pub fn percorrer_paginas_do_usuario(p: &Paginacao, raiz: u64, entrada_privada: usize) -> (r: Vec<
    PaginaDeUsuario,
>)
    requires
        p.memoria.wf(),
        p.memoria.contem(raiz as int),
        entrada_privada < ENTRADAS ==> {
            let d = p.memoria.quadro(raiz as int)[entrada_privada as int];
            presente(d) ==> tabela_em_memoria(&p.memoria, alvo(d), 2)
        },
    ensures
        r@ == if entrada_privada < ENTRADAS && p.deslocamento is Some {
            paginas_do_usuario(&p.memoria, raiz as int, entrada_privada as int)
        } else {
            Seq::empty()
        },
{
    let mut r: Vec<PaginaDeUsuario> = Vec::new();
    if entrada_privada >= ENTRADAS || p.deslocamento.is_none() {
        return r;
    }
    let d: u64 = p.memoria.ler(raiz, entrada_privada);
    if d & PRESENTE == 0 {
        return r;
    }
    percorrer_tabela(
        &p.memoria,
        d & MASCARA_ENDERECO,
        2,
        entrada_privada as u64 * 0x80_0000_0000,
        &mut r,
    );
    proof {
        assert(r@ =~= paginas_do_usuario(&p.memoria, raiz as int, entrada_privada as int));
    }
    r
}

/// The addresses go up, and all of them are in a range.
pub open spec fn em_ordem(s: Seq<PaginaDeUsuario>, de: int, ate: int) -> bool {
    &&& forall|i: int| 0 <= i < s.len() ==> de <= (#[trigger] s[i]).virtual_ < ate
    &&& forall|i: int, j: int|
        0 <= i < j < s.len() ==> (#[trigger] s[i]).virtual_ < (#[trigger] s[j]).virtual_
}

proof fn lemma_ordem(m: &Memoria, t: int, nivel: nat, base: int, n: int)
    requires
        nivel <= 2,
        0 <= base,
        0 <= n <= ENTRADAS,
        base + ENTRADAS * cobertura(nivel) <= u64::MAX,
    ensures
        em_ordem(paginas(m, t, nivel, base, n), base, base + n * cobertura(nivel)),
    decreases nivel, n,
{
    if n > 0 {
        lemma_ordem(m, t, nivel, base, n - 1);
        let c = cobertura(nivel);
        let aqui = base + (n - 1) * c;
        assert((n - 1) * c + c == n * c) by (nonlinear_arith);
        assert(n * c <= ENTRADAS * c) by (nonlinear_arith)
            requires
                n <= ENTRADAS,
                c > 0,
        ;
        assert(0 <= (n - 1) * c) by (nonlinear_arith)
            requires
                n > 0,
                c > 0,
        ;
        let d = m.quadro(t)[n - 1];
        let antes = paginas(m, t, nivel, base, n - 1);
        let tudo = paginas(m, t, nivel, base, n);
        if nivel > 0 && e_tabela(d) {
            let abaixo = paginas(m, alvo(d), (nivel - 1) as nat, aqui, ENTRADAS as int);
            assert(c == ENTRADAS * cobertura((nivel - 1) as nat));
            lemma_ordem(m, alvo(d), (nivel - 1) as nat, aqui, ENTRADAS as int);
            assert forall|i: int| 0 <= i < tudo.len() implies base <= (#[trigger] tudo[i]).virtual_
                < base + n * c by {
                if i < antes.len() {
                    assert(tudo[i] == antes[i]);
                } else {
                    assert(tudo[i] == abaixo[i - antes.len()]);
                }
            }
            assert forall|i: int, j: int| 0 <= i < j < tudo.len() implies (#[trigger] tudo[i]).virtual_
                < (#[trigger] tudo[j]).virtual_ by {
                if i < antes.len() {
                    assert(tudo[i] == antes[i]);
                } else {
                    assert(tudo[i] == abaixo[i - antes.len()]);
                }
                if j < antes.len() {
                    assert(tudo[j] == antes[j]);
                } else {
                    assert(tudo[j] == abaixo[j - antes.len()]);
                }
            }
        }
    }
}

/// The pages of a space come in the order of their addresses, each once, and
/// all of them belong to the entry of the top table.
pub proof fn lei_paginas_em_ordem(m: &Memoria, raiz: int, entrada: int)
    requires
        indice(entrada),
    ensures
        em_ordem(
            paginas_do_usuario(m, raiz, entrada),
            entrada * cobertura(3),
            (entrada + 1) * cobertura(3),
        ),
{
    let d = m.quadro(raiz)[entrada];
    if presente(d) {
        lemma_ordem(m, alvo(d), 2, entrada * cobertura(3), ENTRADAS as int);
    }
}

/// What an entry of a table adds to the pages is among them.
proof fn lemma_entrada_contribui(m: &Memoria, t: int, nivel: nat, base: int, n: int, i: int)
    requires
        0 <= i < n,
    ensures
        ({
            let d = m.quadro(t)[i];
            let aqui = base + i * cobertura(nivel);
            let tudo = paginas(m, t, nivel, base, n);
            &&& nivel == 0 && presente(d) ==> tudo.contains(
                PaginaDeUsuario {
                    virtual_: aqui as u64,
                    fisico: d & MASCARA_ENDERECO,
                    permissoes: permissoes_spec(d),
                },
            )
            &&& nivel > 0 && e_tabela(d) ==> forall|x: PaginaDeUsuario|
                paginas(m, alvo(d), (nivel - 1) as nat, aqui, ENTRADAS as int).contains(x)
                    ==> #[trigger] tudo.contains(x)
        }),
    decreases n,
{
    let d = m.quadro(t)[i];
    let aqui = base + i * cobertura(nivel);
    let tudo = paginas(m, t, nivel, base, n);
    let antes = paginas(m, t, nivel, base, n - 1);
    let x0 = PaginaDeUsuario {
        virtual_: aqui as u64,
        fisico: d & MASCARA_ENDERECO,
        permissoes: permissoes_spec(d),
    };
    assert forall|k: int| 0 <= k < antes.len() implies tudo[k] == #[trigger] antes[k] by {}
    if i == n - 1 {
        if nivel == 0 && presente(d) {
            assert(tudo[antes.len() as int] == x0);
        }
        if nivel > 0 && e_tabela(d) {
            let abaixo = paginas(m, alvo(d), (nivel - 1) as nat, aqui, ENTRADAS as int);
            assert forall|x: PaginaDeUsuario| abaixo.contains(x) implies #[trigger] tudo.contains(x) by {
                let k = abaixo.index_of(x);
                assert(tudo[antes.len() + k] == x);
            }
        }
    } else {
        lemma_entrada_contribui(m, t, nivel, base, n - 1, i);
        if nivel == 0 && presente(d) {
            let k = antes.index_of(x0);
            assert(tudo[k] == x0);
        }
        if nivel > 0 && e_tabela(d) {
            let abaixo = paginas(m, alvo(d), (nivel - 1) as nat, aqui, ENTRADAS as int);
            assert forall|x: PaginaDeUsuario| abaixo.contains(x) implies #[trigger] tudo.contains(x) by {
                assert(antes.contains(x));
                let k = antes.index_of(x);
                assert(tudo[k] == x);
            }
        }
    }
}

/// Every page comes from an entry of the table.
proof fn lemma_de_que_entrada(m: &Memoria, t: int, nivel: nat, base: int, n: int, x: PaginaDeUsuario) -> (i: int)
    requires
        paginas(m, t, nivel, base, n).contains(x),
    ensures
        0 <= i < n,
        ({
            let d = m.quadro(t)[i];
            let aqui = base + i * cobertura(nivel);
            if nivel == 0 {
                presente(d) && x == PaginaDeUsuario {
                    virtual_: aqui as u64,
                    fisico: d & MASCARA_ENDERECO,
                    permissoes: permissoes_spec(d),
                }
            } else {
                e_tabela(d) && paginas(m, alvo(d), (nivel - 1) as nat, aqui, ENTRADAS as int).contains(x)
            }
        }),
    decreases n,
{
    let tudo = paginas(m, t, nivel, base, n);
    let k = tudo.index_of(x);
    let antes = paginas(m, t, nivel, base, n - 1);
    if k < antes.len() {
        assert(antes[k] == tudo[k]);
        assert(antes.contains(x));
        lemma_de_que_entrada(m, t, nivel, base, n - 1, x)
    } else {
        let d = m.quadro(t)[n - 1];
        let aqui = base + (n - 1) * cobertura(nivel);
        if nivel > 0 {
            let abaixo = paginas(m, alvo(d), (nivel - 1) as nat, aqui, ENTRADAS as int);
            assert(abaixo[k - antes.len()] == x);
        }
        n - 1
    }
}

/// No page of a process is left out: where the descriptors on the way lead to
/// tables and the last one is present, the page is listed, once, with the
/// address that its place in the tables gives, the frame and the permissions
/// that its descriptor holds.
pub proof fn lei_nenhuma_pagina_falta(m: &Memoria, raiz: int, entrada: int, i3: int, i2: int, i1: int)
    requires
        0 <= entrada < 512,
        0 <= i3 < 512,
        0 <= i2 < 512,
        0 <= i1 < 512,
    ensures
        ({
            let d4 = m.quadro(raiz)[entrada];
            let d3 = m.quadro((d4 & 0x000F_FFFF_FFFF_F000) as int)[i3];
            let d2 = m.quadro((d3 & 0x000F_FFFF_FFFF_F000) as int)[i2];
            let d1 = m.quadro((d2 & 0x000F_FFFF_FFFF_F000) as int)[i1];
            let v = entrada * 0x80_0000_0000 + i3 * 0x4000_0000 + i2 * 0x20_0000 + i1 * 0x1000;
            let s = paginas_do_usuario(m, raiz, entrada);
            d4 & 1 != 0 && d3 & 1 != 0 && d3 & 0x80 == 0 && d2 & 1 != 0 && d2 & 0x80 == 0 && d1 & 1 != 0
                ==> exists|k: int|
                0 <= k < s.len() && (#[trigger] s[k]).virtual_ == v && s[k].fisico == d1
                    & 0x000F_FFFF_FFFF_F000 && s[k].permissoes.escrita == (d1 & 2 != 0)
                    && s[k].permissoes.usuario == (d1 & 4 != 0) && s[k].permissoes.dispositivo == (d1
                    & 0x10 != 0) && s[k].permissoes.executavel == (d1 & 0x8000_0000_0000_0000 == 0)
                    && forall|j: int|
                    0 <= j < s.len() && j != k ==> (#[trigger] s[j]).virtual_ != v
        }),
{
    let d4 = m.quadro(raiz)[entrada];
    let t3 = alvo(d4);
    let d3 = m.quadro(t3)[i3];
    let t2 = alvo(d3);
    let d2 = m.quadro(t2)[i2];
    let t1 = alvo(d2);
    let d1 = m.quadro(t1)[i1];
    let b3 = entrada * cobertura(3);
    let b2 = b3 + i3 * cobertura(2);
    let b1 = b2 + i2 * cobertura(1);
    let v = b1 + i1 * cobertura(0);
    if d4 & 1 != 0 && d3 & 1 != 0 && d3 & 0x80 == 0 && d2 & 1 != 0 && d2 & 0x80 == 0 && d1 & 1 != 0 {
        let x = PaginaDeUsuario {
            virtual_: v as u64,
            fisico: d1 & MASCARA_ENDERECO,
            permissoes: permissoes_spec(d1),
        };
        lemma_entrada_contribui(m, t1, 0, b1, ENTRADAS as int, i1);
        lemma_entrada_contribui(m, t2, 1, b2, ENTRADAS as int, i2);
        lemma_entrada_contribui(m, t3, 2, b3, ENTRADAS as int, i3);
        assert(paginas(m, t1, 0, b1, ENTRADAS as int).contains(x));
        assert(paginas(m, t2, 1, b2, ENTRADAS as int).contains(x));
        let s = paginas_do_usuario(m, raiz, entrada);
        assert(s.contains(x));
        let k = s.index_of(x);
        lei_paginas_em_ordem(m, raiz, entrada);
        assert forall|j: int| 0 <= j < s.len() && j != k implies (#[trigger] s[j]).virtual_ != v by {
            if j < k {
                assert(s[j].virtual_ < s[k].virtual_);
            } else {
                assert(s[k].virtual_ < s[j].virtual_);
            }
        }
        assert(s[k] == x);
    }
}

/// No page is made up: each one that is listed is at the place of the tables
/// that its address names, behind descriptors that lead to tables, and its own
/// descriptor is present and holds its frame and its permissions.
pub proof fn lei_nenhuma_pagina_inventada(m: &Memoria, raiz: int, entrada: int, k: int)
    requires
        0 <= entrada < 512,
        0 <= k < paginas_do_usuario(m, raiz, entrada).len(),
    ensures
        ({
            let x = paginas_do_usuario(m, raiz, entrada)[k];
            let v = x.virtual_ as int;
            let d4 = m.quadro(raiz)[entrada];
            let d3 = m.quadro((d4 & 0x000F_FFFF_FFFF_F000) as int)[v / 0x4000_0000 % 512];
            let d2 = m.quadro((d3 & 0x000F_FFFF_FFFF_F000) as int)[v / 0x20_0000 % 512];
            let d1 = m.quadro((d2 & 0x000F_FFFF_FFFF_F000) as int)[v / 0x1000 % 512];
            &&& v % 4096 == 0
            &&& v / 0x80_0000_0000 == entrada
            &&& d4 & 1 != 0
            &&& d3 & 1 != 0 && d3 & 0x80 == 0
            &&& d2 & 1 != 0 && d2 & 0x80 == 0
            &&& d1 & 1 != 0
            &&& x.fisico == d1 & 0x000F_FFFF_FFFF_F000
            &&& x.permissoes.escrita == (d1 & 2 != 0)
            &&& x.permissoes.usuario == (d1 & 4 != 0)
            &&& x.permissoes.dispositivo == (d1 & 0x10 != 0)
            &&& x.permissoes.executavel == (d1 & 0x8000_0000_0000_0000 == 0)
        }),
{
    let s = paginas_do_usuario(m, raiz, entrada);
    let x = s[k];
    let d4 = m.quadro(raiz)[entrada];
    let t3 = alvo(d4);
    let b3 = entrada * cobertura(3);
    assert(s.contains(x));
    let i3 = lemma_de_que_entrada(m, t3, 2, b3, ENTRADAS as int, x);
    let d3 = m.quadro(t3)[i3];
    let b2 = b3 + i3 * cobertura(2);
    let i2 = lemma_de_que_entrada(m, alvo(d3), 1, b2, ENTRADAS as int, x);
    let d2 = m.quadro(alvo(d3))[i2];
    let b1 = b2 + i2 * cobertura(1);
    let i1 = lemma_de_que_entrada(m, alvo(d2), 0, b1, ENTRADAS as int, x);
    let v = b1 + i1 * cobertura(0);
    assert(x.virtual_ == v);
    assert(v == entrada * 0x80_0000_0000 + i3 * 0x4000_0000 + i2 * 0x20_0000 + i1 * 0x1000);
    lemma_lugar(entrada, i3, i2, i1);
}

/// An address names its place in the tables.
proof fn lemma_lugar(i4: int, i3: int, i2: int, i1: int)
    requires
        0 <= i4 < 512,
        0 <= i3 < 512,
        0 <= i2 < 512,
        0 <= i1 < 512,
    ensures
        ({
            let v = i4 * 0x80_0000_0000 + i3 * 0x4000_0000 + i2 * 0x20_0000 + i1 * 0x1000;
            &&& v % 4096 == 0
            &&& v / 0x80_0000_0000 == i4
            &&& v / 0x4000_0000 % 512 == i3
            &&& v / 0x20_0000 % 512 == i2
            &&& v / 0x1000 % 512 == i1
        }),
{
    let v = i4 * 0x80_0000_0000 + i3 * 0x4000_0000 + i2 * 0x20_0000 + i1 * 0x1000;
    assert(v / 0x1000 == i4 * 0x800_0000 + i3 * 0x4_0000 + i2 * 0x200 + i1);
    assert(v / 0x20_0000 == i4 * 0x4_0000 + i3 * 0x200 + i2);
    assert(v / 0x4000_0000 == i4 * 0x200 + i3);
}

/// Destroying a space gives back every page of a process, the tables on the way
/// to it and nothing that no present descriptor leads to.
pub proof fn lei_destruir_alcanca_tudo(m: &Memoria, d4: u64, i3: int, i2: int, i1: int, e: int)
    requires
        0 <= i3 < 512,
        0 <= i2 < 512,
        0 <= i1 < 512,
    ensures
        ({
            let t3 = (d4 & 0x000F_FFFF_FFFF_F000) as int;
            let d3 = m.quadro(t3)[i3];
            let t2 = (d3 & 0x000F_FFFF_FFFF_F000) as int;
            let d2 = m.quadro(t2)[i2];
            let t1 = (d2 & 0x000F_FFFF_FFFF_F000) as int;
            let d1 = m.quadro(t1)[i1];
            &&& d4 & 1 != 0 ==> alcanca(m, d4, 3, t3)
            &&& d4 & 1 != 0 && d4 & 0x80 == 0 && d3 & 1 != 0 ==> alcanca(m, d4, 3, t2)
            &&& d4 & 1 != 0 && d4 & 0x80 == 0 && d3 & 1 != 0 && d3 & 0x80 == 0 && d2 & 1 != 0
                ==> alcanca(m, d4, 3, t1)
            &&& d4 & 1 != 0 && d4 & 0x80 == 0 && d3 & 1 != 0 && d3 & 0x80 == 0 && d2 & 1 != 0 && d2
                & 0x80 == 0 && d1 & 1 != 0 ==> alcanca(
                m,
                d4,
                3,
                (d1 & 0x000F_FFFF_FFFF_F000) as int,
            )
            &&& d4 & 1 == 0 ==> !alcanca(m, d4, 3, e)
        }),
{
    let t3 = alvo(d4);
    let d3 = m.quadro(t3)[i3];
    let t2 = alvo(d3);
    let d2 = m.quadro(t2)[i2];
    let t1 = alvo(d2);
    let d1 = m.quadro(t1)[i1];
    reveal_with_fuel(alcanca, 5);
    assert(indice(i3) && indice(i2) && indice(i1));
    if presente(d1) {
        assert(alcanca(m, d1, 0, alvo(d1)));
        if e_tabela(d2) {
            assert(alcanca(m, m.quadro(t1)[i1], 0, alvo(d1)));
            assert(alcanca(m, d2, 1, alvo(d1)));
        }
        if e_tabela(d2) && e_tabela(d3) {
            assert(alcanca(m, m.quadro(t2)[i2], 1, alvo(d1)));
            assert(alcanca(m, d3, 2, alvo(d1)));
        }
        if e_tabela(d2) && e_tabela(d3) && e_tabela(d4) {
            assert(alcanca(m, m.quadro(t3)[i3], 2, alvo(d1)));
        }
    }
    if presente(d2) {
        assert(alcanca(m, d2, 1, t1));
        if e_tabela(d3) {
            assert(alcanca(m, m.quadro(t2)[i2], 1, t1));
            assert(alcanca(m, d3, 2, t1));
        }
        if e_tabela(d3) && e_tabela(d4) {
            assert(alcanca(m, m.quadro(t3)[i3], 2, t1));
        }
    }
    if presente(d3) {
        assert(alcanca(m, d3, 2, t2));
        if e_tabela(d4) {
            assert(alcanca(m, m.quadro(t3)[i3], 2, t2));
        }
    }
}

/// A frame that destroying a space gives back is led to by a present descriptor
/// of the space, behind descriptors that lead to tables.
pub proof fn lei_destruir_so_alcanca_o_que_e_do_espaco(m: &Memoria, d4: u64, e: int)
    requires
        alcanca(m, d4, 3, e),
    ensures
        d4 & 1 != 0,
        e == (d4 & 0x000F_FFFF_FFFF_F000) as int || exists|i3: int, i2: int, i1: int|
            #![trigger m.quadro(
                (m.quadro((m.quadro((d4 & MASCARA_ENDERECO) as int)[i3] & MASCARA_ENDERECO) as int)[i2]
                    & MASCARA_ENDERECO) as int,
            )[i1]]
            {
                let d3 = m.quadro((d4 & 0x000F_FFFF_FFFF_F000) as int)[i3];
                let d2 = m.quadro((d3 & 0x000F_FFFF_FFFF_F000) as int)[i2];
                let d1 = m.quadro((d2 & 0x000F_FFFF_FFFF_F000) as int)[i1];
                &&& 0 <= i3 < 512 && 0 <= i2 < 512 && 0 <= i1 < 512
                &&& d4 & 0x80 == 0 && d3 & 1 != 0
                &&& {
                    ||| e == (d3 & 0x000F_FFFF_FFFF_F000) as int
                    ||| d3 & 0x80 == 0 && d2 & 1 != 0 && e == (d2 & 0x000F_FFFF_FFFF_F000) as int
                    ||| d3 & 0x80 == 0 && d2 & 1 != 0 && d2 & 0x80 == 0 && d1 & 1 != 0 && e == (d1
                        & 0x000F_FFFF_FFFF_F000) as int
                }
            },
{
    if e != alvo(d4) {
        let i3 = choose|i: int| indice(i) && alcanca(m, #[trigger] m.quadro(alvo(d4))[i], 2, e);
        let d3 = m.quadro(alvo(d4))[i3];
        let i2 = if e == alvo(d3) {
            0
        } else {
            choose|i: int| indice(i) && alcanca(m, #[trigger] m.quadro(alvo(d3))[i], 1, e)
        };
        let d2 = m.quadro(alvo(d3))[i2];
        let i1 = if e == alvo(d3) || e == alvo(d2) {
            0
        } else {
            choose|i: int| indice(i) && alcanca(m, #[trigger] m.quadro(alvo(d2))[i], 0, e)
        };
        let d1 = m.quadro(alvo(d2))[i1];
        assert(m.quadro(
            (m.quadro((m.quadro((d4 & MASCARA_ENDERECO) as int)[i3] & MASCARA_ENDERECO) as int)[i2]
                & MASCARA_ENDERECO) as int,
        )[i1] == d1);
    }
}

/// The bits of a page say what was asked, each in its place, and no other bit is
/// on.
pub proof fn lei_bits_da_pagina(p: Permissoes)
    ensures
        bits_spec(p) & 1 != 0,
        (bits_spec(p) & 2 != 0) == p.escrita,
        (bits_spec(p) & 4 != 0) == p.usuario,
        (bits_spec(p) & 8 != 0) == p.dispositivo,
        (bits_spec(p) & 0x10 != 0) == p.dispositivo,
        (bits_spec(p) & 0x8000_0000_0000_0000 != 0) == !p.executavel,
        bits_spec(p) & 0x7FFF_FFFF_FFFF_FFE0 == 0,
{
    let w = if p.escrita {
        2u64
    } else {
        0
    };
    let x = if !p.executavel {
        0x8000_0000_0000_0000u64
    } else {
        0
    };
    let d = if p.dispositivo {
        0x10u64 | 8u64
    } else {
        0
    };
    let u = if p.usuario {
        4u64
    } else {
        0
    };
    let b = 1u64 | w | x | d | u;
    assert(b & 1 != 0 && (b & 2 != 0) == (w == 2) && (b & 4 != 0) == (u == 4) && (b & 8 != 0) == (d
        != 0) && (b & 0x10 != 0) == (d != 0) && (b & 0x8000_0000_0000_0000 != 0) == (x != 0) && b
        & 0x7FFF_FFFF_FFFF_FFE0 == 0 && 0x10u64 | 8u64 != 0) by (bit_vector)
        requires
            b == 1u64 | w | x | d | u,
            w == 0 || w == 2,
            x == 0 || x == 0x8000_0000_0000_0000u64,
            d == 0 || d == 0x10u64 | 8u64,
            u == 0 || u == 4,
    ;
}

/// A page may be mapped exactly where both addresses are multiples of 4096, the
/// virtual one repeats its bit 47 upwards, and the physical one has 52 bits.
pub proof fn lei_quando_se_mapeia(virtual_: u64, fisico: u64)
    ensures
        recusa_mapear(virtual_, fisico) is None <==> virtual_ % 4096 == 0 && fisico % 4096 == 0 && (
        virtual_ / 0x8000_0000_0000 == 0 || virtual_ / 0x8000_0000_0000 == 0x1_FFFF) && fisico
            / 0x10_0000_0000_0000 == 0,
        e_canonico(virtual_) <==> virtual_ / 0x8000_0000_0000 == 0 || virtual_ / 0x8000_0000_0000
            == 0x1_FFFF,
{
}

/// A space is made for an entry of the 512 of the top table, once the kernel has its
/// own.
pub proof fn lei_quando_se_cria(p: &Paginacao, entrada: usize)
    ensures
        recusa_criar(p, entrada) is None <==> entrada < 512 && p.raiz_do_kernel is Some,
        entrada >= 512 ==> recusa_criar(p, entrada) == Some("entrada de topo fora da tabela"),
{
}

/// What is given back becomes free, as far as it was in circulation; what was free
/// stays free, and nothing else becomes so.
pub proof fn lei_devolveu(antes: &Alocador, depois: &Alocador, quais: spec_fn(u64) -> bool, e: u64)
    requires
        devolveu(antes, depois, quais),
        e % 4096 == 0,
    ensures
        quais(e) && antes.circula(e) ==> depois.livre_em(e),
        antes.livre_em(e) ==> depois.livre_em(e),
        depois.livre_em(e) ==> antes.livre_em(e) || quais(e),
        depois.livre().len() == antes.livre().len(),
{
}

} // verus!
