//! The PCI bus: which addresses to look at, what to keep of what is found, and
//! where in memory each device goes.
use vstd::prelude::*;

verus! {

/// How many devices the inventory holds.
pub const MAX_DISPOSITIVOS: usize = 32;

/// Places for address registers in a device.
pub const SLOTS: u8 = 6;

/// What the bus answers where nobody is.
pub const NINGUEM: u16 = 0xFFFF;

/// Address of a function: bus, device and function.
#[derive(Clone, Copy, Debug, PartialEq, Eq, Structural)]
pub struct EnderecoPci {
    pub barramento: u8,
    pub dispositivo: u8,
    pub funcao: u8,
}

impl EnderecoPci {
    /// There are 32 devices on a bus and 8 functions in a device.
    pub open spec fn valido(self) -> bool {
        self.dispositivo < 32 && self.funcao < 8
    }
}

/// A range of addresses for the devices: as the bus sees it and as the
/// processor does.
#[derive(Clone, Copy, Debug, PartialEq, Eq, Structural)]
pub struct JanelaMmio {
    /// The first address, on the bus.
    pub barramento: u64,
    /// The same address, for the processor.
    pub cpu: u64,
    pub tamanho: u64,
}

impl JanelaMmio {
    /// The address of the processor for an address of the bus.
    pub open spec fn traduz(self, no_barramento: u64) -> Option<int> {
        if self.barramento <= no_barramento < self.barramento + self.tamanho {
            Some(self.cpu + (no_barramento - self.barramento))
        } else {
            None
        }
    }

    /// The address of the processor for an address of the bus, where it is in
    /// this window.
    pub fn na_cpu(&self, no_barramento: u64) -> (r: Option<u64>)
        requires
            self.traduz(no_barramento) is Some ==> self.traduz(no_barramento)->0 <= u64::MAX,
        ensures
            match r {
                Some(e) => self.traduz(no_barramento) == Some(e as int),
                None => self.traduz(no_barramento) is None,
            },
    {
        match no_barramento.checked_sub(self.barramento) {
            None => None,
            Some(dentro) => if dentro < self.tamanho {
                Some(self.cpu + dentro)
            } else {
                None
            },
        }
    }
}

/// Hands out a window, one region after the other.
pub struct Distribuidor {
    janela: JanelaMmio,
    proximo: u64,
}

/// The size is a power of two.
pub open spec fn potencia_de_dois(n: u64) -> bool {
    exists|k: nat| n == #[trigger] vstd::arithmetic::power2::pow2(k)
}

/// The first multiple of `n` that is not below `v`.
pub open spec fn multiplo_acima(v: int, n: int) -> int {
    if v % n == 0 {
        v
    } else {
        v + n - v % n
    }
}

/// Is the number a power of two?
fn e_potencia_de_dois(n: u64) -> (r: bool)
    ensures
        r == potencia_de_dois(n),
{
    let mut p: u64 = 1;
    let ghost mut k: nat = 0;
    proof {
        vstd::arithmetic::power2::lemma2_to64();
    }
    while p < n
        invariant
            1 <= p,
            p == vstd::arithmetic::power2::pow2(k),
            forall|j: nat| j < k ==> (#[trigger] vstd::arithmetic::power2::pow2(j)) < n,
        decreases 2 * n - p,
    {
        proof {
            vstd::arithmetic::power2::lemma_pow2_unfold(k + 1);
            assert(vstd::arithmetic::power2::pow2(k + 1) == 2 * p);
        }
        if p > u64::MAX / 2 {
            proof {
                lemma_entre_potencias(n, k);
            }
            return false;
        }
        p = p * 2;
        proof {
            k = k + 1;
        }
    }
    proof {
        if p == n {
            assert(potencia_de_dois(n));
        } else {
            if n > 0 {
                assert(k > 0);
                lemma_entre_potencias(n, (k - 1) as nat);
            } else {
                assert forall|j: nat| n != #[trigger] vstd::arithmetic::power2::pow2(j) by {
                    vstd::arithmetic::power2::lemma_pow2_pos(j);
                }
            }
        }
    }
    p == n
}

proof fn lemma_entre_potencias(n: u64, k: nat)
    requires
        vstd::arithmetic::power2::pow2(k) < n < vstd::arithmetic::power2::pow2(k + 1),
    ensures
        !potencia_de_dois(n),
{
    assert forall|j: nat| n != #[trigger] vstd::arithmetic::power2::pow2(j) by {
        if j < k {
            vstd::arithmetic::power2::lemma_pow2_strictly_increases(j, k);
        }
        if j > k + 1 {
            vstd::arithmetic::power2::lemma_pow2_strictly_increases(k + 1, j);
        }
    }
}

proof fn lemma_multiplo(v: int, n: int)
    requires
        0 <= v,
        0 < n,
    ensures
        v <= multiplo_acima(v, n) < v + n,
        multiplo_acima(v, n) % n == 0,
{
    vstd::arithmetic::div_mod::lemma_mod_bound(v, n);
    if v % n != 0 {
        vstd::arithmetic::div_mod::lemma_fundamental_div_mod(v, n);
        let q = v / n;
        assert(multiplo_acima(v, n) == (q + 1) * n) by (nonlinear_arith)
            requires
                v == n * q + v % n,
                multiplo_acima(v, n) == v + n - v % n,
        ;
        vstd::arithmetic::div_mod::lemma_mod_multiples_basic(q + 1, n);
    }
}

impl Distribuidor {
    /// The window that is handed out.
    pub closed spec fn janela(&self) -> JanelaMmio {
        self.janela
    }

    /// The first address not handed out yet.
    pub closed spec fn proximo(&self) -> u64 {
        self.proximo
    }

    /// Nothing before the window is handed out.
    pub open spec fn wf(&self) -> bool {
        self.janela().barramento <= self.proximo()
    }

    /// What a region of `tamanho` bytes would get.
    pub open spec fn oferta(&self, tamanho: u64) -> Option<int> {
        let inicio = multiplo_acima(self.proximo() as int, tamanho as int);
        let fim = self.janela().barramento + self.janela().tamanho;
        if tamanho != 0 && potencia_de_dois(tamanho) && fim <= u64::MAX && inicio + tamanho <= fim {
            Some(inicio)
        } else {
            None
        }
    }

    /// Starts at the beginning of a window.
    pub fn novo(janela: JanelaMmio) -> (r: Distribuidor)
        ensures
            r.wf(),
            r.janela() == janela,
            r.proximo() == janela.barramento,
    {
        Distribuidor { janela, proximo: janela.barramento }
    }

    /// Takes a region of `tamanho` bytes, aligned to its size, or `None` where
    /// the window has no room for it.
    pub fn reservar(&mut self, tamanho: u64) -> (r: Option<u64>)
        requires
            old(self).wf(),
        ensures
            final(self).wf(),
            final(self).janela() == old(self).janela(),
            match r {
                Some(inicio) => {
                    &&& old(self).oferta(tamanho) == Some(inicio as int)
                    &&& inicio as int % tamanho as int == 0
                    &&& old(self).proximo() <= inicio
                    &&& final(self).proximo() == inicio + tamanho
                    &&& final(self).proximo() <= old(self).janela().barramento + old(self).janela().tamanho
                },
                None => old(self).oferta(tamanho) is None && *final(self) == *old(self),
            },
    {
        if tamanho == 0 || !e_potencia_de_dois(tamanho) {
            return None;
        }
        proof {
            lemma_multiplo(self.proximo as int, tamanho as int);
        }
        let resto: u64 = self.proximo % tamanho;
        let inicio: u64 = if resto == 0 {
            self.proximo
        } else {
            match self.proximo.checked_add(tamanho - resto) {
                None => {
                    return None;
                },
                Some(i) => i,
            }
        };
        let fim: u64 = match inicio.checked_add(tamanho) {
            None => {
                return None;
            },
            Some(f) => f,
        };
        match self.janela.barramento.checked_add(self.janela.tamanho) {
            None => None,
            Some(limite) => if fim > limite {
                None
            } else {
                self.proximo = fim;
                Some(inicio)
            },
        }
    }
}

/// Two regions that are handed out one after the other do not overlap, and
/// each is inside the window.
pub proof fn lei_regioes_nao_se_tocam(
    a: &Distribuidor,
    b: &Distribuidor,
    t1: u64,
    t2: u64,
    r1: u64,
    r2: u64,
)
    requires
        a.wf(),
        b.janela() == a.janela(),
        b.proximo() == r1 + t1,
        a.oferta(t1) == Some(r1 as int),
        b.oferta(t2) == Some(r2 as int),
    ensures
        r1 + t1 <= r2,
        a.janela().barramento <= r1,
        r2 + t2 <= a.janela().barramento + a.janela().tamanho,
{
    lemma_multiplo(a.proximo() as int, t1 as int);
    lemma_multiplo(b.proximo() as int, t2 as int);
}

/// Every address that is handed out has an address for the processor.
pub proof fn lei_entregue_e_traduzivel(a: &Distribuidor, tamanho: u64, inicio: u64, k: u64)
    requires
        a.wf(),
        a.oferta(tamanho) == Some(inicio as int),
        k < tamanho,
    ensures
        a.janela().traduz((inicio + k) as u64) == Some(
            a.janela().cpu + (inicio - a.janela().barramento) + k,
        ),
{
    lemma_multiplo(a.proximo() as int, tamanho as int);
}

/// A device that was found.
#[derive(Clone, Copy, Debug, PartialEq, Eq)]
pub struct Dispositivo {
    pub barramento: u8,
    pub dispositivo: u8,
    pub funcao: u8,
    pub fabricante: u16,
    pub modelo: u16,
    pub classe: u8,
    pub subclasse: u8,
    pub interface: u8,
    pub revisao: u8,
    /// Where its first region of memory is, for the processor, and how long it
    /// is.
    pub memoria: Option<(u64, u64)>,
}

/// What a class of device does.
pub open spec fn faz(classe: u8, subclasse: u8) -> &'static str {
    if classe == 0x01 && subclasse == 0x00 {
        "disco-scsi"
    } else if classe == 0x01 && subclasse == 0x01 {
        "disco-ide"
    } else if classe == 0x01 && subclasse == 0x06 {
        "disco-sata"
    } else if classe == 0x01 && subclasse == 0x08 {
        "disco-nvme"
    } else if classe == 0x02 {
        "rede"
    } else if classe == 0x03 {
        "video"
    } else if classe == 0x06 && subclasse == 0x00 {
        "ponte-hospedeira"
    } else if classe == 0x06 && subclasse == 0x04 {
        "ponte-pci"
    } else if classe == 0x0C && subclasse == 0x03 {
        "usb"
    } else {
        "outro"
    }
}

impl Dispositivo {
    /// What the device does, for the report.
    pub fn o_que_faz(&self) -> (r: &'static str)
        ensures
            r == faz(self.classe, self.subclasse),
    {
        match (self.classe, self.subclasse) {
            (0x01, 0x00) => "disco-scsi",
            (0x01, 0x01) => "disco-ide",
            (0x01, 0x06) => "disco-sata",
            (0x01, 0x08) => "disco-nvme",
            (0x02, _) => "rede",
            (0x03, _) => "video",
            (0x06, 0x00) => "ponte-hospedeira",
            (0x06, 0x04) => "ponte-pci",
            (0x0C, 0x03) => "usb",
            _ => "outro",
        }
    }
}

/// What the configuration of a function says about it.
#[derive(Clone, Copy, Debug, PartialEq, Eq, Structural)]
pub struct Identidade {
    pub fabricante: u16,
    pub modelo: u16,
    pub classe: u8,
    pub subclasse: u8,
    pub interface: u8,
    pub revisao: u8,
}

/// The device at an address, where somebody answers there.
pub open spec fn identificado(e: EnderecoPci, i: Identidade) -> Option<Dispositivo> {
    if i.fabricante == NINGUEM {
        None
    } else {
        Some(
            Dispositivo {
                barramento: e.barramento,
                dispositivo: e.dispositivo,
                funcao: e.funcao,
                fabricante: i.fabricante,
                modelo: i.modelo,
                classe: i.classe,
                subclasse: i.subclasse,
                interface: i.interface,
                revisao: i.revisao,
                memoria: None,
            },
        )
    }
}

/// The device at an address, out of what was read there.
pub fn ler(endereco: EnderecoPci, i: Identidade) -> (r: Option<Dispositivo>)
    ensures
        r == identificado(endereco, i),
{
    if i.fabricante == NINGUEM {
        return None;
    }
    Some(
        Dispositivo {
            barramento: endereco.barramento,
            dispositivo: endereco.dispositivo,
            funcao: endereco.funcao,
            fabricante: i.fabricante,
            modelo: i.modelo,
            classe: i.classe,
            subclasse: i.subclasse,
            interface: i.interface,
            revisao: i.revisao,
            memoria: None,
        },
    )
}

/// An address register of a device, as its measurement shows it.
#[derive(Clone, Copy, Debug, PartialEq, Eq, Structural)]
pub enum Registro {
    /// Memory that is addressed with 32 bits.
    Memoria32 { endereco: u64, tamanho: u64 },
    /// Memory that is addressed with 64 bits; it takes two places.
    Memoria64 { endereco: u64, tamanho: u64 },
    /// Ports, or nothing.
    Outro,
}

impl Registro {
    /// The size of a region of memory that has no address yet.
    pub open spec fn pede(self) -> Option<u64> {
        match self {
            Registro::Memoria32 { endereco, tamanho } => if endereco == 0 {
                Some(tamanho)
            } else {
                None
            },
            Registro::Memoria64 { endereco, tamanho } => if endereco == 0 {
                Some(tamanho)
            } else {
                None
            },
            Registro::Outro => None,
        }
    }

    /// The address and the size of a region of memory that has an address.
    pub open spec fn regiao(self) -> Option<(u64, u64)> {
        match self {
            Registro::Memoria32 { endereco, tamanho } => if endereco != 0 {
                Some((endereco, tamanho))
            } else {
                None
            },
            Registro::Memoria64 { endereco, tamanho } => if endereco != 0 {
                Some((endereco, tamanho))
            } else {
                None
            },
            Registro::Outro => None,
        }
    }

    /// How many places it takes.
    pub open spec fn largura(self) -> int {
        if self is Memoria64 {
            2
        } else {
            1
        }
    }
}

/// The place that comes after the register in a place.
pub fn proximo_slot(slot: u8, lido: Registro) -> (r: u8)
    requires
        slot < SLOTS,
    ensures
        r == slot + lido.largura(),
{
    match lido {
        Registro::Memoria64 { .. } => slot + 2,
        _ => slot + 1,
    }
}

/// What is done about an address register.
#[derive(Clone, Copy, Debug, PartialEq, Eq, Structural)]
pub enum Atribuicao {
    /// Leave it as it is.
    Nada,
    /// Write this address in it.
    Escrever(u64),
    /// The window has no room for a region of this size.
    SemEspaco(u64),
}

/// What is done about the address register in a place, and which place comes
/// next.
fn atribuir_bar(d: &mut Distribuidor, slot: u8, lido: Registro) -> (r: (Atribuicao, u8))
    requires
        old(d).wf(),
        slot < SLOTS,
    ensures
        final(d).wf(),
        final(d).janela() == old(d).janela(),
        r.1 == slot + lido.largura(),
        match lido.pede() {
            None => r.0 == Atribuicao::Nada && *final(d) == *old(d),
            Some(tamanho) => match old(d).oferta(tamanho) {
                Some(inicio) => r.0 == Atribuicao::Escrever(inicio as u64) && final(d).proximo()
                    == inicio + tamanho && inicio <= u64::MAX,
                None => r.0 == Atribuicao::SemEspaco(tamanho) && *final(d) == *old(d),
            },
        },
{
    let (tamanho, largura): (u64, u8) = match lido {
        Registro::Memoria32 { endereco, tamanho } => if endereco == 0 {
            (tamanho, 1)
        } else {
            return (Atribuicao::Nada, slot + 1);
        },
        Registro::Memoria64 { endereco, tamanho } => if endereco == 0 {
            (tamanho, 2)
        } else {
            return (Atribuicao::Nada, slot + 2);
        },
        Registro::Outro => {
            return (Atribuicao::Nada, slot + 1);
        },
    };
    match d.reservar(tamanho) {
        Some(no_barramento) => (Atribuicao::Escrever(no_barramento), slot + largura),
        None => (Atribuicao::SemEspaco(tamanho), slot + largura),
    }
}

/// The addresses that the registers from `slot` on get, in order.
pub open spec fn atribuidos(
    lidos: Seq<Registro>,
    slot: int,
    janela: JanelaMmio,
    proximo: int,
) -> Seq<(int, Atribuicao)>
    decreases SLOTS + 1 - slot,
{
    if !(0 <= slot < SLOTS && slot < lidos.len()) {
        Seq::empty()
    } else {
        let depois = slot + lidos[slot].largura();
        match lidos[slot].pede() {
            None => atribuidos(lidos, depois, janela, proximo),
            Some(t) => match oferta_em(janela, proximo, t) {
                Some(inicio) => seq![(slot, Atribuicao::Escrever(inicio as u64))] + atribuidos(
                    lidos,
                    depois,
                    janela,
                    inicio + t,
                ),
                None => seq![(slot, Atribuicao::SemEspaco(t))] + atribuidos(
                    lidos,
                    depois,
                    janela,
                    proximo,
                ),
            },
        }
    }
}

/// The first address that is free once the registers from `slot` on have
/// theirs.
pub open spec fn restante(
    lidos: Seq<Registro>,
    slot: int,
    janela: JanelaMmio,
    proximo: int,
) -> int
    decreases SLOTS + 1 - slot,
{
    if !(0 <= slot < SLOTS && slot < lidos.len()) {
        proximo
    } else {
        let depois = slot + lidos[slot].largura();
        match lidos[slot].pede() {
            None => restante(lidos, depois, janela, proximo),
            Some(t) => match oferta_em(janela, proximo, t) {
                Some(inicio) => restante(lidos, depois, janela, inicio + t),
                None => restante(lidos, depois, janela, proximo),
            },
        }
    }
}

/// The register in a place got this address, in one of these assignments.
pub open spec fn recebeu(s: Seq<(int, Atribuicao)>, i: int, slot: int, endereco: u64) -> bool {
    0 <= i < s.len() && s[i] == (slot, Atribuicao::Escrever(endereco))
}

/// No two registers get addresses that overlap, whether they are of one device
/// or of two: each gets what comes after those before it, all of it inside the
/// window, and what is free afterwards comes after all of them.
pub proof fn lei_registros_nao_se_tocam(
    lidos: Seq<Registro>,
    slot: int,
    janela: JanelaMmio,
    proximo: int,
)
    requires
        0 <= slot,
        0 <= proximo,
    ensures
        proximo <= restante(lidos, slot, janela, proximo),
        ({
            let s = atribuidos(lidos, slot, janela, proximo);
            &&& forall|i: int, p: int, e: u64| #[trigger]
                recebeu(s, i, p, e) ==> {
                    &&& slot <= p < lidos.len()
                    &&& lidos[p].pede() is Some
                    &&& proximo <= e
                    &&& e + lidos[p].pede()->0 <= restante(lidos, slot, janela, proximo)
                    &&& e + lidos[p].pede()->0 <= janela.barramento + janela.tamanho
                }
            &&& forall|i: int, j: int, p: int, q: int, e: u64, f: u64|
                #![trigger recebeu(s, i, p, e), recebeu(s, j, q, f)]
                recebeu(s, i, p, e) && recebeu(s, j, q, f) && i < j ==> e + lidos[p].pede()->0 <= f
        }),
    decreases SLOTS + 1 - slot,
{
    let s = atribuidos(lidos, slot, janela, proximo);
    if !(slot < SLOTS && slot < lidos.len()) {
        assert(s.len() == 0);
    } else {
        let depois = slot + lidos[slot].largura();
        match lidos[slot].pede() {
            None => {
                lei_registros_nao_se_tocam(lidos, depois, janela, proximo);
                assert(s == atribuidos(lidos, depois, janela, proximo));
            },
            Some(t) => {
                let livre = match oferta_em(janela, proximo, t) {
                    Some(inicio) => inicio + t,
                    None => proximo,
                };
                if t != 0 {
                    lemma_multiplo(proximo, t as int);
                }
                lei_registros_nao_se_tocam(lidos, depois, janela, livre);
                let resto = atribuidos(lidos, depois, janela, livre);
                let fim = restante(lidos, slot, janela, proximo);
                assert(fim == restante(lidos, depois, janela, livre));
                assert forall|i: int, p: int, e: u64| #[trigger] recebeu(s, i, p, e) implies {
                    &&& slot <= p < lidos.len()
                    &&& lidos[p].pede() is Some
                    &&& proximo <= e
                    &&& e + lidos[p].pede()->0 <= fim
                    &&& e + lidos[p].pede()->0 <= janela.barramento + janela.tamanho
                    &&& i == 0 ==> e + lidos[p].pede()->0 == livre
                    &&& i > 0 ==> recebeu(resto, i - 1, p, e) && livre <= e
                } by {
                    if i > 0 {
                        assert(s[i] == resto[i - 1]);
                        assert(recebeu(resto, i - 1, p, e));
                    } else {
                        assert(s[0].0 == slot);
                        assert(oferta_em(janela, proximo, t) is Some);
                    }
                }
                assert forall|i: int, j: int, p: int, q: int, e: u64, f: u64|
                    #![trigger recebeu(s, i, p, e), recebeu(s, j, q, f)]
                    recebeu(s, i, p, e) && recebeu(s, j, q, f) && i < j implies e
                    + lidos[p].pede()->0 <= f by {
                    assert(recebeu(resto, j - 1, q, f));
                    if i > 0 {
                        assert(recebeu(resto, i - 1, p, e));
                    }
                }
            },
        }
    }
}

/// What a region of `tamanho` bytes gets where `proximo` is the first free
/// address of a window.
pub open spec fn oferta_em(janela: JanelaMmio, proximo: int, tamanho: u64) -> Option<int> {
    let inicio = multiplo_acima(proximo, tamanho as int);
    let fim = janela.barramento + janela.tamanho;
    if tamanho != 0 && potencia_de_dois(tamanho) && fim <= u64::MAX && inicio + tamanho <= fim {
        Some(inicio)
    } else {
        None
    }
}

/// What is done about a place of a device.
#[derive(Clone, Copy, Debug, PartialEq, Eq, Structural)]
pub struct Feito {
    pub slot: u8,
    pub atribuicao: Atribuicao,
}

/// Gives an address to every register of memory that has none, out of what was
/// measured in the six places.
pub fn atribuir_bars(d: &mut Distribuidor, lidos: &[Registro]) -> (r: Vec<Feito>)
    requires
        old(d).wf(),
        lidos@.len() == SLOTS,
    ensures
        final(d).wf(),
        final(d).janela() == old(d).janela(),
        r@.map_values(|f: Feito| (f.slot as int, f.atribuicao)) == atribuidos(
            lidos@,
            0,
            old(d).janela(),
            old(d).proximo() as int,
        ),
        final(d).proximo() == restante(lidos@, 0, old(d).janela(), old(d).proximo() as int),
{
    let mut feitos: Vec<Feito> = Vec::new();
    let ghost total = atribuidos(lidos@, 0, d.janela(), d.proximo() as int);
    let ghost janela = d.janela();
    let ghost fim = restante(lidos@, 0, d.janela(), d.proximo() as int);
    let mut slot: u8 = 0;
    proof {
        assert(feitos@.map_values(|f: Feito| (f.slot as int, f.atribuicao)) + total =~= total);
    }
    while slot < SLOTS
        invariant
            d.wf(),
            d.janela() == janela,
            lidos@.len() == SLOTS,
            slot <= SLOTS + 1,
            feitos@.map_values(|f: Feito| (f.slot as int, f.atribuicao)) + atribuidos(
                lidos@,
                slot as int,
                janela,
                d.proximo() as int,
            ) == total,
            restante(lidos@, slot as int, janela, d.proximo() as int) == fim,
        decreases SLOTS + 1 - slot,
    {
        let ghost antes = feitos@.map_values(|f: Feito| (f.slot as int, f.atribuicao));
        let ghost p = d.proximo() as int;
        let ghost s0 = slot as int;
        let (atribuicao, depois) = atribuir_bar(d, slot, lidos[slot as usize]);
        let ghost resto = atribuidos(lidos@, depois as int, janela, d.proximo() as int);
        match atribuicao {
            Atribuicao::Nada => {},
            _ => {
                feitos.push(Feito { slot, atribuicao });
                proof {
                    let agora = feitos@.map_values(|f: Feito| (f.slot as int, f.atribuicao));
                    assert(agora =~= antes.push((s0, atribuicao)));
                    assert(agora + resto =~= antes + (seq![(s0, atribuicao)] + resto));
                }
            },
        }
        slot = depois;
    }
    proof {
        let fim = feitos@.map_values(|f: Feito| (f.slot as int, f.atribuicao));
        assert(fim + Seq::<(int, Atribuicao)>::empty() =~= fim);
    }
    feitos
}

/// The first region of memory that has an address, from `slot` on: its place,
/// its address on the bus, and its size.
pub open spec fn primeira_regiao(lidos: Seq<Registro>, slot: int) -> Option<(int, u64, u64)>
    decreases SLOTS + 1 - slot,
{
    if !(0 <= slot < SLOTS && slot < lidos.len()) {
        None
    } else {
        match lidos[slot].regiao() {
            Some(r) => Some((slot, r.0, r.1)),
            None => primeira_regiao(lidos, slot + lidos[slot].largura()),
        }
    }
}

/// Where a device ended up.
#[derive(Clone, Copy, Debug, PartialEq, Eq)]
pub enum Preparo {
    /// It has no region of memory with an address.
    SemRegiao,
    /// Its region starts here, for the processor, and is this long.
    EmMemoria { endereco: u64, tamanho: u64 },
    /// Its region is outside the window that is known.
    ForaDaJanela { slot: u8, no_barramento: u64 },
}

/// Where a device ends up, given its registers as they are after the
/// addresses were handed out. Where there is no window the firmware handed
/// them out, and the bus and the processor see the same addresses.
pub open spec fn preparado(lidos: Seq<Registro>, janela: Option<JanelaMmio>) -> Preparo {
    match primeira_regiao(lidos, 0) {
        None => Preparo::SemRegiao,
        Some(r) => match janela {
            None => Preparo::EmMemoria { endereco: r.1, tamanho: r.2 },
            Some(j) => match j.traduz(r.1) {
                Some(e) => Preparo::EmMemoria { endereco: e as u64, tamanho: r.2 },
                None => Preparo::ForaDaJanela { slot: r.0 as u8, no_barramento: r.1 },
            },
        },
    }
}

/// Fills in where the memory of a device is. The result says what became of
/// it.
pub fn preparar(achado: &mut Dispositivo, lidos: &[Registro], janela: Option<JanelaMmio>) -> (r: Preparo)
    requires
        lidos@.len() == SLOTS,
        janela is Some ==> janela->0.cpu + janela->0.tamanho <= 0x1_0000_0000_0000_0000,
    ensures
        r == preparado(lidos@, janela),
        *final(achado) == (Dispositivo {
            memoria: match r {
                Preparo::EmMemoria { endereco, tamanho } => Some((endereco, tamanho)),
                _ => old(achado).memoria,
            },
            ..*old(achado)
        }),
{
    let mut slot: u8 = 0;
    while slot < SLOTS
        invariant
            lidos@.len() == SLOTS,
            slot <= SLOTS + 1,
            janela is Some ==> janela->0.cpu + janela->0.tamanho <= 0x1_0000_0000_0000_0000,
            *achado == *old(achado),
            primeira_regiao(lidos@, 0) == primeira_regiao(lidos@, slot as int),
        decreases SLOTS + 1 - slot,
    {
        let (regiao, largura): (Option<(u64, u64)>, u8) = match lidos[slot as usize] {
            Registro::Memoria32 { endereco, tamanho } => if endereco != 0 {
                (Some((endereco, tamanho)), 1)
            } else {
                (None, 1)
            },
            Registro::Memoria64 { endereco, tamanho } => if endereco != 0 {
                (Some((endereco, tamanho)), 2)
            } else {
                (None, 2)
            },
            Registro::Outro => (None, 1),
        };
        if let Some((no_barramento, tamanho)) = regiao {
            let na_cpu: Option<u64> = match janela {
                Some(j) => j.na_cpu(no_barramento),
                None => Some(no_barramento),
            };
            return match na_cpu {
                Some(endereco) => {
                    achado.memoria = Some((endereco, tamanho));
                    Preparo::EmMemoria { endereco, tamanho }
                },
                None => Preparo::ForaDaJanela { slot, no_barramento },
            };
        }
        slot = slot + largura;
    }
    Preparo::SemRegiao
}

/// The command that stops a device from answering for memory and ports while
/// its registers are measured: `pci_types::CommandRegister` without
/// `MEMORY_ENABLE` and `IO_ENABLE`, which are its bits 1 and 0, and with every
/// other bit as it is.
#[verifier::external_body]
fn sem_decodificador(comando: u16) -> (r: u16)
    ensures
        r == comando & 0xFFFC,
{
    let atual = pci_types::CommandRegister::from_bits_retain(comando);
    let partes = pci_types::CommandRegister::MEMORY_ENABLE | pci_types::CommandRegister::IO_ENABLE;
    (atual & !partes).bits()
}

/// The command that lets a device answer for memory:
/// `pci_types::CommandRegister` with `MEMORY_ENABLE`, which is its bit 1, and
/// with every other bit as it is.
#[verifier::external_body]
fn com_decodificador(comando: u16) -> (r: u16)
    ensures
        r == comando | 2,
{
    let atual = pci_types::CommandRegister::from_bits_retain(comando);
    (atual | pci_types::CommandRegister::MEMORY_ENABLE).bits()
}

/// The command to write before the registers of a device are measured.
pub fn comando_para_medir(comando: u16) -> (r: u16)
    ensures
        r == comando & 0xFFFC,
{
    sem_decodificador(comando)
}

/// The command to write once a device is prepared, where it has memory to
/// answer for. Writing to memory on its own is never allowed here.
pub fn comando_para_usar(comando: u16, p: Preparo) -> (r: Option<u16>)
    ensures
        r == match p {
            Preparo::EmMemoria { .. } => Some(comando | 2),
            _ => None,
        },
{
    match p {
        Preparo::EmMemoria { .. } => Some(com_decodificador(comando)),
        _ => None,
    }
}

/// How many devices there are on a bus.
pub const DISPOSITIVOS: u8 = 32;

/// How many functions there can be in a device.
pub const FUNCOES: u8 = 8;

/// The walk over the bus: which function is looked at next. Only the first bus
/// is walked.
pub struct Varredura {
    dispositivo: u8,
    funcao: u8,
}

/// The function that comes after the function `f` of the device `d`, where
/// `presente` says whether somebody answers there and `multiplas` whether it
/// says that the device has other functions. They are worth a look only if the
/// first one says so.
pub open spec fn seguinte(d: int, f: int, presente: bool, multiplas: bool) -> (int, int) {
    if f == 0 && !(presente && multiplas) {
        (d + 1, 0)
    } else if f + 1 < FUNCOES {
        (d, f + 1)
    } else {
        (d + 1, 0)
    }
}

impl Varredura {
    /// The device that is looked at.
    pub closed spec fn dispositivo(&self) -> int {
        self.dispositivo as int
    }

    /// The function that is looked at.
    pub closed spec fn funcao(&self) -> int {
        self.funcao as int
    }

    /// The walk is on the bus, or at its end.
    pub open spec fn wf(&self) -> bool {
        &&& 0 <= self.dispositivo() <= DISPOSITIVOS
        &&& 0 <= self.funcao() < FUNCOES
    }

    /// The walk before its first step.
    pub fn nova() -> (r: Varredura)
        ensures
            r.wf(),
            r.dispositivo() == 0,
            r.funcao() == 0,
    {
        Varredura { dispositivo: 0, funcao: 0 }
    }

    /// The address to look at, or `None` at the end.
    pub fn onde(&self) -> (r: Option<EnderecoPci>)
        requires
            self.wf(),
        ensures
            match r {
                Some(e) => e.barramento == 0 && e.dispositivo == self.dispositivo() && e.funcao
                    == self.funcao() && e.valido(),
                None => self.dispositivo() == DISPOSITIVOS,
            },
    {
        if self.dispositivo < DISPOSITIVOS {
            Some(
                EnderecoPci {
                    barramento: 0,
                    dispositivo: self.dispositivo,
                    funcao: self.funcao,
                },
            )
        } else {
            None
        }
    }

    /// Goes on, once it is known what is at the address.
    pub fn avancar(&mut self, presente: bool, multiplas: bool)
        requires
            old(self).wf(),
            old(self).dispositivo() < DISPOSITIVOS,
        ensures
            final(self).wf(),
            (final(self).dispositivo(), final(self).funcao()) == seguinte(
                old(self).dispositivo(),
                old(self).funcao(),
                presente,
                multiplas,
            ),
    {
        if self.funcao == 0 && !(presente && multiplas) {
            self.dispositivo = self.dispositivo + 1;
        } else if self.funcao + 1 < FUNCOES {
            self.funcao = self.funcao + 1;
        } else {
            self.dispositivo = self.dispositivo + 1;
            self.funcao = 0;
        }
    }
}

/// What is on the bus: who answers, and which devices say that they have other
/// functions.
pub struct Povoado {
    pub presente: spec_fn(int, int) -> bool,
    pub multiplas: spec_fn(int) -> bool,
}

impl Povoado {
    /// The function can be found: it is the first one of its device, or the
    /// first one is there and says that there are others.
    pub open spec fn existe(self, d: int, f: int) -> bool {
        &&& 0 <= d < DISPOSITIVOS
        &&& 0 <= f < FUNCOES
        &&& (self.presente)(d, f)
        &&& f == 0 || ((self.presente)(d, 0) && (self.multiplas)(d))
    }
}

/// What the walk finds from the function `f` of the device `d` on.
pub open spec fn percurso(b: Povoado, d: int, f: int) -> Seq<(int, int)>
    decreases (DISPOSITIVOS - d) * FUNCOES + (FUNCOES - f),
{
    if !(0 <= d < DISPOSITIVOS && 0 <= f < FUNCOES) {
        Seq::empty()
    } else {
        let presente = (b.presente)(d, f);
        let s = seguinte(d, f, presente, (b.multiplas)(d));
        if presente {
            seq![(d, f)] + percurso(b, s.0, s.1)
        } else {
            percurso(b, s.0, s.1)
        }
    }
}

/// The walk finds every function that can be found and nothing else, each once,
/// in the order of devices and of functions in a device.
pub proof fn lei_varredura_completa(b: Povoado)
    ensures
        forall|d: int, f: int| #[trigger]
            percurso(b, 0, 0).contains((d, f)) <==> b.existe(d, f),
        forall|i: int, j: int|
            0 <= i < j < percurso(b, 0, 0).len() ==> posicao(#[trigger] percurso(b, 0, 0)[i])
                < posicao(#[trigger] percurso(b, 0, 0)[j]),
{
    lemma_percurso(b, 0, 0);
}

/// Where a function is in the order of the walk.
pub open spec fn posicao(e: (int, int)) -> int {
    e.0 * FUNCOES + e.1
}

proof fn lemma_percurso(b: Povoado, d: int, f: int)
    requires
        0 <= d <= DISPOSITIVOS,
        0 <= f < FUNCOES,
        f == 0 || ((b.presente)(d, 0) && (b.multiplas)(d)),
    ensures
        forall|x: int, y: int| #[trigger]
            percurso(b, d, f).contains((x, y)) <==> b.existe(x, y) && posicao((x, y)) >= posicao(
                (d, f),
            ),
        forall|i: int, j: int|
            0 <= i < j < percurso(b, d, f).len() ==> posicao(#[trigger] percurso(b, d, f)[i])
                < posicao(#[trigger] percurso(b, d, f)[j]),
    decreases (DISPOSITIVOS - d) * FUNCOES + (FUNCOES - f),
{
    if d < DISPOSITIVOS {
        let presente = (b.presente)(d, f);
        let s = seguinte(d, f, presente, (b.multiplas)(d));
        lemma_percurso(b, s.0, s.1);
        let resto = percurso(b, s.0, s.1);
        let tudo = percurso(b, d, f);
        if presente {
            assert(tudo == seq![(d, f)] + resto);
            assert(tudo[0] == (d, f));
            assert forall|i: int, j: int| 0 <= i < j < tudo.len() implies posicao(
                #[trigger] tudo[i],
            ) < posicao(#[trigger] tudo[j]) by {
                assert(tudo[j] == resto[j - 1]);
                assert(resto.contains((tudo[j].0, tudo[j].1)));
                if i > 0 {
                    assert(tudo[i] == resto[i - 1]);
                }
            }
        }
        assert forall|x: int, y: int| #[trigger] tudo.contains((x, y)) <==> (b.existe(x, y)
            && posicao((x, y)) >= posicao((d, f))) by {
            if presente {
                assert(tudo.contains((x, y)) <==> (x, y) == (d, f) || resto.contains((x, y))) by {
                    if resto.contains((x, y)) {
                        let k = resto.index_of((x, y));
                        assert(tudo[k + 1] == (x, y));
                    }
                    if tudo.contains((x, y)) {
                        let k = tudo.index_of((x, y));
                        if k > 0 {
                            assert(resto[k - 1] == (x, y));
                        }
                    }
                }
            }
        }
    }
}

/// What was found on the bus.
pub struct Inventario {
    guardados: Vec<Dispositivo>,
    encontrados: usize,
}

/// How the walk ended.
#[derive(Clone, Copy, Debug, PartialEq, Eq, Structural)]
pub enum Relatorio {
    /// Everything that was found is in the inventory.
    Completo { encontrados: usize },
    /// Some of what was found did not fit.
    Cheio { encontrados: usize, guardados: usize },
}

impl Inventario {
    /// The devices that are kept, in the order of the walk.
    pub closed spec fn guardados(&self) -> Seq<Dispositivo> {
        self.guardados@
    }

    /// How many were found, with those that did not fit.
    pub closed spec fn encontrados(&self) -> int {
        self.encontrados as int
    }

    /// What is found is kept as long as there is room.
    pub open spec fn wf(&self) -> bool {
        self.guardados().len() == if self.encontrados() < MAX_DISPOSITIVOS {
            self.encontrados()
        } else {
            MAX_DISPOSITIVOS as int
        }
    }

    /// An empty inventory.
    pub fn novo() -> (r: Inventario)
        ensures
            r.wf(),
            r.guardados() == Seq::<Dispositivo>::empty(),
            r.encontrados() == 0,
    {
        Inventario { guardados: Vec::new(), encontrados: 0 }
    }

    /// Counts a device, and keeps it if there is room.
    pub fn guardar(&mut self, achado: Dispositivo)
        requires
            old(self).wf(),
            old(self).encontrados() < usize::MAX,
        ensures
            final(self).wf(),
            final(self).encontrados() == old(self).encontrados() + 1,
            final(self).guardados() == if old(self).encontrados() < MAX_DISPOSITIVOS {
                old(self).guardados().push(achado)
            } else {
                old(self).guardados()
            },
    {
        self.encontrados = self.encontrados + 1;
        if self.guardados.len() < MAX_DISPOSITIVOS {
            self.guardados.push(achado);
        }
    }

    /// How the walk ended.
    pub fn relatorio(&self) -> (r: Relatorio)
        requires
            self.wf(),
        ensures
            r == if self.encontrados() <= MAX_DISPOSITIVOS {
                Relatorio::Completo { encontrados: self.encontrados() as usize }
            } else {
                Relatorio::Cheio {
                    encontrados: self.encontrados() as usize,
                    guardados: MAX_DISPOSITIVOS,
                }
            },
    {
        if self.encontrados > self.guardados.len() {
            Relatorio::Cheio { encontrados: self.encontrados, guardados: self.guardados.len() }
        } else {
            Relatorio::Completo { encontrados: self.encontrados }
        }
    }
}

/// How many devices the walk found.
pub fn total(inventario: &Inventario) -> (r: usize)
    ensures
        r == inventario.encontrados(),
{
    inventario.encontrados
}

/// The devices that are kept.
pub fn com_dispositivos(inventario: &Inventario) -> (r: &[Dispositivo])
    ensures
        r@ == inventario.guardados(),
{
    inventario.guardados.as_slice()
}

/// An address of the bus is as far into the window as the address of the processor
/// that it is translated to; outside the window there is none.
pub proof fn lei_traduz(j: JanelaMmio, x: u64)
    ensures
        j.traduz(x) is Some <==> j.barramento <= x && x - j.barramento < j.tamanho,
        j.traduz(x) is Some ==> j.traduz(x)->0 - j.cpu == x - j.barramento,
{
}

/// The first multiple that is not below a value is a multiple, is not below it, and
/// there is none between.
pub proof fn lei_multiplo_acima(v: int, n: int, m: int)
    requires
        n > 0,
    ensures
        multiplo_acima(v, n) % n == 0,
        v <= multiplo_acima(v, n) < v + n,
        v <= m && m % n == 0 ==> multiplo_acima(v, n) <= m,
{
    let r = multiplo_acima(v, n);
    vstd::arithmetic::div_mod::lemma_fundamental_div_mod(v, n);
    vstd::arithmetic::div_mod::lemma_mod_bound(v, n);
    if v % n != 0 {
        let q = v / n;
        assert(r == n * (q + 1)) by (nonlinear_arith)
            requires
                v == n * q + v % n,
                r == v + n - v % n,
        ;
        assert(n * (q + 1) == (q + 1) * n) by (nonlinear_arith);
        vstd::arithmetic::div_mod::lemma_mod_multiples_basic(q + 1, n);
    }
    if v <= m && m % n == 0 && m < r {
        vstd::arithmetic::div_mod::lemma_fundamental_div_mod(m, n);
        let k = m / n;
        let q = v / n;
        assert(false) by (nonlinear_arith)
            requires
                m == n * k,
                v == n * q + v % n,
                0 <= v % n < n,
                v <= m,
                m < r,
                r == if v % n == 0 {
                    v
                } else {
                    v + n - v % n
                },
                n > 0,
        ;
    }
}

/// What is offered to a region: an address at or after the first free one, a
/// multiple of its size, with the whole region before the end of the window, and the
/// first such; nothing where there is none or where the size is no power of two.
pub proof fn lei_oferta(j: JanelaMmio, proximo: int, tamanho: u64, outro: int)
    ensures
        oferta_em(j, proximo, tamanho) is Some ==> ({
            let e = oferta_em(j, proximo, tamanho)->0;
            &&& proximo <= e
            &&& e % tamanho as int == 0
            &&& e + tamanho <= j.barramento + j.tamanho
            &&& proximo <= outro && outro % tamanho as int == 0 ==> e <= outro
        }),
        oferta_em(j, proximo, tamanho) is None ==> tamanho == 0 || !potencia_de_dois(tamanho)
            || j.barramento + j.tamanho > u64::MAX || !(proximo <= outro && outro % tamanho as int == 0
            && outro + tamanho <= j.barramento + j.tamanho),
{
    if tamanho > 0 {
        lei_multiplo_acima(proximo, tamanho as int, outro);
    }
}

/// The place `k` is one that the walk over the registers from `slot` on looks at: a
/// register of 64 bits takes two places.
pub open spec fn olhado(lidos: Seq<Registro>, slot: int, k: int) -> bool
    decreases SLOTS + 1 - slot,
{
    0 <= slot < 6 && slot < lidos.len() && (k == slot || olhado(
        lidos,
        slot + if lidos[slot] is Memoria64 {
            2int
        } else {
            1
        },
        k,
    ))
}

/// Every register that asks for memory is answered: it gets an address, or is told
/// that there is no room. No other is.
pub proof fn lei_todo_registro_e_atendido(
    lidos: Seq<Registro>,
    slot: int,
    janela: JanelaMmio,
    proximo: int,
    k: int,
)
    ensures
        ({
            let s = atribuidos(lidos, slot, janela, proximo);
            let pede = match lidos[k] {
                Registro::Memoria32 { endereco, tamanho } => endereco == 0,
                Registro::Memoria64 { endereco, tamanho } => endereco == 0,
                Registro::Outro => false,
            };
            olhado(lidos, slot, k) && pede <==> exists|i: int| 0 <= i < s.len() && (#[trigger] s[i]).0 == k
        }),
    decreases SLOTS + 1 - slot,
{
    let s = atribuidos(lidos, slot, janela, proximo);
    if 0 <= slot < SLOTS && slot < lidos.len() {
        let depois = slot + lidos[slot].largura();
        let p = match lidos[slot].pede() {
            None => proximo,
            Some(t) => match oferta_em(janela, proximo, t) {
                Some(inicio) => inicio + t,
                None => proximo,
            },
        };
        lei_todo_registro_e_atendido(lidos, depois, janela, p, k);
        let r = atribuidos(lidos, depois, janela, p);
        lemma_depois_do_lugar(lidos, depois, janela, p);
        lemma_olhado_adiante(lidos, depois, k);
        if lidos[slot].pede() is None {
            assert(s == r);
        } else {
            assert(s[0].0 == slot);
            assert forall|i: int| 0 <= i < r.len() implies s[i + 1] == #[trigger] r[i] by {}
            if exists|i: int| 0 <= i < s.len() && (#[trigger] s[i]).0 == k {
                let i = choose|i: int| 0 <= i < s.len() && (#[trigger] s[i]).0 == k;
                if i > 0 {
                    assert(r[i - 1].0 == k);
                }
            }
            if exists|i: int| 0 <= i < r.len() && (#[trigger] r[i]).0 == k {
                let i = choose|i: int| 0 <= i < r.len() && (#[trigger] r[i]).0 == k;
                assert(s[i + 1].0 == k);
            }
        }
    }
}

proof fn lemma_depois_do_lugar(lidos: Seq<Registro>, slot: int, janela: JanelaMmio, proximo: int)
    ensures
        ({
            let s = atribuidos(lidos, slot, janela, proximo);
            forall|i: int| 0 <= i < s.len() ==> (#[trigger] s[i]).0 >= slot
        }),
    decreases SLOTS + 1 - slot,
{
    if 0 <= slot < SLOTS && slot < lidos.len() {
        let depois = slot + lidos[slot].largura();
        let p = match lidos[slot].pede() {
            None => proximo,
            Some(t) => match oferta_em(janela, proximo, t) {
                Some(inicio) => inicio + t,
                None => proximo,
            },
        };
        lemma_depois_do_lugar(lidos, depois, janela, p);
        let s = atribuidos(lidos, slot, janela, proximo);
        let r = atribuidos(lidos, depois, janela, p);
        assert forall|i: int| 0 <= i < s.len() implies (#[trigger] s[i]).0 >= slot by {
            if lidos[slot].pede() is None {
                assert(s[i] == r[i]);
            } else if i > 0 {
                assert(s[i] == r[i - 1]);
            }
        }
    }
}

proof fn lemma_olhado_adiante(lidos: Seq<Registro>, slot: int, k: int)
    ensures
        olhado(lidos, slot, k) ==> slot <= k < 6 && k < lidos.len(),
    decreases SLOTS + 1 - slot,
{
    if 0 <= slot < 6 && slot < lidos.len() {
        lemma_olhado_adiante(
            lidos,
            slot + if lidos[slot] is Memoria64 {
                2int
            } else {
                1
            },
            k,
        );
    }
}

/// A device is where the first of its registers that has an address says; without
/// any it has no region.
pub proof fn lei_primeira_regiao(lidos: Seq<Registro>, slot: int, k: int)
    ensures
        ({
            let tem = match lidos[k] {
                Registro::Memoria32 { endereco, tamanho } => endereco != 0,
                Registro::Memoria64 { endereco, tamanho } => endereco != 0,
                Registro::Outro => false,
            };
            let r = primeira_regiao(lidos, slot);
            &&& olhado(lidos, slot, k) && tem ==> r is Some && (r->0).0 <= k
            &&& r is Some ==> olhado(lidos, slot, (r->0).0) && match lidos[(r->0).0] {
                Registro::Memoria32 { endereco, tamanho } => endereco == (r->0).1 && tamanho == (r->0).2,
                Registro::Memoria64 { endereco, tamanho } => endereco == (r->0).1 && tamanho == (r->0).2,
                Registro::Outro => false,
            } && (r->0).1 != 0
        }),
    decreases SLOTS + 1 - slot,
{
    if 0 <= slot < SLOTS && slot < lidos.len() {
        lei_primeira_regiao(lidos, slot + lidos[slot].largura(), k);
        lemma_olhado_adiante(lidos, slot + lidos[slot].largura(), k);
    }
}

/// Where a device ends up: where the processor sees its first region, which without a
/// window is where the bus does.
pub proof fn lei_preparado(lidos: Seq<Registro>, janela: Option<JanelaMmio>)
    ensures
        ({
            let r = primeira_regiao(lidos, 0);
            let p = preparado(lidos, janela);
            &&& r is None <==> p is SemRegiao
            &&& r is Some && janela is None ==> p is EmMemoria && p->endereco == (r->0).1
                && p->tamanho == (r->0).2
            &&& r is Some && janela is Some && janela->0.barramento <= (r->0).1 && (r->0).1
                < janela->0.barramento + janela->0.tamanho && janela->0.cpu + janela->0.tamanho
                <= u64::MAX ==> p is EmMemoria && p->endereco - janela->0.cpu == (r->0).1
                - janela->0.barramento && p->tamanho == (r->0).2
            &&& r is Some && janela is Some && !(janela->0.barramento <= (r->0).1 && (r->0).1
                < janela->0.barramento + janela->0.tamanho) ==> p is ForaDaJanela && p->no_barramento
                == (r->0).1
        }),
{
}

/// Somebody answers at an address exactly where the vendor is not all ones, and is
/// then known by where they are and what they say.
pub proof fn lei_identificado(e: EnderecoPci, i: Identidade)
    ensures
        identificado(e, i) is None <==> i.fabricante == 0xFFFF,
        identificado(e, i) is Some ==> ({
            let d = identificado(e, i)->0;
            &&& d.barramento == e.barramento && d.dispositivo == e.dispositivo && d.funcao == e.funcao
            &&& d.fabricante == i.fabricante && d.modelo == i.modelo
            &&& d.classe == i.classe && d.subclasse == i.subclasse
            &&& d.interface == i.interface && d.revisao == i.revisao
            &&& d.memoria is None
        }),
{
}

/// What a class of device does: every network card and every screen, whatever its
/// subclass; the disks, bridges and controllers of USB by theirs; nothing is known of
/// any other.
pub proof fn lei_o_que_faz(classe: u8, subclasse: u8)
    ensures
        classe == 2 ==> faz(classe, subclasse) == "rede",
        classe == 3 ==> faz(classe, subclasse) == "video",
        classe == 1 ==> faz(classe, subclasse) == (if subclasse == 0 {
            "disco-scsi"
        } else if subclasse == 1 {
            "disco-ide"
        } else if subclasse == 6 {
            "disco-sata"
        } else if subclasse == 8 {
            "disco-nvme"
        } else {
            "outro"
        }),
        classe == 6 ==> faz(classe, subclasse) == (if subclasse == 0 {
            "ponte-hospedeira"
        } else if subclasse == 4 {
            "ponte-pci"
        } else {
            "outro"
        }),
        classe == 12 ==> faz(classe, subclasse) == (if subclasse == 3 {
            "usb"
        } else {
            "outro"
        }),
        classe == 0 || classe == 4 || classe == 5 || 6 < classe < 12 || classe > 12 ==> faz(
            classe,
            subclasse,
        ) == "outro",
{
}

} // verus!
