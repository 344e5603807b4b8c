//! Who answers for an address on the network: the ARP protocol over Ethernet.
use vstd::prelude::*;

use crate::texto::iguais;

verus! {

/// Size of an ARP frame over Ethernet.
pub const TAMANHO_DO_QUADRO: usize = 42;

/// Size of the address of a network card.
pub const TAMANHO_DO_MAC: usize = 6;

/// Size of an IPv4 address.
pub const TAMANHO_DO_IP: usize = 4;

/// How many times the reply is looked for before giving up.
pub const VOLTAS_PROCURANDO: u32 = 2_000_000;

/// Where the card that the frame is for is written.
pub const DESTINO: usize = 0;

/// Where it is written what the frame carries.
pub const TIPO: usize = 12;

/// Where it is written whether this is a question or a reply.
pub const OPERACAO: usize = 20;

/// Where the card that speaks is written.
pub const MAC_DE_ORIGEM: usize = 22;

/// Where the address of who speaks is written.
pub const IP_DE_ORIGEM: usize = 28;

/// Where the card that is addressed is written.
pub const MAC_DE_DESTINO: usize = 32;

/// Where the address of who is addressed is written.
pub const IP_DE_DESTINO: usize = 38;

/// The frame with the operation `op` from a card to another: the Ethernet
/// header, then what tells ARP for Ethernet over IPv4, then the addresses of
/// who sends and who is addressed.
pub open spec fn quadro(
    para: Seq<u8>,
    op: u8,
    mac: Seq<u8>,
    ip: Seq<u8>,
    alvo: Seq<u8>,
    procurado: Seq<u8>,
) -> Seq<u8> {
    para + mac + seq![0x08u8, 0x06u8] + seq![0x00u8, 0x01u8, 0x08u8, 0x00u8, 6u8, 4u8, 0x00u8, op]
        + mac + ip + alvo + procurado
}

/// The frame that asks everybody who answers for `procurado`. The address that
/// the reply fills in is all zeros.
pub open spec fn pedido(mac: Seq<u8>, ip: Seq<u8>, procurado: Seq<u8>) -> Seq<u8> {
    quadro(
        Seq::new(TAMANHO_DO_MAC as nat, |i: int| 0xFFu8),
        1,
        mac,
        ip,
        Seq::new(TAMANHO_DO_MAC as nat, |i: int| 0u8),
        procurado,
    )
}

/// Appends bytes to a frame.
fn acrescentar(q: &mut Vec<u8>, bytes: &[u8])
    ensures
        final(q)@ == old(q)@ + bytes@,
{
    let ghost antes = q@;
    let mut i: usize = 0;
    while i < bytes.len()
        invariant
            i <= bytes@.len(),
            q@ == antes + bytes@.take(i as int),
        decreases bytes@.len() - i,
    {
        q.push(bytes[i]);
        proof {
            assert(q@ =~= antes + bytes@.take(i + 1));
        }
        i = i + 1;
    }
    proof {
        assert(bytes@.take(bytes@.len() as int) =~= bytes@);
    }
}

/// The frame that asks everybody who answers for `procurado`.
pub fn montar_pedido(nosso_mac: &[u8; 6], nosso_ip: &[u8; 4], procurado: &[u8; 4]) -> (r: Vec<u8>)
    ensures
        r@ == pedido(nosso_mac@, nosso_ip@, procurado@),
        r@.len() == TAMANHO_DO_QUADRO,
{
    let mut q: Vec<u8> = Vec::new();
    let todos: [u8; 6] = [0xFF, 0xFF, 0xFF, 0xFF, 0xFF, 0xFF];
    let ninguem: [u8; 6] = [0, 0, 0, 0, 0, 0];
    let tipo: [u8; 2] = [0x08, 0x06];
    let formato: [u8; 8] = [0x00, 0x01, 0x08, 0x00, 6, 4, 0x00, 0x01];
    acrescentar(&mut q, &todos);
    acrescentar(&mut q, nosso_mac);
    acrescentar(&mut q, &tipo);
    acrescentar(&mut q, &formato);
    acrescentar(&mut q, nosso_mac);
    acrescentar(&mut q, nosso_ip);
    acrescentar(&mut q, &ninguem);
    acrescentar(&mut q, procurado);
    proof {
        assert(todos@ =~= Seq::new(6, |i: int| 0xFFu8));
        assert(ninguem@ =~= Seq::new(6, |i: int| 0u8));
        assert(tipo@ =~= seq![0x08u8, 0x06u8]);
        assert(formato@ =~= seq![0x00u8, 0x01u8, 0x08u8, 0x00u8, 6u8, 4u8, 0x00u8, 1u8]);
        assert(q@ =~= pedido(nosso_mac@, nosso_ip@, procurado@));
    }
    q
}

/// A field of a frame.
pub open spec fn campo(q: Seq<u8>, em: usize, n: usize) -> Seq<u8> {
    q.subrange(em as int, em + n)
}

/// The frame is an ARP reply of who answers for `procurado`.
pub open spec fn e_resposta(q: Seq<u8>, procurado: Seq<u8>) -> bool {
    &&& q.len() >= TAMANHO_DO_QUADRO
    &&& campo(q, TIPO, 2) == seq![0x08u8, 0x06u8]
    &&& campo(q, OPERACAO, 2) == seq![0x00u8, 0x02u8]
    &&& campo(q, IP_DE_ORIGEM, TAMANHO_DO_IP) == procurado
}

/// What a reply says: the address of the card, or what does not match.
pub open spec fn veredito(q: Seq<u8>, nosso_ip: Seq<u8>, nosso_mac: Seq<u8>) -> Result<
    Seq<u8>,
    &'static str,
> {
    let dono = campo(q, MAC_DE_ORIGEM, TAMANHO_DO_MAC);
    if campo(q, IP_DE_DESTINO, TAMANHO_DO_IP) != nosso_ip {
        Err("a resposta ARP e para outro endereco IP")
    } else if campo(q, MAC_DE_DESTINO, TAMANHO_DO_MAC) != nosso_mac {
        Err("a resposta ARP e para outra placa")
    } else if campo(q, DESTINO, TAMANHO_DO_MAC) != nosso_mac {
        Err("o quadro Ethernet da resposta e para outra placa")
    } else if forall|i: int| 0 <= i < TAMANHO_DO_MAC ==> dono[i] == 0 {
        Err("a resposta ARP anuncia um endereco todo zeros")
    } else {
        Ok(dono)
    }
}

/// The field of a frame has these bytes?
fn tem(q: &[u8], em: usize, valor: &[u8]) -> (r: bool)
    requires
        em + valor@.len() <= q@.len(),
    ensures
        r == (q@.subrange(em as int, em + valor@.len()) == valor@),
{
    let total: usize = q.len();
    proof {
        assert(em + valor@.len() <= total);
    }
    iguais(vstd::slice::slice_subrange(q, em, em + valor.len()), valor)
}

/// What a frame that arrived says: `None` where it is not the reply that is
/// waited for, which is no failure.
pub fn conferir(q: &[u8], procurado: &[u8; 4], nosso_ip: &[u8; 4], nosso_mac: &[u8; 6]) -> (r: Option<
    Result<[u8; 6], &'static str>,
>)
    ensures
        match r {
            None => !e_resposta(q@, procurado@),
            Some(Ok(dono)) => e_resposta(q@, procurado@) && veredito(q@, nosso_ip@, nosso_mac@)
                == Ok::<Seq<u8>, &'static str>(dono@),
            Some(Err(motivo)) => e_resposta(q@, procurado@) && veredito(
                q@,
                nosso_ip@,
                nosso_mac@,
            ) == Err::<Seq<u8>, &'static str>(motivo),
        },
{
    let arp: [u8; 2] = [0x08, 0x06];
    let resposta: [u8; 2] = [0x00, 0x02];
    proof {
        assert(arp@ =~= seq![0x08u8, 0x06u8]);
        assert(resposta@ =~= seq![0x00u8, 0x02u8]);
    }
    if q.len() < TAMANHO_DO_QUADRO || !tem(q, TIPO, &arp) || !tem(q, OPERACAO, &resposta) || !tem(
        q,
        IP_DE_ORIGEM,
        procurado,
    ) {
        return None;
    }
    if !tem(q, IP_DE_DESTINO, nosso_ip) {
        return Some(Err("a resposta ARP e para outro endereco IP"));
    }
    if !tem(q, MAC_DE_DESTINO, nosso_mac) {
        return Some(Err("a resposta ARP e para outra placa"));
    }
    if !tem(q, DESTINO, nosso_mac) {
        return Some(Err("o quadro Ethernet da resposta e para outra placa"));
    }
    let dono: [u8; 6] = [
        q[MAC_DE_ORIGEM],
        q[MAC_DE_ORIGEM + 1],
        q[MAC_DE_ORIGEM + 2],
        q[MAC_DE_ORIGEM + 3],
        q[MAC_DE_ORIGEM + 4],
        q[MAC_DE_ORIGEM + 5],
    ];
    let ghost campo_dono = campo(q@, MAC_DE_ORIGEM, TAMANHO_DO_MAC);
    proof {
        assert(dono@ =~= campo_dono);
        assert(campo_dono[0] == dono@[0] && campo_dono[1] == dono@[1] && campo_dono[2] == dono@[2]
            && campo_dono[3] == dono@[3] && campo_dono[4] == dono@[4] && campo_dono[5] == dono@[5]);
    }
    if dono[0] == 0 && dono[1] == 0 && dono[2] == 0 && dono[3] == 0 && dono[4] == 0 && dono[5]
        == 0 {
        return Some(Err("a resposta ARP anuncia um endereco todo zeros"));
    }
    Some(Ok(dono))
}

/// How far a question is.
#[derive(Clone, Copy, Debug, PartialEq, Eq)]
pub enum Fase {
    /// The address of our card is not known yet.
    SemEndereco,
    /// The question is being sent.
    Perguntando,
    /// The reply is looked for; so many looks are left.
    Procurando(u32),
}

/// A question to the network: who answers for an address?
pub struct Resolucao {
    procurado: [u8; 4],
    nosso_ip: [u8; 4],
    nosso_mac: [u8; 6],
    fase: Fase,
}

/// What the network card did.
#[derive(Clone, Copy, Debug)]
pub enum Evento<'a> {
    /// There is no card.
    SemPlaca,
    /// The card has this address, or none.
    Endereco(Option<[u8; 6]>),
    /// The card sent the question, or refused it.
    Transmitido(Result<(), &'static str>),
    /// The card received this frame, or nothing.
    Recebido(Option<&'a [u8]>),
}

/// What to do next.
pub enum Acao {
    /// Send this frame.
    Transmitir(Vec<u8>),
    /// Look whether a frame arrived.
    Receber,
    /// Nothing: the question has an answer.
    Fim(Result<[u8; 6], &'static str>),
}

impl Resolucao {
    pub closed spec fn procurado(&self) -> Seq<u8> {
        self.procurado@
    }

    pub closed spec fn nosso_ip(&self) -> Seq<u8> {
        self.nosso_ip@
    }

    pub closed spec fn nosso_mac(&self) -> Seq<u8> {
        self.nosso_mac@
    }

    pub closed spec fn fase(&self) -> Fase {
        self.fase
    }

    /// A look is left while the reply is looked for.
    pub open spec fn wf(&self) -> bool {
        &&& self.procurado().len() == TAMANHO_DO_IP
        &&& self.nosso_ip().len() == TAMANHO_DO_IP
        &&& self.nosso_mac().len() == TAMANHO_DO_MAC
        &&& self.fase() matches Fase::Procurando(n) ==> n > 0
    }

    /// Only what the card was asked can come next. That there is no card can
    /// come at any time.
    pub open spec fn espera(&self, e: Evento<'_>) -> bool {
        match e {
            Evento::SemPlaca => true,
            Evento::Endereco(_) => self.fase() is SemEndereco,
            Evento::Transmitido(_) => self.fase() is Perguntando,
            Evento::Recebido(_) => self.fase() is Procurando,
        }
    }

    /// The question that is announced with `nosso_ip` as its origin.
    pub fn nova(procurado: [u8; 4], nosso_ip: [u8; 4]) -> (r: Resolucao)
        ensures
            r.wf(),
            r.procurado() == procurado@,
            r.nosso_ip() == nosso_ip@,
            r.fase() == Fase::SemEndereco,
    {
        Resolucao { procurado, nosso_ip, nosso_mac: [0, 0, 0, 0, 0, 0], fase: Fase::SemEndereco }
    }
}

/// The card keeps the question as it is.
pub open spec fn mesma_pergunta(a: &Resolucao, b: &Resolucao) -> bool {
    &&& a.procurado() == b.procurado()
    &&& a.nosso_ip() == b.nosso_ip()
}

/// Goes on with a question, given what the network card did.
///
/// A frame that is not the reply only costs a look.
pub fn resolver(p: &mut Resolucao, evento: Evento<'_>) -> (r: Acao)
    requires
        old(p).wf(),
        old(p).espera(evento),
    ensures
        mesma_pergunta(final(p), old(p)),
        final(p).wf(),
        r is Fim ==> *final(p) == *old(p),
        match evento {
            Evento::SemPlaca => r == Acao::Fim(Err("nao ha placa de rede nesta maquina")),
            Evento::Endereco(None) => r == Acao::Fim(Err("a placa nao publicou endereco")),
            Evento::Endereco(Some(mac)) => {
                &&& r matches Acao::Transmitir(q) && q@ == pedido(
                    mac@,
                    old(p).nosso_ip(),
                    old(p).procurado(),
                )
                &&& final(p).nosso_mac() == mac@
                &&& final(p).fase() == Fase::Perguntando
            },
            Evento::Transmitido(Err(motivo)) => r == Acao::Fim(Err(motivo)),
            Evento::Transmitido(Ok(_)) => {
                &&& r is Receber
                &&& final(p).nosso_mac() == old(p).nosso_mac()
                &&& final(p).fase() == Fase::Procurando(VOLTAS_PROCURANDO)
            },
            Evento::Recebido(q) => if q is Some && e_resposta((q->0)@, old(p).procurado()) {
                r matches Acao::Fim(fim) && match veredito(
                    (q->0)@,
                    old(p).nosso_ip(),
                    old(p).nosso_mac(),
                ) {
                    Ok(dono) => fim matches Ok(d) && d@ == dono,
                    Err(motivo) => fim matches Err(m) && m == motivo,
                }
            } else if old(p).fase()->Procurando_0 == 1 {
                r == Acao::Fim(Err("nenhuma resposta ARP chegou"))
            } else {
                &&& r is Receber
                &&& final(p).nosso_mac() == old(p).nosso_mac()
                &&& final(p).fase() == Fase::Procurando(
                    (old(p).fase()->Procurando_0 - 1) as u32,
                )
            },
        },
{
    match evento {
        Evento::SemPlaca => Acao::Fim(Err("nao ha placa de rede nesta maquina")),
        Evento::Endereco(None) => Acao::Fim(Err("a placa nao publicou endereco")),
        Evento::Endereco(Some(mac)) => {
            p.nosso_mac = mac;
            p.fase = Fase::Perguntando;
            Acao::Transmitir(montar_pedido(&mac, &p.nosso_ip, &p.procurado))
        },
        Evento::Transmitido(Err(motivo)) => Acao::Fim(Err(motivo)),
        Evento::Transmitido(Ok(_)) => {
            p.fase = Fase::Procurando(VOLTAS_PROCURANDO);
            Acao::Receber
        },
        Evento::Recebido(q) => {
            if let Some(bytes) = q {
                if let Some(fim) = conferir(bytes, &p.procurado, &p.nosso_ip, &p.nosso_mac) {
                    return Acao::Fim(fim);
                }
            }
            match p.fase {
                Fase::Procurando(n) => if n > 1 {
                    p.fase = Fase::Procurando(n - 1);
                    Acao::Receber
                } else {
                    Acao::Fim(Err("nenhuma resposta ARP chegou"))
                },
                _ => Acao::Receber,
            }
        },
    }
}

/// The reply of the card `dono` to a question is accepted, and says `dono`.
pub proof fn lei_resposta_honesta_e_aceita(
    procurado: Seq<u8>,
    nosso_ip: Seq<u8>,
    nosso_mac: Seq<u8>,
    dono: Seq<u8>,
)
    requires
        procurado.len() == TAMANHO_DO_IP,
        nosso_ip.len() == TAMANHO_DO_IP,
        nosso_mac.len() == TAMANHO_DO_MAC,
        dono.len() == TAMANHO_DO_MAC,
        exists|i: int| 0 <= i < TAMANHO_DO_MAC && dono[i] != 0,
    ensures
        ({
            let q = quadro(nosso_mac, 2, dono, procurado, nosso_mac, nosso_ip);
            &&& q.len() == TAMANHO_DO_QUADRO
            &&& e_resposta(q, procurado)
            &&& veredito(q, nosso_ip, nosso_mac) == Ok::<Seq<u8>, &'static str>(dono)
        }),
{
    let q = quadro(nosso_mac, 2, dono, procurado, nosso_mac, nosso_ip);
    assert(campo(q, TIPO, 2) =~= seq![0x08u8, 0x06u8]);
    assert(campo(q, OPERACAO, 2) =~= seq![0x00u8, 0x02u8]);
    assert(campo(q, IP_DE_ORIGEM, 4) =~= procurado);
    assert(campo(q, IP_DE_DESTINO, 4) =~= nosso_ip);
    assert(campo(q, MAC_DE_DESTINO, 6) =~= nosso_mac);
    assert(campo(q, DESTINO, 6) =~= nosso_mac);
    assert(campo(q, MAC_DE_ORIGEM, 6) =~= dono);
}

/// Our own question, sent back, is not taken for a reply.
pub proof fn lei_pedido_nao_e_resposta(mac: Seq<u8>, ip: Seq<u8>, procurado: Seq<u8>, outro: Seq<u8>)
    requires
        mac.len() == TAMANHO_DO_MAC,
        ip.len() == TAMANHO_DO_IP,
        procurado.len() == TAMANHO_DO_IP,
    ensures
        !e_resposta(pedido(mac, ip, procurado), outro),
{
    let q = pedido(mac, ip, procurado);
    assert(q[21] == 1);
    assert(campo(q, OPERACAO, 2)[1] == q[21]);
}

/// The bytes of the question, field by field: to everybody, from this card, ARP,
/// for Ethernet over IPv4, a request, from this card and this address, to a card
/// that is not known, for the address that is looked for.
pub proof fn lei_bytes_do_pedido(mac: Seq<u8>, ip: Seq<u8>, procurado: Seq<u8>)
    requires
        mac.len() == 6,
        ip.len() == 4,
        procurado.len() == 4,
    ensures
        ({
            let q = pedido(mac, ip, procurado);
            &&& q.len() == 42
            &&& forall|i: int| 0 <= i < 6 ==> #[trigger] q[i] == 0xFF
            &&& q.subrange(6, 12) == mac
            &&& q[12] == 0x08 && q[13] == 0x06
            &&& q[14] == 0 && q[15] == 1
            &&& q[16] == 0x08 && q[17] == 0
            &&& q[18] == 6 && q[19] == 4
            &&& q[20] == 0 && q[21] == 1
            &&& q.subrange(22, 28) == mac
            &&& q.subrange(28, 32) == ip
            &&& forall|i: int| 32 <= i < 38 ==> #[trigger] q[i] == 0
            &&& q.subrange(38, 42) == procurado
        }),
{
    let q = pedido(mac, ip, procurado);
    assert(q.subrange(6, 12) =~= mac);
    assert(q.subrange(22, 28) =~= mac);
    assert(q.subrange(28, 32) =~= ip);
    assert(q.subrange(38, 42) =~= procurado);
}

/// A frame is a reply of who is looked for exactly where it is long enough, is ARP,
/// is a reply, and comes from that address.
pub proof fn lei_que_e_resposta(q: Seq<u8>, procurado: Seq<u8>)
    requires
        procurado.len() == 4,
    ensures
        e_resposta(q, procurado) <==> q.len() >= 42 && q[12] == 0x08 && q[13] == 0x06 && q[20] == 0
            && q[21] == 2 && q[28] == procurado[0] && q[29] == procurado[1] && q[30] == procurado[2]
            && q[31] == procurado[3],
{
    if q.len() >= 42 {
        let t = q.subrange(12, 14);
        let o = q.subrange(20, 22);
        let s = q.subrange(28, 32);
        assert(t[0] == q[12] && t[1] == q[13] && o[0] == q[20] && o[1] == q[21]);
        assert(s[0] == q[28] && s[1] == q[29] && s[2] == q[30] && s[3] == q[31]);
        if q[12] == 0x08 && q[13] == 0x06 {
            assert(t =~= seq![0x08u8, 0x06u8]);
        }
        if q[20] == 0 && q[21] == 2 {
            assert(o =~= seq![0x00u8, 0x02u8]);
        }
        if s[0] == procurado[0] && s[1] == procurado[1] && s[2] == procurado[2] && s[3]
            == procurado[3] {
            assert(s =~= procurado);
        }
    }
}

/// A reply is believed exactly where it is for this address and this card, inside
/// and outside, and names a card: the six bytes from 22 on.
pub proof fn lei_quando_se_acredita(q: Seq<u8>, nosso_ip: Seq<u8>, nosso_mac: Seq<u8>)
    requires
        q.len() >= 42,
    ensures
        veredito(q, nosso_ip, nosso_mac) is Ok ==> veredito(q, nosso_ip, nosso_mac)->Ok_0
            == q.subrange(22, 28),
        veredito(q, nosso_ip, nosso_mac) is Ok <==> q.subrange(38, 42) == nosso_ip && q.subrange(
            32,
            38,
        ) == nosso_mac && q.subrange(0, 6) == nosso_mac && !(q[22] == 0 && q[23] == 0 && q[24] == 0
            && q[25] == 0 && q[26] == 0 && q[27] == 0),
{
    let dono = q.subrange(22, 28);
    assert(dono[0] == q[22] && dono[1] == q[23] && dono[2] == q[24] && dono[3] == q[25] && dono[4]
        == q[26] && dono[5] == q[27]);
}

/// Whatever comes, the question stays the same: who is looked for, and from which
/// address.
pub proof fn lei_mesma_pergunta(a: &Resolucao, b: &Resolucao)
    requires
        mesma_pergunta(a, b),
    ensures
        a.procurado() == b.procurado(),
        a.nosso_ip() == b.nosso_ip(),
{
}

} // verus!
