//! The agent's channel: bytes come in, lines are put together, requests are
//! answered.
use vstd::prelude::*;

use crate::agent::commands::{executar, Instantaneo};
use crate::agent::json::JsonWriter;
use crate::agent::leitura::Json;
use crate::agent::protocol::{envelope_erro, envelope_ok, Requisicao, RpcError};
use crate::agent::registry::{encontrar, validar, Handler};
use crate::tarefas::entrada::{descartar_ate_nova_linha, perdidos, Entrada, NOVA_LINHA};

pub mod commands;
pub mod json;
pub mod leitura;
pub mod protocol;
pub mod registry;
pub mod respostas;

verus! {

/// How long a frame may stand still before it is given up, in ticks.
pub const TETO_DO_QUADRO_EM_TIQUES: u64 = 200;

/// The longest request.
pub const LINHA_MAX: usize = 2048;

/// The byte that some clients send before the end of a line.
pub const RETORNO: u8 = 13;

/// What a byte asks for.
pub enum Efeito {
    Nada,
    /// Answer with an error that belongs to no request.
    Responder(RpcError),
    /// Handle this line.
    Processar(Vec<u8>),
}

/// What a byte asks for.
pub enum Pedido {
    Nada,
    Responder(RpcError),
    Processar(Seq<u8>),
}

impl View for Efeito {
    type V = Pedido;

    open spec fn view(&self) -> Pedido {
        match self {
            Efeito::Nada => Pedido::Nada,
            Efeito::Responder(e) => Pedido::Responder(*e),
            Efeito::Processar(v) => Pedido::Processar(v@),
        }
    }
}

/// Puts lines together out of a stream of bytes.
pub struct Montador {
    buffer: Vec<u8>,
    /// How many bytes the channel had lost when this frame began.
    perdas_ao_abrir: u64,
    /// When the last byte of this frame came, in ticks.
    ultimo_byte_em: u64,
    /// Bytes of this frame were lost, and the client was told.
    danificado: bool,
    /// The line is too long: the rest of it is thrown away.
    estourou: bool,
}

/// A frame that is being put together.
#[verifier::ext_equal]
pub struct Quadro {
    pub bytes: Seq<u8>,
    pub perdas: u64,
    pub ultimo: u64,
    pub danificado: bool,
    pub estourou: bool,
}

impl Quadro {
    /// A frame that begins now.
    pub open spec fn novo(perdas: u64, agora: u64) -> Quadro {
        Quadro {
            bytes: Seq::empty(),
            perdas,
            ultimo: agora,
            danificado: false,
            estourou: false,
        }
    }

    /// Something of the frame has come: bytes that are kept, or bytes that are
    /// being thrown away.
    pub open spec fn aberto(self) -> bool {
        self.bytes.len() > 0 || self.estourou || self.danificado
    }

    /// The frame stood still for too long.
    pub open spec fn abandonado(self, agora: u64) -> bool {
        self.aberto() && agora - self.ultimo > TETO_DO_QUADRO_EM_TIQUES
    }

    /// The frame that the next byte belongs to.
    pub open spec fn vigente(self, agora: u64, perdidos: u64) -> Quadro {
        if self.abandonado(agora) {
            Quadro::novo(perdidos, agora)
        } else {
            Quadro { ultimo: agora, ..self }
        }
    }

    /// Bytes were lost since the frame began, and nobody was told yet.
    pub open spec fn dano_novo(self, perdidos: u64) -> bool {
        !self.danificado && perdidos != self.perdas
    }
}

/// What one byte does: the frame after it, whether it closed a line, and what
/// it asks for. `perdidos` is how many bytes the channel has lost, and `fila`
/// what waits behind this byte.
pub open spec fn passo(
    m: Quadro,
    byte: u8,
    agora: u64,
    perdidos: u64,
    fila: Seq<u8>,
) -> (Quadro, bool, Pedido) {
    let q = m.vigente(agora, perdidos);
    if q.dano_novo(perdidos) {
        let fim = byte == NOVA_LINHA || fila.contains(NOVA_LINHA);
        (
            if fim {
                Quadro::novo(perdidos, agora)
            } else {
                Quadro { bytes: Seq::empty(), estourou: false, danificado: true, ..q }
            },
            fim,
            Pedido::Responder(RpcError::entrada_perdida_spec()),
        )
    } else if byte == NOVA_LINHA {
        (
            Quadro::novo(perdidos, agora),
            true,
            if q.danificado {
                Pedido::Nada
            } else if q.estourou {
                Pedido::Responder(RpcError::linha_muito_longa_spec())
            } else if q.bytes.len() > 0 {
                Pedido::Processar(q.bytes)
            } else {
                Pedido::Nada
            },
        )
    } else if byte == RETORNO || q.estourou || q.danificado {
        (q, false, Pedido::Nada)
    } else if q.bytes.len() < LINHA_MAX {
        (Quadro { bytes: q.bytes.push(byte), ..q }, false, Pedido::Nada)
    } else {
        (Quadro { bytes: Seq::empty(), estourou: true, ..q }, false, Pedido::Nada)
    }
}

/// What is thrown away of the queue when a byte brings the news of a loss: the
/// rest of the damaged frame, unless the byte itself ends it.
pub open spec fn fila_apos(m: Quadro, byte: u8, agora: u64, perdidos: u64, fila: Seq<u8>) -> Seq<u8> {
    if m.vigente(agora, perdidos).dano_novo(perdidos) && byte != NOVA_LINHA {
        fila.skip(crate::tarefas::entrada::ate_nova_linha(fila))
    } else {
        fila
    }
}

impl Montador {
    /// The frame that is being put together.
    pub closed spec fn quadro(&self) -> Quadro {
        Quadro {
            bytes: self.buffer@,
            perdas: self.perdas_ao_abrir,
            ultimo: self.ultimo_byte_em,
            danificado: self.danificado,
            estourou: self.estourou,
        }
    }

    /// The line fits; a line that is thrown away is empty.
    pub open spec fn wf(&self) -> bool {
        &&& self.quadro().bytes.len() <= LINHA_MAX
        &&& self.quadro().danificado || self.quadro().estourou ==> self.quadro().bytes.len() == 0
    }

    /// A frame without bytes, opened at the start of the channel.
    pub fn novo(entrada: &Entrada) -> (r: Montador)
        ensures
            r.wf(),
            r.quadro() == Quadro::novo(entrada.perdidos_spec(), 0),
    {
        let mut m = Montador {
            buffer: Vec::new(),
            perdas_ao_abrir: 0,
            ultimo_byte_em: 0,
            danificado: false,
            estourou: false,
        };
        m.abrir_quadro(entrada);
        m
    }

    /// Marks where a frame begins: every loss from here on is its own.
    fn abrir_quadro(&mut self, entrada: &Entrada)
        ensures
            final(self).quadro() == (Quadro { perdas: entrada.perdidos_spec(), ..old(self).quadro() }),
    {
        self.perdas_ao_abrir = perdidos(entrada);
    }

    /// Forgets the bytes of the frame.
    fn esvaziar(&mut self)
        ensures
            final(self).quadro() == (Quadro {
                bytes: Seq::empty(),
                estourou: false,
                ..old(self).quadro()
            }),
    {
        self.buffer.clear();
        self.estourou = false;
        proof {
            assert(self.buffer@ =~= Seq::<u8>::empty());
        }
    }

    /// Takes one byte. The result says whether it closed a line, and what it
    /// asks for.
    pub fn alimentar(&mut self, byte: u8, agora: u64, entrada: &mut Entrada) -> (r: (bool, Efeito))
        requires
            old(self).wf(),
            old(entrada).wf(),
        ensures
            final(self).wf(),
            final(entrada).wf(),
            passo(
                old(self).quadro(),
                byte,
                agora,
                old(entrada).perdidos_spec(),
                old(entrada).pendentes(),
            ) == (final(self).quadro(), r.0, r.1@),
            final(entrada).pendentes() == fila_apos(
                old(self).quadro(),
                byte,
                agora,
                old(entrada).perdidos_spec(),
                old(entrada).pendentes(),
            ),
            final(entrada).espera() == old(entrada).espera(),
            final(entrada).perdidos_spec() == old(entrada).perdidos_spec(),
            final(entrada).no_boot() == old(entrada).no_boot(),
    {
        let aberto = self.buffer.len() > 0 || self.estourou || self.danificado;
        if aberto && agora.saturating_sub(self.ultimo_byte_em) > TETO_DO_QUADRO_EM_TIQUES {
            self.esvaziar();
            self.danificado = false;
            self.abrir_quadro(entrada);
        }
        self.ultimo_byte_em = agora;
        if !self.danificado && perdidos(entrada) != self.perdas_ao_abrir {
            self.esvaziar();
            if byte == NOVA_LINHA {
                self.abrir_quadro(entrada);
                return (true, Efeito::Responder(RpcError::entrada_perdida()));
            }
            if descartar_ate_nova_linha(entrada) {
                self.abrir_quadro(entrada);
                return (true, Efeito::Responder(RpcError::entrada_perdida()));
            }
            self.danificado = true;
            return (false, Efeito::Responder(RpcError::entrada_perdida()));
        }
        if byte == NOVA_LINHA {
            let mut linha: Vec<u8> = Vec::new();
            core::mem::swap(&mut linha, &mut self.buffer);
            let efeito = if self.danificado {
                Efeito::Nada
            } else if self.estourou {
                Efeito::Responder(RpcError::linha_muito_longa())
            } else if linha.len() > 0 {
                Efeito::Processar(linha)
            } else {
                Efeito::Nada
            };
            self.danificado = false;
            self.esvaziar();
            self.abrir_quadro(entrada);
            return (true, efeito);
        }
        if byte == RETORNO {
            return (false, Efeito::Nada);
        }
        if self.estourou || self.danificado {
            return (false, Efeito::Nada);
        }
        if self.buffer.len() < LINHA_MAX {
            self.buffer.push(byte);
        } else {
            self.esvaziar();
            self.estourou = true;
        }
        (false, Efeito::Nada)
    }
}

/// A byte that may start or end a request.
pub open spec fn significativo(b: u8) -> bool {
    b > 0x20
}

/// Without the noise before the first significant byte.
pub open spec fn sem_ruido_antes(s: Seq<u8>) -> Seq<u8>
    decreases s.len(),
{
    if s.len() > 0 && !significativo(s[0]) {
        sem_ruido_antes(s.drop_first())
    } else {
        s
    }
}

/// Without the noise after the last significant byte.
pub open spec fn sem_ruido_depois(s: Seq<u8>) -> Seq<u8>
    decreases s.len(),
{
    if s.len() > 0 && !significativo(s.last()) {
        sem_ruido_depois(s.drop_last())
    } else {
        s
    }
}

/// A line without control bytes and spaces at its ends.
pub open spec fn limpo(s: Seq<u8>) -> Seq<u8> {
    sem_ruido_depois(sem_ruido_antes(s))
}

/// Takes control bytes and spaces off the ends of a line: none of them can
/// start or end a JSON value.
pub fn limpar_quadro(linha: &[u8]) -> (r: &[u8])
    ensures
        r@ == limpo(linha@),
{
    let mut inicio: usize = 0;
    proof {
        assert(linha@.skip(0) =~= linha@);
    }
    while inicio < linha.len() && linha[inicio] <= 0x20
        invariant
            inicio <= linha@.len(),
            sem_ruido_antes(linha@) == sem_ruido_antes(linha@.skip(inicio as int)),
        decreases linha@.len() - inicio,
    {
        proof {
            assert(linha@.skip(inicio as int).drop_first() =~= linha@.skip(inicio + 1));
        }
        inicio = inicio + 1;
    }
    let ghost meio = linha@.skip(inicio as int);
    let mut fim: usize = linha.len();
    proof {
        assert(linha@.subrange(inicio as int, fim as int) =~= meio);
    }
    while fim > inicio && linha[fim - 1] <= 0x20
        invariant
            inicio <= fim <= linha@.len(),
            sem_ruido_depois(meio) == sem_ruido_depois(linha@.subrange(inicio as int, fim as int)),
        decreases fim,
    {
        proof {
            assert(linha@.subrange(inicio as int, fim as int).drop_last() =~= linha@.subrange(
                inicio as int,
                fim - 1,
            ));
        }
        fim = fim - 1;
    }
    &linha[inicio..fim]
}

/// What to do about a line.
pub enum Decisao<'a> {
    Nada,
    Recusar { id: Option<Json<'a>>, erro: RpcError, detalhe: Option<&'static str> },
    Executar { id: Option<Json<'a>>, handler: Handler, params: Json<'a> },
}

/// What to do about a line.
pub enum Veredito {
    Nada,
    Recusar { id: Option<Seq<u8>>, erro: RpcError, detalhe: Option<&'static str> },
    Executar { id: Option<Seq<u8>>, handler: Handler, params: Seq<u8> },
}

impl<'a> View for Decisao<'a> {
    type V = Veredito;

    open spec fn view(&self) -> Veredito {
        match self {
            Decisao::Nada => Veredito::Nada,
            Decisao::Recusar { id, erro, detalhe } => Veredito::Recusar {
                id: crate::agent::protocol::bytes_do_id(*id),
                erro: *erro,
                detalhe: *detalhe,
            },
            Decisao::Executar { id, handler, params } => Veredito::Executar {
                id: crate::agent::protocol::bytes_do_id(*id),
                handler: *handler,
                params: params.0@,
            },
        }
    }
}

/// The command of a name.
pub open spec fn comando_de(nome: Seq<char>) -> Option<Handler> {
    if exists|h: Handler| (#[trigger] h.nome_spec())@ == nome {
        Some(choose|h: Handler| (#[trigger] h.nome_spec())@ == nome)
    } else {
        None
    }
}

/// What to do about a line: nothing where it is empty; refuse it where it is
/// no request, where no command has its name, or where a parameter is wrong;
/// and run it otherwise.
pub open spec fn veredito(linha: Seq<u8>) -> Veredito {
    let l = limpo(linha);
    if l.len() == 0 {
        Veredito::Nada
    } else {
        match crate::agent::protocol::leitura_de(l) {
            crate::agent::protocol::Leitura::Recusa { id, erro } => Veredito::Recusar {
                id,
                erro,
                detalhe: None,
            },
            crate::agent::protocol::Leitura::Pedido { id, metodo, params } => match comando_de(
                metodo,
            ) {
                None => Veredito::Recusar {
                    id,
                    erro: RpcError::metodo_nao_encontrado_spec(),
                    detalhe: None,
                },
                Some(h) => match crate::agent::registry::primeiro_errado(h.params_spec(), params) {
                    Some(campo) => Veredito::Recusar {
                        id,
                        erro: RpcError::params_invalidos_spec(),
                        detalhe: Some(campo),
                    },
                    None => Veredito::Executar { id, handler: h, params },
                },
            },
        }
    }
}

/// Decides what to do about a line, before anything of an answer is written.
pub fn decidir(linha: &[u8]) -> (r: Decisao<'_>)
    ensures
        r@ == veredito(linha@),
{
    let linha = limpar_quadro(linha);
    if linha.len() == 0 {
        return Decisao::Nada;
    }
    let requisicao = match Requisicao::parse(linha) {
        Ok(q) => q,
        Err(e) => {
            return Decisao::Recusar { id: e.0, erro: e.1, detalhe: None };
        },
    };
    let comando = match encontrar(requisicao.metodo) {
        None => {
            return Decisao::Recusar {
                id: requisicao.id,
                erro: RpcError::metodo_nao_encontrado(),
                detalhe: None,
            };
        },
        Some(c) => c,
    };
    proof {
        let h = choose|h: Handler| (#[trigger] h.nome_spec())@ == requisicao.metodo@;
        assert(comando.handler.nome_spec()@ == requisicao.metodo@);
        crate::agent::registry::lei_nomes_distintos(h, comando.handler);
    }
    match validar(&comando, requisicao.params) {
        Err(campo) => Decisao::Recusar {
            id: requisicao.id,
            erro: RpcError::params_invalidos(),
            detalhe: Some(campo),
        },
        Ok(_) => Decisao::Executar {
            id: requisicao.id,
            handler: comando.handler,
            params: requisicao.params,
        },
    }
}

/// The line that answers: a document and the end of the frame.
pub open spec fn quadro_de(v: crate::agent::json::Valor) -> Seq<char> {
    crate::agent::json::texto_de(v).push('\n')
}

/// What is answered to a line, and whether the kernel is to fail once the
/// answer is out.
pub open spec fn resposta_a(v: Veredito, s: &Instantaneo) -> (Option<Seq<char>>, bool) {
    match v {
        Veredito::Nada => (None, false),
        Veredito::Recusar { id, erro, detalhe } => (
            Some(
                quadro_de(
                    crate::agent::protocol::recusa(
                        id,
                        erro,
                        match detalhe {
                            Some(d) => Some(d@),
                            None => None,
                        },
                    ),
                ),
            ),
            false,
        ),
        Veredito::Executar { id, handler, params } => (
            Some(
                quadro_de(
                    crate::agent::protocol::resposta(
                        id,
                        crate::agent::commands::documento(handler, s, params),
                    ),
                ),
            ),
            crate::agent::commands::falha_depois(handler, params),
        ),
    }
}

/// An answer, as text.
pub open spec fn texto_da(r: Option<String>) -> Option<Seq<char>> {
    match r {
        Some(t) => Some(t@),
        None => None,
    }
}

/// The line that reports an error.
pub fn responder_erro(id: Option<Json<'_>>, erro: RpcError, detalhe: Option<&str>) -> (r: String)
    ensures
        r@ == quadro_de(
            crate::agent::protocol::recusa(
                crate::agent::protocol::bytes_do_id(id),
                erro,
                match detalhe {
                    Some(d) => Some(d@),
                    None => None,
                },
            ),
        ),
{
    broadcast use crate::agent::json::group_cabe;

    let mut w = JsonWriter::new(String::new());
    envelope_erro(&mut w, id, erro, detalhe);
    let mut t = w.terminar();
    t.push('\n');
    proof {
        let v = crate::agent::protocol::recusa(
            crate::agent::protocol::bytes_do_id(id),
            erro,
            match detalhe {
                Some(d) => Some(d@),
                None => None,
            },
        );
        crate::agent::json::lei_documento_inteiro(Seq::empty(), v);
        assert(Seq::<char>::empty() + crate::agent::json::texto_de(v)
            =~= crate::agent::json::texto_de(v));
    }
    t
}

/// The line that answers a command, and whether the kernel is to fail once it
/// is out.
fn responder_comando(
    id: Option<Json<'_>>,
    handler: Handler,
    params: Json<'_>,
    s: &Instantaneo<'_>,
) -> (r: (String, bool))
    requires
        s.wf(),
    ensures
        r.0@ == quadro_de(
            crate::agent::protocol::resposta(
                crate::agent::protocol::bytes_do_id(id),
                crate::agent::commands::documento(handler, s, params.0@),
            ),
        ),
        r.1 == crate::agent::commands::falha_depois(handler, params.0@),
{
    broadcast use {crate::agent::json::group_cabe, crate::agent::json::group_niveis};

    let w = JsonWriter::new(String::new());
    let ghost e = w@;
    let ghost corpo = crate::agent::commands::documento(handler, s, params.0@);
    let ghost ident = crate::agent::protocol::bytes_do_id(id);
    let escrever = |a: JsonWriter| -> (b: JsonWriter)
        requires
            a@.nivel <= u32::MAX - 6,
        ensures
            b@ == crate::agent::json::percorrida(
                a@,
                crate::agent::commands::documento(handler, s, params.0@),
            ),
        {
            let mut a = a;
            executar(&mut a, handler, s, params);
            a
        };
    let w = envelope_ok(w, id, escrever);
    let mut t = w.terminar();
    t.push('\n');
    proof {
        crate::agent::protocol::lei_envelope_e_documento(e, ident, corpo);
        let v = crate::agent::protocol::resposta(ident, corpo);
        crate::agent::commands::lei_documentos_cabem(handler, s, params.0@);
        assert(crate::agent::json::cabe(v, 7));
        crate::agent::json::lemma_cabe_mais_fundo(v, 7, 32);
        crate::agent::json::lei_documento_inteiro(Seq::empty(), v);
        assert(Seq::<char>::empty() + crate::agent::json::texto_de(v)
            =~= crate::agent::json::texto_de(v));
    }
    (t, crate::agent::commands::pede_falha(handler, params))
}

/// Answers a line that was decided on, out of a picture of the system. The
/// result is the line that goes out, where one does, and whether the kernel is
/// to fail once it is out.
pub fn responder(d: &Decisao<'_>, s: &Instantaneo<'_>) -> (r: (Option<String>, bool))
    requires
        s.wf(),
    ensures
        (texto_da(r.0), r.1) == resposta_a(d@, s),
{
    match d {
        Decisao::Nada => (None, false),
        Decisao::Recusar { id, erro, detalhe } => (
            Some(
                responder_erro(
                    *id,
                    *erro,
                    match *detalhe {
                        Some(c) => Some(c),
                        None => None,
                    },
                ),
            ),
            false,
        ),
        Decisao::Executar { id, handler, params } => {
            let (t, falha) = responder_comando(*id, *handler, *params, s);
            (Some(t), falha)
        },
    }
}

/// Handles a line: decides what to do about it and answers.
pub fn processar(linha: &[u8], s: &Instantaneo<'_>) -> (r: (Option<String>, bool))
    requires
        s.wf(),
    ensures
        (texto_da(r.0), r.1) == resposta_a(veredito(linha@), s),
{
    responder(&decidir(linha), s)
}

/// The frame after a run of bytes, each with the time it came, while the
/// channel loses nothing.
pub open spec fn apos_bytes(m: Quadro, s: Seq<(u8, u64)>, perdidos: u64) -> Quadro
    decreases s.len(),
{
    if s.len() == 0 {
        m
    } else {
        passo(
            apos_bytes(m, s.drop_last(), perdidos),
            s.last().0,
            s.last().1,
            perdidos,
            Seq::empty(),
        ).0
    }
}

/// No byte of the run keeps the channel waiting for too long.
pub open spec fn sem_pausas(desde: u64, s: Seq<(u8, u64)>) -> bool {
    forall|i: int|
        0 <= i < s.len() ==> (#[trigger] s[i]).1 - (if i == 0 {
            desde
        } else {
            s[i - 1].1
        }) <= TETO_DO_QUADRO_EM_TIQUES
}

/// The bytes of a run, without the times.
pub open spec fn bytes_de(s: Seq<(u8, u64)>) -> Seq<u8> {
    s.map_values(|x: (u8, u64)| x.0)
}

/// None of the bytes ends a line.
pub open spec fn sem_fim(s: Seq<(u8, u64)>) -> bool {
    forall|i: int| 0 <= i < s.len() ==> (#[trigger] s[i]).0 != NOVA_LINHA && s[i].0 != RETORNO
}

proof fn lemma_apos_bytes(m: Quadro, s: Seq<(u8, u64)>, perdidos: u64, desde: u64)
    requires
        m == Quadro::novo(perdidos, desde),
        sem_fim(s),
        sem_pausas(desde, s),
    ensures
        ({
            let q = apos_bytes(m, s, perdidos);
            &&& q.perdas == perdidos
            &&& !q.danificado
            &&& q.ultimo == if s.len() == 0 {
                desde
            } else {
                s.last().1
            }
            &&& q.estourou == (s.len() > LINHA_MAX)
            &&& q.bytes == if s.len() > LINHA_MAX {
                Seq::empty()
            } else {
                bytes_de(s)
            }
        }),
    decreases s.len(),
{
    if s.len() == 0 {
        assert(bytes_de(s) =~= Seq::<u8>::empty());
    } else {
        let r = s.drop_last();
        assert forall|i: int| 0 <= i < r.len() implies (#[trigger] r[i]).0 != NOVA_LINHA && r[i].0
            != RETORNO by {
            assert(r[i] == s[i]);
        }
        assert(sem_pausas(desde, r)) by {
            assert forall|i: int| 0 <= i < r.len() implies (#[trigger] r[i]).1 - (if i == 0 {
                desde
            } else {
                r[i - 1].1
            }) <= TETO_DO_QUADRO_EM_TIQUES by {
                assert(r[i] == s[i]);
                if i > 0 {
                    assert(r[i - 1] == s[i - 1]);
                }
            }
        }
        lemma_apos_bytes(m, r, perdidos, desde);
        assert(s[s.len() - 1] == s.last());
        assert(bytes_de(s) =~= bytes_de(r).push(s.last().0));
    }
}

/// What is sent is what is handled: a line that fits, that keeps coming, and
/// of which nothing is lost is handled byte for byte.
pub proof fn lei_linha_chega_inteira(
    s: Seq<(u8, u64)>,
    fim: u64,
    perdidos: u64,
    desde: u64,
    fila: Seq<u8>,
)
    requires
        0 < s.len() <= LINHA_MAX,
        sem_fim(s),
        sem_pausas(desde, s),
        fim - s.last().1 <= TETO_DO_QUADRO_EM_TIQUES,
    ensures
        passo(
            apos_bytes(Quadro::novo(perdidos, desde), s, perdidos),
            NOVA_LINHA,
            fim,
            perdidos,
            fila,
        ) == (Quadro::novo(perdidos, fim), true, Pedido::Processar(bytes_de(s))),
{
    lemma_apos_bytes(Quadro::novo(perdidos, desde), s, perdidos, desde);
}

/// A line that does not fit is never handled, not even in part: it is answered
/// with an error, once, and the next line starts afresh.
pub proof fn lei_linha_longa_e_recusada(
    s: Seq<(u8, u64)>,
    fim: u64,
    perdidos: u64,
    desde: u64,
    fila: Seq<u8>,
)
    requires
        s.len() > LINHA_MAX,
        sem_fim(s),
        sem_pausas(desde, s),
        fim - s.last().1 <= TETO_DO_QUADRO_EM_TIQUES,
    ensures
        passo(
            apos_bytes(Quadro::novo(perdidos, desde), s, perdidos),
            NOVA_LINHA,
            fim,
            perdidos,
            fila,
        ) == (
            Quadro::novo(perdidos, fim),
            true,
            Pedido::Responder(RpcError::linha_muito_longa_spec()),
        ),
{
    lemma_apos_bytes(Quadro::novo(perdidos, desde), s, perdidos, desde);
}

/// A frame of which bytes were lost is never handled: it is answered with an
/// error as soon as the loss is seen, and silently dropped from then on.
pub proof fn lei_quadro_danificado_nao_roda(
    m: Quadro,
    byte: u8,
    agora: u64,
    perdidos: u64,
    fila: Seq<u8>,
)
    requires
        !m.abandonado(agora),
        m.danificado || perdidos != m.perdas,
    ensures
        ({
            let (_, _, pedido) = passo(m, byte, agora, perdidos, fila);
            pedido == if m.danificado {
                Pedido::Nada
            } else {
                Pedido::Responder(RpcError::entrada_perdida_spec())
            }
        }),
{
}

/// Every line ends in a known state: whatever came before, after the end of a
/// line the next byte starts a new frame.
pub proof fn lei_fim_de_linha_recomeca(
    m: Quadro,
    agora: u64,
    perdidos: u64,
    fila: Seq<u8>,
)
    ensures
        passo(m, NOVA_LINHA, agora, perdidos, fila).0 == Quadro::novo(perdidos, agora),
        passo(m, NOVA_LINHA, agora, perdidos, fila).1,
{
}

/// What a dead client left behind does not stick to the next one: after the
/// pause, the byte that comes is the first of its own frame.
pub proof fn lei_quadro_parado_e_esquecido(
    m: Quadro,
    byte: u8,
    agora: u64,
    perdidos: u64,
    fila: Seq<u8>,
)
    requires
        m.abandonado(agora),
    ensures
        passo(m, byte, agora, perdidos, fila) == passo(
            Quadro::novo(perdidos, agora),
            byte,
            agora,
            perdidos,
            fila,
        ),
{
}

/// A carriage return changes nothing of a line.
pub proof fn lei_retorno_e_ignorado(m: Quadro, agora: u64, perdidos: u64, fila: Seq<u8>)
    requires
        !m.abandonado(agora),
        perdidos == m.perdas,
    ensures
        passo(m, RETORNO, agora, perdidos, fila) == (
            Quadro { ultimo: agora, ..m },
            false,
            Pedido::Nada,
        ),
{
}

/// A request is answered with its own identifier: what goes out carries, under
/// `id`, the bytes that came in.
pub proof fn lei_resposta_leva_o_id(linha: Seq<u8>, s: &Instantaneo)
    requires
        veredito(linha) is Executar,
    ensures
        ({
            let id = crate::agent::protocol::id_de(limpo(linha));
            let v = veredito(linha);
            &&& v->Executar_id == id
            &&& id is Some ==> crate::agent::protocol::ecoavel(id->0)
            &&& resposta_a(v, s).0 == Some(
                quadro_de(
                    crate::agent::protocol::resposta(
                        id,
                        crate::agent::commands::documento(v->handler, s, v->params),
                    ),
                ),
            )
        }),
{
}

/// A request that is refused is refused with its own identifier, wherever that
/// could be read and can be echoed.
pub proof fn lei_recusa_leva_o_id(linha: Seq<u8>)
    requires
        veredito(linha) is Recusar,
    ensures
        veredito(linha)->Recusar_id == crate::agent::protocol::id_ecoado(limpo(linha)),
{
}

/// Noise around a request does not change what is done about it.
pub proof fn lei_ruido_nao_importa(linha: Seq<u8>)
    ensures
        limpo(limpo(linha)) == limpo(linha),
        veredito(limpo(linha)) == veredito(linha),
{
    lemma_sem_ruido_antes(linha);
    lemma_sem_ruido_depois(sem_ruido_antes(linha));
    let l = limpo(linha);
    assert(sem_ruido_antes(l) == l);
    assert(sem_ruido_depois(l) == l);
}

proof fn lemma_sem_ruido_antes(s: Seq<u8>)
    ensures
        sem_ruido_antes(s).len() > 0 ==> significativo(sem_ruido_antes(s)[0]),
    decreases s.len(),
{
    if s.len() > 0 && !significativo(s[0]) {
        lemma_sem_ruido_antes(s.drop_first());
    }
}

proof fn lemma_sem_ruido_depois(s: Seq<u8>)
    ensures
        sem_ruido_depois(s).len() > 0 ==> significativo(sem_ruido_depois(s).last()),
        sem_ruido_depois(s).len() > 0 ==> sem_ruido_depois(s)[0] == s[0],
    decreases s.len(),
{
    if s.len() > 0 && !significativo(s.last()) {
        lemma_sem_ruido_depois(s.drop_last());
    }
}

proof fn lemma_cortes(s: Seq<u8>) -> (cortes: (int, int))
    ensures
        0 <= cortes.0 <= cortes.1 <= s.len(),
        limpo(s) == s.subrange(cortes.0, cortes.1),
        forall|j: int| 0 <= j < s.len() && !(cortes.0 <= j < cortes.1) ==> #[trigger] s[j] <= 0x20,
    decreases s.len(),
{
    if s.len() > 0 && s[0] <= 0x20 {
        let t = s.drop_first();
        let (a, b) = lemma_cortes(t);
        assert(t.subrange(a, b) =~= s.subrange(a + 1, b + 1));
        assert forall|j: int| 0 <= j < s.len() && !(a + 1 <= j < b + 1) implies #[trigger] s[j] <= 0x20 by {
            if j > 0 {
                assert(t[j - 1] == s[j]);
            }
        }
        (a + 1, b + 1)
    } else if s.len() > 0 && s.last() <= 0x20 {
        let t = s.drop_last();
        let (a, b) = lemma_cortes(t);
        assert(sem_ruido_antes(s) == s);
        assert(t[0] == s[0]);
        assert(sem_ruido_antes(t) == t);
        assert(t.subrange(a, b) =~= s.subrange(a, b));
        assert forall|j: int| 0 <= j < s.len() && !(a <= j < b) implies #[trigger] s[j] <= 0x20 by {
            if j < t.len() {
                assert(t[j] == s[j]);
            }
        }
        (a, b)
    } else {
        assert(s.subrange(0, s.len() as int) =~= s);
        (0, s.len() as int)
    }
}

/// A line is handled without the control bytes and spaces at its ends, all of them
/// and nothing else.
pub proof fn lei_limpo(s: Seq<u8>) -> (cortes: (int, int))
    ensures
        0 <= cortes.0 <= cortes.1 <= s.len(),
        limpo(s) == s.subrange(cortes.0, cortes.1),
        forall|j: int| 0 <= j < s.len() && !(cortes.0 <= j < cortes.1) ==> #[trigger] s[j] <= 0x20,
        limpo(s).len() > 0 ==> limpo(s)[0] > 0x20 && limpo(s).last() > 0x20,
{
    lemma_sem_ruido_antes(s);
    lemma_sem_ruido_depois(sem_ruido_antes(s));
    lemma_cortes(s)
}

/// What is done about a line: nothing where nothing is on it; a refusal where it is
/// no request; a refusal with the code for it where no command has its name; a
/// refusal that names the first wrong parameter where one is; and otherwise the
/// command of that name is run, with the line's parameters and for its identifier.
pub proof fn lei_veredito(linha: Seq<u8>, h: Handler)
    ensures
        ({
            let l = limpo(linha);
            let r = crate::agent::protocol::leitura_de(l);
            let v = veredito(linha);
            &&& v is Nada <==> l.len() == 0
            &&& l.len() > 0 && r is Recusa ==> v is Recusar && v->Recusar_id == r->Recusa_id
                && v->Recusar_erro == r->erro && v->detalhe is None
            &&& l.len() > 0 && r is Pedido && r->metodo == h.nome_spec()@
                && crate::agent::registry::primeiro_errado(h.params_spec(), r->params) is None ==> v
                == Veredito::Executar { id: r->Pedido_id, handler: h, params: r->params }
            &&& l.len() > 0 && r is Pedido && r->metodo == h.nome_spec()@
                && crate::agent::registry::primeiro_errado(h.params_spec(), r->params) is Some ==> v
                is Recusar && v->Recusar_id == r->Pedido_id && v->Recusar_erro.codigo == -32602
                && v->detalhe == crate::agent::registry::primeiro_errado(h.params_spec(), r->params)
            &&& l.len() > 0 && r is Pedido && (forall|g: Handler|
                (#[trigger] g.nome_spec())@ != r->metodo) ==> v is Recusar && v->Recusar_id
                == r->Pedido_id && v->Recusar_erro.codigo == -32601
        }),
{
    let r = crate::agent::protocol::leitura_de(limpo(linha));
    if r is Pedido && r->metodo == h.nome_spec()@ {
        assert(comando_de(r->metodo) is Some);
        let g = comando_de(r->metodo)->0;
        assert(g.nome_spec()@ == r->metodo);
        crate::agent::registry::lei_nomes_distintos(g, h);
    }
}

/// What goes out is one document and the end of a line, and nothing goes out where
/// nothing came; only a command that asks for it makes the kernel fail.
pub proof fn lei_o_que_sai(v: Veredito, s: &Instantaneo)
    ensures
        resposta_a(v, s).0 is None <==> v is Nada,
        resposta_a(v, s).0 is Some ==> resposta_a(v, s).0->0.last() == '\n',
        v is Recusar ==> !resposta_a(v, s).1 && resposta_a(v, s).0->0.drop_last()
            == crate::agent::json::texto_de(
            crate::agent::protocol::recusa(
                v->Recusar_id,
                v->Recusar_erro,
                match v->detalhe {
                    Some(d) => Some(d@),
                    None => None,
                },
            ),
        ),
        v is Executar ==> resposta_a(v, s).1 == crate::agent::commands::falha_depois(
            v->handler,
            v->Executar_params,
        ) && resposta_a(v, s).0->0.drop_last() == crate::agent::json::texto_de(
            crate::agent::protocol::resposta(
                v->Executar_id,
                crate::agent::commands::documento(v->handler, s, v->Executar_params),
            ),
        ),
{
    if let Some(t) = resposta_a(v, s).0 {
        match v {
            Veredito::Recusar { id, erro, detalhe } => {
                let d = crate::agent::json::texto_de(
                    crate::agent::protocol::recusa(
                        id,
                        erro,
                        match detalhe {
                            Some(d) => Some(d@),
                            None => None,
                        },
                    ),
                );
                assert(d.push('\n').drop_last() =~= d);
            },
            Veredito::Executar { id, handler, params } => {
                let d = crate::agent::json::texto_de(
                    crate::agent::protocol::resposta(
                        id,
                        crate::agent::commands::documento(handler, s, params),
                    ),
                );
                assert(d.push('\n').drop_last() =~= d);
            },
            Veredito::Nada => {},
        }
    }
}

/// A frame stands still for too long where something of it has come and the last
/// byte came more than 200 ticks ago.
pub proof fn lei_quadro_parado(m: Quadro, agora: u64)
    ensures
        m.abandonado(agora) <==> (m.bytes.len() > 0 || m.estourou || m.danificado) && agora > m.ultimo
            + 200,
{
}

/// A byte of a line that is whole so far is kept, after those that came before, as
/// long as there are fewer than 2048; one more and the line is thrown away.
pub proof fn lei_byte_entra(m: Quadro, byte: u8, agora: u64, fila: Seq<u8>)
    requires
        agora <= m.ultimo + 200,
        !m.danificado,
        !m.estourou,
        byte != 10,
        byte != 13,
    ensures
        ({
            let (q, fim, pedido) = passo(m, byte, agora, m.perdas, fila);
            &&& !fim
            &&& pedido is Nada
            &&& !q.danificado
            &&& q.ultimo == agora
            &&& q.perdas == m.perdas
            &&& m.bytes.len() < 2048 ==> q.bytes == m.bytes.push(byte) && !q.estourou
            &&& m.bytes.len() >= 2048 ==> q.bytes.len() == 0 && q.estourou
        }),
{
}

/// Which command a request runs is in its `method`: the one of that name, and a
/// request that runs a command has its name.
pub proof fn lei_comando_do_metodo(linha: Seq<u8>)
    requires
        veredito(linha) is Executar,
    ensures
        ({
            let l = limpo(linha);
            let metodo = crate::agent::protocol::texto_do_valor(
                crate::agent::protocol::membro(l, "method")->0,
            )->0;
            match veredito(linha)->handler {
                Handler::AgentPing => metodo == "agent.ping"@,
                Handler::AgentDescribe => metodo == "agent.describe"@,
                Handler::SystemInfo => metodo == "system.info"@,
                Handler::MemoryStats => metodo == "memory.stats"@,
                Handler::MemoryRegions => metodo == "memory.regions"@,
                Handler::MemoryFrames => metodo == "memory.frames"@,
                Handler::HeapStats => metodo == "heap.stats"@,
                Handler::PagingTranslate => metodo == "paging.translate"@,
                Handler::SystemUptime => metodo == "system.uptime"@,
                Handler::TasksStats => metodo == "tasks.stats"@,
                Handler::TasksList => metodo == "tasks.list"@,
                Handler::ThreadsStats => metodo == "threads.stats"@,
                Handler::ThreadsList => metodo == "threads.list"@,
                Handler::UserRun => metodo == "user.run"@,
                Handler::UserStats => metodo == "user.stats"@,
                Handler::IrqStats => metodo == "irq.stats"@,
                Handler::TrapsStats => metodo == "traps.stats"@,
                Handler::DebugTrigger => metodo == "debug.trigger"@,
                Handler::LogTail => metodo == "log.tail"@,
            }
        }),
{
    let metodo = crate::agent::protocol::leitura_de(limpo(linha))->metodo;
    let h = comando_de(metodo)->0;
    assert(h.nome_spec()@ == metodo);
}

/// The codes of what is answered to bytes that make no request: -32001 where bytes
/// were lost, -32000 where a line is too long. No other error comes before a line is
/// whole.
pub proof fn lei_codigos_do_canal(m: Quadro, byte: u8, agora: u64, perdidos: u64, fila: Seq<u8>)
    ensures
        ({
            let (q, fim, pedido) = passo(m, byte, agora, perdidos, fila);
            &&& pedido is Responder ==> pedido->Responder_0.codigo == -32000
                || pedido->Responder_0.codigo == -32001
            &&& pedido is Responder && pedido->Responder_0.codigo == -32000 ==> m.estourou && byte == 10
            &&& pedido is Responder && pedido->Responder_0.codigo == -32001 ==> perdidos != m.perdas
            &&& pedido is Processar ==> pedido->Processar_0 == m.bytes && byte == 10 && m.bytes.len() > 0
        }),
{
}

} // verus!
