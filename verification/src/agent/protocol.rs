//! The envelope of the agent's channel: JSON-RPC 2.0, one request per line and
//! one answer per line.
use vstd::prelude::*;

use crate::agent::json::{Campos, Escrita, JsonWriter, Valor};
use crate::agent::leitura::Json;

verus! {

broadcast use {crate::agent::json::group_documento, crate::agent::json::group_niveis};

/// Version of the protocol, in every envelope.
pub const VERSAO: &'static str = "2.0";

/// An error to be reported to the client.
#[derive(Clone, Copy, Debug)]
pub struct RpcError {
    pub codigo: i32,
    pub mensagem: &'static str,
}

impl RpcError {
    pub open spec fn malformado_spec() -> RpcError {
        RpcError { codigo: (-32700) as i32, mensagem: "JSON malformado" }
    }

    pub open spec fn requisicao_invalida_spec() -> RpcError {
        RpcError { codigo: (-32600) as i32, mensagem: "requisicao JSON-RPC invalida" }
    }

    pub open spec fn metodo_nao_encontrado_spec() -> RpcError {
        RpcError { codigo: (-32601) as i32, mensagem: "metodo nao encontrado" }
    }

    pub open spec fn params_invalidos_spec() -> RpcError {
        RpcError { codigo: (-32602) as i32, mensagem: "parametros invalidos" }
    }

    pub open spec fn linha_muito_longa_spec() -> RpcError {
        RpcError { codigo: (-32000) as i32, mensagem: "requisicao excede o buffer de linha do kernel" }
    }

    pub open spec fn entrada_perdida_spec() -> RpcError {
        RpcError {
            codigo: (-32001) as i32,
            mensagem: "bytes perdidos no caminho; a requisicao foi descartada",
        }
    }

    /// The line is not an object this kernel can take apart.
    pub fn malformado() -> (r: RpcError)
        ensures
            r == RpcError::malformado_spec(),
    {
        RpcError { codigo: -32700, mensagem: "JSON malformado" }
    }

    /// The object is no request.
    pub fn requisicao_invalida() -> (r: RpcError)
        ensures
            r == RpcError::requisicao_invalida_spec(),
    {
        RpcError { codigo: -32600, mensagem: "requisicao JSON-RPC invalida" }
    }

    /// No command has that name.
    pub fn metodo_nao_encontrado() -> (r: RpcError)
        ensures
            r == RpcError::metodo_nao_encontrado_spec(),
    {
        RpcError { codigo: -32601, mensagem: "metodo nao encontrado" }
    }

    /// A parameter is missing or of the wrong type.
    pub fn params_invalidos() -> (r: RpcError)
        ensures
            r == RpcError::params_invalidos_spec(),
    {
        RpcError { codigo: -32602, mensagem: "parametros invalidos" }
    }

    /// The request does not fit.
    pub fn linha_muito_longa() -> (r: RpcError)
        ensures
            r == RpcError::linha_muito_longa_spec(),
    {
        RpcError { codigo: -32000, mensagem: "requisicao excede o buffer de linha do kernel" }
    }

    /// Bytes of the request were lost on the way: it has to be sent again, it
    /// and no other.
    pub fn entrada_perdida() -> (r: RpcError)
        ensures
            r == RpcError::entrada_perdida_spec(),
    {
        RpcError {
            codigo: -32001,
            mensagem: "bytes perdidos no caminho; a requisicao foi descartada",
        }
    }
}

/// The bytes of the value of a field, where `b` is an object that has it.
pub open spec fn membro(b: Seq<u8>, chave: &str) -> Option<Seq<u8>> {
    crate::agent::leitura::primeiro_com(
        b,
        crate::agent::leitura::membros(b),
        vstd::utf8::encode_utf8(chave@),
    )
}

/// The inside of a string value.
pub open spec fn texto_do_valor(v: Seq<u8>) -> Option<Seq<char>> {
    let dentro = v.subrange(1, v.len() - 1);
    if crate::agent::leitura::entre_aspas(v) && vstd::utf8::valid_utf8(dentro) {
        Some(vstd::utf8::decode_utf8(dentro))
    } else {
        None
    }
}

/// The identifier to be echoed: none where there is none, or where it is
/// `null`.
pub open spec fn id_de(b: Seq<u8>) -> Option<Seq<u8>> {
    match membro(b, "id") {
        Some(v) => if v == seq![110u8, 117, 108, 108] {
            None
        } else {
            Some(v)
        },
        None => None,
    }
}

/// The identifier can be copied into an answer as it is.
pub open spec fn ecoavel(id: Seq<u8>) -> bool {
    crate::agent::leitura::string_ecoavel(id) || crate::agent::leitura::numero_json(id)
}

/// The identifier that a refusal carries: the one that was read, where it can
/// be echoed.
pub open spec fn id_ecoado(b: Seq<u8>) -> Option<Seq<u8>> {
    match id_de(b) {
        Some(id) => if ecoavel(id) {
            Some(id)
        } else {
            None
        },
        None => None,
    }
}

/// What a line says.
pub enum Leitura {
    Pedido { id: Option<Seq<u8>>, metodo: Seq<char>, params: Seq<u8> },
    Recusa { id: Option<Seq<u8>>, erro: RpcError },
}

/// What a line says: a request, or why it is none.
pub open spec fn leitura_de(b: Seq<u8>) -> Leitura {
    if membro(b, "jsonrpc") is None && membro(b, "method") is None {
        Leitura::Recusa { id: id_ecoado(b), erro: RpcError::malformado_spec() }
    } else if id_de(b) is Some && !ecoavel(id_de(b)->0) {
        Leitura::Recusa { id: None, erro: RpcError::requisicao_invalida_spec() }
    } else if membro(b, "method") is None || texto_do_valor(membro(b, "method")->0) is None {
        Leitura::Recusa { id: id_de(b), erro: RpcError::requisicao_invalida_spec() }
    } else {
        Leitura::Pedido {
            id: id_de(b),
            metodo: texto_do_valor(membro(b, "method")->0)->0,
            params: match membro(b, "params") {
                Some(p) => p,
                None => vstd::utf8::encode_utf8("{}"@),
            },
        }
    }
}

/// A request, taken apart: every field borrows from the line.
#[derive(Clone, Copy, Debug)]
pub struct Requisicao<'a> {
    /// The raw identifier, to be echoed with the same type and spelling.
    pub id: Option<Json<'a>>,
    pub metodo: &'a str,
    pub params: Json<'a>,
}

/// The bytes of an identifier.
pub open spec fn bytes_do_id(id: Option<Json>) -> Option<Seq<u8>> {
    match id {
        Some(j) => Some(j.0@),
        None => None,
    }
}

impl<'a> Requisicao<'a> {
    /// Takes a line apart. Where that fails, the identifier comes with the
    /// error if it could be read.
    pub fn parse(linha: &'a [u8]) -> (r: Result<Self, (Option<Json<'a>>, RpcError)>)
        ensures
            leitura_de(linha@) == match r {
                Ok(q) => Leitura::Pedido {
                    id: bytes_do_id(q.id),
                    metodo: q.metodo@,
                    params: q.params.0@,
                },
                Err(e) => Leitura::Recusa { id: bytes_do_id(e.0), erro: e.1 },
            },
    {
        let raiz = Json(linha);
        let metodo_bruto = raiz.member("method");
        let sem_envelope = raiz.member("jsonrpc").is_none() && metodo_bruto.is_none();
        let id: Option<Json<'a>> = match raiz.member("id") {
            Some(j) => if j.is_null() {
                None
            } else {
                Some(j)
            },
            None => None,
        };
        if let Some(j) = id {
            if !j.e_string_ecoavel() && !j.e_numero() {
                if sem_envelope {
                    return Err((None, RpcError::malformado()));
                }
                return Err((None, RpcError::requisicao_invalida()));
            }
        }
        if sem_envelope {
            return Err((id, RpcError::malformado()));
        }
        let metodo: &'a str = match metodo_bruto {
            None => {
                return Err((id, RpcError::requisicao_invalida()));
            },
            Some(m) => match m.as_str() {
                None => {
                    return Err((id, RpcError::requisicao_invalida()));
                },
                Some(s) => s,
            },
        };
        let params: Json<'a> = match raiz.member("params") {
            Some(p) => p,
            None => Json("{}".as_bytes()),
        };
        Ok(Requisicao { id, metodo, params })
    }
}

/// The text of an identifier in an answer: as it came, or `null`.
pub open spec fn texto_do_id(id: Option<Seq<u8>>) -> Seq<char> {
    match id {
        Some(b) => if vstd::utf8::valid_utf8(b) {
            vstd::utf8::decode_utf8(b)
        } else {
            "null"@
        },
        None => "null"@,
    }
}

/// Writes the identifier as it came, or `null`.
fn escrever_id(w: &mut JsonWriter, id: Option<Json<'_>>)
    ensures
        final(w)@ == old(w)@.valor(texto_do_id(bytes_do_id(id))),
{
    match id {
        Some(j) => match j.raw_str() {
            Some(bruto) => w.raw_value(bruto),
            None => w.null_value(),
        },
        None => w.null_value(),
    }
}

/// The document of an answer: the body under `result`.
pub open spec fn resposta(id: Option<Seq<u8>>, corpo: Valor) -> Valor {
    Campos::nenhum().texto("jsonrpc"@, VERSAO@).mais("id"@, Valor::Cru(texto_do_id(id))).mais(
        "result"@,
        corpo,
    ).objeto()
}

/// What an error says, with its detail where there is one.
pub open spec fn teor(erro: RpcError, detalhe: Option<Seq<char>>) -> Valor {
    let base = Campos::nenhum().mais(
        "code"@,
        Valor::Cru(crate::texto::decimal_com_sinal(erro.codigo as int)),
    ).texto("message"@, erro.mensagem@);
    match detalhe {
        Some(d) => base.texto("data"@, d).objeto(),
        None => base.objeto(),
    }
}

/// The document of an error.
pub open spec fn recusa(id: Option<Seq<u8>>, erro: RpcError, detalhe: Option<Seq<char>>) -> Valor {
    Campos::nenhum().texto("jsonrpc"@, VERSAO@).mais("id"@, Valor::Cru(texto_do_id(id))).mais(
        "error"@,
        teor(erro, detalhe),
    ).objeto()
}

/// Where the body of an answer starts.
pub open spec fn antes_do_corpo(e: Escrita, id: Option<Seq<u8>>) -> Escrita {
    e.abre('{').campo_str("jsonrpc"@, VERSAO@).campo("id"@, texto_do_id(id)).chave("result"@)
}

/// Writes an answer around the body that `corpo` writes.
pub fn envelope_ok<F: FnOnce(JsonWriter) -> JsonWriter>(
    w: JsonWriter,
    id: Option<Json<'_>>,
    corpo: F,
) -> (r: JsonWriter)
    requires
        w@.nivel < u32::MAX,
        forall|a: JsonWriter|
            a@ == antes_do_corpo(w@, bytes_do_id(id)) ==> #[trigger] corpo.requires((a,)),
    ensures
        exists|a: JsonWriter, b: JsonWriter|
            {
                &&& #[trigger] corpo.ensures((a,), b)
                &&& a@ == antes_do_corpo(w@, bytes_do_id(id))
                &&& r@ == b@.fecha('}')
            },
{
    let mut a = w;
    a.begin_object();
    a.field_str("jsonrpc", VERSAO);
    a.key("id");
    escrever_id(&mut a, id);
    a.key("result");
    let mut b = corpo(a);
    b.end_object();
    b
}

/// An answer whose body is a document is a document.
pub proof fn lei_envelope_e_documento(e: Escrita, id: Option<Seq<u8>>, corpo: Valor)
    ensures
        crate::agent::json::percorrida(antes_do_corpo(e, id), corpo).fecha('}') == crate::agent::json::percorrida(e, resposta(id, corpo)),
{
}

/// Writes an error.
pub fn envelope_erro(
    w: &mut JsonWriter,
    id: Option<Json<'_>>,
    erro: RpcError,
    detalhe: Option<&str>,
)
    requires
        old(w)@.nivel <= u32::MAX - 2,
    ensures
        final(w)@ == crate::agent::json::percorrida(
            old(w)@,
            recusa(
                bytes_do_id(id),
                erro,
                match detalhe {
                    Some(d) => Some(d@),
                    None => None,
                },
            ),
        ),
{
    w.begin_object();
    w.field_str("jsonrpc", VERSAO);
    w.key("id");
    escrever_id(w, id);
    w.key("error");
    w.begin_object();
    w.key("code");
    w.i64_value(erro.codigo as i64);
    w.field_str("message", erro.mensagem);
    if let Some(detalhe) = detalhe {
        w.field_str("data", detalhe);
    }
    w.end_object();
    w.end_object();
}

/// The text of a string value is what stands between its quotes.
pub proof fn lei_texto_do_valor(v: Seq<u8>, t: Seq<char>)
    ensures
        texto_do_valor(v) == Some(t) ==> v == seq!['"' as u8] + vstd::utf8::encode_utf8(t) + seq![
            '"' as u8,
        ],
        texto_do_valor(seq!['"' as u8] + vstd::utf8::encode_utf8(t) + seq!['"' as u8]) == Some(t),
{
    if texto_do_valor(v) == Some(t) {
        let dentro = v.subrange(1, v.len() - 1);
        vstd::utf8::decode_utf8_encode_utf8(dentro);
        assert(v =~= seq!['"' as u8] + dentro + seq!['"' as u8]);
    }
    let e = vstd::utf8::encode_utf8(t);
    let w = seq!['"' as u8] + e + seq!['"' as u8];
    assert(w.subrange(1, w.len() - 1) =~= e);
    vstd::utf8::encode_utf8_valid_utf8(t);
    vstd::utf8::encode_utf8_decode_utf8(t);
}

/// A line is a request exactly where it has a `method` that is a string, and an
/// `id`, if it has one, that is `null` or can be echoed. The request is what those
/// members say, with `{}` for parameters that are not there.
pub proof fn lei_que_e_pedido(b: Seq<u8>)
    ensures
        ({
            let metodo = membro(b, "method");
            let id = membro(b, "id");
            let r = leitura_de(b);
            &&& r is Pedido <==> metodo is Some && texto_do_valor(metodo->0) is Some && (id is None
                || id == Some(seq![110u8, 117, 108, 108]) || crate::agent::leitura::string_ecoavel(id->0)
                || crate::agent::leitura::numero_json(id->0))
            &&& r is Pedido ==> Some(r->metodo) == texto_do_valor(metodo->0)
            &&& r is Pedido ==> r->Pedido_id == (if id == Some(seq![110u8, 117, 108, 108]) {
                None
            } else {
                id
            })
            &&& r is Pedido && membro(b, "params") is Some ==> Some(r->params) == membro(b, "params")
            &&& r is Pedido && membro(b, "params") is None ==> r->params == vstd::utf8::encode_utf8(
                "{}"@,
            )
        }),
{
}

/// A line without `jsonrpc` and `method` is malformed; any other that is no request
/// is invalid. The refusal has the line's `id` where that can be echoed, and none
/// else.
pub proof fn lei_por_que_se_recusa(b: Seq<u8>)
    requires
        leitura_de(b) is Recusa,
    ensures
        ({
            let id = membro(b, "id");
            let r = leitura_de(b);
            &&& r->erro.codigo == (if membro(b, "jsonrpc") is None && membro(b, "method") is None {
                -32700int
            } else {
                -32600int
            })
            &&& r->Recusa_id == (if id is Some && id != Some(seq![110u8, 117, 108, 108]) && (
            crate::agent::leitura::string_ecoavel(id->0) || crate::agent::leitura::numero_json(id->0)) {
                id
            } else {
                None
            })
        }),
{
}

/// What is echoed of an identifier is its own bytes.
pub proof fn lei_id_e_ecoado(id: Seq<u8>)
    requires
        vstd::utf8::valid_utf8(id),
    ensures
        vstd::utf8::encode_utf8(texto_do_id(Some(id))) == id,
{
    vstd::utf8::decode_utf8_encode_utf8(id);
}

} // verus!
