//! The answers, read back: what stands in the text of an answer, field by field.
use vstd::prelude::*;

use crate::agent::commands::{documento, Falha, Gatilho, Instantaneo, PorTipo, Video};
use crate::agent::json::Valor;
use crate::agent::registry::{Handler, ParamSpec, TipoParam};
use crate::irq::Contagem;
use crate::log::Level;
use crate::machine::{Regiao, TipoRegiao};

verus! {

/// The bytes of a document.
pub open spec fn bytes_de(v: Valor) -> Seq<u8> {
    vstd::utf8::encode_utf8(crate::agent::json::texto_de(v))
}

/// What is read as the `k`-th member of the written document bears this name.
pub open spec fn nome_no(v: Valor, k: int, nome: Seq<char>) -> bool {
    let b = bytes_de(v);
    &&& 0 <= k < crate::agent::leitura::membros(b).len()
    &&& crate::agent::leitura::nome_do(b, crate::agent::leitura::membros(b)[k])
        == vstd::utf8::encode_utf8(crate::agent::json::escapado(nome))
}

/// The bytes that are read as the value of the `k`-th member.
pub open spec fn valor_no(v: Valor, k: int) -> Seq<u8> {
    crate::agent::leitura::valor_do(bytes_de(v), crate::agent::leitura::membros(bytes_de(v))[k])
}

/// The written document is an object of `n` members.
#[verifier::opaque]
pub open spec fn tem(v: Valor, n: int) -> bool {
    &&& crate::agent::leitura::objeto_fechado(bytes_de(v))
    &&& crate::agent::leitura::membros(bytes_de(v)).len() == n
}

/// The `k`-th member has this name and reads as this number.
#[verifier::opaque]
pub open spec fn numero_no(v: Valor, k: int, nome: Seq<char>, n: int) -> bool {
    &&& nome_no(v, k, nome)
    &&& crate::agent::registry::inteiro_do_valor(valor_no(v, k)) is Some
    &&& crate::agent::registry::inteiro_do_valor(valor_no(v, k))->0 == n
}

/// The `k`-th member has this name and reads as this truth value.
#[verifier::opaque]
pub open spec fn logico_no(v: Valor, k: int, nome: Seq<char>, l: bool) -> bool {
    &&& nome_no(v, k, nome)
    &&& crate::agent::registry::logico_do_valor(valor_no(v, k)) == Some(l)
}

/// The `k`-th member has this name and is a string with this text in it.
#[verifier::opaque]
pub open spec fn texto_no(v: Valor, k: int, nome: Seq<char>, t: Seq<char>) -> bool {
    &&& nome_no(v, k, nome)
    &&& crate::agent::protocol::texto_do_valor(valor_no(v, k)) == Some(
        crate::agent::json::escapado(t),
    )
}

/// The `k`-th member has this name and is this document.
#[verifier::opaque]
pub open spec fn parte_no(v: Valor, k: int, nome: Seq<char>, w: Valor) -> bool {
    &&& nome_no(v, k, nome)
    &&& valor_no(v, k) == bytes_de(w)
}

/// The `k`-th member has this name and is `null`.
#[verifier::opaque]
pub open spec fn nulo_no(v: Valor, k: int, nome: Seq<char>) -> bool {
    &&& nome_no(v, k, nome)
    &&& valor_no(v, k) == seq![110u8, 117, 108, 108]
}

/// The `k`-th member has this name and is a list with these documents in it.
pub open spec fn lista_no(v: Valor, k: int, nome: Seq<char>, s: Seq<Valor>) -> bool {
    parte_no(v, k, nome, Valor::Lista(s))
}

/// Every text in the document is that of one value, without control characters.
#[verifier::opaque]
spec fn inteiro_em_si(v: Valor) -> bool {
    crate::agent::leitura::escrito(v) && crate::agent::json::sem_controles(v)
}

broadcast proof fn lemma_sem_campos()
    ensures
        #[trigger] inteiro_em_si(Valor::Objeto(Seq::empty())),
{
    reveal(inteiro_em_si);
}

proof fn lemma_campos_prefixo(c: Seq<(Seq<char>, Valor)>, x: (Seq<char>, Valor), n: nat)
    requires
        n <= c.len(),
    ensures
        crate::agent::leitura::campos_escritos(c.push(x), n)
            == crate::agent::leitura::campos_escritos(c, n),
        crate::agent::json::campos_sem_controles(c.push(x), n)
            == crate::agent::json::campos_sem_controles(c, n),
    decreases n,
{
    if n > 0 {
        lemma_campos_prefixo(c, x, (n - 1) as nat);
        assert(c.push(x)[n - 1] == c[n - 1]);
    }
}

broadcast proof fn lemma_mais_um(c: Seq<(Seq<char>, Valor)>, x: (Seq<char>, Valor))
    requires
        inteiro_em_si(Valor::Objeto(c)),
        inteiro_em_si(x.1),
    ensures
        #[trigger] inteiro_em_si(Valor::Objeto(c.push(x))),
{
    reveal(inteiro_em_si);
    lemma_campos_prefixo(c, x, c.len());
    assert(c.push(x)[c.len() as int] == x);
}

broadcast proof fn lemma_numero_escrito(n: nat)
    ensures
        #[trigger] inteiro_em_si(Valor::Cru(crate::texto::decimal(n))),
{
    reveal(inteiro_em_si);
    crate::texto::lemma_decimal(n);
    let t = crate::texto::decimal(n);
    assert forall|i: int| 0 <= i < t.len() implies '!' <= (#[trigger] t[i]) <= '~' && t[i] != ','
        && t[i] != '}' && t[i] != ']' && t[i] != '{' && t[i] != '[' && t[i] != '"' by {
        assert(crate::texto::e_digito(t[i]));
    }
}

broadcast proof fn lemma_com_sinal_escrito(n: int)
    ensures
        #[trigger] inteiro_em_si(Valor::Cru(crate::texto::decimal_com_sinal(n))),
{
    reveal(inteiro_em_si);
    let m: nat = if n < 0 {
        (-n) as nat
    } else {
        n as nat
    };
    crate::texto::lemma_decimal(m);
    let t = crate::texto::decimal_com_sinal(n);
    let d = crate::texto::decimal(m);
    assert forall|i: int| 0 <= i < t.len() implies '!' <= (#[trigger] t[i]) <= '~' && t[i] != ','
        && t[i] != '}' && t[i] != ']' && t[i] != '{' && t[i] != '[' && t[i] != '"' by {
        if n < 0 {
            if i > 0 {
                assert(t[i] == d[i - 1]);
                assert(crate::texto::e_digito(d[i - 1]));
            }
        } else {
            assert(crate::texto::e_digito(d[i]));
        }
    }
}

broadcast proof fn lemma_texto_escrito(s: Seq<char>)
    ensures
        #[trigger] inteiro_em_si(Valor::Cru(crate::agent::json::string_json(s))),
{
    reveal(inteiro_em_si);
    crate::agent::leitura::lei_string_escrita_e_ecoavel(s);
    crate::agent::json::lei_string_sem_controles(s);
}

broadcast proof fn lemma_logico_escrito(l: bool)
    ensures
        #[trigger] inteiro_em_si(Valor::Cru(crate::agent::json::logico_json(l))),
{
    reveal(inteiro_em_si);
    reveal_strlit("true");
    reveal_strlit("false");
}

proof fn lemma_nulo()
    ensures
        inteiro_em_si(Valor::Cru("null"@)),
        bytes_de(Valor::Cru("null"@)) == seq![110u8, 117, 108, 108],
{
    reveal(inteiro_em_si);
    reveal_strlit("null");
    let t = "null"@;
    assert(t =~= seq!['n', 'u', 'l', 'l']);
    assert(vstd::utf8::is_ascii_chars(t));
    vstd::utf8::is_ascii_chars_encode_utf8(t);
    let b = vstd::utf8::encode_utf8(t);
    assert forall|j: int| 0 <= j < b.len() implies #[trigger] b[j] == t[j] as u8 by {}
    assert(b =~= seq![110u8, 117, 108, 108]);
}

proof fn lemma_itens(s: Seq<Valor>, n: nat)
    requires
        n <= s.len(),
        forall|i: int| 0 <= i < s.len() ==> inteiro_em_si(#[trigger] s[i]),
    ensures
        crate::agent::leitura::itens_escritos(s, n),
        crate::agent::json::itens_sem_controles(s, n),
    decreases n,
{
    reveal(inteiro_em_si);
    if n > 0 {
        lemma_itens(s, (n - 1) as nat);
        assert(inteiro_em_si(s[n - 1]));
    }
}

broadcast proof fn lemma_lista_escrita(s: Seq<Valor>)
    requires
        forall|i: int| 0 <= i < s.len() ==> inteiro_em_si(#[trigger] s[i]),
    ensures
        #[trigger] inteiro_em_si(Valor::Lista(s)),
{
    reveal(inteiro_em_si);
    lemma_itens(s, s.len());
}

broadcast proof fn lemma_tem(c: Seq<(Seq<char>, Valor)>, n: int)
    requires
        inteiro_em_si(Valor::Objeto(c)),
        c.len() == n,
    ensures
        #[trigger] tem(Valor::Objeto(c), n),
{
    reveal(inteiro_em_si);
    reveal(tem);
    crate::agent::leitura::lei_objeto_escrito_e_lido(c);
}

broadcast proof fn lemma_parte_no(c: Seq<(Seq<char>, Valor)>, k: int, nome: Seq<char>, w: Valor)
    requires
        inteiro_em_si(Valor::Objeto(c)),
        0 <= k < c.len(),
        c[k] == (nome, w),
    ensures
        #[trigger] parte_no(Valor::Objeto(c), k, nome, w),
{
    reveal(inteiro_em_si);
    reveal(parte_no);
    crate::agent::leitura::lei_objeto_escrito_e_lido(c);
    let b = bytes_de(Valor::Objeto(c));
    assert(crate::agent::leitura::membros(b)[k] == crate::agent::leitura::membros(b)[k]);
}

broadcast proof fn lemma_numero_no(c: Seq<(Seq<char>, Valor)>, k: int, nome: Seq<char>, n: int)
    requires
        inteiro_em_si(Valor::Objeto(c)),
        0 <= k < c.len(),
        c[k] == (nome, Valor::Cru(crate::texto::decimal(n as nat))),
        0 <= n <= u64::MAX,
    ensures
        #[trigger] numero_no(Valor::Objeto(c), k, nome, n),
{
    reveal(parte_no);
    reveal(numero_no);
    lemma_parte_no(c, k, nome, c[k].1);
    crate::agent::leitura::lei_valores_voltam(n as u64, true, nome);
}

broadcast proof fn lemma_logico_no(c: Seq<(Seq<char>, Valor)>, k: int, nome: Seq<char>, l: bool)
    requires
        inteiro_em_si(Valor::Objeto(c)),
        0 <= k < c.len(),
        c[k] == (nome, Valor::Cru(crate::agent::json::logico_json(l))),
    ensures
        #[trigger] logico_no(Valor::Objeto(c), k, nome, l),
{
    reveal(parte_no);
    reveal(logico_no);
    lemma_parte_no(c, k, nome, c[k].1);
    crate::agent::leitura::lei_valores_voltam(0, l, nome);
}

broadcast proof fn lemma_texto_no(c: Seq<(Seq<char>, Valor)>, k: int, nome: Seq<char>, t: Seq<char>)
    requires
        inteiro_em_si(Valor::Objeto(c)),
        0 <= k < c.len(),
        c[k] == (nome, Valor::Cru(crate::agent::json::string_json(t))),
    ensures
        #[trigger] texto_no(Valor::Objeto(c), k, nome, t),
{
    reveal(parte_no);
    reveal(texto_no);
    lemma_parte_no(c, k, nome, c[k].1);
    crate::agent::leitura::lei_valores_voltam(0, true, t);
}

broadcast proof fn lemma_nulo_no(c: Seq<(Seq<char>, Valor)>, k: int, nome: Seq<char>)
    requires
        inteiro_em_si(Valor::Objeto(c)),
        0 <= k < c.len(),
        c[k] == (nome, Valor::Cru("null"@)),
    ensures
        #[trigger] nulo_no(Valor::Objeto(c), k, nome),
{
    reveal(parte_no);
    reveal(nulo_no);
    lemma_parte_no(c, k, nome, c[k].1);
    lemma_nulo();
}

broadcast group group_lido {
    lemma_sem_campos,
    lemma_mais_um,
    lemma_numero_escrito,
    lemma_com_sinal_escrito,
    lemma_texto_escrito,
    lemma_logico_escrito,
    lemma_lista_escrita,
    lemma_tem,
    lemma_parte_no,
    lemma_numero_no,
    lemma_logico_no,
    lemma_texto_no,
    lemma_nulo_no,
}

/// `null` is no number.
proof fn lemma_nulo_nao_e_numero()
    ensures
        crate::agent::registry::inteiro_do_valor(seq![110u8, 117, 108, 108]) is None,
{
    lemma_nulo();
    reveal_strlit("null");
    let t = "null"@;
    vstd::utf8::encode_utf8_decode_utf8(t);
    assert(crate::texto::aparado(t) == t);
}

/// A member of a written object is found by its name, where no member before it
/// has the same.
proof fn lemma_achado(c: Seq<(Seq<char>, Valor)>, k: int, nome: &str)
    requires
        inteiro_em_si(Valor::Objeto(c)),
        0 <= k < c.len(),
        c[k].0 == nome@,
        forall|i: int|
            0 <= i < nome@.len() ==> (#[trigger] nome@[i]) as u32 >= 0x20 && nome@[i] != '"'
                && nome@[i] != '\\',
        forall|j: int| 0 <= j < k ==> crate::agent::json::escapado(#[trigger] c[j].0) != nome@,
    ensures
        crate::agent::protocol::membro(bytes_de(Valor::Objeto(c)), nome) == Some(
            bytes_de(c[k].1),
        ),
{
    reveal(inteiro_em_si);
    crate::agent::leitura::lei_texto_simples_nao_muda(nome@);
    crate::agent::leitura::lei_campo_escrito_e_achado(c, k);
}

/// The answer on an address, member by member. It names the address that was
/// asked for. Where that is translated, the answer says so and `physical` reads as
/// the translation. Where it is not, `mapped` is false and `physical` is `null`.
pub proof fn lei_traducao_e_escrita(s: &Instantaneo, params: Seq<u8>)
    ensures
        ({
            let v = documento(Handler::PagingTranslate, s, params);
            &&& tem(v, 3)
            &&& numero_no(
                v,
                0,
                "virtual"@,
                match crate::agent::protocol::membro(params, "address") {
                    Some(x) => match crate::agent::registry::inteiro_do_valor(x) {
                        Some(n) => n as int,
                        None => 0,
                    },
                    None => 0,
                },
            )
            &&& logico_no(v, 1, "mapped"@, s.traducao is Some)
            &&& s.traducao is Some ==> numero_no(v, 2, "physical"@, s.traducao->0 as int)
            &&& s.traducao is None ==> nulo_no(v, 2, "physical"@)
        }),
{
    broadcast use group_lido;

    lemma_nulo();
    assert(inteiro_em_si(documento(Handler::PagingTranslate, s, params)));
}

proof fn lemma_membros_da_traducao(c: Seq<(Seq<char>, Valor)>)
    requires
        inteiro_em_si(Valor::Objeto(c)),
        c.len() == 3,
        c[0].0 == "virtual"@,
        c[1].0 == "mapped"@,
        c[2].0 == "physical"@,
    ensures
        crate::agent::protocol::membro(bytes_de(Valor::Objeto(c)), "mapped") == Some(
            bytes_de(c[1].1),
        ),
        crate::agent::protocol::membro(bytes_de(Valor::Objeto(c)), "physical") == Some(
            bytes_de(c[2].1),
        ),
{
    reveal_strlit("virtual");
    reveal_strlit("mapped");
    reveal_strlit("physical");
    crate::agent::leitura::lei_texto_simples_nao_muda("virtual"@);
    crate::agent::leitura::lei_texto_simples_nao_muda("mapped"@);
    assert("virtual"@[0] == 'v' && "mapped"@[0] == 'm' && "physical"@[0] == 'p');
    lemma_achado(c, 1, "mapped");
    lemma_achado(c, 2, "physical");
}

proof fn lemma_valores_da_traducao(t: Option<u64>)
    ensures
        crate::agent::registry::logico_do_valor(
            bytes_de(Valor::Cru(crate::agent::json::logico_json(t is Some))),
        ) == Some(t is Some),
        t is Some ==> crate::agent::registry::inteiro_do_valor(
            bytes_de(Valor::Cru(crate::texto::decimal(t->0 as nat))),
        ) == t,
        crate::agent::registry::inteiro_do_valor(bytes_de(Valor::Cru("null"@))) is None,
        bytes_de(Valor::Cru("null"@)) == seq![110u8, 117, 108, 108],
        inteiro_em_si(Valor::Cru("null"@)),
{
    lemma_nulo();
    lemma_nulo_nao_e_numero();
    crate::agent::leitura::lei_valores_voltam(
        match t {
            Some(f) => f,
            None => 0,
        },
        t is Some,
        "mapped"@,
    );
}

/// Where the picture holds a translation of the address that was asked for, member
/// `physical` of the written answer reads as that translation, whatever it and the
/// address are; else it is `null`. Member `mapped` reads as true exactly where
/// there is a translation.
pub proof fn lei_traducao_e_respondida(s: &Instantaneo, params: Seq<u8>)
    ensures
        ({
            let b = bytes_de(documento(Handler::PagingTranslate, s, params));
            &&& crate::agent::protocol::membro(b, "mapped") is Some
            &&& crate::agent::registry::logico_do_valor(
                crate::agent::protocol::membro(b, "mapped")->0,
            ) == Some(s.traducao is Some)
            &&& crate::agent::protocol::membro(b, "physical") is Some
            &&& crate::agent::registry::inteiro_do_valor(
                crate::agent::protocol::membro(b, "physical")->0,
            ) == s.traducao
            &&& s.traducao is None ==> crate::agent::protocol::membro(b, "physical") == Some(
                seq![110u8, 117, 108, 108],
            )
        }),
{
    let v = documento(Handler::PagingTranslate, s, params);
    let c = v->Objeto_0;
    lemma_valores_da_traducao(s.traducao);
    assert(inteiro_em_si(v)) by {
        broadcast use group_lido;

    }
    assert(c.len() == 3 && c[0].0 == "virtual"@ && c[1].0 == "mapped"@ && c[2].0 == "physical"@);
    lemma_membros_da_traducao(c);
    assert(c[1].1 == Valor::Cru(crate::agent::json::logico_json(s.traducao is Some)));
    assert(c[2].1 == match s.traducao {
        Some(f) => Valor::Cru(crate::texto::decimal(f as nat)),
        None => Valor::Cru("null"@),
    });
}

/// The answer to `agent.ping`.
pub proof fn lei_ping(s: &Instantaneo, params: Seq<u8>)
    requires
        s.log.total() <= u64::MAX,
    ensures
        ({
            let v = documento(Handler::AgentPing, s, params);
            &&& tem(v, 3)
            &&& logico_no(v, 0, "pong"@, true)
            &&& texto_no(v, 1, "arch"@, s.arch@)
            &&& numero_no(v, 2, "log_seq"@, s.log.total() as int)
        }),
{
    broadcast use group_lido;

    assert(inteiro_em_si(documento(Handler::AgentPing, s, params)));
}

/// A parameter, as `agent.describe` shows it.
pub proof fn lei_param_escrito(p: ParamSpec)
    ensures
        ({
            let v = crate::agent::commands::doc_param(p);
            &&& tem(v, 4)
            &&& texto_no(v, 0, "name"@, p.nome@)
            &&& texto_no(
                v,
                1,
                "type"@,
                match p.tipo {
                    TipoParam::Texto => "string"@,
                    TipoParam::Inteiro => "integer"@,
                    TipoParam::Booleano => "boolean"@,
                },
            )
            &&& logico_no(v, 2, "required"@, p.obrigatorio)
            &&& texto_no(v, 3, "description"@, p.descricao@)
        }),
{
    broadcast use group_lido;

    assert(inteiro_em_si(crate::agent::commands::doc_param(p)));
}

/// A command, as `agent.describe` shows it: its name, what it is for and every one of
/// its parameters, in order.
pub proof fn lei_comando_escrito(h: Handler)
    ensures
        ({
            let v = crate::agent::commands::doc_comando(h);
            &&& tem(v, 3)
            &&& texto_no(v, 0, "name"@, h.nome_spec()@)
            &&& texto_no(v, 1, "summary"@, h.resumo_spec()@)
            &&& lista_no(
                v,
                2,
                "params"@,
                Seq::new(
                    h.params_spec().len(),
                    |i: int| crate::agent::commands::doc_param(h.params_spec()[i]),
                ),
            )
        }),
{
    broadcast use group_lido;

    assert(crate::agent::commands::doc_params(h) =~= Seq::new(
        h.params_spec().len(),
        |i: int| crate::agent::commands::doc_param(h.params_spec()[i]),
    ));
    assert forall|p: ParamSpec| inteiro_em_si(#[trigger] crate::agent::commands::doc_param(p)) by {}
    assert(inteiro_em_si(crate::agent::commands::doc_comando(h)));
}

/// The answer to `agent.describe`: what the kernel is, and every command.
pub proof fn lei_describe(s: &Instantaneo, params: Seq<u8>)
    ensures
        ({
            let v = documento(Handler::AgentDescribe, s, params);
            &&& tem(v, 6)
            &&& texto_no(v, 0, "protocol"@, "jsonrpc-2.0"@)
            &&& texto_no(v, 1, "transport"@, "serial-ndjson"@)
            &&& texto_no(v, 2, "kernel"@, s.kernel@)
            &&& texto_no(v, 3, "version"@, s.versao@)
            &&& texto_no(v, 4, "arch"@, s.arch@)
            &&& lista_no(
                v,
                5,
                "commands"@,
                Seq::new(
                    crate::agent::registry::todos().len(),
                    |i: int|
                        crate::agent::commands::doc_comando(crate::agent::registry::todos()[i]),
                ),
            )
        }),
{
    broadcast use group_lido;

    assert(crate::agent::commands::doc_comandos() =~= Seq::new(
        crate::agent::registry::todos().len(),
        |i: int| crate::agent::commands::doc_comando(crate::agent::registry::todos()[i]),
    ));
    assert forall|p: ParamSpec| inteiro_em_si(#[trigger] crate::agent::commands::doc_param(p)) by {}
    assert forall|h: Handler| inteiro_em_si(#[trigger] crate::agent::commands::doc_comando(h)) by {}
    assert(inteiro_em_si(documento(Handler::AgentDescribe, s, params)));
}

/// The screen, where there is one.
pub proof fn lei_video_escrito(x: Video)
    ensures
        ({
            let v = crate::agent::commands::doc_video(Some(x));
            &&& tem(v, 5)
            &&& numero_no(v, 0, "width"@, x.largura as int)
            &&& numero_no(v, 1, "height"@, x.altura as int)
            &&& numero_no(v, 2, "stride"@, x.stride as int)
            &&& numero_no(v, 3, "bytes_per_pixel"@, x.bytes_por_pixel as int)
            &&& texto_no(v, 4, "pixel_format"@, x.formato@)
        }),
{
    broadcast use group_lido;

    assert(inteiro_em_si(crate::agent::commands::doc_video(Some(x))));
}

/// How a stack overflow shows: a guard page, and the fault that it raises.
pub proof fn lei_guarda_escrita(falha: Seq<char>)
    ensures
        ({
            let v = crate::agent::commands::doc_guarda(falha);
            &&& tem(v, 2)
            &&& texto_no(v, 0, "mechanism"@, "guard-page"@)
            &&& texto_no(v, 1, "fault"@, falha)
        }),
{
    broadcast use group_lido;

    assert(inteiro_em_si(crate::agent::commands::doc_guarda(falha)));
}

/// The answer to `system.info`. Without a screen, `framebuffer` is `null`.
pub proof fn lei_system_info(s: &Instantaneo, params: Seq<u8>)
    requires
        s.log.total() <= u64::MAX,
    ensures
        ({
            let v = documento(Handler::SystemInfo, s, params);
            &&& tem(v, 10)
            &&& texto_no(v, 0, "arch"@, s.arch@)
            &&& texto_no(v, 1, "kernel"@, s.kernel@)
            &&& texto_no(v, 2, "version"@, s.versao@)
            &&& texto_no(v, 3, "phase"@, "0"@)
            &&& texto_no(v, 4, "cpu_vendor"@, s.cpu@)
            &&& s.video is None ==> nulo_no(v, 5, "framebuffer"@)
            &&& s.video is Some ==> parte_no(v, 5, "framebuffer"@, crate::agent::commands::doc_video(s.video))
            &&& numero_no(v, 6, "uptime_ms"@, s.uptime_ms as int)
            &&& numero_no(v, 7, "log_records"@, s.log.total() as int)
            &&& numero_no(v, 8, "output_bytes_lost"@, s.saida.perdidos as int)
            &&& parte_no(v, 9, "stack_guard"@, crate::agent::commands::doc_guarda(s.falha_de_pilha@))
        }),
{
    broadcast use group_lido;

    lemma_nulo();
    assert(inteiro_em_si(crate::agent::commands::doc_video(s.video)));
    assert(inteiro_em_si(crate::agent::commands::doc_guarda(s.falha_de_pilha@)));
    assert(inteiro_em_si(documento(Handler::SystemInfo, s, params)));
}

/// The answer to `system.uptime`: the timer is active where it has a frequency.
pub proof fn lei_system_uptime(s: &Instantaneo, params: Seq<u8>)
    ensures
        ({
            let v = documento(Handler::SystemUptime, s, params);
            &&& tem(v, 4)
            &&& numero_no(v, 0, "ticks"@, s.ticks as int)
            &&& numero_no(v, 1, "uptime_ms"@, s.uptime_ms as int)
            &&& numero_no(v, 2, "timer_hz"@, s.timer_hz as int)
            &&& logico_no(v, 3, "timer_active"@, s.timer_hz != 0)
        }),
{
    broadcast use group_lido;

    assert(inteiro_em_si(documento(Handler::SystemUptime, s, params)));
}

/// The answer to `heap.stats`.
pub proof fn lei_heap_stats(s: &Instantaneo, params: Seq<u8>)
    ensures
        ({
            let v = documento(Handler::HeapStats, s, params);
            &&& tem(v, 8)
            &&& numero_no(v, 0, "total_bytes"@, s.heap.total as int)
            &&& numero_no(v, 1, "allocated_bytes"@, s.heap.alocado as int)
            &&& numero_no(v, 2, "free_bytes"@, s.heap.livre as int)
            &&& numero_no(v, 3, "free_blocks"@, s.heap.blocos_livres as int)
            &&& numero_no(v, 4, "largest_free_block"@, s.heap.maior_bloco as int)
            &&& numero_no(v, 5, "allocations"@, s.heap.alocacoes as int)
            &&& numero_no(v, 6, "deallocations"@, s.heap.liberacoes as int)
            &&& numero_no(v, 7, "failures"@, s.heap.falhas as int)
        }),
{
    broadcast use group_lido;

    assert(inteiro_em_si(documento(Handler::HeapStats, s, params)));
}

/// An interrupt line.
pub proof fn lei_linha_escrita(x: Contagem)
    ensures
        ({
            let v = crate::agent::commands::doc_linha(x);
            &&& tem(v, 3)
            &&& numero_no(v, 0, "line"@, x.linha as int)
            &&& texto_no(v, 1, "name"@, x.nome@)
            &&& numero_no(v, 2, "count"@, x.total as int)
        }),
{
    broadcast use group_lido;

    assert(inteiro_em_si(crate::agent::commands::doc_linha(x)));
}

/// The answer to `irq.stats`: one entry per line that fired, in order.
pub proof fn lei_irq_stats(s: &Instantaneo, params: Seq<u8>)
    ensures
        ({
            let v = documento(Handler::IrqStats, s, params);
            let xs = crate::irq::disparadas(s.linhas.contadores(), s.linhas.nomes(), 256);
            &&& tem(v, 3)
            &&& numero_no(v, 0, "total"@, s.linhas.total_spec() as int)
            &&& lista_no(
                v,
                1,
                "lines"@,
                Seq::new(xs.len(), |i: int| crate::agent::commands::doc_linha(xs[i])),
            )
            &&& numero_no(v, 2, "above_limit"@, s.linhas.fora() as int)
        }),
{
    broadcast use group_lido;

    let xs = crate::irq::disparadas(s.linhas.contadores(), s.linhas.nomes(), 256);
    assert(xs.map_values(|x| crate::agent::commands::doc_linha(x)) =~= Seq::new(
        xs.len(),
        |i: int| crate::agent::commands::doc_linha(xs[i]),
    ));
    assert forall|x: Contagem| inteiro_em_si(#[trigger] crate::agent::commands::doc_linha(x)) by {}
    assert(inteiro_em_si(documento(Handler::IrqStats, s, params)));
}

/// The line of input.
pub proof fn lei_entrada_escrita(e: &crate::tarefas::entrada::Entrada)
    requires
        e.pendentes().len() <= u64::MAX,
    ensures
        ({
            let v = crate::agent::commands::doc_entrada(e);
            &&& tem(v, 4)
            &&& numero_no(v, 0, "queued"@, e.pendentes().len() as int)
            &&& numero_no(v, 1, "capacity"@, 4096)
            &&& numero_no(v, 2, "dropped"@, e.perdidos_spec() as int)
            &&& numero_no(v, 3, "dropped_at_boot"@, e.no_boot() as int)
        }),
{
    broadcast use group_lido;

    assert(inteiro_em_si(crate::agent::commands::doc_entrada(e)));
}

/// The answer to `tasks.stats`: alive is what was spawned and is not over.
pub proof fn lei_tasks_stats(s: &Instantaneo, params: Seq<u8>)
    ensures
        ({
            let v = documento(Handler::TasksStats, s, params);
            let c = s.executor.contadores();
            &&& tem(v, 7)
            &&& numero_no(v, 0, "spawned"@, c.lancadas as int)
            &&& numero_no(v, 1, "completed"@, c.concluidas as int)
            &&& c.lancadas >= c.concluidas ==> numero_no(v, 2, "alive"@, c.lancadas - c.concluidas)
            &&& c.lancadas < c.concluidas ==> numero_no(v, 2, "alive"@, 0)
            &&& numero_no(v, 3, "polls"@, c.avancos as int)
            &&& numero_no(v, 4, "wakes"@, c.despertares as int)
            &&& numero_no(v, 5, "never_scheduled"@, c.nunca_agendadas as int)
            &&& parte_no(v, 6, "input"@, crate::agent::commands::doc_entrada(s.entrada))
        }),
{
    broadcast use group_lido;

    assert(inteiro_em_si(crate::agent::commands::doc_entrada(s.entrada)));
    assert(inteiro_em_si(documento(Handler::TasksStats, s, params)));
}

/// A task.
pub proof fn lei_tarefa_escrita(x: crate::tarefas::executor::Inscricao)
    ensures
        ({
            let v = crate::agent::commands::doc_tarefa(x);
            &&& tem(v, 3)
            &&& numero_no(v, 0, "id"@, x.id as int)
            &&& texto_no(v, 1, "name"@, x.nome@)
            &&& logico_no(v, 2, "alive"@, x.viva)
        }),
{
    broadcast use group_lido;

    assert(inteiro_em_si(crate::agent::commands::doc_tarefa(x)));
}

/// The answer to `tasks.list`: one entry per slot of the inventory that is taken, in
/// order.
pub proof fn lei_tasks_list(s: &Instantaneo, params: Seq<u8>)
    ensures
        ({
            let v = documento(Handler::TasksList, s, params);
            let xs = crate::tarefas::executor::linhas(s.executor.inventario(), 32);
            &&& tem(v, 3)
            &&& lista_no(
                v,
                0,
                "tasks"@,
                Seq::new(xs.len(), |i: int| crate::agent::commands::doc_tarefa(xs[i])),
            )
            &&& numero_no(v, 1, "capacity"@, 32)
            &&& numero_no(v, 2, "unlisted"@, s.executor.contadores().fora_do_inventario as int)
        }),
{
    broadcast use group_lido;

    let xs = crate::tarefas::executor::linhas(s.executor.inventario(), 32);
    assert(xs.map_values(|x| crate::agent::commands::doc_tarefa(x)) =~= Seq::new(
        xs.len(),
        |i: int| crate::agent::commands::doc_tarefa(xs[i]),
    ));
    assert forall|x: crate::tarefas::executor::Inscricao|
        inteiro_em_si(#[trigger] crate::agent::commands::doc_tarefa(x)) by {}
    assert(inteiro_em_si(documento(Handler::TasksList, s, params)));
}

/// The answer to `user.run`: the thread of the program, or why there is none.
pub proof fn lei_user_run(s: &Instantaneo, params: Seq<u8>)
    ensures
        ({
            let v = documento(Handler::UserRun, s, params);
            &&& tem(v, 2)
            &&& logico_no(v, 0, "launched"@, s.lancamento is Ok)
            &&& s.lancamento is Ok ==> numero_no(v, 1, "thread_id"@, s.lancamento->Ok_0 as int)
            &&& s.lancamento is Err ==> texto_no(v, 1, "error"@, s.lancamento->Err_0@)
        }),
{
    broadcast use group_lido;

    assert(inteiro_em_si(documento(Handler::UserRun, s, params)));
}

/// The answer to `user.stats`. Before a process ends, `last_exit` is `null`; after
/// that, its code in decimal, with a sign where it is negative.
pub proof fn lei_user_stats(s: &Instantaneo, params: Seq<u8>)
    ensures
        ({
            let v = documento(Handler::UserStats, s, params);
            &&& tem(v, 7)
            &&& numero_no(v, 0, "syscalls"@, s.usuario.chamadas as int)
            &&& numero_no(v, 1, "rejected"@, s.usuario.recusadas as int)
            &&& numero_no(v, 2, "bytes_written"@, s.usuario.bytes as int)
            &&& s.usuario.ultima_saida is None ==> nulo_no(v, 3, "last_exit"@)
            &&& s.usuario.ultima_saida is Some && s.usuario.ultima_saida->0 >= 0 ==> numero_no(
                v,
                3,
                "last_exit"@,
                s.usuario.ultima_saida->0 as int,
            )
            &&& s.usuario.ultima_saida is Some && s.usuario.ultima_saida->0 < 0 ==> parte_no(
                v,
                3,
                "last_exit"@,
                Valor::Cru(seq!['-'] + crate::texto::decimal((-s.usuario.ultima_saida->0) as nat)),
            )
            &&& numero_no(v, 4, "user_base"@, s.usuario.base as int)
            &&& numero_no(v, 5, "user_top"@, s.usuario.teto as int)
            &&& numero_no(v, 6, "example_exit_code"@, s.usuario.codigo_do_exemplo as int)
        }),
{
    broadcast use group_lido;

    lemma_nulo();
    assert(inteiro_em_si(documento(Handler::UserStats, s, params)));
}

/// The answer to `threads.stats`.
pub proof fn lei_threads_stats(s: &Instantaneo, params: Seq<u8>)
    ensures
        ({
            let v = documento(Handler::ThreadsStats, s, params);
            &&& tem(v, 5)
            &&& numero_no(v, 0, "alive"@, s.fios.0 as int)
            &&& numero_no(v, 1, "context_switches"@, s.fios.1 as int)
            &&& numero_no(v, 2, "quantum_expirations"@, s.fios.2 as int)
            &&& numero_no(v, 3, "quantum_ticks"@, 5)
            &&& numero_no(v, 4, "max_threads"@, 16)
        }),
{
    broadcast use group_lido;

    assert(inteiro_em_si(documento(Handler::ThreadsStats, s, params)));
}

/// A thread.
pub proof fn lei_fio_escrito(x: crate::fios::Inscricao)
    ensures
        ({
            let v = crate::agent::commands::doc_fio(x);
            &&& tem(v, 4)
            &&& numero_no(v, 0, "id"@, x.id as int)
            &&& texto_no(v, 1, "name"@, x.nome@)
            &&& texto_no(v, 2, "state"@, x.estado@)
            &&& numero_no(v, 3, "scheduled"@, x.escalonamentos as int)
        }),
{
    broadcast use group_lido;

    assert(inteiro_em_si(crate::agent::commands::doc_fio(x)));
}

/// The answer to `threads.list`: one entry per thread, in order.
pub proof fn lei_threads_list(s: &Instantaneo, params: Seq<u8>)
    ensures
        ({
            let v = documento(Handler::ThreadsList, s, params);
            &&& tem(v, 1)
            &&& lista_no(
                v,
                0,
                "threads"@,
                Seq::new(
                    s.inscricoes@.len(),
                    |i: int| crate::agent::commands::doc_fio(s.inscricoes@[i]),
                ),
            )
        }),
{
    broadcast use group_lido;

    let xs = s.inscricoes@;
    assert(xs.map_values(|x| crate::agent::commands::doc_fio(x)) =~= Seq::new(
        xs.len(),
        |i: int| crate::agent::commands::doc_fio(xs[i]),
    ));
    assert forall|x: crate::fios::Inscricao| inteiro_em_si(
        #[trigger] crate::agent::commands::doc_fio(x),
    ) by {}
    assert(inteiro_em_si(documento(Handler::ThreadsList, s, params)));
}

/// The answer to `memory.stats`.
pub proof fn lei_memory_stats(s: &Instantaneo, params: Seq<u8>)
    requires
        s.wf(),
    ensures
        ({
            let v = documento(Handler::MemoryStats, s, params);
            &&& tem(v, 4)
            &&& numero_no(v, 0, "usable_bytes"@, crate::machine::soma_de(s.maquina.regioes(), true))
            &&& numero_no(v, 1, "total_bytes"@, crate::machine::soma_de(s.maquina.regioes(), false))
            &&& numero_no(v, 2, "region_count"@, s.maquina.regioes().len() as int)
            &&& numero_no(v, 3, "dropped_regions"@, s.maquina.descartadas() as int)
        }),
{
    broadcast use group_lido;

    crate::machine::lei_utilizavel_e_parte(s.maquina);
    assert(inteiro_em_si(documento(Handler::MemoryStats, s, params)));
}

/// A region of memory: where it starts, where it ends, the bytes between, and what it
/// is.
pub proof fn lei_regiao_escrita(r: Regiao)
    requires
        r.inicio <= r.fim,
    ensures
        ({
            let v = crate::agent::commands::doc_regiao(r);
            &&& tem(v, 4)
            &&& numero_no(v, 0, "start"@, r.inicio as int)
            &&& numero_no(v, 1, "end"@, r.fim as int)
            &&& numero_no(v, 2, "size"@, r.fim - r.inicio)
            &&& texto_no(
                v,
                3,
                "kind"@,
                match r.tipo {
                    TipoRegiao::Utilizavel => "usable"@,
                    TipoRegiao::Bootloader => "bootloader"@,
                    TipoRegiao::Reservada => "reserved"@,
                    TipoRegiao::Desconhecida => "unknown"@,
                },
            )
        }),
{
    broadcast use group_lido;

    assert(inteiro_em_si(crate::agent::commands::doc_regiao(r)));
}

/// The answer to `memory.regions`: one entry per region listed, in order, and how many
/// there are.
pub proof fn lei_memory_regions(s: &Instantaneo, params: Seq<u8>)
    requires
        s.wf(),
    ensures
        ({
            let v = documento(Handler::MemoryRegions, s, params);
            let xs = crate::agent::commands::listadas(s.maquina.regioes(), params);
            &&& tem(v, 2)
            &&& lista_no(
                v,
                0,
                "regions"@,
                Seq::new(xs.len(), |i: int| crate::agent::commands::doc_regiao(xs[i])),
            )
            &&& numero_no(v, 1, "count"@, xs.len() as int)
        }),
{
    broadcast use group_lido;

    let xs = crate::agent::commands::listadas(s.maquina.regioes(), params);
    lei_regioes_escolhidas(s.maquina.regioes(), false);
    assert(xs.map_values(|x: Regiao| crate::agent::commands::doc_regiao(x)) =~= Seq::new(
        xs.len(),
        |i: int| crate::agent::commands::doc_regiao(xs[i]),
    ));
    assert forall|x: Regiao| inteiro_em_si(#[trigger] crate::agent::commands::doc_regiao(x)) by {}
    assert(inteiro_em_si(documento(Handler::MemoryRegions, s, params)));
}

/// The answer to `memory.frames`: what is tracked is free or used, and a free frame is
/// 4096 bytes.
pub proof fn lei_memory_frames(s: &Instantaneo, params: Seq<u8>)
    requires
        s.wf(),
    ensures
        ({
            let v = documento(Handler::MemoryFrames, s, params);
            let livres = crate::frames::contar(s.frames.livre()) as int;
            &&& tem(v, 6)
            &&& numero_no(v, 0, "frame_size"@, 4096)
            &&& numero_no(v, 1, "base"@, s.frames.base() as int)
            &&& numero_no(v, 2, "tracked"@, s.frames.livre().len() as int)
            &&& numero_no(v, 3, "free"@, livres)
            &&& numero_no(v, 4, "used"@, s.frames.livre().len() - livres)
            &&& numero_no(v, 5, "free_bytes"@, livres * 4096)
        }),
{
    broadcast use group_lido;

    crate::frames::lei_livres_sao_rastreados(s.frames);
    assert(inteiro_em_si(documento(Handler::MemoryFrames, s, params)));
}

/// How many exceptions of a type there were.
pub proof fn lei_tipo_escrito(x: PorTipo)
    ensures
        ({
            let v = crate::agent::commands::doc_tipo(x);
            &&& tem(v, 2)
            &&& texto_no(v, 0, "name"@, x.nome@)
            &&& numero_no(v, 1, "count"@, x.total as int)
        }),
{
    broadcast use group_lido;

    assert(inteiro_em_si(crate::agent::commands::doc_tipo(x)));
}

/// The last exception. Without an address, `address` is `null`.
pub proof fn lei_falha_escrita(f: Falha)
    ensures
        ({
            let v = crate::agent::commands::doc_falha(Some(f));
            &&& tem(v, 5)
            &&& numero_no(v, 0, "seq"@, f.seq as int)
            &&& texto_no(v, 1, "name"@, f.nome@)
            &&& numero_no(v, 2, "pc"@, f.pc as int)
            &&& f.endereco is Some ==> numero_no(v, 3, "address"@, f.endereco->0 as int)
            &&& f.endereco is None ==> nulo_no(v, 3, "address"@)
            &&& numero_no(v, 4, "raw_code"@, f.codigo as int)
        }),
{
    broadcast use group_lido;

    lemma_nulo();
    assert(inteiro_em_si(crate::agent::commands::doc_falha(Some(f))));
}

/// The answer to `traps.stats`. Before the first exception, `last` is `null`.
pub proof fn lei_traps_stats(s: &Instantaneo, params: Seq<u8>)
    ensures
        ({
            let v = documento(Handler::TrapsStats, s, params);
            &&& tem(v, 4)
            &&& numero_no(v, 0, "total"@, s.falhas_total as int)
            &&& numero_no(v, 1, "details_lost"@, s.falhas_perdidas as int)
            &&& lista_no(
                v,
                2,
                "by_type"@,
                Seq::new(
                    s.falhas_por_tipo@.len(),
                    |i: int| crate::agent::commands::doc_tipo(s.falhas_por_tipo@[i]),
                ),
            )
            &&& s.ultima_falha is None ==> nulo_no(v, 3, "last"@)
            &&& s.ultima_falha is Some ==> parte_no(v, 3, "last"@, crate::agent::commands::doc_falha(s.ultima_falha))
        }),
{
    broadcast use group_lido;

    lemma_nulo();
    let xs = s.falhas_por_tipo@;
    assert(xs.map_values(|x: PorTipo| crate::agent::commands::doc_tipo(x)) =~= Seq::new(
        xs.len(),
        |i: int| crate::agent::commands::doc_tipo(xs[i]),
    ));
    assert forall|x: PorTipo| inteiro_em_si(#[trigger] crate::agent::commands::doc_tipo(x)) by {}
    assert(inteiro_em_si(crate::agent::commands::doc_falha(s.ultima_falha)));
    assert(inteiro_em_si(documento(Handler::TrapsStats, s, params)));
}

/// The answer to `debug.trigger` of a breakpoint: the kernel survived it.
pub proof fn lei_breakpoint(s: &Instantaneo, params: Seq<u8>)
    requires
        crate::agent::commands::gatilho(params) == Gatilho::Breakpoint,
    ensures
        ({
            let v = documento(Handler::DebugTrigger, s, params);
            &&& tem(v, 4)
            &&& texto_no(v, 0, "triggered"@, "breakpoint"@)
            &&& logico_no(v, 1, "survived"@, true)
            &&& numero_no(v, 2, "traps_before"@, s.falhas_antes as int)
            &&& numero_no(v, 3, "traps_after"@, s.falhas_total as int)
        }),
{
    broadcast use group_lido;

    assert(inteiro_em_si(documento(Handler::DebugTrigger, s, params)));
}

/// The answer to `debug.trigger` of a fatal fault: the kernel is about to fail.
pub proof fn lei_fatal(s: &Instantaneo, params: Seq<u8>)
    requires
        crate::agent::commands::gatilho(params) == Gatilho::Fatal,
    ensures
        ({
            let v = documento(Handler::DebugTrigger, s, params);
            &&& tem(v, 3)
            &&& texto_no(v, 0, "scheduled"@, "fatal"@)
            &&& logico_no(v, 1, "survived"@, false)
            &&& texto_no(
                v,
                2,
                "warning"@,
                "o kernel falha logo apos esta resposta e entra em modo post-mortem"@,
            )
        }),
{
    broadcast use group_lido;

    assert(inteiro_em_si(documento(Handler::DebugTrigger, s, params)));
}

/// The answer to `debug.trigger` of anything else: what was asked for, and what there
/// is.
pub proof fn lei_gatilho_desconhecido(s: &Instantaneo, params: Seq<u8>)
    requires
        crate::agent::commands::gatilho(params) == Gatilho::Outro,
    ensures
        ({
            let v = documento(Handler::DebugTrigger, s, params);
            &&& tem(v, 4)
            &&& logico_no(v, 0, "survived"@, true)
            &&& texto_no(v, 1, "error"@, "tipo de excecao nao suportado"@)
            &&& crate::agent::commands::texto(params, "kind") is Some ==> texto_no(v, 2, "requested"@, crate::agent::commands::texto(params, "kind")->0)
            &&& crate::agent::commands::texto(params, "kind") is None ==> texto_no(v, 2, "requested"@, ""@)
            &&& texto_no(v, 3, "supported"@, "breakpoint, fatal"@)
        }),
{
    broadcast use group_lido;

    assert(inteiro_em_si(documento(Handler::DebugTrigger, s, params)));
}

/// A record of the log.
pub proof fn lei_registro_escrito(r: crate::log::Registro)
    requires
        r.seq <= u64::MAX,
    ensures
        ({
            let v = crate::agent::commands::doc_registro(r);
            &&& tem(v, 5)
            &&& numero_no(v, 0, "seq"@, r.seq as int)
            &&& numero_no(v, 1, "uptime_ms"@, r.uptime_ms as int)
            &&& texto_no(
                v,
                2,
                "level"@,
                match r.level {
                    Level::Error => "error"@,
                    Level::Warn => "warn"@,
                    Level::Info => "info"@,
                    Level::Debug => "debug"@,
                    Level::Trace => "trace"@,
                },
            )
            &&& texto_no(v, 3, "subsystem"@, r.subsistema)
            &&& texto_no(v, 4, "message"@, r.mensagem)
        }),
{
    broadcast use group_lido;

    assert(inteiro_em_si(crate::agent::commands::doc_registro(r)));
}

/// The answer to `log.tail`: one entry per record chosen, in order.
pub proof fn lei_log_tail(s: &Instantaneo, params: Seq<u8>)
    requires
        s.log.total() <= u64::MAX,
    ensures
        ({
            let v = documento(Handler::LogTail, s, params);
            let xs = crate::agent::commands::registros(s, params);
            &&& tem(v, 2)
            &&& lista_no(
                v,
                0,
                "records"@,
                Seq::new(xs.len(), |i: int| crate::agent::commands::doc_registro(xs[i])),
            )
            &&& numero_no(v, 1, "total_emitted"@, s.log.total() as int)
        }),
{
    broadcast use group_lido;

    let xs = crate::agent::commands::registros(s, params);
    assert(xs.map_values(|r: crate::log::Registro| crate::agent::commands::doc_registro(r))
        =~= Seq::new(xs.len(), |i: int| crate::agent::commands::doc_registro(xs[i])));
    assert forall|r: crate::log::Registro| inteiro_em_si(
        #[trigger] crate::agent::commands::doc_registro(r),
    ) by {}
    assert(inteiro_em_si(documento(Handler::LogTail, s, params)));
}

/// The regions listed under a filter are the usable ones, or all, in order.
pub proof fn lei_regioes_escolhidas(s: Seq<Regiao>, so_utilizaveis: bool)
    ensures
        crate::agent::commands::escolhidas(s, so_utilizaveis) == s.filter(
            |r: Regiao| so_utilizaveis ==> r.tipo is Utilizavel,
        ),
        crate::agent::commands::escolhidas(s, false) == s,
        crate::agent::commands::escolhidas(s, so_utilizaveis).len() <= s.len(),
    decreases s.len(),
{
    reveal(Seq::filter);
    if s.len() > 0 {
        lei_regioes_escolhidas(s.drop_last(), so_utilizaveis);
        assert(s.drop_last().push(s.last()) =~= s);
    }
}

/// What `memory.regions` lists: with `usable_only` true the usable regions, else
/// all of them, and of those the first `limit`, where one is given.
pub proof fn lei_regioes_listadas(s: Seq<Regiao>, params: Seq<u8>)
    ensures
        ({
            let so = crate::agent::commands::logico(params, "usable_only") == Some(true);
            let todas = s.filter(|r: Regiao| so ==> r.tipo is Utilizavel);
            let r = crate::agent::commands::listadas(s, params);
            &&& crate::agent::commands::inteiro(params, "limit") is None && s.len() <= u64::MAX
                ==> r == todas
            &&& crate::agent::commands::inteiro(params, "limit") is Some ==> {
                let n = crate::agent::commands::inteiro(params, "limit")->0;
                &&& r.len() <= n
                &&& r.len() == n || r == todas
                &&& r.len() <= todas.len()
                &&& forall|i: int| 0 <= i < r.len() ==> #[trigger] r[i] == todas[i]
            }
        }),
{
    let so = crate::agent::commands::logico(params, "usable_only") == Some(true);
    lei_regioes_escolhidas(s, so);
    assert(s.filter(|r: Regiao| so ==> r.tipo is Utilizavel).len() <= s.len());
}

/// What the fields of the parameters hold: the value of the first member with that
/// name, read as what is asked for.
pub proof fn lei_parametros(params: Seq<u8>, nome: &str, v: Seq<u8>)
    requires
        crate::agent::protocol::membro(params, nome) == Some(v),
    ensures
        crate::agent::commands::inteiro(params, nome) == crate::agent::registry::inteiro_do_valor(v),
        crate::agent::commands::texto(params, nome) == crate::agent::protocol::texto_do_valor(v),
        crate::agent::commands::logico(params, nome) == crate::agent::registry::logico_do_valor(v),
{
}

/// What `log.tail` reports: of the last `count` records kept, 32 where none is
/// given, those at least as grave as `min_level`; all of them where that names no
/// level.
pub proof fn lei_registros_escolhidos(s: &Instantaneo, params: Seq<u8>)
    requires
        s.log.guardados().len() <= u32::MAX,
    ensures
        ({
            let n: int = match crate::agent::commands::inteiro(params, "count") {
                Some(n) => n as int,
                None => 32,
            };
            let todos = s.log.guardados();
            let de: int = if n < todos.len() {
                todos.len() - n
            } else {
                0
            };
            let t = crate::agent::commands::texto(params, "min_level");
            let grave = |r: crate::log::Registro|
                if t == Some("error"@) {
                    r.level is Error
                } else if t == Some("warn"@) {
                    r.level is Error || r.level is Warn
                } else if t == Some("info"@) {
                    !(r.level is Debug) && !(r.level is Trace)
                } else if t == Some("debug"@) {
                    !(r.level is Trace)
                } else {
                    true
                };
            crate::agent::commands::registros(s, params) == todos.subrange(
                de,
                todos.len() as int,
            ).filter(grave)
        }),
{
    let n: int = match crate::agent::commands::inteiro(params, "count") {
        Some(n) => n as int,
        None => 32,
    };
    let todos = s.log.guardados();
    let de: int = if n < todos.len() {
        todos.len() - n
    } else {
        0
    };
    let t = crate::agent::commands::texto(params, "min_level");
    let grave = |r: crate::log::Registro|
        if t == Some("error"@) {
            r.level is Error
        } else if t == Some("warn"@) {
            r.level is Error || r.level is Warn
        } else if t == Some("info"@) {
            !(r.level is Debug) && !(r.level is Trace)
        } else if t == Some("debug"@) {
            !(r.level is Trace)
        } else {
            true
        };
    let fim = todos.subrange(de, todos.len() as int);
    assert(crate::log::cauda(todos, crate::agent::commands::quantos(params)) =~= fim);
    let minimo = crate::agent::commands::minimo(params);
    assert forall|r: crate::log::Registro| #[trigger] grave(r) == (r.level.ordem_spec()
        <= minimo.ordem_spec()) by {}
    lemma_graves(fim, minimo, grave);
}

proof fn lemma_graves(
    s: Seq<crate::log::Registro>,
    minimo: Level,
    grave: spec_fn(crate::log::Registro) -> bool,
)
    requires
        forall|r: crate::log::Registro| #[trigger] grave(r) == (r.level.ordem_spec()
            <= minimo.ordem_spec()),
    ensures
        crate::log::graves(s, minimo) == s.filter(grave),
    decreases s.len(),
{
    reveal(Seq::filter);
    if s.len() > 0 {
        lemma_graves(s.drop_last(), minimo, grave);
        assert(grave(s.last()) == (s.last().level.ordem_spec() <= minimo.ordem_spec()));
    }
}

/// What `debug.trigger` does is in the text of `kind`: `breakpoint`, `fatal`, or
/// neither.
pub proof fn lei_gatilho(params: Seq<u8>)
    ensures
        crate::agent::commands::texto(params, "kind") == Some("breakpoint"@)
            <==> crate::agent::commands::gatilho(params) is Breakpoint,
        crate::agent::commands::texto(params, "kind") == Some("fatal"@)
            <==> crate::agent::commands::gatilho(params) is Fatal,
{
    reveal_strlit("breakpoint");
    reveal_strlit("fatal");
    reveal_strlit("");
    assert("breakpoint"@.len() == 10 && "fatal"@.len() == 5 && ""@.len() == 0);
}

/// What is done before a command is answered, and whether the kernel is to fail
/// after it: only `debug.trigger`, `user.run` and `paging.translate` do anything.
pub proof fn lei_o_que_se_faz(h: Handler, params: Seq<u8>)
    ensures
        ({
            let antes = crate::agent::commands::preparo_de(h, params);
            let kind = crate::agent::commands::texto(params, "kind");
            &&& antes is Breakpoint <==> h is DebugTrigger && kind == Some("breakpoint"@)
            &&& antes is Lancar <==> h is UserRun
            &&& antes is Traduzir <==> h is PagingTranslate
            &&& h is PagingTranslate ==> antes->Traduzir_0 == (match crate::agent::commands::inteiro(
                params,
                "address",
            ) {
                Some(n) => n,
                None => 0,
            })
            &&& crate::agent::commands::falha_depois(h, params) <==> h is DebugTrigger && kind == Some(
                "fatal"@,
            )
        }),
{
    lei_gatilho(params);
}

/// An identifier that can be echoed is one value, without control characters.
proof fn lemma_id_escrito(id: Option<Seq<u8>>)
    requires
        id is Some ==> crate::agent::protocol::ecoavel(id->0),
    ensures
        inteiro_em_si(Valor::Cru(crate::agent::protocol::texto_do_id(id))),
        id is Some ==> bytes_de(Valor::Cru(crate::agent::protocol::texto_do_id(id))) == id->0,
        id is None ==> bytes_de(Valor::Cru(crate::agent::protocol::texto_do_id(id))) == seq![
            110u8,
            117,
            108,
            108,
        ],
{
    lemma_nulo();
    reveal(inteiro_em_si);
    if let Some(b) = id {
        if crate::agent::leitura::numero_json(b) {
            lemma_numero_cru(b);
        } else {
            let t = vstd::utf8::decode_utf8(b);
            vstd::utf8::decode_utf8_encode_utf8(b);
            assert(crate::agent::leitura::string_inteira(t));
            lemma_sem_controles(t);
        }
    }
}

/// The bytes of a number are its text.
proof fn lemma_numero_cru(b: Seq<u8>)
    requires
        crate::agent::leitura::numero_json(b),
    ensures
        vstd::utf8::valid_utf8(b),
        vstd::utf8::encode_utf8(vstd::utf8::decode_utf8(b)) == b,
        crate::agent::leitura::atomo(vstd::utf8::decode_utf8(b)),
        crate::agent::json::claro(vstd::utf8::decode_utf8(b)),
{
    let t = Seq::new(b.len(), |i: int| b[i] as char);
    assert forall|i: int| 0 <= i < t.len() implies '!' <= (#[trigger] t[i]) <= '~' && t[i] != ','
        && t[i] != '}' && t[i] != ']' && t[i] != '{' && t[i] != '[' && t[i] != '"' by {
        crate::agent::leitura::lei_bytes_do_numero(b, i);
    }
    assert(vstd::utf8::is_ascii_chars(t));
    vstd::utf8::is_ascii_chars_encode_utf8(t);
    assert forall|i: int| 0 <= i < b.len() implies vstd::utf8::encode_utf8(t)[i] == #[trigger] b[i] by {
        crate::agent::leitura::lei_bytes_do_numero(b, i);
        assert(t[i] as u8 == vstd::utf8::encode_utf8(t)[i]);
    }
    assert(vstd::utf8::encode_utf8(t) =~= b);
    vstd::utf8::encode_utf8_valid_utf8(t);
    vstd::utf8::encode_utf8_decode_utf8(t);
    let (i, f) = choose|i: int, f: int| #[trigger] crate::agent::leitura::partes_do_numero(b, i, f);
    assert(b.len() > 0);
}

proof fn lemma_um_controle(c: char)
    ensures
        (c as u32) < 0x20 ==> vstd::utf8::encode_utf8(seq![c]).len() > 0 && vstd::utf8::encode_utf8(
            seq![c],
        )[0] < 0x20,
{
    if (c as u32) < 0x20 {
        let u = seq![c];
        assert(vstd::utf8::is_ascii_chars(u));
        vstd::utf8::is_ascii_chars_encode_utf8(u);
        assert(u[0] == c);
    }
}

/// A text whose bytes are none below the space has no control character.
proof fn lemma_sem_controles(t: Seq<char>)
    requires
        forall|i: int|
            0 <= i < vstd::utf8::encode_utf8(t).len() ==> #[trigger] vstd::utf8::encode_utf8(t)[i]
                >= 0x20,
    ensures
        crate::agent::json::claro(t),
    decreases t.len(),
{
    if t.len() > 0 {
        let c = t[0];
        let r = t.drop_first();
        assert(t =~= seq![c] + r);
        crate::agent::leitura::lemma_bytes_da_soma(seq![c], r);
        let a = vstd::utf8::encode_utf8(seq![c]);
        let b = vstd::utf8::encode_utf8(r);
        let e = vstd::utf8::encode_utf8(t);
        assert(e =~= a + b);
        assert forall|i: int| 0 <= i < b.len() implies #[trigger] b[i] >= 0x20 by {
            assert(e[a.len() + i] == b[i]);
        }
        lemma_sem_controles(r);
        lemma_um_controle(c);
        if a.len() > 0 {
            assert(e[0] == a[0]);
        }
        assert forall|i: int| 0 <= i < t.len() implies (#[trigger] t[i]) as u32 >= 0x20 by {
            if i > 0 {
                assert(r[i - 1] == t[i]);
            }
        }
    }
}

proof fn lemma_doc_describe(s: &Instantaneo, params: Seq<u8>)
    ensures
        inteiro_em_si(documento(Handler::AgentDescribe, s, params)),
{
    broadcast use group_lido;

    assert forall|p: ParamSpec| inteiro_em_si(
        #[trigger] crate::agent::commands::doc_param(p),
    ) by {}
    assert forall|h: Handler| inteiro_em_si(#[trigger] crate::agent::commands::doc_comando(h)) by {}
}

proof fn lemma_doc_irq(s: &Instantaneo, params: Seq<u8>)
    ensures
        inteiro_em_si(documento(Handler::IrqStats, s, params)),
{
    broadcast use group_lido;

    assert forall|x: Contagem| inteiro_em_si(
        #[trigger] crate::agent::commands::doc_linha(x),
    ) by {}
}

proof fn lemma_doc_tarefas(s: &Instantaneo, params: Seq<u8>)
    ensures
        inteiro_em_si(documento(Handler::TasksList, s, params)),
{
    broadcast use group_lido;

    assert forall|x: crate::tarefas::executor::Inscricao| inteiro_em_si(
        #[trigger] crate::agent::commands::doc_tarefa(x),
    ) by {}
}

proof fn lemma_doc_fios(s: &Instantaneo, params: Seq<u8>)
    ensures
        inteiro_em_si(documento(Handler::ThreadsList, s, params)),
{
    broadcast use group_lido;

    assert forall|x: crate::fios::Inscricao| inteiro_em_si(
        #[trigger] crate::agent::commands::doc_fio(x),
    ) by {}
}

proof fn lemma_doc_regioes(s: &Instantaneo, params: Seq<u8>)
    ensures
        inteiro_em_si(documento(Handler::MemoryRegions, s, params)),
{
    broadcast use group_lido;

    assert forall|x: Regiao| inteiro_em_si(
        #[trigger] crate::agent::commands::doc_regiao(x),
    ) by {}
}

proof fn lemma_doc_falhas(s: &Instantaneo, params: Seq<u8>)
    ensures
        inteiro_em_si(documento(Handler::TrapsStats, s, params)),
{
    broadcast use group_lido;

    lemma_nulo();
    assert forall|x: PorTipo| inteiro_em_si(#[trigger] crate::agent::commands::doc_tipo(x)) by {}
    assert(inteiro_em_si(crate::agent::commands::doc_falha(s.ultima_falha)));
}

proof fn lemma_doc_log(s: &Instantaneo, params: Seq<u8>)
    ensures
        inteiro_em_si(documento(Handler::LogTail, s, params)),
{
    broadcast use group_lido;

    assert forall|r: crate::log::Registro| inteiro_em_si(
        #[trigger] crate::agent::commands::doc_registro(r),
    ) by {}
}

proof fn lemma_doc_sistema(s: &Instantaneo, params: Seq<u8>)
    ensures
        inteiro_em_si(documento(Handler::SystemInfo, s, params)),
{
    broadcast use group_lido;

    lemma_nulo();
    assert(inteiro_em_si(crate::agent::commands::doc_video(s.video)));
    assert(inteiro_em_si(crate::agent::commands::doc_guarda(s.falha_de_pilha@)));
}

proof fn lemma_doc_executor(s: &Instantaneo, params: Seq<u8>)
    ensures
        inteiro_em_si(documento(Handler::TasksStats, s, params)),
{
    broadcast use group_lido;

    assert(inteiro_em_si(crate::agent::commands::doc_entrada(s.entrada)));
}

proof fn lemma_doc_traducao(s: &Instantaneo, params: Seq<u8>)
    ensures
        inteiro_em_si(documento(Handler::PagingTranslate, s, params)),
{
    broadcast use group_lido;

    lemma_nulo();
}

proof fn lemma_doc_usuario(s: &Instantaneo, params: Seq<u8>)
    ensures
        inteiro_em_si(documento(Handler::UserStats, s, params)),
{
    broadcast use group_lido;

    lemma_nulo();
}

proof fn lemma_doc_ping(s: &Instantaneo, params: Seq<u8>)
    ensures
        inteiro_em_si(documento(Handler::AgentPing, s, params)),
{
    broadcast use group_lido;

}

proof fn lemma_doc_memoria(s: &Instantaneo, params: Seq<u8>)
    ensures
        inteiro_em_si(documento(Handler::MemoryStats, s, params)),
{
    broadcast use group_lido;

}

proof fn lemma_doc_quadros(s: &Instantaneo, params: Seq<u8>)
    ensures
        inteiro_em_si(documento(Handler::MemoryFrames, s, params)),
{
    broadcast use group_lido;

}

proof fn lemma_doc_heap(s: &Instantaneo, params: Seq<u8>)
    ensures
        inteiro_em_si(documento(Handler::HeapStats, s, params)),
{
    broadcast use group_lido;

}

proof fn lemma_doc_relogio(s: &Instantaneo, params: Seq<u8>)
    ensures
        inteiro_em_si(documento(Handler::SystemUptime, s, params)),
{
    broadcast use group_lido;

}

proof fn lemma_doc_escalonador(s: &Instantaneo, params: Seq<u8>)
    ensures
        inteiro_em_si(documento(Handler::ThreadsStats, s, params)),
{
    broadcast use group_lido;

}

proof fn lemma_doc_lancamento(s: &Instantaneo, params: Seq<u8>)
    ensures
        inteiro_em_si(documento(Handler::UserRun, s, params)),
{
    broadcast use group_lido;

}

proof fn lemma_doc_gatilho(s: &Instantaneo, params: Seq<u8>)
    ensures
        inteiro_em_si(documento(Handler::DebugTrigger, s, params)),
{
    broadcast use group_lido;

}

/// Every answer of a command is a whole document on one line.
proof fn lemma_documento(h: Handler, s: &Instantaneo, params: Seq<u8>)
    ensures
        inteiro_em_si(documento(h, s, params)),
{
    match h {
        Handler::AgentDescribe => lemma_doc_describe(s, params),
        Handler::IrqStats => lemma_doc_irq(s, params),
        Handler::TasksList => lemma_doc_tarefas(s, params),
        Handler::ThreadsList => lemma_doc_fios(s, params),
        Handler::MemoryRegions => lemma_doc_regioes(s, params),
        Handler::TrapsStats => lemma_doc_falhas(s, params),
        Handler::LogTail => lemma_doc_log(s, params),
        Handler::SystemInfo => lemma_doc_sistema(s, params),
        Handler::TasksStats => lemma_doc_executor(s, params),
        Handler::PagingTranslate => lemma_doc_traducao(s, params),
        Handler::UserStats => lemma_doc_usuario(s, params),
        Handler::AgentPing => lemma_doc_ping(s, params),
        Handler::MemoryStats => lemma_doc_memoria(s, params),
        Handler::MemoryFrames => lemma_doc_quadros(s, params),
        Handler::HeapStats => lemma_doc_heap(s, params),
        Handler::SystemUptime => lemma_doc_relogio(s, params),
        Handler::ThreadsStats => lemma_doc_escalonador(s, params),
        Handler::UserRun => lemma_doc_lancamento(s, params),
        Handler::DebugTrigger => lemma_doc_gatilho(s, params),
    }
}

/// An answer: the version, the identifier that came, byte for byte, or `null`, and
/// what the command answers, on one line.
pub proof fn lei_resposta(id: Option<Seq<u8>>, h: Handler, s: &Instantaneo, params: Seq<u8>)
    requires
        id is Some ==> crate::agent::protocol::ecoavel(id->0),
    ensures
        ({
            let v = crate::agent::protocol::resposta(id, documento(h, s, params));
            &&& tem(v, 3)
            &&& texto_no(v, 0, "jsonrpc"@, "2.0"@)
            &&& id is Some ==> nome_no(v, 1, "id"@) && valor_no(v, 1) == id->0
            &&& id is None ==> nulo_no(v, 1, "id"@)
            &&& parte_no(v, 2, "result"@, documento(h, s, params))
            &&& forall|i: int|
                0 <= i < crate::agent::json::texto_de(v).len() ==> (
                #[trigger] crate::agent::json::texto_de(v)[i]) as u32 >= 0x20
        }),
{
    let v = crate::agent::protocol::resposta(id, documento(h, s, params));
    lemma_documento(h, s, params);
    lemma_envelope(v, id, "result"@, documento(h, s, params));
}

/// A refusal: the version, the identifier where there is one, and the error, on one
/// line.
pub proof fn lei_recusa(
    id: Option<Seq<u8>>,
    erro: crate::agent::protocol::RpcError,
    detalhe: Option<Seq<char>>,
)
    requires
        id is Some ==> crate::agent::protocol::ecoavel(id->0),
    ensures
        ({
            let v = crate::agent::protocol::recusa(id, erro, detalhe);
            &&& tem(v, 3)
            &&& texto_no(v, 0, "jsonrpc"@, "2.0"@)
            &&& id is Some ==> nome_no(v, 1, "id"@) && valor_no(v, 1) == id->0
            &&& id is None ==> nulo_no(v, 1, "id"@)
            &&& parte_no(v, 2, "error"@, crate::agent::protocol::teor(erro, detalhe))
            &&& forall|i: int|
                0 <= i < crate::agent::json::texto_de(v).len() ==> (
                #[trigger] crate::agent::json::texto_de(v)[i]) as u32 >= 0x20
        }),
{
    let v = crate::agent::protocol::recusa(id, erro, detalhe);
    let t = crate::agent::protocol::teor(erro, detalhe);
    assert(inteiro_em_si(t)) by {
        broadcast use group_lido;

    }
    lemma_envelope(v, id, "error"@, t);
}

/// What an error says: its code, its message, and its detail where it has one.
pub proof fn lei_teor(erro: crate::agent::protocol::RpcError, detalhe: Option<Seq<char>>)
    ensures
        ({
            let v = crate::agent::protocol::teor(erro, detalhe);
            &&& tem(
                v,
                if detalhe is Some {
                    3
                } else {
                    2
                },
            )
            &&& erro.codigo < 0 ==> parte_no(
                v,
                0,
                "code"@,
                Valor::Cru(seq!['-'] + crate::texto::decimal((-erro.codigo) as nat)),
            )
            &&& erro.codigo >= 0 ==> numero_no(v, 0, "code"@, erro.codigo as int)
            &&& texto_no(v, 1, "message"@, erro.mensagem@)
            &&& detalhe is Some ==> texto_no(v, 2, "data"@, detalhe->0)
        }),
{
    broadcast use group_lido;

    assert(inteiro_em_si(crate::agent::protocol::teor(erro, detalhe)));
}

proof fn lemma_envelope(v: Valor, id: Option<Seq<u8>>, nome: Seq<char>, corpo: Valor)
    requires
        id is Some ==> crate::agent::protocol::ecoavel(id->0),
        inteiro_em_si(corpo),
        v == Valor::Objeto(
            Seq::<(Seq<char>, Valor)>::empty().push(
                ("jsonrpc"@, Valor::Cru(crate::agent::json::string_json("2.0"@))),
            ).push(("id"@, Valor::Cru(crate::agent::protocol::texto_do_id(id)))).push((nome, corpo)),
        ),
    ensures
        tem(v, 3),
        texto_no(v, 0, "jsonrpc"@, "2.0"@),
        id is Some ==> nome_no(v, 1, "id"@) && valor_no(v, 1) == id->0,
        id is None ==> nulo_no(v, 1, "id"@),
        parte_no(v, 2, nome, corpo),
        forall|i: int|
            0 <= i < crate::agent::json::texto_de(v).len() ==> (
            #[trigger] crate::agent::json::texto_de(v)[i]) as u32 >= 0x20,
{
    lemma_id_escrito(id);
    let w = Valor::Cru(crate::agent::protocol::texto_do_id(id));
    assert(inteiro_em_si(v) && tem(v, 3) && texto_no(v, 0, "jsonrpc"@, "2.0"@) && parte_no(
        v,
        1,
        "id"@,
        w,
    ) && parte_no(v, 2, nome, corpo)) by {
        broadcast use group_lido;

        assert(inteiro_em_si(v));
    }
    reveal(parte_no);
    reveal(nulo_no);
    reveal(inteiro_em_si);
    crate::agent::json::lei_documento_numa_linha(v);
}

} // verus!
