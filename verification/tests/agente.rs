use duke::agent::commands::{pede_falha, preparo, Falha, Instantaneo, PorTipo, Preparo, Usuario, Video};
use duke::agent::json::JsonWriter;
use duke::agent::leitura::Json;
use duke::agent::protocol::{envelope_erro, envelope_ok, Requisicao, RpcError};
use duke::agent::registry::{comandos, encontrar, validar, Handler};
use duke::agent::{
    decidir, limpar_quadro, processar, responder, responder_erro, Decisao, Efeito, Montador,
    LINHA_MAX, TETO_DO_QUADRO_EM_TIQUES,
};
use duke::fios::Inscricao;
use duke::frames::{self, Alocador};
use duke::heap;
use duke::interpretador::despachar;
use duke::irq::{contabilizar, nomear, Linhas};
use duke::log::{registrar, Anel, Level};
use duke::machine::{adicionar_regiao, Maquina, Regiao, TipoRegiao};
use duke::serial::Saida;
use duke::tarefas::entrada::{coletar, descartar_pendentes, injetar, retirar, Entrada, CAPACIDADE};
use duke::tarefas::executor::Executor;
use duke::tarefas::{Identidades, Tarefa};

struct Mundo {
    log: Anel,
    maquina: Maquina,
    frames: Alocador,
    linhas: Linhas,
    executor: Executor,
    entrada: Entrada,
    inscricoes: Vec<Inscricao>,
    por_tipo: Vec<PorTipo>,
}

fn mundo() -> Mundo {
    let mut log = Anel::novo();
    registrar(&mut log, Level::Info, "boot", 12, &["linha \"um\""]);
    registrar(&mut log, Level::Error, "mem", 20, &["dois"]);
    let mut maquina = Maquina::nova();
    adicionar_regiao(
        &mut maquina,
        Regiao { inicio: 0x1000, fim: 0x5000, tipo: TipoRegiao::Utilizavel },
    );
    adicionar_regiao(
        &mut maquina,
        Regiao { inicio: 0x5000, fim: 0x6000, tipo: TipoRegiao::Reservada },
    );
    let mut quadros = Alocador::novo();
    frames::init(&mut quadros, &maquina, &[(0x1000, 0x2000)]);
    let mut linhas = Linhas::novas();
    nomear(&mut linhas, 30, "timer");
    contabilizar(&mut linhas, 30);
    let mut executor = Executor::novo();
    let mut ids = Identidades::novas();
    executor.lancar(Tarefa::nova(&mut ids, "agente"));
    let mut entrada = Entrada::nova();
    coletar(&mut entrada, b"abc");
    descartar_pendentes(&mut entrada, 2);
    Mundo {
        log,
        maquina,
        frames: quadros,
        linhas,
        executor,
        entrada,
        inscricoes: vec![Inscricao { id: 1, nome: "principal", estado: "rodando", escalonamentos: 3 }],
        por_tipo: vec![PorTipo { nome: "breakpoint", total: 2 }],
    }
}

fn retrato(m: &Mundo) -> Instantaneo<'_> {
    Instantaneo {
        arch: "aarch64",
        kernel: "duke",
        versao: "0.1.0",
        cpu: "ARM Limited",
        falha_de_pilha: "data_abort",
        video: None,
        ticks: 150,
        uptime_ms: 1500,
        timer_hz: 100,
        saida: Saida { perdidos: 7, travada: true },
        log: &m.log,
        maquina: &m.maquina,
        frames: &m.frames,
        heap: heap::estatisticas(&heap::Estado::vazio()),
        linhas: &m.linhas,
        executor: &m.executor,
        entrada: &m.entrada,
        fios: (2, 10, 4),
        inscricoes: &m.inscricoes,
        falhas_total: 2,
        falhas_perdidas: 1,
        falhas_por_tipo: &m.por_tipo,
        ultima_falha: None,
        usuario: Usuario {
            chamadas: 5,
            recusadas: 1,
            bytes: 20,
            ultima_saida: Some(-3),
            base: 0x1000,
            teto: 0x2000,
            codigo_do_exemplo: 42,
        },
        traducao: None,
        falhas_antes: 1,
        lancamento: Err("sem vaga"),
    }
}

fn pedir(linha: &str) -> String {
    let m = mundo();
    processar(linha.as_bytes(), &retrato(&m)).0.unwrap()
}

fn resultado(metodo: &str, params: &str) -> String {
    let t = pedir(&format!(
        "{{\"jsonrpc\":\"2.0\",\"id\":1,\"method\":\"{metodo}\",\"params\":{params}}}"
    ));
    let inicio = "{\"jsonrpc\":\"2.0\",\"id\":1,\"result\":";
    assert!(t.starts_with(inicio), "{t}");
    assert!(t.ends_with("}\n"));
    String::from(&t[inicio.len()..t.len() - 2])
}

#[test]
fn escritor_poe_virgulas_e_escapes() {
    let mut w = JsonWriter::new(String::new());
    w.begin_object();
    w.field_str("a", "x\"\\\n\r\t\u{1}ç");
    w.key("b");
    w.begin_array();
    w.u64_value(u64::MAX);
    w.i64_value(i64::MIN);
    w.bool_value(false);
    w.null_value();
    w.raw_value("{}");
    w.begin_object();
    w.end_object();
    w.begin_str();
    w.push_str("um ");
    w.push_char('"');
    w.end_str();
    w.end_array();
    w.field_u64("c", 0);
    w.field_bool("d", true);
    w.end_object();
    assert_eq!(
        w.terminar(),
        "{\"a\":\"x\\\"\\\\\\n\\r\\t\\u0001ç\",\"b\":[18446744073709551615,-9223372036854775808,false,null,{},{},\"um \\\"\"],\"c\":0,\"d\":true}"
    );
}

#[test]
fn leitor_acha_so_os_campos_do_objeto() {
    let j = Json(b"{ \"a\" : {\"b\": 1}, \"b\":\"x\", \"b\": 2, \"c\":[1,{\"d\":3}], \"e\": true }");
    assert_eq!(j.member("b").unwrap().as_str(), Some("x"));
    assert_eq!(j.member("a").unwrap().member("b").unwrap().as_u64(), Some(1));
    assert!(j.member("d").is_none());
    assert_eq!(j.member("e").unwrap().as_bool(), Some(true));
    assert_eq!(j.member("c").unwrap().raw_str(), Some("[1,{\"d\":3}]"));
    assert_eq!(j.para_cada_chave(), vec!["a", "b", "b", "c", "e"]);
    assert!(Json(b"[1]").member("a").is_none());
    assert!(Json(b"null").is_null());
    assert_eq!(Json(b"-1").as_u64(), None);
    assert_eq!(Json(b"18446744073709551616").as_u64(), None);
    assert_eq!(Json(&[0xFF]).raw_str(), None);
}

#[test]
fn valores_que_podem_ser_ecoados() {
    for bom in ["0", "-1", "12.5e+3", "-0.1"] {
        assert!(Json(bom.as_bytes()).e_numero(), "{bom}");
    }
    for ruim in ["", "-", "01", "1.", "1e", "+1", "nan", "1 "] {
        assert!(!Json(ruim.as_bytes()).e_numero(), "{ruim}");
    }
    assert!(Json(b"\"abc\"").e_string_ecoavel());
    assert!(!Json(b"\"abc").e_string_ecoavel());
    assert!(!Json(b"\"a\nb\"").e_string_ecoavel());
}

#[test]
fn pedidos_lidos_e_recusados() {
    let q = Requisicao::parse(b"{\"jsonrpc\":\"2.0\",\"id\":\"x\",\"method\":\"a.b\"}");
    let q = match q {
        Ok(q) => q,
        Err(_) => panic!("o pedido foi recusado"),
    };
    assert_eq!((q.metodo, q.id.unwrap().raw_str()), ("a.b", Some("\"x\"")));
    assert_eq!(q.params.raw_str(), Some("{}"));
    let erro = |l: &'static str| match Requisicao::parse(l.as_bytes()) {
        Ok(_) => 0,
        Err((_, e)) => e.codigo,
    };
    assert_eq!(erro("nada"), -32700);
    assert_eq!(erro("{\"jsonrpc\":\"2.0\"}"), -32600);
    assert_eq!(erro("{\"method\":1}"), -32600);
    assert_eq!(erro("{\"method\":\"x\",\"id\":{}}"), -32600);
    assert_eq!(erro("{\"method\":\"x\",\"id\":null}"), 0);
}

#[test]
fn envelopes() {
    let w = envelope_ok(JsonWriter::new(String::new()), Some(Json(b"7")), |mut w| {
        w.bool_value(true);
        w
    });
    assert_eq!(w.terminar(), "{\"jsonrpc\":\"2.0\",\"id\":7,\"result\":true}");
    let mut w = JsonWriter::new(String::new());
    envelope_erro(&mut w, None, RpcError::params_invalidos(), Some("limit"));
    assert_eq!(
        w.terminar(),
        "{\"jsonrpc\":\"2.0\",\"id\":null,\"error\":{\"code\":-32602,\"message\":\"parametros invalidos\",\"data\":\"limit\"}}"
    );
    assert_eq!(
        responder_erro(None, RpcError::linha_muito_longa(), None),
        "{\"jsonrpc\":\"2.0\",\"id\":null,\"error\":{\"code\":-32000,\"message\":\"requisicao excede o buffer de linha do kernel\"}}\n"
    );
}

#[test]
fn registro_de_comandos() {
    let todos = comandos();
    assert_eq!(todos.len(), 19);
    for h in &todos {
        let c = encontrar(h.nome()).unwrap();
        assert_eq!(c.handler, *h);
        assert_eq!(c.resumo, h.resumo());
    }
    assert!(encontrar("agent.pin").is_none());
    let c = encontrar("memory.regions").unwrap();
    assert_eq!(c.params[0].tipo.nome(), "integer");
    assert_eq!(validar(&c, Json(b"{}")), Ok(()));
    assert_eq!(validar(&c, Json(b"{\"limit\":\"x\"}")), Err("limit"));
    assert_eq!(validar(&c, Json(b"{\"limit\":1,\"usable_only\":0}")), Err("usable_only"));
    let t = encontrar("paging.translate").unwrap();
    assert_eq!(validar(&t, Json(b"{}")), Err("address"));
    let d = encontrar("debug.trigger").unwrap();
    assert_eq!(validar(&d, Json(b"{\"kind\":1}")), Err("kind"));
}

#[test]
fn ping_e_erros_de_pedido() {
    assert_eq!(
        pedir("  {\"jsonrpc\":\"2.0\",\"id\":\"a1\",\"method\":\"agent.ping\"}\r"),
        "{\"jsonrpc\":\"2.0\",\"id\":\"a1\",\"result\":{\"pong\":true,\"arch\":\"aarch64\",\"log_seq\":2}}\n"
    );
    assert_eq!(
        pedir("{\"jsonrpc\":\"2.0\",\"id\":9,\"method\":\"nao.existe\"}"),
        "{\"jsonrpc\":\"2.0\",\"id\":9,\"error\":{\"code\":-32601,\"message\":\"metodo nao encontrado\"}}\n"
    );
    assert_eq!(
        pedir("{\"jsonrpc\":\"2.0\",\"id\":9,\"method\":\"paging.translate\"}"),
        "{\"jsonrpc\":\"2.0\",\"id\":9,\"error\":{\"code\":-32602,\"message\":\"parametros invalidos\",\"data\":\"address\"}}\n"
    );
    assert_eq!(
        pedir("xyz"),
        "{\"jsonrpc\":\"2.0\",\"id\":null,\"error\":{\"code\":-32700,\"message\":\"JSON malformado\"}}\n"
    );
    let m = mundo();
    assert_eq!(processar(b" \t\r", &retrato(&m)), (None, false));
}

#[test]
fn respostas_de_memoria() {
    assert_eq!(
        resultado("memory.stats", "{}"),
        "{\"usable_bytes\":16384,\"total_bytes\":20480,\"region_count\":2,\"dropped_regions\":0}"
    );
    assert_eq!(
        resultado("memory.regions", "{\"usable_only\":true}"),
        "{\"regions\":[{\"start\":4096,\"end\":20480,\"size\":16384,\"kind\":\"usable\"}],\"count\":1}"
    );
    assert_eq!(resultado("memory.regions", "{\"limit\":0}"), "{\"regions\":[],\"count\":0}");
    assert_eq!(
        resultado("memory.frames", "{}"),
        "{\"frame_size\":4096,\"base\":4096,\"tracked\":4,\"free\":3,\"used\":1,\"free_bytes\":12288}"
    );
    assert_eq!(
        resultado("heap.stats", "{}"),
        "{\"total_bytes\":0,\"allocated_bytes\":0,\"free_bytes\":0,\"free_blocks\":0,\"largest_free_block\":0,\"allocations\":0,\"deallocations\":0,\"failures\":0}"
    );
    assert_eq!(
        resultado("paging.translate", "{\"address\":4096}"),
        "{\"virtual\":4096,\"mapped\":false,\"physical\":null}"
    );
}

#[test]
fn respostas_do_sistema() {
    assert_eq!(
        resultado("system.uptime", "{}"),
        "{\"ticks\":150,\"uptime_ms\":1500,\"timer_hz\":100,\"timer_active\":true}"
    );
    assert_eq!(
        resultado("system.info", "{}"),
        "{\"arch\":\"aarch64\",\"kernel\":\"duke\",\"version\":\"0.1.0\",\"phase\":\"0\",\"cpu_vendor\":\"ARM Limited\",\"framebuffer\":null,\"uptime_ms\":1500,\"log_records\":2,\"output_bytes_lost\":7,\"stack_guard\":{\"mechanism\":\"guard-page\",\"fault\":\"data_abort\"}}"
    );
    let m = mundo();
    let mut s = retrato(&m);
    s.video = Some(Video { largura: 1, altura: 2, stride: 3, bytes_por_pixel: 4, formato: "bgr" });
    let t = processar(b"{\"method\":\"system.info\",\"id\":1}", &s).0.unwrap();
    assert!(t.contains(
        "\"framebuffer\":{\"width\":1,\"height\":2,\"stride\":3,\"bytes_per_pixel\":4,\"pixel_format\":\"bgr\"}"
    ));
}

#[test]
fn respostas_do_escalonamento() {
    assert_eq!(
        resultado("tasks.stats", "{}"),
        "{\"spawned\":1,\"completed\":0,\"alive\":1,\"polls\":0,\"wakes\":0,\"never_scheduled\":0,\"input\":{\"queued\":3,\"capacity\":4096,\"dropped\":0,\"dropped_at_boot\":2}}"
    );
    assert!(resultado("tasks.list", "{}").ends_with("\"name\":\"agente\",\"alive\":true}],\"capacity\":32,\"unlisted\":0}"));
    assert_eq!(
        resultado("threads.stats", "{}"),
        "{\"alive\":2,\"context_switches\":10,\"quantum_expirations\":4,\"quantum_ticks\":5,\"max_threads\":16}"
    );
    assert_eq!(
        resultado("threads.list", "{}"),
        "{\"threads\":[{\"id\":1,\"name\":\"principal\",\"state\":\"rodando\",\"scheduled\":3}]}"
    );
    assert_eq!(
        resultado("irq.stats", "{}"),
        "{\"total\":1,\"lines\":[{\"line\":30,\"name\":\"timer\",\"count\":1}],\"above_limit\":0}"
    );
    assert_eq!(resultado("user.run", "{}"), "{\"launched\":false,\"error\":\"sem vaga\"}");
    assert_eq!(
        resultado("user.stats", "{}"),
        "{\"syscalls\":5,\"rejected\":1,\"bytes_written\":20,\"last_exit\":-3,\"user_base\":4096,\"user_top\":8192,\"example_exit_code\":42}"
    );
}

#[test]
fn respostas_de_diagnostico() {
    assert_eq!(
        resultado("traps.stats", "{}"),
        "{\"total\":2,\"details_lost\":1,\"by_type\":[{\"name\":\"breakpoint\",\"count\":2}],\"last\":null}"
    );
    let m = mundo();
    let mut s = retrato(&m);
    s.ultima_falha =
        Some(Falha { seq: 4, nome: "page_fault", pc: 16, endereco: Some(32), codigo: 2 });
    let t = processar(b"{\"method\":\"traps.stats\",\"id\":1}", &s).0.unwrap();
    assert!(t.contains(
        "\"last\":{\"seq\":4,\"name\":\"page_fault\",\"pc\":16,\"address\":32,\"raw_code\":2}"
    ));
    assert_eq!(
        resultado("log.tail", "{\"count\":1}"),
        "{\"records\":[{\"seq\":1,\"uptime_ms\":20,\"level\":\"error\",\"subsystem\":\"mem\",\"message\":\"dois\"}],\"total_emitted\":2}"
    );
    assert!(resultado("log.tail", "{}").contains("\"message\":\"linha \\\"um\\\"\""));
    assert!(!resultado("log.tail", "{\"min_level\":\"error\"}").contains("boot"));
    assert_eq!(
        resultado("debug.trigger", "{\"kind\":\"breakpoint\"}"),
        "{\"triggered\":\"breakpoint\",\"survived\":true,\"traps_before\":1,\"traps_after\":2}"
    );
    assert_eq!(
        resultado("debug.trigger", "{\"kind\":\"outra\"}"),
        "{\"survived\":true,\"error\":\"tipo de excecao nao suportado\",\"requested\":\"outra\",\"supported\":\"breakpoint, fatal\"}"
    );
}

#[test]
fn falha_so_depois_da_resposta() {
    let m = mundo();
    let s = retrato(&m);
    let (t, falhar) =
        processar(b"{\"id\":1,\"method\":\"debug.trigger\",\"params\":{\"kind\":\"fatal\"}}", &s);
    assert!(t.unwrap().contains("\"scheduled\":\"fatal\",\"survived\":false"));
    assert!(falhar);
    assert!(pede_falha(Handler::DebugTrigger, Json(b"{\"kind\":\"fatal\"}")));
    assert!(!pede_falha(Handler::DebugTrigger, Json(b"{\"kind\":\"breakpoint\"}")));
    assert!(!pede_falha(Handler::AgentPing, Json(b"{\"kind\":\"fatal\"}")));
}

#[test]
fn preparos_antes_da_resposta() {
    assert_eq!(preparo(Handler::UserRun, Json(b"{}")), Preparo::Lancar);
    assert_eq!(
        preparo(Handler::PagingTranslate, Json(b"{\"address\": 77 }")),
        Preparo::Traduzir(77)
    );
    assert_eq!(
        preparo(Handler::DebugTrigger, Json(b"{\"kind\":\"breakpoint\"}")),
        Preparo::Breakpoint
    );
    assert_eq!(preparo(Handler::DebugTrigger, Json(b"{\"kind\":\"fatal\"}")), Preparo::Nada);
    assert_eq!(preparo(Handler::AgentPing, Json(b"{}")), Preparo::Nada);
}

#[test]
fn descricao_lista_todos() {
    let t = resultado("agent.describe", "{}");
    assert!(t.starts_with(
        "{\"protocol\":\"jsonrpc-2.0\",\"transport\":\"serial-ndjson\",\"kernel\":\"duke\",\"version\":\"0.1.0\",\"arch\":\"aarch64\",\"commands\":[{\"name\":\"agent.ping\",\"summary\":\""
    ));
    for h in comandos() {
        assert!(t.contains(&format!("{{\"name\":\"{}\",\"summary\":", h.nome())));
    }
    assert!(t.contains("{\"name\":\"address\",\"type\":\"integer\",\"required\":true,"));
}

#[test]
fn decisoes_e_ruido_em_volta() {
    assert_eq!(limpar_quadro(b"\0\x01 a b \t\r"), b"a b");
    assert!(limpar_quadro(b" \n ").is_empty());
    assert!(matches!(decidir(b""), Decisao::Nada));
    assert!(matches!(
        decidir(b"\0{\"id\":1,\"method\":\"agent.ping\"}"),
        Decisao::Executar { handler: Handler::AgentPing, .. }
    ));
    let m = mundo();
    let s = retrato(&m);
    let d = decidir(b"{\"id\":1,\"method\":\"x\"}");
    assert_eq!(responder(&d, &s), processar(b"{\"id\":1,\"method\":\"x\"}", &s));
}

fn alimentar_tudo(
    m: &mut Montador,
    e: &mut Entrada,
    agora: u64,
    bytes: &[u8],
) -> Vec<(bool, Efeito)> {
    bytes.iter().map(|b| m.alimentar(*b, agora, e)).collect()
}

#[test]
fn linha_montada_byte_a_byte() {
    let mut e = Entrada::nova();
    let mut m = Montador::novo(&e);
    let v = alimentar_tudo(&mut m, &mut e, 1, b"ab\r\n");
    assert!(v[..3].iter().all(|x| !x.0 && matches!(x.1, Efeito::Nada)));
    match &v[3] {
        (true, Efeito::Processar(linha)) => assert_eq!(linha, b"ab"),
        _ => panic!("a linha nao chegou"),
    }
    let (fim, efeito) = m.alimentar(b'\n', 2, &mut e);
    assert!(fim && matches!(efeito, Efeito::Nada));
}

#[test]
fn linha_longa_e_recusada() {
    let mut e = Entrada::nova();
    let mut m = Montador::novo(&e);
    alimentar_tudo(&mut m, &mut e, 1, &vec![b'x'; LINHA_MAX]);
    match m.alimentar(b'\n', 1, &mut e).1 {
        Efeito::Processar(l) => assert_eq!(l.len(), LINHA_MAX),
        _ => panic!("a linha no limite foi recusada"),
    }
    alimentar_tudo(&mut m, &mut e, 1, &vec![b'x'; LINHA_MAX + 1]);
    match m.alimentar(b'\n', 1, &mut e).1 {
        Efeito::Responder(erro) => assert_eq!(erro.codigo, -32000),
        _ => panic!("a linha longa passou"),
    }
    alimentar_tudo(&mut m, &mut e, 1, b"ok");
    assert!(matches!(m.alimentar(b'\n', 1, &mut e).1, Efeito::Processar(_)));
}

#[test]
fn quadro_parado_e_esquecido() {
    let mut e = Entrada::nova();
    let mut m = Montador::novo(&e);
    alimentar_tudo(&mut m, &mut e, 10, b"velho");
    let depois = 10 + TETO_DO_QUADRO_EM_TIQUES + 1;
    alimentar_tudo(&mut m, &mut e, depois, b"novo");
    match m.alimentar(b'\n', depois, &mut e).1 {
        Efeito::Processar(l) => assert_eq!(l, b"novo"),
        _ => panic!("o quadro novo se perdeu"),
    }
    alimentar_tudo(&mut m, &mut e, 300, b"um");
    alimentar_tudo(&mut m, &mut e, 300 + TETO_DO_QUADRO_EM_TIQUES, b"dois\n");
}

#[test]
fn quadro_danificado_nao_roda() {
    let mut e = Entrada::nova();
    let mut m = Montador::novo(&e);
    alimentar_tudo(&mut m, &mut e, 1, b"{\"me");
    for _ in 0..CAPACIDADE {
        let _ = injetar(&mut e, b'x');
    }
    match m.alimentar(b't', 1, &mut e) {
        (false, Efeito::Responder(erro)) => assert_eq!(erro.codigo, -32001),
        _ => panic!("a perda passou despercebida"),
    }
    let v = alimentar_tudo(&mut m, &mut e, 1, b"resto");
    assert!(v.iter().all(|x| matches!(x.1, Efeito::Nada)));
    assert!(matches!(m.alimentar(b'\n', 1, &mut e), (true, Efeito::Nada)));
    alimentar_tudo(&mut m, &mut e, 1, b"ok");
    assert!(matches!(m.alimentar(b'\n', 1, &mut e).1, Efeito::Processar(_)));
}

#[test]
fn perda_descarta_ate_o_fim_da_linha() {
    let mut e = Entrada::nova();
    let mut m = Montador::novo(&e);
    m.alimentar(b'{', 1, &mut e);
    coletar(&mut e, b"resto\nseguinte");
    for _ in 0..CAPACIDADE {
        let _ = injetar(&mut e, b'x');
    }
    match m.alimentar(b'a', 1, &mut e) {
        (true, Efeito::Responder(erro)) => assert_eq!(erro.codigo, -32001),
        _ => panic!("a perda passou despercebida"),
    }
    assert_eq!(retirar(&mut e), Some(b's'));
}

#[test]
fn documento_desenhado_para_gente() {
    let m = mundo();
    assert_eq!(
        despachar(Handler::AgentPing, "{}", &retrato(&m)),
        "{\n  \"pong\": true,\n  \"arch\": \"aarch64\",\n  \"log_seq\": 2\n}"
    );
}

#[test]
fn objeto_malformado_nao_tem_chaves() {
    let nenhuma: Vec<&str> = vec![];
    assert_eq!(Json(b"{\"a\":1,\"b\"").para_cada_chave(), nenhuma);
    assert_eq!(Json(b"{\"a\":1").para_cada_chave(), nenhuma);
    assert_eq!(Json(b"{\"a\":1,x}").para_cada_chave(), nenhuma);
    assert_eq!(Json(b"[\"a\"]").para_cada_chave(), nenhuma);
    assert_eq!(Json(b"{}").para_cada_chave(), nenhuma);
    assert_eq!(Json(b"{\"a\":1,\"b\":[2]}").para_cada_chave(), vec!["a", "b"]);
}

#[test]
fn recusa_leva_o_id_que_foi_lido() {
    let id = |l: &'static str| match Requisicao::parse(l.as_bytes()) {
        Ok(_) => panic!("o pedido passou"),
        Err((id, e)) => (id.map(|j| j.raw_str().unwrap()), e.codigo),
    };
    assert_eq!(id("{\"id\":7}"), (Some("7"), -32700));
    assert_eq!(id("{\"id\":abc}"), (None, -32700));
    assert_eq!(id("{\"id\":null}"), (None, -32700));
    assert_eq!(id("nada"), (None, -32700));
    assert_eq!(id("{\"id\":\"x\",\"jsonrpc\":\"2.0\"}"), (Some("\"x\""), -32600));
    assert_eq!(
        pedir("{\"id\":7}"),
        "{\"jsonrpc\":\"2.0\",\"id\":7,\"error\":{\"code\":-32700,\"message\":\"JSON malformado\"}}\n"
    );
}

#[test]
fn linha_longa_abandonada_e_esquecida() {
    let mut e = Entrada::nova();
    let mut m = Montador::novo(&e);
    alimentar_tudo(&mut m, &mut e, 0, &vec![b'x'; LINHA_MAX + 1]);
    let v = alimentar_tudo(&mut m, &mut e, 201, b"{\"id\":99,\"method\":\"nada\"}\n");
    let linha = match &v.last().unwrap().1 {
        Efeito::Processar(l) => l.clone(),
        _ => panic!("o pedido seguinte foi engolido"),
    };
    let mundo = mundo();
    assert_eq!(
        processar(&linha, &retrato(&mundo)).0.unwrap(),
        "{\"jsonrpc\":\"2.0\",\"id\":99,\"error\":{\"code\":-32601,\"message\":\"metodo nao encontrado\"}}\n"
    );
}

#[test]
fn quadro_danificado_abandonado_e_esquecido() {
    let mut e = Entrada::nova();
    let mut m = Montador::novo(&e);
    alimentar_tudo(&mut m, &mut e, 1, b"{\"me");
    for _ in 0..CAPACIDADE {
        let _ = injetar(&mut e, b'x');
    }
    assert!(matches!(m.alimentar(b't', 1, &mut e), (false, Efeito::Responder(_))));
    alimentar_tudo(&mut m, &mut e, 1 + TETO_DO_QUADRO_EM_TIQUES + 1, b"ok");
    match m.alimentar(b'\n', 1 + TETO_DO_QUADRO_EM_TIQUES + 1, &mut e).1 {
        Efeito::Processar(l) => assert_eq!(l, b"ok"),
        _ => panic!("o quadro novo se perdeu"),
    }
}

#[test]
fn trinta_e_dois_niveis_de_listas() {
    let mut w = JsonWriter::new(String::new());
    for _ in 0..32 {
        w.begin_array();
    }
    w.u64_value(1);
    w.u64_value(2);
    for _ in 0..32 {
        w.end_array();
    }
    assert_eq!(w.terminar(), format!("{}1,2{}", "[".repeat(32), "]".repeat(32)));
}

#[test]
fn string_escrita_pode_ser_ecoada() {
    let texto = "a\"b\\c\n\u{1}\u{1f}ção\u{1F600}/";
    let mut w = JsonWriter::new(String::new());
    w.str_value(texto);
    let escrita = w.terminar();
    assert_eq!(escrita, "\"a\\\"b\\\\c\\n\\u0001\\u001fção\u{1F600}/\"");
    assert!(Json(escrita.as_bytes()).e_string_ecoavel());
    assert!(escrita.bytes().all(|b| b >= 0x20));
}

#[test]
fn string_em_pedacos_e_a_string_inteira() {
    let mut w = JsonWriter::new(String::new());
    w.begin_str();
    w.push_str("a\"");
    w.push_str("\nb");
    w.push_char('\t');
    w.end_str();
    let mut v = JsonWriter::new(String::new());
    v.str_value("a\"\nb\t");
    assert_eq!(w.terminar(), v.terminar());
}
