use duke::agent::registry::{comandos, Handler};
use duke::interpretador::{ajuda, executar, separar, Gesto, Linha, Ordem, SaidaHumana, LINHA_MAX};
use duke::machine::{adicionar_regiao, Maquina, Regiao, TipoRegiao};
use duke::partida::{inicio_comum, medir, parar_sem_base, relatar_memoria, Etapa, Situacao};

#[test]
fn nome_e_parametros() {
    assert_eq!(separar("  agent.ping  "), ("agent.ping", "{}"));
    assert_eq!(separar("log.tail {\"count\": 1} "), ("log.tail", "{\"count\": 1}"));
    assert_eq!(separar("log.tail    "), ("log.tail", "{}"));
    assert_eq!(separar(""), ("", "{}"));
}

#[test]
fn teclas_de_uma_linha() {
    let mut l = Linha::nova();
    assert!(matches!(l.tecla('\u{8}'), Gesto::Nada));
    assert!(matches!(l.tecla('a'), Gesto::Ecoar('a')));
    assert!(matches!(l.tecla('b'), Gesto::Ecoar('b')));
    assert!(matches!(l.tecla('\t'), Gesto::Nada));
    assert!(matches!(l.tecla('ç'), Gesto::Nada));
    assert!(matches!(l.tecla('\u{8}'), Gesto::Apagar));
    assert!(matches!(l.tecla('c'), Gesto::Ecoar('c')));
    match l.tecla('\n') {
        Gesto::Executar(t) => assert_eq!(t, "ac"),
        _ => panic!("a linha nao foi entregue"),
    }
    match l.tecla('\n') {
        Gesto::Executar(t) => assert_eq!(t, ""),
        _ => panic!("a linha vazia nao foi entregue"),
    }
}

#[test]
fn linha_cheia_recomeca() {
    let mut l = Linha::nova();
    for _ in 0..LINHA_MAX {
        assert!(matches!(l.tecla('x'), Gesto::Ecoar('x')));
    }
    assert!(matches!(l.tecla('x'), Gesto::Recusar));
    match l.tecla('\n') {
        Gesto::Executar(t) => assert_eq!(t, ""),
        _ => panic!("a linha nao foi entregue"),
    }
}

#[test]
fn ordens_digitadas() {
    assert!(matches!(executar("   "), Ordem::Nada));
    assert!(matches!(executar(" ajuda"), Ordem::Ajuda));
    assert!(matches!(executar("ajuda agora"), Ordem::Ajuda));
    assert!(matches!(executar("nada x"), Ordem::Desconhecido("nada")));
    assert!(matches!(
        executar("system.info"),
        Ordem::Comando { handler: Handler::SystemInfo, params: "{}" }
    ));
}

#[test]
fn parametros_digitados_sao_conferidos() {
    assert!(matches!(
        executar("debug.trigger"),
        Ordem::Invalido { handler: Handler::DebugTrigger, parametro: "kind" }
    ));
    assert!(matches!(
        executar("debug.trigger {\"kind\":3}"),
        Ordem::Invalido { handler: Handler::DebugTrigger, parametro: "kind" }
    ));
    assert!(matches!(
        executar("debug.trigger {\"kind\":\"x\"}"),
        Ordem::Comando { handler: Handler::DebugTrigger, params: "{\"kind\":\"x\"}" }
    ));
    assert!(matches!(
        executar("log.tail {\"count\":\"dez\"}"),
        Ordem::Invalido { handler: Handler::LogTail, parametro: "count" }
    ));
    assert!(matches!(executar("log.tail"), Ordem::Comando { handler: Handler::LogTail, .. }));
}

#[test]
fn ajuda_em_colunas() {
    let v = ajuda();
    assert_eq!(v.len(), comandos().len() + 1);
    assert_eq!(
        v[0],
        "  agent.ping         Verifica se o canal do agente esta vivo e responsivo."
    );
    assert_eq!(v[v.len() - 1], "  ajuda              Esta lista.");
}

#[test]
fn documento_com_recuo() {
    let mut s = SaidaHumana::nova();
    let mut t = String::new();
    s.write_str("{\"a\":[1,\"x,{\\\"\"", &mut t);
    s.write_str(",{}],\"b\":null}", &mut t);
    assert_eq!(
        t,
        "{\n  \"a\": [\n    1,\n    \"x,{\\\"\",\n    {\n      \n    }\n  ],\n  \"b\": null\n}"
    );
    assert_eq!(s.profundidade, 0);
    let sem: String = t.chars().filter(|c| *c != '\n' && *c != ' ').collect();
    assert_eq!(sem, "{\"a\":[1,\"x,{\\\"\",{}],\"b\":null}");
}

fn caminho(s: Situacao) -> Vec<Etapa> {
    let mut v = vec![Etapa::Apresentar];
    loop {
        let atual = v[v.len() - 1];
        let e = inicio_comum(atual, s);
        if e == atual {
            return v;
        }
        v.push(e);
    }
}

#[test]
fn partida_com_tudo() {
    let v = caminho(Situacao { canal: true, pronto: true, tela: true });
    assert_eq!(v.len(), 17);
    assert_eq!(v[v.len() - 1], Etapa::Atender);
    assert!(!v.contains(&Etapa::ProcurarTela));
    let sem_tela = caminho(Situacao { canal: true, pronto: true, tela: false });
    assert!(sem_tela.contains(&Etapa::ProcurarTela));
}

#[test]
fn partida_sem_base() {
    let v = caminho(Situacao { canal: true, pronto: false, tela: true });
    assert_eq!(v[v.len() - 2..], [Etapa::Frames, Etapa::Servir]);
    assert_eq!(
        parar_sem_base(Situacao { canal: false, pronto: false, tela: true }),
        Etapa::Parar
    );
    let mudo = caminho(Situacao { canal: false, pronto: true, tela: true });
    assert_eq!(mudo[mudo.len() - 1], Etapa::Parar);
}

#[test]
fn memoria_relatada_em_mib() {
    let mut m = Maquina::nova();
    let mib = 0x10_0000;
    for (inicio, fim, tipo) in [
        (0, 64 * mib, TipoRegiao::Utilizavel),
        (64 * mib, 66 * mib, TipoRegiao::Bootloader),
        (66 * mib, 70 * mib, TipoRegiao::Reservada),
    ] {
        adicionar_regiao(&mut m, Regiao { inicio, fim, tipo });
    }
    assert_eq!(
        relatar_memoria(&medir(&m)),
        "3 regioes: 64 MiB utilizaveis, 2 MiB retidos pelo bootloader, 70 MiB de espaco descrito"
    );
}
