use duke::tarefas::entrada::{
    coletar, descartados_no_boot, descartar_ate_nova_linha, descartar_pendentes, estatisticas,
    injetar, perdidos, proximo_byte, retirar, Entrada, CAPACIDADE,
};
use duke::tarefas::executor::{
    self, capacidade_da_fila_de_prontas, capacidade_do_inventario, com_inventario, Executor,
    Laco, Lancamento, Rodada, CAPACIDADE_PRONTAS, MAX_INVENTARIO,
};
use duke::tarefas::fila::Fila;
use duke::tarefas::relogio::{por_ms, por_ticks, tique, Dormentes, MAX_DORMENTES};
use duke::tarefas::{ceder, IdTarefa, Identidades, Passo, Tarefa};

#[test]
fn fila_da_a_volta() {
    let mut f: Fila<u32, 3> = Fila::nova();
    assert!(f.vazia());
    assert_eq!(f.desenfileirar(), None);
    for i in 0..3 {
        assert_eq!(f.enfileirar(i), Ok(()));
    }
    assert_eq!(f.enfileirar(9), Err(9));
    assert_eq!((f.ocupacao(), f.capacidade(), f.descartados()), (3, 3, 1));
    assert_eq!(f.desenfileirar(), Some(0));
    assert_eq!(f.enfileirar(3), Ok(()));
    assert_eq!(f.desenfileirar(), Some(1));
    assert_eq!(f.desenfileirar(), Some(2));
    assert_eq!(f.desenfileirar(), Some(3));
    assert!(f.vazia());
}

#[test]
fn ceder_uma_vez() {
    let mut c = ceder();
    assert!(matches!(c.poll(), Passo::PendenteAcordar));
    assert!(matches!(c.poll(), Passo::Pronto));
}

#[test]
fn identidades_crescem() {
    let mut ids = Identidades::novas();
    let a = IdTarefa::novo(&mut ids).numero();
    let b = Tarefa::nova(&mut ids, "b");
    assert_eq!(b.id().numero(), a + 1);
    assert_eq!(b.nome(), "b");
}

#[test]
fn tarefa_do_lancamento_ao_fim() {
    let mut ids = Identidades::novas();
    let mut e = Executor::novo();
    assert!(e.ocioso());
    let t = Tarefa::nova(&mut ids, "agente");
    let id = t.id();
    assert!(matches!(e.lancar(t), Lancamento::Pronta));
    assert!(!e.ocioso());
    assert_eq!(e.proxima().map(|i| i.numero()), Some(id.numero()));
    assert!(e.ocioso());
    e.avancou(id, Passo::Pendente);
    assert_eq!(e.proxima().map(|i| i.numero()), None);
    assert!(e.acordar(id));
    assert_eq!(e.proxima().map(|i| i.numero()), Some(id.numero()));
    e.avancou(id, Passo::Pronto);
    assert_eq!(e.vivas(), 0);
    assert!(e.acordar(id));
    assert_eq!(e.proxima().map(|i| i.numero()), None);
    let v = com_inventario(&e);
    assert_eq!(v.len(), 1);
    assert_eq!((v[0].nome, v[0].viva), ("agente", false));
    let c = executor::estatisticas(&e);
    assert_eq!((c.lancadas, c.concluidas, c.avancos, c.despertares), (1, 1, 2, 2));
    assert_eq!((c.nunca_agendadas, c.fora_do_inventario), (0, 0));
}

#[test]
fn lancamentos_recusados_e_excedentes() {
    let mut ids = Identidades::novas();
    let mut e = Executor::novo();
    let mut outros = Identidades::novas();
    assert!(matches!(e.lancar(Tarefa::nova(&mut ids, "a")), Lancamento::Pronta));
    assert!(matches!(e.lancar(Tarefa::nova(&mut outros, "b")), Lancamento::Duplicada));
    for _ in 1..CAPACIDADE_PRONTAS {
        assert!(matches!(e.lancar(Tarefa::nova(&mut ids, "x")), Lancamento::Pronta));
    }
    let t = Tarefa::nova(&mut ids, "y");
    let id = t.id();
    assert!(matches!(e.lancar(t), Lancamento::SemVaga));
    assert!(!e.acordar(id));
    let c = executor::estatisticas(&e);
    assert_eq!(c.lancadas, CAPACIDADE_PRONTAS as u64 + 1);
    assert_eq!(c.nunca_agendadas, 2);
    assert_eq!(c.fora_do_inventario, (CAPACIDADE_PRONTAS + 1 - MAX_INVENTARIO) as u64);
    assert_eq!(com_inventario(&e).len(), MAX_INVENTARIO);
    assert_eq!(capacidade_do_inventario(), MAX_INVENTARIO);
    assert_eq!(capacidade_da_fila_de_prontas(), CAPACIDADE_PRONTAS);
}

#[test]
fn roda_quem_foi_acordado_antes() {
    let mut ids = Identidades::novas();
    let mut e = Executor::novo();
    let mut v = Vec::new();
    for nome in ["a", "b", "c"] {
        let t = Tarefa::nova(&mut ids, nome);
        v.push(t.id());
        e.lancar(t);
    }
    while let Some(id) = e.proxima() {
        e.avancou(id, Passo::Pendente);
    }
    for i in [2, 0, 1, 0] {
        e.acordar(v[i]);
    }
    let primeira = e.proxima().unwrap();
    assert_eq!(primeira.numero(), v[2].numero());
    let segunda = e.proxima().unwrap();
    assert_eq!(segunda.numero(), v[0].numero());
    e.avancou(segunda, Passo::Pronto);
    assert_eq!(e.proxima().map(|i| i.numero()), Some(v[1].numero()));
    assert!(e.proxima().is_none());
}

#[test]
fn rodadas_ate_esvaziar() {
    let mut ids = Identidades::novas();
    let mut e = Executor::novo();
    let mut l = Laco::novo(2);
    assert_eq!(e.rodar_ate_esvaziar(&mut l), Rodada::Fim(Ok(())));
    let t = Tarefa::nova(&mut ids, "a");
    let id = t.id();
    e.lancar(t);
    assert_eq!(e.rodar_ate_esvaziar(&mut l), Rodada::Rodar);
    assert_eq!(e.rodar_ate_esvaziar(&mut l), Rodada::Dormir);
    assert_eq!(e.rodar_ate_esvaziar(&mut l), Rodada::Rodar);
    let mut outro = l;
    assert_eq!(e.rodar_ate_esvaziar(&mut l), Rodada::Dormir);
    assert_eq!(
        e.rodar_ate_esvaziar(&mut l),
        Rodada::Fim(Err("tarefas nao terminaram dentro do teto de rodadas"))
    );
    e.proxima();
    e.avancou(id, Passo::Pronto);
    assert_eq!(e.rodar_ate_esvaziar(&mut outro), Rodada::Fim(Ok(())));
    let mut nenhuma = Laco::novo(0);
    assert!(matches!(e.rodar_ate_esvaziar(&mut nenhuma), Rodada::Fim(Err(_))));
}

#[test]
fn entrada_em_ordem() {
    let mut e = Entrada::nova();
    let espera = proximo_byte(5);
    assert_eq!(espera.poll(&mut e), None);
    assert_eq!(coletar(&mut e, &[]), None);
    assert_eq!(coletar(&mut e, b"ab"), Some(5));
    assert_eq!(injetar(&mut e, b'c'), Ok(Some(5)));
    assert_eq!(estatisticas(&e), (3, CAPACIDADE, 0));
    assert_eq!(espera.poll(&mut e), Some(b'a'));
    assert_eq!(retirar(&mut e), Some(b'b'));
    assert_eq!(retirar(&mut e), Some(b'c'));
    assert_eq!(retirar(&mut e), None);
}

#[test]
fn ultima_vaga_e_do_fim_de_linha() {
    let mut e = Entrada::nova();
    coletar(&mut e, &vec![b'x'; CAPACIDADE + 10]);
    assert_eq!(estatisticas(&e), (CAPACIDADE - 1, CAPACIDADE, 1));
    assert_eq!(injetar(&mut e, b'y'), Err(b'y'));
    assert_eq!(perdidos(&e), 2);
    assert_eq!(injetar(&mut e, b'\n'), Ok(None));
    assert_eq!(injetar(&mut e, b'\n'), Err(b'\n'));
    assert_eq!(perdidos(&e), 3);
    assert!(descartar_ate_nova_linha(&mut e));
    assert_eq!(estatisticas(&e).0, 0);
    assert!(!descartar_ate_nova_linha(&mut e));
}

#[test]
fn linha_descartada_preserva_a_seguinte() {
    let mut e = Entrada::nova();
    coletar(&mut e, b"lixo\nbom");
    assert!(descartar_ate_nova_linha(&mut e));
    assert_eq!(retirar(&mut e), Some(b'b'));
}

#[test]
fn descarte_no_boot_tem_teto() {
    let mut e = Entrada::nova();
    assert_eq!(descartar_pendentes(&mut e, 3), 3);
    assert_eq!(descartar_pendentes(&mut e, usize::MAX), CAPACIDADE);
    assert_eq!(descartados_no_boot(&e), 3 + CAPACIDADE as u64);
    assert_eq!(perdidos(&e), 0);
}

#[test]
fn dormir_e_acordar() {
    let mut d = Dormentes::novos();
    let mut s = por_ticks(100, 5);
    assert!(matches!(s.poll(&mut d, 100, 1), Passo::Pendente));
    assert_eq!(tique(&d, 104), vec![]);
    assert_eq!(tique(&d, 105), vec![1]);
    assert!(matches!(s.poll(&mut d, 104, 2), Passo::Pendente));
    assert_eq!(tique(&d, 200), vec![2]);
    assert!(matches!(s.poll(&mut d, 105, 2), Passo::Pronto));
    assert_eq!(tique(&d, 200), vec![]);
}

#[test]
fn milissegundos_em_ticks() {
    let mut d = Dormentes::novos();
    let mut espera = |hz, ms, antes: u64| {
        let mut s = por_ms(1000, hz, ms);
        let ainda = matches!(s.poll(&mut d, 1000 + antes - 1, 1), Passo::Pendente);
        let depois = matches!(s.poll(&mut d, 1000 + antes, 1), Passo::Pronto);
        ainda && depois
    };
    assert!(espera(100, 25, 3));
    assert!(espera(100, 20, 2));
    assert!(espera(100, 0, 1));
    assert!(espera(0, 5000, 1));
    assert!(espera(1000, u64::MAX / 1000, u64::MAX / 1000));
}

#[test]
fn sem_vaga_para_dormir() {
    let mut d = Dormentes::novos();
    let mut todos = Vec::new();
    for i in 0..MAX_DORMENTES as u64 {
        let mut s = por_ticks(0, 10);
        assert!(matches!(s.poll(&mut d, 0, i), Passo::Pendente));
        todos.push(s);
    }
    let mut s = por_ticks(0, 10);
    assert!(matches!(s.poll(&mut d, 0, 99), Passo::PendenteAcordar));
    todos[3].liberar(&mut d);
    assert!(matches!(s.poll(&mut d, 0, 99), Passo::Pendente));
    assert_eq!(tique(&d, 10)[3], 99);
}
