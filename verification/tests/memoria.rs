use duke::arch::memoria::Memoria;
use duke::arch::Permissoes;
use duke::frames::{self, Alocador, Montagem, MAX_FRAMES};
use duke::machine::{self, adicionar_regiao, com_regioes, Maquina, Regiao, TipoRegiao, MAX_REGIOES};

fn regiao(inicio: u64, fim: u64, tipo: TipoRegiao) -> Regiao {
    Regiao { inicio, fim, tipo }
}

fn com(regioes: &[Regiao]) -> Maquina {
    let mut m = Maquina::nova();
    for r in regioes {
        adicionar_regiao(&mut m, *r);
    }
    m
}

#[test]
fn nomes_das_regioes() {
    assert_eq!(TipoRegiao::Utilizavel.nome(), "usable");
    assert_eq!(TipoRegiao::Bootloader.nome(), "bootloader");
    assert_eq!(TipoRegiao::Reservada.nome(), "reserved");
    assert_eq!(TipoRegiao::Desconhecida.nome(), "unknown");
    assert_eq!(regiao(0x1000, 0x3000, TipoRegiao::Reservada).tamanho(), 0x2000);
}

#[test]
fn regioes_invertidas_e_excedentes_caem() {
    let mut m = com(&[
        regiao(0, 0x9000, TipoRegiao::Utilizavel),
        regiao(0x9000, 0x9000, TipoRegiao::Utilizavel),
        regiao(5, 4, TipoRegiao::Utilizavel),
        regiao(0x9000, 0xA000, TipoRegiao::Reservada),
    ]);
    assert_eq!(com_regioes(&m).len(), 2);
    assert_eq!(machine::regioes_descartadas(&m), 2);
    assert_eq!(machine::estatisticas(&m), (0x9000, 0xA000, 2));
    for i in 0..MAX_REGIOES as u64 {
        adicionar_regiao(&mut m, regiao(i, i + 1, TipoRegiao::Bootloader));
    }
    assert_eq!(com_regioes(&m).len(), MAX_REGIOES);
    assert_eq!(machine::regioes_descartadas(&m), 4);
}

#[test]
fn frames_inteiros_das_regioes_utilizaveis() {
    let m = com(&[
        regiao(0x10_0800, 0x10_4800, TipoRegiao::Utilizavel),
        regiao(0x10_5000, 0x10_7000, TipoRegiao::Reservada),
        regiao(0x10_7000, 0x10_8000, TipoRegiao::Utilizavel),
    ]);
    let mut a = Alocador::novo();
    assert_eq!(frames::estatisticas(&a), (0, 0));
    assert_eq!(frames::alocar(&mut a), None);
    assert!(matches!(frames::init(&mut a, &m, &[]), Montagem::Montado { necessarios: 8 }));
    assert_eq!(frames::base(&a), 0x10_0000);
    assert_eq!(frames::estatisticas(&a), (4, 8));
    assert!(!frames::esta_livre(&a, 0x10_0000));
    assert!(frames::esta_livre(&a, 0x10_1000));
    assert!(!frames::esta_livre(&a, 0x10_4000));
    assert!(!frames::esta_livre(&a, 0x10_5000));
    assert!(frames::esta_livre(&a, 0x10_7000));
}

#[test]
fn sem_memoria_utilizavel() {
    let m = com(&[regiao(0, 0x9000, TipoRegiao::Reservada)]);
    let mut a = Alocador::novo();
    assert!(matches!(frames::init(&mut a, &m, &[]), Montagem::SemRegioes));
    assert_eq!(frames::alocar(&mut a), None);
}

#[test]
fn reservas_saem_da_conta() {
    let m = com(&[regiao(0, 0x8000, TipoRegiao::Utilizavel)]);
    let mut a = Alocador::novo();
    frames::init(&mut a, &m, &[(0x1800, 0x2001), (0x6000, 0x6000)]);
    assert_eq!(frames::estatisticas(&a), (5, 8));
    assert!(!frames::esta_livre(&a, 0));
    assert!(!frames::esta_livre(&a, 0x1000));
    assert!(!frames::esta_livre(&a, 0x2000));
    assert!(frames::esta_livre(&a, 0x3000));
    frames::reservar(&mut a, 0x3000, 0x5000);
    assert_eq!(frames::estatisticas(&a), (3, 8));
}

#[test]
fn alocar_e_devolver() {
    let m = com(&[regiao(0x1000, 0x4000, TipoRegiao::Utilizavel)]);
    let mut a = Alocador::novo();
    frames::init(&mut a, &m, &[]);
    let mut vistos = Vec::new();
    while let Some(f) = frames::alocar(&mut a) {
        assert!(!vistos.contains(&f));
        vistos.push(f);
    }
    vistos.sort();
    assert_eq!(vistos, vec![0x1000, 0x2000, 0x3000]);
    assert_eq!(frames::estatisticas(&a), (0, 3));
    frames::liberar(&mut a, 0x2000);
    frames::liberar(&mut a, 0x2000);
    frames::liberar(&mut a, 0x9_0000);
    assert_eq!(frames::estatisticas(&a), (1, 3));
    assert_eq!(frames::alocar(&mut a), Some(0x2000));
}

#[test]
fn memoria_maior_que_o_mapa_de_bits() {
    let m = com(&[regiao(0, (MAX_FRAMES as u64 + 5) * 4096, TipoRegiao::Utilizavel)]);
    let mut a = Alocador::novo();
    match frames::init(&mut a, &m, &[]) {
        Montagem::Montado { necessarios } => assert_eq!(necessarios, MAX_FRAMES as u64 + 5),
        Montagem::SemRegioes => panic!("a regiao sumiu"),
    }
    assert_eq!(frames::estatisticas(&a), (MAX_FRAMES - 1, MAX_FRAMES));
}

#[test]
fn quadros_de_memoria() {
    assert!(Memoria::sobre(1, vec![0; 512]).is_none());
    assert!(Memoria::sobre(0x1000, vec![0; 511]).is_none());
    let mut m = Memoria::sobre(0x1000, vec![7; 1024]).unwrap();
    m.zerar(0x1000);
    m.escrever(0x2000, 511, 9);
    assert_eq!((m.ler(0x1000, 0), m.ler(0x1000, 511)), (0, 0));
    assert_eq!((m.ler(0x2000, 0), m.ler(0x2000, 511)), (7, 9));
}

#[test]
fn permissoes_prontas() {
    let d = Permissoes::dados();
    assert!(d.escrita && !d.executavel && !d.dispositivo && !d.usuario);
    let p = Permissoes::de_dispositivo();
    assert!(p.escrita && !p.executavel && p.dispositivo && !p.usuario);
}

#[test]
fn reservado_nao_entra_por_ser_devolvido() {
    let m = com(&[regiao(0, 0x8000, TipoRegiao::Utilizavel)]);
    let mut a = Alocador::novo();
    frames::init(&mut a, &m, &[(0x2000, 0x4000)]);
    let antes = frames::estatisticas(&a);
    frames::liberar(&mut a, 0);
    frames::liberar(&mut a, 0x2000);
    frames::liberar(&mut a, 0x3FFF);
    assert_eq!(frames::estatisticas(&a), antes);
    assert!(!frames::esta_livre(&a, 0));
    assert!(!frames::esta_livre(&a, 0x2000));
    assert!(!frames::esta_livre(&a, 0x3000));
    let mut entregues = Vec::new();
    while let Some(f) = frames::alocar(&mut a) {
        entregues.push(f);
    }
    entregues.sort();
    assert_eq!(entregues, vec![0x1000, 0x4000, 0x5000, 0x6000, 0x7000]);
}

#[test]
fn entregue_e_depois_reservado_fica_fora() {
    let m = com(&[regiao(0x1000, 0x3000, TipoRegiao::Utilizavel)]);
    let mut a = Alocador::novo();
    frames::init(&mut a, &m, &[]);
    assert_eq!(frames::alocar(&mut a), Some(0x1000));
    frames::reservar(&mut a, 0x1000, 0x2000);
    frames::liberar(&mut a, 0x1000);
    assert!(!frames::esta_livre(&a, 0x1000));
    assert_eq!(frames::alocar(&mut a), Some(0x2000));
    assert_eq!(frames::alocar(&mut a), None);
}

#[test]
fn devolver_um_quadro_livre_nao_muda_a_busca() {
    let m = com(&[regiao(0x1000, 0x1000 + 128 * 4096, TipoRegiao::Utilizavel)]);
    let mut a = Alocador::novo();
    frames::init(&mut a, &m, &[]);
    frames::liberar(&mut a, 0x1000 + 100 * 4096);
    assert_eq!(frames::alocar(&mut a), Some(0x1000));
}
