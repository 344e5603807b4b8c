use duke::arch::aarch64::contexto::{Contexto, SPSR_FIO_DO_KERNEL};
use duke::arch::aarch64::mmu::{self, Mmu};
use duke::arch::memoria::Memoria;
use duke::arch::x86_64::contexto::{ceder_cpu, Contexto as Contexto86, Criacao, Pedido};
use duke::arch::Permissoes;
use duke::fios::parto::{Acao, Parto, Resposta};
use duke::fios::{
    self, adotar_espaco, atual_terminou, bifurcar, com_descritores, com_inscricoes, congelar,
    criar, id_atual, instalar, marcar_terminado, pilha_de_kernel_atual, selecionar, tique,
    Escalonador, MAX_FIOS, QUANTUM_EM_TIQUES,
};
use duke::frames::{self, Alocador};
use duke::machine::{adicionar_regiao, Maquina, Regiao, TipoRegiao};
use duke::paginacao::{mapear_novo, Espaco};

const RAM: u64 = 0x4000_0000;
const PILHAS: u64 = 0x20_0000_0000;

fn memoria(quadros: u64) -> (Mmu, Alocador) {
    let mut maq = Maquina::nova();
    adicionar_regiao(
        &mut maq,
        Regiao { inicio: RAM, fim: RAM + quadros * 4096, tipo: TipoRegiao::Utilizavel },
    );
    let mut a = Alocador::novo();
    frames::init(&mut a, &maq, &[(RAM, RAM + 8 * 4096)]);
    let mut m = Mmu::nova(Memoria::sobre(RAM, vec![0; 512 * quadros as usize]).unwrap());
    mmu::init(&mut m, &mut a, &maq, RAM, RAM + 0x3000).unwrap();
    (m, a)
}

fn escalonador() -> Escalonador<Contexto, u32> {
    let mut e = Escalonador::novo();
    fios::init(&mut e, 7);
    e
}

fn estados<C, D>(e: &Escalonador<C, D>) -> Vec<(u64, &'static str)> {
    com_inscricoes(e).iter().map(|i| (i.id, i.estado)).collect()
}

#[test]
fn so_o_fio_principal() {
    let mut e = escalonador();
    let v = com_inscricoes(&e);
    assert_eq!(v.len(), 1);
    assert_eq!(v[0].estado, "running");
    assert_eq!(id_atual(&e), v[0].id);
    assert_eq!(fios::estatisticas(&e), (1, 0, 0));
    assert!(selecionar(&mut e, RAM).is_none());
    assert_eq!(com_descritores(&mut e), Some(&mut 7));
    assert_eq!(pilha_de_kernel_atual(&e), 0);
}

#[test]
fn fio_novo_comeca_na_entrada() {
    let (mut m, mut a) = memoria(64);
    let mut e = escalonador();
    let principal = id_atual(&e);
    let id = criar(&mut e, &mut m, &mut a, PILHAS, "relogio", 0, 0x1111, 0x2222, 0x3333).unwrap();
    assert_ne!(id.numero(), principal);
    let t = selecionar(&mut e, RAM).unwrap();
    assert_eq!(t.espaco, RAM);
    assert_eq!(id_atual(&e), id.numero());
    let c = e.contexto_de(t.para);
    assert_eq!(c.quadro.elr, 0x1111);
    assert_eq!((c.quadro.x[0], c.quadro.x[1]), (0x2222, 0x3333));
    assert_eq!(c.quadro.spsr, SPSR_FIO_DO_KERNEL);
    assert_eq!(c.sp, PILHAS + (t.para as u64 + 1) * 65536);
    assert_eq!(mmu::traduzir(&m, c.sp - 8).is_some(), true);
    let volta = selecionar(&mut e, RAM).unwrap();
    assert_eq!((volta.de, volta.para), (t.para, t.de));
    assert_eq!(id_atual(&e), principal);
    assert_eq!(fios::estatisticas(&e), (2, 2, 0));
}

#[test]
fn rodizio_entre_tres() {
    let (mut m, mut a) = memoria(96);
    let mut e = escalonador();
    let zero = id_atual(&e);
    let um = criar(&mut e, &mut m, &mut a, PILHAS, "um", 0, 1, 2, 3).unwrap().numero();
    let dois = criar(&mut e, &mut m, &mut a, PILHAS, "dois", 0, 1, 2, 3).unwrap().numero();
    let mut ordem = Vec::new();
    for _ in 0..6 {
        selecionar(&mut e, RAM).unwrap();
        ordem.push(id_atual(&e));
        let rodando = estados(&e).iter().filter(|x| x.1 == "running").count();
        assert_eq!(rodando, 1);
    }
    assert_eq!(ordem, vec![um, dois, zero, um, dois, zero]);
}

#[test]
fn terminado_sai_e_a_vaga_volta() {
    let (mut m, mut a) = memoria(64);
    let mut e = escalonador();
    criar(&mut e, &mut m, &mut a, PILHAS, "curto", 0, 1, 2, 3).unwrap();
    let livres = frames::estatisticas(&a).0;
    let t = selecionar(&mut e, RAM).unwrap();
    assert!(!atual_terminou(&e));
    marcar_terminado(&mut e);
    assert!(atual_terminou(&e));
    assert_eq!(fios::estatisticas(&e).0, 1);
    selecionar(&mut e, RAM).unwrap();
    assert!(selecionar(&mut e, RAM).is_none());
    criar(&mut e, &mut m, &mut a, PILHAS, "outro", 0, 1, 2, 3).unwrap();
    assert_eq!(frames::estatisticas(&a).0, livres);
    assert_eq!(selecionar(&mut e, RAM).unwrap().para, t.para);
}

#[test]
fn quantum_vence_em_cinco_tiques() {
    let mut e: Escalonador<Contexto, u32> = Escalonador::novo();
    assert!(!tique(&mut e));
    fios::init(&mut e, 0);
    for i in 1..=2 * QUANTUM_EM_TIQUES {
        assert_eq!(tique(&mut e), i % QUANTUM_EM_TIQUES == 0);
    }
    assert_eq!(fios::estatisticas(&e), (1, 0, 2));
}

#[test]
fn congelado_nao_troca_nem_cria() {
    let (mut m, mut a) = memoria(64);
    let mut e = escalonador();
    criar(&mut e, &mut m, &mut a, PILHAS, "um", 0, 1, 2, 3).unwrap();
    congelar(&mut e);
    assert!(selecionar(&mut e, RAM).is_none());
    for _ in 0..20 {
        assert!(!tique(&mut e));
    }
    assert_eq!(
        criar(&mut e, &mut m, &mut a, PILHAS, "dois", 0, 1, 2, 3).map(|i| i.numero()),
        Err("o escalonador esta congelado apos uma falha fatal")
    );
}

#[test]
fn vagas_acabam() {
    let (mut m, mut a) = memoria(320);
    let mut e = escalonador();
    for _ in 1..MAX_FIOS {
        assert!(criar(&mut e, &mut m, &mut a, PILHAS, "f", 0, 1, 2, 3).is_ok());
    }
    assert_eq!(
        criar(&mut e, &mut m, &mut a, PILHAS, "f", 0, 1, 2, 3).map(|i| i.numero()),
        Err("nao ha vaga livre para outro fio")
    );
}

#[test]
fn sem_memoria_a_vaga_fica_livre() {
    let (mut m, mut a) = memoria(24);
    let mut e = escalonador();
    assert_eq!(
        criar(&mut e, &mut m, &mut a, PILHAS, "f", 0, 1, 2, 3).map(|i| i.numero()),
        Err("memoria fisica esgotada")
    );
    assert_eq!(com_inscricoes(&e).len(), 1);
}

#[test]
fn com_tres_quadros_por_pagina_sempre_nasce() {
    let (mut m, mut a) = memoria(128);
    let mut e = escalonador();
    let mut nascidos = 0;
    while frames::estatisticas(&a).0 >= 45 {
        criar(&mut e, &mut m, &mut a, PILHAS, "f", 0, 1, 2, 3).unwrap();
        nascidos += 1;
    }
    assert!(nascidos >= 3);
}

#[test]
fn vaga_reaproveitada_nao_mexe_nas_outras_pilhas() {
    let (mut m, mut a) = memoria(128);
    let mut e = escalonador();
    criar(&mut e, &mut m, &mut a, PILHAS, "um", 0, 1, 2, 3).unwrap();
    criar(&mut e, &mut m, &mut a, PILHAS, "dois", 0, 1, 2, 3).unwrap();
    let da_segunda: Vec<Option<u64>> =
        (1..16).map(|k| mmu::traduzir(&m, PILHAS + 2 * 0x1_0000 + k * 4096)).collect();
    assert!(da_segunda.iter().all(|q| q.is_some()));
    let livres = frames::estatisticas(&a).0;
    assert_eq!(selecionar(&mut e, RAM).unwrap().para, 1);
    marcar_terminado(&mut e);
    assert_eq!(selecionar(&mut e, RAM).unwrap().para, 2);
    criar(&mut e, &mut m, &mut a, PILHAS, "tres", 0, 1, 2, 3).unwrap();
    assert_eq!(frames::estatisticas(&a).0, livres);
    let depois: Vec<Option<u64>> =
        (1..16).map(|k| mmu::traduzir(&m, PILHAS + 2 * 0x1_0000 + k * 4096)).collect();
    assert_eq!(depois, da_segunda);
}

#[test]
fn bifurcado_herda_os_descritores() {
    let (mut m, mut a) = memoria(64);
    let mut e = escalonador();
    *com_descritores(&mut e).unwrap() = 42;
    let n = bifurcar(&mut e, &mut m, &mut a, PILHAS, "filho", 7).unwrap();
    assert_eq!(n.topo, PILHAS + (n.vaga as u64 + 1) * 65536);
    assert_eq!(estados(&e)[1], (n.id.numero(), "spawning"));
    assert!(selecionar(&mut e, RAM).is_none());
    let c = *e.contexto_de(0);
    let id = n.id.numero();
    let espaco = Espaco::novo(&mut m, &mut a, 4).unwrap();
    let raiz = espaco.raiz();
    assert_eq!(instalar(&mut e, n, c, Some(espaco)).numero(), id);
    let t = selecionar(&mut e, RAM).unwrap();
    assert_eq!(t.espaco, raiz);
    assert_eq!(com_descritores(&mut e), Some(&mut 42));
}

#[test]
fn espaco_adotado_pelo_fio() {
    let (mut m, mut a) = memoria(64);
    let mut e = escalonador();
    let espaco = Espaco::novo(&mut m, &mut a, 4).unwrap();
    assert!(adotar_espaco(&mut e, espaco).is_none());
    let outro = Espaco::novo(&mut m, &mut a, 4).unwrap();
    assert!(adotar_espaco(&mut e, outro).is_some());
    let mut desligado: Escalonador<Contexto, u32> = Escalonador::novo();
    let terceiro = Espaco::novo(&mut m, &mut a, 4).unwrap();
    assert!(adotar_espaco(&mut desligado, terceiro).is_some());
}

#[test]
fn contexto_guardado_volta_igual() {
    let (mut m, mut a) = memoria(64);
    let mut e = escalonador();
    criar(&mut e, &mut m, &mut a, PILHAS, "um", 0, 1, 2, 3).unwrap();
    let t = selecionar(&mut e, RAM).unwrap();
    let mut q = e.contexto_de(t.para).quadro;
    q.x[5] = 55;
    q.elr = 0xABC;
    e.guardar_contexto(t.de, q, 0x9990);
    selecionar(&mut e, RAM).unwrap();
    let c = e.contexto_de(t.de);
    assert_eq!((c.quadro.x[5], c.quadro.elr, c.sp), (55, 0xABC, 0x9990));
    e.contexto_mut(t.de).unwrap().sp = 0x8880;
    assert_eq!(e.contexto_de(t.de).sp, 0x8880);
    assert!(e.contexto_mut(MAX_FIOS - 1).is_none());
}

#[test]
fn ceder_no_x86() {
    let (mut m, mut a) = memoria(64);
    let mut e: Escalonador<Contexto86, u32> = Escalonador::novo();
    fios::init(&mut e, 0);
    criar(&mut e, &mut m, &mut a, PILHAS, "um", 0, 0x1111, 2, 3).unwrap();
    let c = ceder_cpu(&mut e, RAM, RAM).unwrap();
    assert_eq!(c.espaco, None);
    assert_eq!(c.pilha, Some(PILHAS + (c.para as u64 + 1) * 65536));
    let volta = ceder_cpu(&mut e, 0x9000, RAM).unwrap();
    assert_eq!((volta.de, volta.para), (c.para, c.de));
    assert_eq!(volta.espaco, Some(RAM));
    assert_eq!(volta.pilha, None);
}

#[test]
fn espaco_do_morto_volta_com_a_vaga() {
    let (mut m, mut a) = memoria(128);
    let mut e = escalonador();
    let n = bifurcar(&mut e, &mut m, &mut a, PILHAS, "filho", 7).unwrap();
    let vaga = n.vaga;
    let espaco = Espaco::novo(&mut m, &mut a, 4).unwrap();
    let raiz = espaco.raiz();
    mmu::trocar_espaco(&mut m, &a, raiz);
    let p = Permissoes { escrita: true, executavel: false, dispositivo: false, usuario: true };
    let pagina = mapear_novo(&mut m, &mut a, 0x1_0000_1000, p).unwrap();
    mmu::trocar_espaco(&mut m, &a, RAM);
    let c = *e.contexto_de(0);
    instalar(&mut e, n, c, Some(espaco));
    let da_pilha: Vec<u64> = (1..16)
        .map(|k| mmu::traduzir(&m, PILHAS + vaga as u64 * 0x1_0000 + k * 4096).unwrap())
        .collect();
    assert_eq!(selecionar(&mut e, RAM).unwrap().para, vaga);
    marcar_terminado(&mut e);
    selecionar(&mut e, RAM).unwrap();
    let livres = frames::estatisticas(&a).0;
    assert!(!frames::esta_livre(&a, raiz) && !frames::esta_livre(&a, pagina));
    criar(&mut e, &mut m, &mut a, PILHAS, "outro", 0, 1, 2, 3).unwrap();
    assert_eq!(frames::estatisticas(&a).0, livres + 4);
    let nova: Vec<u64> = (1..16)
        .map(|k| mmu::traduzir(&m, PILHAS + vaga as u64 * 0x1_0000 + k * 4096).unwrap())
        .collect();
    for f in da_pilha.iter().chain([&raiz, &pagina]) {
        assert!(frames::esta_livre(&a, *f) || nova.contains(f));
    }
}

#[test]
fn pilha_nova_vem_limpa() {
    let (mut m, mut a) = memoria(64);
    let mut e = escalonador();
    criar(&mut e, &mut m, &mut a, PILHAS, "um", 0, 1, 2, 3).unwrap();
    for k in 1..16 {
        let f = mmu::traduzir(&m, PILHAS + 0x1_0000 + k * 4096).unwrap();
        assert!((0..512).all(|i| m.memoria.ler(f, i) == 0));
    }
}

/// Runs a birth over tables that take every page but the `recusada`-th one.
fn parir(
    e: &mut Escalonador<Contexto86, u32>,
    a: &mut Alocador,
    parto: Parto,
    recusada: usize,
) -> (Vec<(u64, u64)>, Vec<u64>, Acao) {
    let mut parto = parto;
    let mut mapeadas: Vec<(u64, u64)> = Vec::new();
    let mut retiradas = Vec::new();
    let mut resposta = Resposta::Nenhuma;
    loop {
        resposta = match parto.passo(e, a, resposta) {
            Acao::Seguir => Resposta::Nenhuma,
            Acao::Mapear { virtual_, fisico } => {
                if mapeadas.len() + 1 == recusada {
                    Resposta::Recusada("nao")
                } else {
                    mapeadas.push((virtual_, fisico));
                    Resposta::Mapeada
                }
            }
            Acao::Desmapear(v) => {
                retiradas.push(v);
                match mapeadas.iter().find(|p| p.0 == v) {
                    Some(p) => Resposta::Desmapeada(p.1),
                    None => Resposta::Recusada("nao mapeada"),
                }
            }
            fim => return (mapeadas, retiradas, fim),
        };
    }
}

#[test]
fn parto_sobre_tabelas_de_fora() {
    let (_m, mut a) = memoria(64);
    let mut e: Escalonador<Contexto86, u32> = Escalonador::novo();
    fios::init(&mut e, 0);
    let livres = frames::estatisticas(&a).0;
    let (p, espaco) = Parto::comecar(&mut e, PILHAS, "um", false, 0).unwrap();
    assert!(espaco.is_none());
    assert_eq!(estados(&e)[1].1, "spawning");
    let (mapeadas, retiradas, fim) = parir(&mut e, &mut a, p, 0);
    assert_eq!(mapeadas.len(), 15);
    assert_eq!(mapeadas[0].0, PILHAS + 0x1_0000 + 4096);
    assert!(retiradas.is_empty());
    match fim {
        Acao::Pronto(n) => assert_eq!((n.vaga, n.topo), (1, PILHAS + 2 * 0x1_0000)),
        _ => panic!("o fio nao nasceu"),
    }
    assert_eq!(frames::estatisticas(&a).0, livres - 15);
    assert_eq!(estados(&e)[1].1, "spawning");
}

#[test]
fn parto_recusado_desfaz_o_que_fez() {
    let (_m, mut a) = memoria(64);
    let mut e: Escalonador<Contexto86, u32> = Escalonador::novo();
    fios::init(&mut e, 0);
    let livres = frames::estatisticas(&a).0;
    let (p, _) = Parto::comecar(&mut e, PILHAS, "um", false, 0).unwrap();
    let (mapeadas, retiradas, fim) = parir(&mut e, &mut a, p, 4);
    assert_eq!(mapeadas.iter().map(|p| p.0).collect::<Vec<u64>>(), retiradas);
    assert_eq!(retiradas.len(), 3);
    assert!(matches!(fim, Acao::Recusado("nao")));
    assert_eq!(frames::estatisticas(&a).0, livres);
    assert_eq!(com_inscricoes(&e).len(), 1);
    congelar(&mut e);
    assert_eq!(
        Parto::comecar(&mut e, PILHAS, "um", false, 0).map(|_| ()),
        Err("o escalonador esta congelado apos uma falha fatal")
    );
}

#[test]
fn fio_do_x86_comeca_com_sete_palavras_na_pilha() {
    let (_m, mut a) = memoria(64);
    let mut e: Escalonador<Contexto86, u32> = Escalonador::novo();
    fios::init(&mut e, 0);
    let (p, _) = Parto::comecar(&mut e, PILHAS, "um", false, 0).unwrap();
    let mut c = Criacao::nova(p, 0x1111, 0x2222, 0x3333);
    let mut resposta = Resposta::Nenhuma;
    let mut escrito = None;
    let id = loop {
        resposta = match c.passo(&mut e, &mut a, resposta) {
            Pedido::Seguir => Resposta::Nenhuma,
            Pedido::Mapear { .. } => Resposta::Mapeada,
            Pedido::Escrever { endereco, palavras } => {
                assert_eq!(estados(&e)[1].1, "spawning");
                escrito = Some((endereco, palavras));
                Resposta::Nenhuma
            }
            Pedido::Criado(id) => break id,
            _ => panic!("o fio nao nasceu"),
        };
    };
    let topo = PILHAS + 2 * 0x1_0000;
    assert_eq!(escrito, Some((topo - 56, [0, 0, 0x3333, 0x2222, 0, 0, 0x1111])));
    assert_eq!(estados(&e)[1], (id.numero(), "ready"));
    assert_eq!((e.contexto_de(1).sp, e.contexto_de(1).pilha_de_kernel), (topo - 56, topo));
    assert!(matches!(c.passo(&mut e, &mut a, Resposta::Nenhuma), Pedido::Encerrado));
    assert_eq!(ceder_cpu(&mut e, RAM, RAM).unwrap().pilha, Some(topo));
    marcar_terminado(&mut e);
    ceder_cpu(&mut e, RAM, RAM).unwrap();
    let (p, _) = Parto::comecar(&mut e, PILHAS, "dois", false, 0).unwrap();
    let (_, retiradas, fim) = parir(&mut e, &mut a, p, 0);
    assert_eq!(retiradas.len(), 15);
    assert!(matches!(fim, Acao::Pronto(_)));
}
