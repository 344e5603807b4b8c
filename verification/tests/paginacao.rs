use duke::arch::aarch64::mmu::{
    self, acesso_fisico, bits_de, bloco, criar_espaco, desmapear, destruir_espaco, espaco_atual,
    espaco_do_kernel, mapear_frame, percorrer_paginas_do_usuario, permissoes_de, traduzir,
    trocar_espaco, Mmu,
};
use duke::arch::memoria::Memoria;
use duke::arch::Permissoes;
use duke::fios::pilha;
use duke::frames::{self, Alocador};
use duke::heap;
use duke::machine::{adicionar_regiao, Maquina, Regiao, TipoRegiao};
use duke::mmio::{self, abrir, Faixa, Passo};
use duke::paginacao::{
    desmapear_e_liberar, mapear_faixa, mapear_novo, Corrida, Espaco, Pagina,
};

const RAM: u64 = 0x4000_0000;
const RAIZ: u64 = RAM;
const GUARDA: u64 = RAM + 0x3000;
const LIVRE: u64 = 0x2_0000_0000;
const DO_USUARIO: u64 = 0x1_0000_0000;

fn maquina(quadros: u64) -> Maquina {
    let mut m = Maquina::nova();
    adicionar_regiao(
        &mut m,
        Regiao { inicio: RAM, fim: RAM + quadros * 4096, tipo: TipoRegiao::Utilizavel },
    );
    m
}

fn desligada(quadros: u64) -> (Mmu, Alocador, Maquina) {
    let m = maquina(quadros);
    let mut a = Alocador::novo();
    frames::init(&mut a, &m, &[(RAM, RAM + 8 * 4096)]);
    let mem = Memoria::sobre(RAM, vec![0; 512 * quadros as usize]).unwrap();
    (Mmu::nova(mem), a, m)
}

fn ligada(quadros: u64) -> (Mmu, Alocador) {
    let (mut m, mut a, maq) = desligada(quadros);
    assert_eq!(mmu::init(&mut m, &mut a, &maq, RAIZ, GUARDA), Ok(GUARDA));
    (m, a)
}

#[test]
fn identidade_com_um_furo() {
    let (mut m, mut a, maq) = desligada(32);
    assert_eq!(
        mapear_frame(&mut m, &mut a, LIVRE, RAM, Permissoes::dados()),
        Err("mmu ainda nao inicializada")
    );
    assert_eq!(desmapear(&mut m, &mut a, LIVRE), Err("mmu ainda nao inicializada"));
    assert_eq!(criar_espaco(&mut m, &mut a, 4), Err("mmu ainda nao inicializada"));
    assert_eq!(mmu::init(&mut m, &mut a, &maq, RAIZ, GUARDA), Ok(GUARDA));
    assert_eq!(traduzir(&m, 0x0900_0123), Some(0x0900_0123));
    assert_eq!(traduzir(&m, RAM + 0x2ABC), Some(RAM + 0x2ABC));
    assert_eq!(traduzir(&m, GUARDA), None);
    assert_eq!(traduzir(&m, GUARDA + 0xFFF), None);
    assert_eq!(traduzir(&m, GUARDA + 0x1000), Some(GUARDA + 0x1000));
    assert_eq!(traduzir(&m, RAM + 0x3000_0000), Some(RAM + 0x3000_0000));
    assert_eq!(traduzir(&m, 0x8000_0000), None);
    assert_eq!(traduzir(&m, 0x80_0000_0000), None);
    assert_eq!((espaco_atual(&m), espaco_do_kernel(&m)), (RAIZ, RAIZ));
    assert_eq!(acesso_fisico(0x1234), 0x1234);
}

#[test]
fn blocos_de_memoria_da_identidade() {
    let mut m = Maquina::nova();
    assert_eq!(mmu::blocos_de_ram(&m), 0);
    for (inicio, fim, tipo) in [
        // The devices' GiB is not memory, the ones after it are.
        (0x3000_0000, 0x8000_0001, TipoRegiao::Utilizavel),
        // Covered already.
        (0x4000_0000, 0x8000_0000, TipoRegiao::Utilizavel),
        (0xC000_0000, 0x1_0000_0000, TipoRegiao::Bootloader),
        // Past the last entry.
        (0x7F_C000_0000, 0x100_0000_0000, TipoRegiao::Utilizavel),
    ] {
        adicionar_regiao(&mut m, Regiao { inicio, fim, tipo });
    }
    assert_eq!(mmu::blocos_de_ram(&m), 3);
}

#[test]
fn guarda_que_nao_se_abre() {
    let (mut m, mut a, maq) = desligada(32);
    assert_eq!(
        mmu::init(&mut m, &mut a, &maq, RAIZ, 0x8000_0000),
        Err("descritor ausente onde se esperava um bloco")
    );
    let (mut m, mut a, maq) = desligada(9);
    assert_eq!(
        mmu::init(&mut m, &mut a, &maq, RAIZ, GUARDA),
        Err("sem frames para refinar o mapeamento")
    );
    assert_eq!(traduzir(&m, GUARDA), Some(GUARDA));
}

#[test]
fn descritores_de_bloco_e_de_pagina() {
    assert_eq!(bloco(0x4000_0000, 4, 0), 0x4000_0705);
    let p = Permissoes { escrita: false, executavel: true, dispositivo: false, usuario: true };
    assert_eq!(permissoes_de(bits_de(p)), p);
    assert_eq!(permissoes_de(bits_de(Permissoes::de_dispositivo())), Permissoes::de_dispositivo());
}

#[test]
fn permissoes_ida_e_volta_no_aarch64() {
    for i in 0..16 {
        let p = Permissoes {
            escrita: i & 1 != 0,
            executavel: i & 2 != 0,
            dispositivo: i & 4 != 0,
            usuario: i & 8 != 0,
        };
        if p.usuario || !p.executavel {
            assert_eq!(permissoes_de(0xFFFF_F000 | bits_de(p) | 3), p);
        }
    }
}

#[test]
fn kernel_e_processo_nao_se_executam() {
    for i in 0..16 {
        let p = Permissoes {
            escrita: i & 1 != 0,
            executavel: i & 2 != 0,
            dispositivo: i & 4 != 0,
            usuario: i & 8 != 0,
        };
        let b = bits_de(p);
        assert_eq!(b & mmu::PXN != 0, p.usuario || !p.executavel);
        assert_eq!(b & mmu::UXN != 0, !p.usuario || !p.executavel);
        assert_eq!(b & mmu::AP_USUARIO != 0, p.usuario);
    }
}

#[test]
fn mapear_traduzir_desmapear() {
    let (mut m, mut a) = ligada(64);
    let antes = frames::estatisticas(&a);
    assert_eq!(mapear_frame(&mut m, &mut a, LIVRE, 0x9_F000, Permissoes::dados()), Ok(()));
    assert_eq!(frames::estatisticas(&a).0, antes.0 - 2);
    assert_eq!(traduzir(&m, LIVRE + 0x123), Some(0x9_F123));
    assert_eq!(traduzir(&m, LIVRE + 0x1000), None);
    assert_eq!(traduzir(&m, RAM + 0x5000), Some(RAM + 0x5000));
    assert_eq!(desmapear(&mut m, &mut a, LIVRE), Ok(0x9_F000));
    assert_eq!(traduzir(&m, LIVRE + 0x123), None);
}

#[test]
fn mapeamentos_recusados() {
    let (mut m, mut a) = ligada(64);
    let p = Permissoes::dados();
    assert_eq!(
        mapear_frame(&mut m, &mut a, LIVRE + 1, 0, p),
        Err("endereco virtual desalinhado")
    );
    assert_eq!(mapear_frame(&mut m, &mut a, LIVRE, 1, p), Err("endereco fisico desalinhado"));
    assert_eq!(
        mapear_frame(&mut m, &mut a, 0x80_0000_0000, 0, p),
        Err("endereco virtual fora do espaco configurado")
    );
    assert_eq!(
        mapear_frame(&mut m, &mut a, LIVRE, 1 << 48, p),
        Err("endereco fisico fora da faixa de 48 bits")
    );
    assert_eq!(
        mapear_frame(&mut m, &mut a, 0x1000, 0, p),
        Err("bloco grande no caminho do mapeamento")
    );
    assert_eq!(
        mapear_frame(&mut m, &mut a, RAM, 0, p),
        Err("endereco virtual ja mapeado")
    );
    while frames::alocar(&mut a).is_some() {}
    assert_eq!(
        mapear_frame(&mut m, &mut a, LIVRE, 0, p),
        Err("sem frames para tabela de pagina")
    );
}

#[test]
fn desmapeamentos_recusados() {
    let (mut m, mut a) = ligada(64);
    assert_eq!(desmapear(&mut m, &mut a, LIVRE + 8), Err("endereco virtual desalinhado"));
    assert_eq!(
        desmapear(&mut m, &mut a, 0x80_0000_0000),
        Err("endereco virtual fora do espaco configurado")
    );
    assert_eq!(
        desmapear(&mut m, &mut a, LIVRE),
        Err("endereco nao mapeado em granularidade de pagina")
    );
    assert_eq!(
        desmapear(&mut m, &mut a, RAM + 0x20_0000),
        Err("endereco nao mapeado em granularidade de pagina")
    );
    assert_eq!(desmapear(&mut m, &mut a, GUARDA), Err("endereco nao estava mapeado"));
}

#[test]
fn tabelas_privadas_voltam_ao_desmapear() {
    let (mut m, mut a) = ligada(64);
    let antes = frames::estatisticas(&a);
    assert_eq!(mapear_frame(&mut m, &mut a, DO_USUARIO, 0x9_F000, Permissoes::dados()), Ok(()));
    assert_eq!(desmapear(&mut m, &mut a, DO_USUARIO), Ok(0x9_F000));
    assert_eq!(frames::estatisticas(&a), antes);
}

#[test]
fn frame_novo_chega_zerado_e_volta() {
    let (mut m, mut a) = ligada(64);
    let previsto = {
        let mut copia = Vec::new();
        while let Some(f) = frames::alocar(&mut a) {
            copia.push(f);
        }
        for f in &copia {
            for i in 0..512 {
                m.memoria.escrever(*f, i, u64::MAX);
            }
            frames::liberar(&mut a, *f);
        }
        copia.len()
    };
    assert_eq!(frames::estatisticas(&a).0, previsto);
    let f = mapear_novo(&mut m, &mut a, LIVRE, Permissoes::dados()).unwrap();
    assert_eq!(traduzir(&m, LIVRE), Some(f));
    assert_eq!((m.memoria.ler(f, 0), m.memoria.ler(f, 511)), (0, 0));
    assert_eq!(
        mapear_novo(&mut m, &mut a, LIVRE, Permissoes::dados()),
        Err("endereco virtual ja mapeado")
    );
    assert_eq!(frames::estatisticas(&a).0, previsto - 3);
    assert_eq!(desmapear_e_liberar(&mut m, &mut a, LIVRE), Ok(()));
    assert!(frames::esta_livre(&a, f));
    assert_eq!(
        desmapear_e_liberar(&mut m, &mut a, LIVRE),
        Err("endereco nao estava mapeado")
    );
    while frames::alocar(&mut a).is_some() {}
    assert_eq!(
        mapear_novo(&mut m, &mut a, LIVRE, Permissoes::dados()),
        Err("memoria fisica esgotada")
    );
}

#[test]
fn faixa_para_onde_esta() {
    let (mut m, mut a) = ligada(64);
    assert_eq!(mapear_faixa(&mut m, &mut a, LIVRE, 3, Permissoes::dados()), Ok(()));
    assert!(traduzir(&m, LIVRE + 0x2000).is_some());
    assert_eq!(traduzir(&m, LIVRE + 0x3000), None);
    assert_eq!(
        mapear_faixa(&mut m, &mut a, LIVRE - 0x1000, 3, Permissoes::dados()),
        Err((1, "endereco virtual ja mapeado"))
    );
    assert!(traduzir(&m, LIVRE - 0x1000).is_some());
}

#[test]
fn espaco_vazio_devolve_a_raiz() {
    let (mut m, mut a) = ligada(64);
    let antes = frames::estatisticas(&a);
    let e = Espaco::novo(&mut m, &mut a, 4).unwrap();
    assert_eq!(frames::estatisticas(&a).0, antes.0 - 1);
    assert_eq!(m.memoria.ler(e.raiz(), 4), 0);
    assert_eq!(m.memoria.ler(e.raiz(), 0), m.memoria.ler(RAIZ, 0));
    assert!(e.largar(&mut m, &mut a));
    assert_eq!(frames::estatisticas(&a), antes);
    assert!(Espaco::novo(&mut m, &mut a, 512).is_err());
}

#[test]
fn espaco_de_um_processo() {
    let (mut m, mut a) = ligada(64);
    let antes = frames::estatisticas(&a);
    assert_eq!(criar_espaco(&mut m, &mut a, 512), Err("entrada de topo fora da tabela"));
    let raiz = criar_espaco(&mut m, &mut a, 4).unwrap();
    trocar_espaco(&mut m, &a, raiz);
    assert_eq!((espaco_atual(&m), espaco_do_kernel(&m)), (raiz, RAIZ));
    let p = Permissoes { escrita: true, executavel: false, dispositivo: false, usuario: true };
    let f = mapear_novo(&mut m, &mut a, DO_USUARIO + 0x20_3000, p).unwrap();
    let g = mapear_novo(&mut m, &mut a, DO_USUARIO + 0x1000, p).unwrap();
    let paginas = percorrer_paginas_do_usuario(&m, raiz, 4);
    assert_eq!(paginas.len(), 2);
    assert_eq!((paginas[0].virtual_, paginas[0].fisico), (DO_USUARIO + 0x1000, g));
    assert_eq!((paginas[1].virtual_, paginas[1].fisico), (DO_USUARIO + 0x20_3000, f));
    assert_eq!(paginas[0].permissoes, p);
    assert!(percorrer_paginas_do_usuario(&m, raiz, 600).is_empty());
    trocar_espaco(&mut m, &a, RAIZ);
    assert_eq!(traduzir(&m, DO_USUARIO + 0x1000), None);
    destruir_espaco(&mut m, &mut a, raiz, 4);
    assert_eq!(frames::estatisticas(&a), antes);
    while frames::alocar(&mut a).is_some() {}
    assert_eq!(criar_espaco(&mut m, &mut a, 4), Err("memoria fisica esgotada"));
}

#[test]
fn janela_de_dispositivo() {
    let (mut m, mut a) = ligada(64);
    let mut faixa = Faixa::nova(LIVRE, 0x10_000);
    assert_eq!(mmio::reservado(&faixa), 0);
    assert_eq!(mmio::mapear(&mut faixa, &mut m, &mut a, 0x1004, 0x1000), Ok(LIVRE + 4));
    assert_eq!(mmio::reservado(&faixa), 0x2000);
    assert_eq!(traduzir(&m, LIVRE + 4), Some(0x1004));
    assert_eq!(traduzir(&m, LIVRE + 0x1FFF), Some(0x2FFF));
    assert_eq!(mmio::mapear(&mut faixa, &mut m, &mut a, 0x9_0000, 1), Ok(LIVRE + 0x2000));
    assert_eq!(mmio::reservado(&faixa), 0x3000);
}

#[test]
fn janelas_recusadas() {
    let (mut m, mut a) = ligada(64);
    let mut faixa = Faixa::nova(LIVRE, 0x4000);
    assert_eq!(
        mmio::mapear(&mut faixa, &mut m, &mut a, 0x1000, 0),
        Err("regiao de MMIO de tamanho zero")
    );
    assert_eq!(
        mmio::mapear(&mut faixa, &mut m, &mut a, 0x1001, u64::MAX),
        Err("regiao de MMIO alem do fim do espaco fisico")
    );
    assert_eq!(
        mmio::mapear(&mut faixa, &mut m, &mut a, 0x1000, 0x5000),
        Err("a faixa de MMIO do kernel acabou")
    );
    assert_eq!(mmio::reservado(&faixa), 0);
    assert_eq!(
        mmio::mapear(&mut faixa, &mut m, &mut a, (1 << 48) - 0x1000, 0x2000),
        Err("endereco fisico fora da faixa de 48 bits")
    );
    assert_eq!(mmio::reservado(&faixa), 0x2000);
    assert_eq!(traduzir(&m, LIVRE), None);
}

#[test]
fn pilha_com_guarda_e_de_volta() {
    let (mut m, mut a) = ligada(64);
    let antes = frames::estatisticas(&a).0;
    let p = pilha::reservar(&mut m, &mut a, LIVRE, 2).unwrap();
    assert_eq!(p.topo(), LIVRE + 3 * 65536);
    assert_eq!(traduzir(&m, LIVRE + 2 * 65536), None);
    assert!(traduzir(&m, LIVRE + 2 * 65536 + 0x1000).is_some());
    assert!(traduzir(&m, p.topo() - 8).is_some());
    assert_eq!(traduzir(&m, p.topo()), None);
    assert_eq!(frames::estatisticas(&a).0, antes - 17);
    p.largar(&mut m, &mut a, LIVRE);
    assert_eq!(traduzir(&m, LIVRE + 2 * 65536 + 0x1000), None);
    assert_eq!(frames::estatisticas(&a).0, antes - 2);
}

#[test]
fn pilha_sem_memoria_nao_deixa_restos() {
    let (mut m, mut a) = ligada(20);
    let antes = frames::estatisticas(&a).0;
    assert!(antes < 17);
    assert!(pilha::reservar(&mut m, &mut a, LIVRE, 0).is_err());
    assert_eq!(frames::estatisticas(&a).0, antes - 2);
    assert_eq!(traduzir(&m, LIVRE + 0x1000), None);
}

#[test]
fn heap_montado_sobre_paginas() {
    let (mut m, mut a) = ligada(320);
    let mut h = heap::Estado::vazio();
    assert_eq!(heap::init(&mut h, &mut m, &mut a, LIVRE as usize), Ok(()));
    assert!(traduzir(&m, LIVRE + 0xF_FFFF).is_some());
    let e = heap::estatisticas(&h);
    assert_eq!((e.total, e.alocado, e.livre), (0x10_0000, 0, 0x10_0000));
    assert_eq!((e.blocos_livres, e.maior_bloco), (1, 0x10_0000));
    let (mut m, mut a) = ligada(64);
    let mut h = heap::Estado::vazio();
    assert_eq!(
        heap::init(&mut h, &mut m, &mut a, LIVRE as usize),
        Err("memoria fisica esgotada")
    );
}

#[test]
fn heap_aloca_alinha_e_funde() {
    let (mut m, mut a) = ligada(320);
    let mut h = heap::Estado::vazio();
    heap::init(&mut h, &mut m, &mut a, LIVRE as usize).unwrap();
    let base = LIVRE as usize;
    assert_eq!(heap::tentar_alocar(&mut h, 1, 1), Some(base));
    assert_eq!(heap::tentar_alocar(&mut h, 20, 4), Some(base + 16));
    assert_eq!(heap::tentar_alocar(&mut h, 100, 4096), Some(base + 4096));
    let e = heap::estatisticas(&h);
    assert_eq!(e.alocado, 16 + 24 + 4096);
    assert_eq!((e.alocacoes, e.liberacoes, e.falhas), (3, 0, 0));
    assert_eq!(e.blocos_livres, 2);
    assert_eq!(heap::tentar_alocar(&mut h, 0x20_0000, 8), None);
    assert_eq!(heap::tentar_alocar(&mut h, usize::MAX, 8), None);
    assert_eq!(heap::estatisticas(&h).falhas, 2);
    heap::devolver(&mut h, base + 16, 20, 4);
    heap::devolver(&mut h, base + 4096, 100, 4096);
    heap::devolver(&mut h, base, 1, 1);
    let e = heap::estatisticas(&h);
    assert_eq!((e.alocado, e.livre, e.blocos_livres), (0, 0x10_0000, 1));
    assert_eq!(e.liberacoes, 3);
}

#[test]
fn ajuste_de_um_pedido() {
    assert_eq!(heap::ajustar(1, 1), Some((16, 8)));
    assert_eq!(heap::ajustar(17, 1), Some((24, 8)));
    assert_eq!(heap::ajustar(17, 64), Some((64, 64)));
    assert_eq!(heap::ajustar(usize::MAX, 8), None);
    assert_eq!(heap::alinhar_acima(13, 8), Some(16));
    assert_eq!(heap::alinhar_acima(16, 8), Some(16));
    assert_eq!(heap::alinhar_acima(usize::MAX, 8), None);
}

#[test]
fn lista_de_blocos_livres() {
    let mut l = Vec::new();
    heap::inserir(&mut l, 0x1000, 0x100);
    heap::inserir(&mut l, 0x3000, 0x100);
    heap::inserir(&mut l, 0x1100, 0x100);
    heap::inserir(&mut l, 0x2F00, 0x100);
    let v: Vec<(usize, usize)> = l.iter().map(|n| (n.inicio, n.tamanho)).collect();
    assert_eq!(v, vec![(0x1000, 0x200), (0x2F00, 0x200)]);
    assert_eq!(heap::retirar(&mut l, 0x1F8, 8), None);
    assert_eq!(heap::retirar(&mut l, 0x1F0, 8), Some(0x1000));
    assert_eq!(heap::retirar(&mut l, 0x100, 0x1000), Some(0x3000));
    let v: Vec<(usize, usize)> = l.iter().map(|n| (n.inicio, n.tamanho)).collect();
    assert_eq!(v, vec![(0x11F0, 0x10), (0x2F00, 0x100)]);
}

#[test]
fn corrida_por_tabelas_de_fora() {
    let (_m, mut a) = ligada(64);
    let livres = frames::estatisticas(&a).0;
    let mut c = Corrida::nova(LIVRE, 2);
    let primeiro = match c.passo(&mut a, None) {
        Pagina::Mapear { virtual_: LIVRE, fisico } => fisico,
        _ => panic!("a primeira pagina nao foi pedida"),
    };
    assert!(!frames::esta_livre(&a, primeiro));
    let segundo = match c.passo(&mut a, Some(Ok(()))) {
        Pagina::Mapear { virtual_, fisico } => {
            assert_eq!(virtual_, LIVRE + 4096);
            fisico
        }
        _ => panic!("a segunda pagina nao foi pedida"),
    };
    assert_eq!(c.passo(&mut a, Some(Err("nao"))), Pagina::Recusada("nao"));
    assert!(frames::esta_livre(&a, segundo));
    assert_eq!(frames::estatisticas(&a).0, livres - 1);
    let mut c = Corrida::nova(LIVRE, 1);
    assert!(matches!(c.passo(&mut a, None), Pagina::Mapear { .. }));
    assert_eq!(c.passo(&mut a, Some(Ok(()))), Pagina::Pronta);
    while frames::alocar(&mut a).is_some() {}
    let mut c = Corrida::nova(LIVRE, 1);
    assert_eq!(c.passo(&mut a, None), Pagina::Recusada("memoria fisica esgotada"));
}

#[test]
fn janela_por_tabelas_de_fora() {
    let mut faixa = Faixa::nova(LIVRE, 0x10_0000);
    let mut j = abrir(&mut faixa, 0x9004, 0x1000).unwrap();
    assert_eq!(mmio::reservado(&faixa), 0x2000);
    assert_eq!(j.passo(None), Passo::Mapear { virtual_: LIVRE, fisico: 0x9000 });
    assert_eq!(
        j.passo(Some(Ok(()))),
        Passo::Mapear { virtual_: LIVRE + 0x1000, fisico: 0xA000 }
    );
    assert_eq!(j.passo(Some(Ok(()))), Passo::Pronta(LIVRE + 4));
    let base = LIVRE + 0x2000;
    let mut j = abrir(&mut faixa, 0x9000, 0x3000).unwrap();
    j.passo(None);
    j.passo(Some(Ok(())));
    j.passo(Some(Ok(())));
    assert_eq!(j.passo(Some(Err("nao"))), Passo::Desmapear(base));
    assert_eq!(j.passo(Some(Ok(()))), Passo::Desmapear(base + 0x1000));
    assert_eq!(j.passo(Some(Ok(()))), Passo::Recusada("nao"));
    let mut j = abrir(&mut faixa, u64::MAX - 0xFFF, 0x1001).unwrap();
    assert!(matches!(j.passo(None), Passo::Mapear { .. }));
    assert!(matches!(j.passo(Some(Ok(()))), Passo::Desmapear(_)));
    assert_eq!(
        j.passo(Some(Ok(()))),
        Passo::Recusada("regiao de MMIO alem do fim do espaco fisico")
    );
}

#[test]
fn heap_montado_sobre_memoria_pronta() {
    let mut h = heap::Estado::vazio();
    heap::montar(&mut h, 0x1_0000);
    let e = heap::estatisticas(&h);
    assert_eq!((e.total, e.livre, e.maior_bloco), (0x10_0000, 0x10_0000, 0x10_0000));
    assert_eq!(heap::tentar_alocar(&mut h, 8, 8), Some(0x1_0000));
}

#[test]
fn atributos_da_identidade() {
    let (m, _a) = ligada(32);
    let atributos = |d: u64| d & !(mmu::MASCARA_ENDERECO | mmu::VALIDO | mmu::TABELA);
    let normal = mmu::ATTR_NORMAL | mmu::AF | mmu::SH_INTERNO | mmu::UXN;
    let gigante = m.memoria.ler(RAIZ, 0);
    assert_eq!(gigante & 3, mmu::VALIDO);
    assert_eq!(atributos(gigante), mmu::AF | mmu::SH_INTERNO | mmu::PXN | mmu::UXN);
    let l2 = m.memoria.ler(RAIZ, 1);
    assert_eq!(l2 & 3, mmu::VALIDO | mmu::TABELA);
    let grande = m.memoria.ler(l2 & mmu::MASCARA_ENDERECO, 1);
    assert_eq!((grande & 3, atributos(grande)), (mmu::VALIDO, normal));
    let l3 = m.memoria.ler(l2 & mmu::MASCARA_ENDERECO, 0);
    assert_eq!(l3 & 3, mmu::VALIDO | mmu::TABELA);
    let pagina = m.memoria.ler(l3 & mmu::MASCARA_ENDERECO, 2);
    assert_eq!((pagina & 3, atributos(pagina)), (mmu::VALIDO | mmu::TABELA, normal));
    assert_eq!(m.memoria.ler(l3 & mmu::MASCARA_ENDERECO, 3), 0);
    assert_eq!(m.memoria.ler(RAIZ, 2), 0);
}

#[test]
fn identidade_gasta_dois_quadros() {
    let (mut m, mut a, maq) = desligada(32);
    let livres = frames::estatisticas(&a).0;
    mmu::init(&mut m, &mut a, &maq, RAIZ, GUARDA).unwrap();
    assert_eq!(frames::estatisticas(&a).0, livres - 2);
    let (mut m, mut a, maq) = desligada(32);
    assert!(mmu::init(&mut m, &mut a, &maq, RAIZ, 0x8000_0000).is_err());
    assert_eq!(frames::estatisticas(&a).0, livres);
}
