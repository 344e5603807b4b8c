use duke::arch::memoria::Memoria;
use duke::arch::x86_64::paginacao::{
    acesso_fisico, canonico, criar_espaco, desfecho_ao_desmapear, desfecho_ao_mapear, desmapear,
    destruir_espaco, espaco_do_kernel, fisico_valido, flags_de, init, mapear_frame,
    percorrer_paginas_do_usuario, permissoes_de, traduzir, FalhaAoDesmapear, FalhaAoMapear,
    PaginaDeUsuario, Paginacao, Pedido,
};
use duke::arch::Permissoes;
use duke::frames::{self, Alocador};
use duke::machine::{adicionar_regiao, Maquina, Regiao, TipoRegiao};

const QUADROS: u64 = 32;

fn memoria() -> (Paginacao, Alocador) {
    let mut m = Maquina::nova();
    adicionar_regiao(
        &mut m,
        Regiao { inicio: 0, fim: QUADROS * 4096, tipo: TipoRegiao::Utilizavel },
    );
    let mut a = Alocador::novo();
    frames::init(&mut a, &m, &[(0, 8 * 4096)]);
    let mem = Memoria::sobre(0, vec![0u64; 512 * QUADROS as usize]).unwrap();
    (Paginacao::nova(mem), a)
}

fn todas() -> Vec<Permissoes> {
    let mut v = Vec::new();
    for i in 0..16 {
        v.push(Permissoes {
            escrita: i & 1 != 0,
            executavel: i & 2 != 0,
            dispositivo: i & 4 != 0,
            usuario: i & 8 != 0,
        });
    }
    v
}

#[test]
fn enderecos_canonicos() {
    assert!(canonico(0));
    assert!(canonico(0x7FFF_FFFF_FFFF));
    assert!(!canonico(0x8000_0000_0000));
    assert!(!canonico(0xFFFF_7FFF_FFFF_FFFF));
    assert!(canonico(0xFFFF_8000_0000_0000));
    assert!(canonico(u64::MAX));
    assert!(fisico_valido((1 << 52) - 1));
    assert!(!fisico_valido(1 << 52));
}

#[test]
fn bits_de_uma_pagina() {
    assert_eq!(flags_de(Permissoes::dados()), 0x8000_0000_0000_0003);
    assert_eq!(flags_de(Permissoes::de_dispositivo()), 0x8000_0000_0000_001B);
    assert_eq!(
        flags_de(Permissoes { escrita: false, executavel: true, dispositivo: false, usuario: true }),
        5
    );
}

#[test]
fn permissoes_ida_e_volta_no_x86() {
    for p in todas() {
        assert_eq!(permissoes_de(0x000F_FFFF_FFFF_F000 | flags_de(p)), p);
        assert_eq!(permissoes_de(flags_de(p)), p);
    }
}

#[test]
fn mapeamento_conferido_antes() {
    let p = Permissoes::dados();
    assert_eq!(mapear_frame(1, 0, p), Err("endereco virtual desalinhado"));
    assert_eq!(mapear_frame(0, 1, p), Err("endereco fisico desalinhado"));
    assert_eq!(mapear_frame(0x8000_0000_0000, 0, p), Err("endereco virtual nao canonico"));
    assert_eq!(
        mapear_frame(0x1000, 1 << 52, p),
        Err("endereco fisico fora da faixa de 52 bits")
    );
    assert_eq!(
        mapear_frame(0x1000, 0x2000, p),
        Ok(Pedido {
            virtual_: 0x1000,
            fisico: 0x2000,
            flags: 0x8000_0000_0000_0003,
            flags_de_tabela: 7,
        })
    );
}

#[test]
fn desfechos_das_tabelas() {
    assert_eq!(desfecho_ao_mapear(Ok(())), Ok(()));
    assert_eq!(
        desfecho_ao_mapear(Err(FalhaAoMapear::JaMapeado)),
        Err("endereco virtual ja mapeado")
    );
    assert_eq!(
        desfecho_ao_mapear(Err(FalhaAoMapear::SemFrame)),
        Err("sem frames para tabela de pagina")
    );
    assert_eq!(
        desfecho_ao_mapear(Err(FalhaAoMapear::Grande)),
        Err("bloco grande no caminho do mapeamento")
    );
    assert_eq!(desfecho_ao_desmapear(Ok(9)), Ok(9));
    assert_eq!(
        desfecho_ao_desmapear(Err(FalhaAoDesmapear::NaoMapeado)),
        Err("endereco nao estava mapeado")
    );
    assert_eq!(
        desfecho_ao_desmapear(Err(FalhaAoDesmapear::Grande)),
        Err("endereco nao mapeado em granularidade de pagina")
    );
    assert_eq!(
        desfecho_ao_desmapear(Err(FalhaAoDesmapear::EnderecoInvalido)),
        Err("descritor com endereco invalido")
    );
}

#[test]
fn limpeza_so_na_entrada_privada() {
    assert_eq!(desmapear(0x1000), Ok(true));
    assert_eq!(desmapear(0xFFFF_9000_0000_0000), Ok(false));
    assert_eq!(desmapear(0x1001), Err("endereco virtual desalinhado"));
    assert_eq!(desmapear(0x8000_0000_0000), Err("endereco virtual nao canonico"));
}

#[test]
fn traducao_de_endereco_impossivel() {
    assert_eq!(traduzir(0x1234, Some((0x5000, 0x234))), Some(0x5234));
    assert_eq!(traduzir(0x1234, None), None);
    assert_eq!(traduzir(0x8000_0000_0000, Some((0, 0))), None);
}

#[test]
fn acesso_pelo_deslocamento() {
    let (mut p, _a) = memoria();
    assert_eq!(acesso_fisico(&p, 0x1000), None);
    assert_eq!(espaco_do_kernel(&p), None);
    init(&mut p, 0xFFFF_8800_0000_0000, 0x1000);
    assert_eq!(acesso_fisico(&p, 0x1000), Some(0xFFFF_8800_0000_1000));
    assert_eq!(espaco_do_kernel(&p), Some(0x1000));
}

#[test]
fn espaco_novo_copia_o_kernel_menos_a_entrada() {
    let (mut p, mut a) = memoria();
    p.memoria.escrever(0x1000, 0, 0xAAA003);
    p.memoria.escrever(0x1000, 511, 0xBBB003);
    init(&mut p, 0, 0x1000);
    let nova = criar_espaco(&mut p, &mut a, 0).unwrap();
    assert_eq!(nova, 8 * 4096);
    assert!(!frames::esta_livre(&a, nova));
    assert_eq!(p.memoria.ler(nova, 0), 0);
    assert_eq!(p.memoria.ler(nova, 511), 0xBBB003);
    assert_eq!(p.memoria.ler(0x1000, 0), 0xAAA003);
}

#[test]
fn espaco_que_nao_se_cria() {
    let (mut p, mut a) = memoria();
    assert_eq!(criar_espaco(&mut p, &mut a, 512), Err("entrada de topo fora da tabela"));
    assert_eq!(criar_espaco(&mut p, &mut a, 0), Err("paginacao ainda nao inicializada"));
    p.raiz_do_kernel = Some(0x1000);
    let livres = frames::estatisticas(&a);
    assert_eq!(criar_espaco(&mut p, &mut a, 0), Err("memoria fisica nao esta acessivel"));
    assert_eq!(frames::estatisticas(&a), livres);
    init(&mut p, 0, 0x1000);
    while frames::alocar(&mut a).is_some() {}
    assert_eq!(criar_espaco(&mut p, &mut a, 0), Err("memoria fisica esgotada"));
}

#[test]
fn destruir_devolve_paginas_tabelas_e_raiz() {
    let (mut p, mut a) = memoria();
    init(&mut p, 0, 0x1000);
    let antes = frames::estatisticas(&a);
    let raiz = criar_espaco(&mut p, &mut a, 0).unwrap();
    let mut quadro = || frames::alocar(&mut a).unwrap();
    let (t3, t2, t1, pagina, outra) = (quadro(), quadro(), quadro(), quadro(), quadro());
    for t in [t3, t2, t1] {
        p.memoria.zerar(t);
    }
    p.memoria.escrever(raiz, 0, t3 | 7);
    p.memoria.escrever(t3, 1, t2 | 7);
    p.memoria.escrever(t2, 2, t1 | 7);
    p.memoria.escrever(t1, 3, pagina | 5 | (1 << 63));
    p.memoria.escrever(t1, 4, outra | 7);
    assert_eq!(
        percorrer_paginas_do_usuario(&p, raiz, 0),
        vec![
            PaginaDeUsuario {
                virtual_: 0x4000_0000 + 2 * 0x20_0000 + 3 * 0x1000,
                fisico: pagina,
                permissoes: Permissoes {
                    escrita: false,
                    executavel: false,
                    dispositivo: false,
                    usuario: true,
                },
            },
            PaginaDeUsuario {
                virtual_: 0x4000_0000 + 2 * 0x20_0000 + 4 * 0x1000,
                fisico: outra,
                permissoes: Permissoes {
                    escrita: true,
                    executavel: true,
                    dispositivo: false,
                    usuario: true,
                },
            },
        ]
    );
    assert_eq!(percorrer_paginas_do_usuario(&p, raiz, 1), vec![]);
    assert_eq!(percorrer_paginas_do_usuario(&p, raiz, 512), vec![]);
    destruir_espaco(&mut p, &mut a, raiz, 0);
    assert_eq!(frames::estatisticas(&a), antes);
    assert_eq!(p.memoria.ler(raiz, 0), 0);
}

#[test]
fn pagina_grande_nao_e_tabela() {
    let (mut p, mut a) = memoria();
    init(&mut p, 0, 0x1000);
    let raiz = criar_espaco(&mut p, &mut a, 0).unwrap();
    let t3 = frames::alocar(&mut a).unwrap();
    let grande = frames::alocar(&mut a).unwrap();
    p.memoria.zerar(t3);
    p.memoria.escrever(raiz, 0, t3 | 7);
    p.memoria.escrever(t3, 0, grande | 0x87);
    assert_eq!(percorrer_paginas_do_usuario(&p, raiz, 0), vec![]);
    destruir_espaco(&mut p, &mut a, raiz, 0);
    assert!(frames::esta_livre(&a, grande));
    assert!(frames::esta_livre(&a, t3));
}
