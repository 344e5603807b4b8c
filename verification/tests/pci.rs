use duke::arch::aarch64::pci as ecam;
use duke::arch::x86_64::pci as portas;
use duke::pci::{
    atribuir_bars, com_dispositivos, comando_para_medir, comando_para_usar, ler, preparar,
    proximo_slot, total, Atribuicao, Dispositivo, Distribuidor, EnderecoPci, Feito, Identidade,
    Inventario, JanelaMmio, Preparo, Registro, Relatorio, Varredura, MAX_DISPOSITIVOS,
};

const JANELA: JanelaMmio = JanelaMmio { barramento: 0x1000_0000, cpu: 0x5000_0000, tamanho: 0x10_0000 };

fn em(dispositivo: u8, funcao: u8) -> EnderecoPci {
    EnderecoPci { barramento: 0, dispositivo, funcao }
}

fn identidade(fabricante: u16, classe: u8, subclasse: u8) -> Identidade {
    Identidade { fabricante, modelo: 0x1001, classe, subclasse, interface: 0, revisao: 1 }
}

fn dispositivo() -> Dispositivo {
    ler(em(3, 0), identidade(0x1af4, 1, 0)).unwrap()
}

#[test]
fn janela_traduz_so_o_que_e_dela() {
    assert_eq!(JANELA.na_cpu(0x1000_0000), Some(0x5000_0000));
    assert_eq!(JANELA.na_cpu(0x1000_1234), Some(0x5000_1234));
    assert_eq!(JANELA.na_cpu(0x100F_FFFF), Some(0x500F_FFFF));
    assert_eq!(JANELA.na_cpu(0x1010_0000), None);
    assert_eq!(JANELA.na_cpu(0x0FFF_FFFF), None);
}

#[test]
fn regioes_alinhadas_e_sem_sobreposicao() {
    let mut d = Distribuidor::novo(JANELA);
    assert_eq!(d.reservar(0x20), Some(0x1000_0000));
    assert_eq!(d.reservar(0x1000), Some(0x1000_1000));
    assert_eq!(d.reservar(0x10), Some(0x1000_2000));
    assert_eq!(d.reservar(0x8_0000), Some(0x1008_0000));
    assert_eq!(d.reservar(1), None);
    assert_eq!(d.reservar(0x8_0000), None);
}

#[test]
fn tamanho_que_nao_e_potencia_de_dois() {
    let mut d = Distribuidor::novo(JANELA);
    assert_eq!(d.reservar(0), None);
    assert_eq!(d.reservar(3), None);
    assert_eq!(d.reservar(0x1001), None);
    assert_eq!(d.reservar(u64::MAX), None);
    assert_eq!(d.reservar(1 << 63), None);
    assert_eq!(d.reservar(1), Some(0x1000_0000));
}

#[test]
fn ninguem_responde() {
    assert_eq!(ler(em(0, 0), identidade(0xFFFF, 1, 0)), None);
    let d = dispositivo();
    assert_eq!((d.dispositivo, d.funcao, d.fabricante, d.memoria), (3, 0, 0x1af4, None));
}

#[test]
fn o_que_cada_classe_faz() {
    let faz = |c, s| ler(em(0, 0), identidade(1, c, s)).unwrap().o_que_faz();
    assert_eq!(faz(0x01, 0x00), "disco-scsi");
    assert_eq!(faz(0x01, 0x01), "disco-ide");
    assert_eq!(faz(0x01, 0x06), "disco-sata");
    assert_eq!(faz(0x01, 0x08), "disco-nvme");
    assert_eq!(faz(0x01, 0x07), "outro");
    assert_eq!(faz(0x02, 0x80), "rede");
    assert_eq!(faz(0x03, 0x00), "video");
    assert_eq!(faz(0x06, 0x00), "ponte-hospedeira");
    assert_eq!(faz(0x06, 0x04), "ponte-pci");
    assert_eq!(faz(0x06, 0x01), "outro");
    assert_eq!(faz(0x0C, 0x03), "usb");
    assert_eq!(faz(0xFF, 0x00), "outro");
}

#[test]
fn bars_vazios_recebem_endereco() {
    let mut d = Distribuidor::novo(JANELA);
    let lidos = [
        Registro::Outro,
        Registro::Memoria32 { endereco: 0, tamanho: 0x1000 },
        Registro::Memoria64 { endereco: 0x9000_0000, tamanho: 0x4000 },
        Registro::Outro,
        Registro::Memoria64 { endereco: 0, tamanho: 0x4000 },
        Registro::Memoria32 { endereco: 0, tamanho: 0x2000 },
    ];
    assert_eq!(
        atribuir_bars(&mut d, &lidos),
        vec![
            Feito { slot: 1, atribuicao: Atribuicao::Escrever(0x1000_0000) },
            Feito { slot: 4, atribuicao: Atribuicao::Escrever(0x1000_4000) },
        ]
    );
}

#[test]
fn dois_dispositivos_dividem_a_janela() {
    let mut d = Distribuidor::novo(JANELA);
    let lidos = [
        Registro::Memoria32 { endereco: 0, tamanho: 0x1000 },
        Registro::Memoria64 { endereco: 0, tamanho: 0x4000 },
        Registro::Outro,
        Registro::Outro,
        Registro::Outro,
        Registro::Outro,
    ];
    let primeiro = atribuir_bars(&mut d, &lidos);
    let segundo = atribuir_bars(&mut d, &lidos);
    assert_eq!(
        primeiro,
        vec![
            Feito { slot: 0, atribuicao: Atribuicao::Escrever(0x1000_0000) },
            Feito { slot: 1, atribuicao: Atribuicao::Escrever(0x1000_4000) },
        ]
    );
    assert_eq!(
        segundo,
        vec![
            Feito { slot: 0, atribuicao: Atribuicao::Escrever(0x1000_8000) },
            Feito { slot: 1, atribuicao: Atribuicao::Escrever(0x1000_C000) },
        ]
    );
}

#[test]
fn janela_esgotada_e_dita() {
    let mut d = Distribuidor::novo(JanelaMmio { tamanho: 0x1000, ..JANELA });
    let lidos = [
        Registro::Memoria32 { endereco: 0, tamanho: 0x2000 },
        Registro::Memoria32 { endereco: 0, tamanho: 0x1000 },
        Registro::Outro,
        Registro::Outro,
        Registro::Outro,
        Registro::Outro,
    ];
    assert_eq!(
        atribuir_bars(&mut d, &lidos),
        vec![
            Feito { slot: 0, atribuicao: Atribuicao::SemEspaco(0x2000) },
            Feito { slot: 1, atribuicao: Atribuicao::Escrever(0x1000_0000) },
        ]
    );
}

#[test]
fn registro_de_64_bits_ocupa_dois() {
    assert_eq!(proximo_slot(0, Registro::Memoria64 { endereco: 0, tamanho: 1 }), 2);
    assert_eq!(proximo_slot(4, Registro::Memoria32 { endereco: 0, tamanho: 1 }), 5);
    assert_eq!(proximo_slot(5, Registro::Outro), 6);
}

#[test]
fn primeira_regiao_depois_de_um_par_vazio() {
    let lidos = [
        Registro::Outro,
        Registro::Memoria64 { endereco: 0, tamanho: 0x1000 },
        Registro::Memoria32 { endereco: 0x77, tamanho: 0x10 },
        Registro::Memoria32 { endereco: 0x1000_2000, tamanho: 0x2000 },
        Registro::Outro,
        Registro::Outro,
    ];
    let mut a = dispositivo();
    assert_eq!(
        preparar(&mut a, &lidos, Some(JANELA)),
        Preparo::EmMemoria { endereco: 0x5000_2000, tamanho: 0x2000 }
    );
    assert_eq!(a.memoria, Some((0x5000_2000, 0x2000)));
    let mut b = dispositivo();
    preparar(&mut b, &lidos, None);
    assert_eq!(b.memoria, Some((0x1000_2000, 0x2000)));
}

#[test]
fn regiao_fora_da_janela_e_ausente() {
    let mut lidos = [Registro::Outro; 6];
    let mut a = dispositivo();
    assert_eq!(preparar(&mut a, &lidos, None), Preparo::SemRegiao);
    assert_eq!(a.memoria, None);
    lidos[5] = Registro::Memoria32 { endereco: 0x2000_0000, tamanho: 0x1000 };
    assert_eq!(
        preparar(&mut a, &lidos, Some(JANELA)),
        Preparo::ForaDaJanela { slot: 5, no_barramento: 0x2000_0000 }
    );
    assert_eq!(a.memoria, None);
}

#[test]
fn comandos_so_mexem_no_decodificador() {
    assert_eq!(comando_para_medir(0xFFFF), 0xFFFC);
    assert_eq!(comando_para_medir(0x0007), 0x0004);
    let usado = Preparo::EmMemoria { endereco: 1, tamanho: 1 };
    assert_eq!(comando_para_usar(0x0000, usado), Some(0x0002));
    assert_eq!(comando_para_usar(0x8005, usado), Some(0x8007));
    assert_eq!(comando_para_usar(0, Preparo::SemRegiao), None);
    assert_eq!(
        comando_para_usar(0, Preparo::ForaDaJanela { slot: 0, no_barramento: 1 }),
        None
    );
}

#[test]
fn varredura_acha_todas_na_ordem() {
    let presente = |d: u8, f: u8| matches!((d, f), (0, 0) | (2, 0) | (2, 3) | (5, 1) | (31, 0) | (31, 7) | (7, 0) | (7, 2));
    let multiplas = |d: u8| d == 2 || d == 31;
    let mut v = Varredura::nova();
    let mut achados = Vec::new();
    let mut olhadas = 0;
    while let Some(e) = v.onde() {
        olhadas += 1;
        let ha = presente(e.dispositivo, e.funcao);
        if ha {
            achados.push((e.dispositivo, e.funcao));
        }
        v.avancar(ha, ha && multiplas(e.dispositivo));
    }
    assert_eq!(achados, vec![(0, 0), (2, 0), (2, 3), (7, 0), (31, 0), (31, 7)]);
    assert_eq!(olhadas, 32 + 2 * 7);
}

#[test]
fn inventario_conta_o_que_nao_coube() {
    let mut i = Inventario::novo();
    assert_eq!(i.relatorio(), Relatorio::Completo { encontrados: 0 });
    for _ in 0..MAX_DISPOSITIVOS {
        i.guardar(dispositivo());
    }
    assert_eq!(i.relatorio(), Relatorio::Completo { encontrados: 32 });
    i.guardar(dispositivo());
    assert_eq!(total(&i), 33);
    assert_eq!(com_dispositivos(&i).len(), 32);
    assert_eq!(i.relatorio(), Relatorio::Cheio { encontrados: 33, guardados: 32 });
}

#[test]
fn palavra_das_portas() {
    assert_eq!(portas::selecionar(em(0, 0), 0), 0x8000_0000);
    assert_eq!(
        portas::selecionar(EnderecoPci { barramento: 1, dispositivo: 31, funcao: 7 }, 0x3D),
        0x8001_FF3C
    );
    assert_eq!(portas::selecionar(em(2, 1), 0x110), 0x8000_1110);
    assert!(portas::acesso().is_some());
    assert_eq!(portas::janela_mmio(), None);
}

#[test]
fn deslocamento_na_memoria() {
    assert_eq!(ecam::deslocamento_no_ecam(em(0, 0), 0), 0);
    assert_eq!(
        ecam::deslocamento_no_ecam(EnderecoPci { barramento: 255, dispositivo: 31, funcao: 7 }, 0xFFF),
        0x0FFF_FFFC
    );
    assert_eq!(ecam::deslocamento_no_ecam(em(1, 2), 0x13), 0xA010);
}

#[test]
fn acesso_so_dentro_do_que_foi_mapeado() {
    let mut p = ecam::Ponte::desconhecida();
    assert!(ecam::acesso(&p).is_none());
    assert_eq!(ecam::janela_mmio(&p), None);
    ecam::registrar(&mut p, 0x40_1000_0000, 0x1000);
    ecam::registrar_janela(&mut p, 0x1000, 0x2000, 0x3000);
    assert_eq!(
        ecam::janela_mmio(&p),
        Some(JanelaMmio { barramento: 0x1000, cpu: 0x2000, tamanho: 0x3000 })
    );
    let a = ecam::acesso(&p).unwrap();
    assert_eq!(a.registro(em(0, 0), 0x10), Some(0x40_1000_0010));
    assert_eq!(a.registro(em(0, 0), 0xFFC), Some(0x40_1000_0FFC));
    assert_eq!(a.registro(em(0, 1), 0), None);
    ecam::registrar(&mut p, 0x40_1000_0000, 3);
    assert!(ecam::acesso(&p).is_none());
}
