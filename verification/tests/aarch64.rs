use duke::arch::aarch64::contexto::{preparar_contexto, Contexto, SPSR_FIO_DO_KERNEL};
use duke::arch::aarch64::gic::{
    habilitar_linha, habilitar_spi, init_timer, intid_de, tratar, Atendida, Fonte, Ritmo, Rota,
};
use duke::arch::aarch64::regime::{programar_atributos_de_memoria, programar_controle_de_traducao};
use duke::arch::aarch64::usuario::{chamada_de, responder, veio_de_usuario, Chamada, SPSR_USUARIO};
use duke::arch::aarch64::vetores::{
    classe_da_excecao, nome_da_classe, tratar_sync, Atendimento, Quadro,
};
use duke::arch::aarch64::{
    adicionar_faixas, dormir_se_ocioso, dtb, e_privado, encerrar_emulador, esperar_interrupcao,
    falha_de_estouro_de_pilha, identificar_cpu, interrupcoes_habilitadas, nome, registrar_dtb,
    reservar_faixas, Dtb,
};
use duke::arch::{validar_alinhamento, IdCpu, Repouso};
use duke::fios::{self, ContextoDeFio, Escalonador, QUANTUM_EM_TIQUES};
use duke::irq::{contagem_da_linha, total, Linhas};
use duke::machine::{com_regioes, regioes_descartadas, Maquina};
use duke::qemu::ExitCode;

fn quadro() -> Quadro {
    let mut x = [0u64; 31];
    for i in 0..31 {
        x[i] = 100 + i as u64;
    }
    Quadro { x, elr: 0x4000, spsr: SPSR_USUARIO }
}

fn escalonador() -> Escalonador<Contexto, u32> {
    let mut e = Escalonador::novo();
    fios::init(&mut e, 0);
    e
}

#[test]
fn nomes_do_aarch64() {
    assert_eq!(nome(), "aarch64");
    assert_eq!(falha_de_estouro_de_pilha(), "data_abort");
}

#[test]
fn so_a_entrada_do_usuario_e_privada() {
    assert!(!e_privado(0xFFFF_FFFF));
    assert!(e_privado(0x1_0000_0000));
    assert!(e_privado(0x1_3FFF_FFFF));
    assert!(!e_privado(0x1_4000_0000));
}

#[test]
fn alinhamento_de_cada_endereco() {
    assert_eq!(validar_alinhamento(0x1000, 0x2000), Ok(()));
    assert_eq!(validar_alinhamento(0x1001, 0x2001), Err("endereco virtual desalinhado"));
    assert_eq!(validar_alinhamento(0x1000, 0x2001), Err("endereco fisico desalinhado"));
}

#[test]
fn identificacao_cortada_e_invalida() {
    assert_eq!(IdCpu::vazio().como_str(), "");
    assert_eq!(
        IdCpu::de_bytes(b"abcdefghijklmnopqrstuvwxyz").como_str(),
        "abcdefghijklmnopqrstuvwx"
    );
    assert_eq!(IdCpu::de_bytes(&[0xFF, 0xFE]).como_str(), "desconhecido");
}

#[test]
fn fabricante_do_processador() {
    assert_eq!(identificar_cpu(0x410F_D034).como_str(), "ARM Limited");
    assert_eq!(identificar_cpu(0x61 << 24).como_str(), "Apple");
    assert_eq!(identificar_cpu(0xC0 << 24).como_str(), "Ampere");
    assert_eq!(identificar_cpu(0).como_str(), "desconhecido");
    assert_eq!(identificar_cpu(0xFF_0000_0000 | (0x48 << 24)).como_str(), "HiSilicon");
}

#[test]
fn mascara_de_interrupcoes() {
    assert!(interrupcoes_habilitadas(0));
    assert!(!interrupcoes_habilitadas(0x80));
    assert!(interrupcoes_habilitadas(0x340));
    assert!(!interrupcoes_habilitadas(0x3C0));
}

#[test]
fn repouso_do_aarch64() {
    assert_eq!(esperar_interrupcao(true), Repouso::Dormir);
    assert_eq!(esperar_interrupcao(false), Repouso::Girar);
    assert_eq!(dormir_se_ocioso(true), Repouso::Dormir);
    assert_eq!(dormir_se_ocioso(false), Repouso::Seguir);
}

#[test]
fn bloco_que_encerra_o_emulador() {
    assert_eq!(encerrar_emulador(ExitCode::Success), [0x20026, 0]);
    assert_eq!(encerrar_emulador(ExitCode::Failed), [0x20026, 1]);
}

#[test]
fn registros_da_traducao() {
    assert_eq!(programar_atributos_de_memoria(), 0xFF00);
    assert_eq!(programar_controle_de_traducao(2), 0x2_8080_3519);
    assert_eq!(programar_controle_de_traducao(0xFFF5), 0x5_8080_3519);
    assert_eq!(programar_controle_de_traducao(6), 0x5_8080_3519);
}

#[test]
fn device_tree_guardado_e_reservado() {
    let ilegivel = registrar_dtb(0x4000_0000, &[0; 16]);
    assert_eq!(ilegivel, Dtb { inicio: 0, tamanho: 0 });
    assert_eq!(reservar_faixas((1, 2), &ilegivel), vec![(1, 2)]);
    let d = registrar_dtb(0x4000_0000, &[0xd0, 0x0d, 0xfe, 0xed, 0, 0, 0x10, 0x20]);
    assert_eq!(d, Dtb { inicio: 0x4000_0000, tamanho: 0x1020 });
    assert_eq!(dtb(&d), 0x4000_0000);
    assert_eq!(reservar_faixas((1, 2), &d), vec![(1, 2), (0x4000_0000, 0x4000_1020)]);
}

#[test]
fn faixas_viram_regioes() {
    let mut m = Maquina::nova();
    adicionar_faixas(&mut m, &[(0x4000_0000, 0x1000), (5, 0), (0x8000_0000, 0x2000)]);
    let r = com_regioes(&m);
    assert_eq!(r.len(), 2);
    assert_eq!((r[0].inicio, r[0].fim), (0x4000_0000, 0x4000_1000));
    assert_eq!((r[1].inicio, r[1].fim), (0x8000_0000, 0x8000_2000));
    assert_eq!(r[1].tipo.nome(), "usable");
    assert_eq!(regioes_descartadas(&m), 1);
}

#[test]
fn linhas_do_controlador() {
    assert_eq!(habilitar_linha(30), (0, 0x4000_0000));
    assert_eq!(habilitar_linha(33), (1, 2));
    assert_eq!(habilitar_linha(1019), (31, 0x0800_0000));
    assert_eq!(habilitar_spi(35), Some(Rota { alvo: 35, indice: 1, valor: 8 }));
    assert!(habilitar_spi(1019).is_some());
    assert_eq!(habilitar_spi(1020), None);
}

#[test]
fn numero_da_linha_no_device_tree() {
    assert_eq!(intid_de(0, 3), Some(35));
    assert_eq!(intid_de(1, 14), Some(30));
    assert_eq!(intid_de(0, 987), Some(1019));
    assert_eq!(intid_de(0, 988), None);
    assert_eq!(intid_de(1, u32::MAX), None);
    assert_eq!(intid_de(2, 0), None);
}

#[test]
fn ritmo_do_timer() {
    assert_eq!(init_timer(62_500_000, 100), Ritmo { intervalo: 625_000, hz: 100 });
    assert_eq!(init_timer(1000, 300), Ritmo { intervalo: 3, hz: 333 });
    assert_eq!(init_timer(50, 100), Ritmo { intervalo: 1, hz: 50 });
}

#[test]
fn interrupcao_de_cada_fonte() {
    let mut l = Linhas::novas();
    let mut e = escalonador();
    assert_eq!(tratar(&mut l, &mut e, 1023), None);
    assert_eq!(total(&l), 0);
    assert_eq!(
        tratar(&mut l, &mut e, 33),
        Some(Atendida { intid: 33, fonte: Fonte::Uart, preemptar: false })
    );
    assert_eq!(
        tratar(&mut l, &mut e, 0xFC00 | 40),
        Some(Atendida { intid: 40, fonte: Fonte::Dispositivo, preemptar: false })
    );
    assert_eq!(contagem_da_linha(&l, 33), 1);
    assert_eq!(contagem_da_linha(&l, 40), 1);
    assert_eq!(total(&l), 2);
}

#[test]
fn timer_preempta_no_fim_do_quantum() {
    let mut l = Linhas::novas();
    let mut e = escalonador();
    for i in 1..=QUANTUM_EM_TIQUES {
        let a = tratar(&mut l, &mut e, 30).unwrap();
        assert_eq!(a.fonte, Fonte::Timer);
        assert_eq!(a.preemptar, i == QUANTUM_EM_TIQUES);
    }
    assert!(!tratar(&mut l, &mut e, 30).unwrap().preemptar);
}

#[test]
fn classe_sai_do_registro() {
    assert_eq!(classe_da_excecao(0x9600_0045), 0x25);
    assert_eq!(classe_da_excecao(0xFFFF_FFFF_03FF_FFFF), 0);
    assert_eq!(classe_da_excecao(0xF200_0000), 0x3C);
    assert_eq!(nome_da_classe(0x25), "data_abort");
    assert_eq!(nome_da_classe(0x15), "svc");
    assert_eq!(nome_da_classe(0x3F), "sync_desconhecida");
}

#[test]
fn excecoes_sincronas() {
    let mut q = quadro();
    assert!(matches!(
        tratar_sync(&mut q, 0x15 << 26, 7),
        Atendimento::Chamar(Chamada { numero: 108, a0: 100, a1: 101, a2: 102 })
    ));
    q.spsr = SPSR_FIO_DO_KERNEL;
    assert!(matches!(tratar_sync(&mut q, 0x15 << 26, 7), Atendimento::Trocar));
    assert_eq!(q.elr, 0x4000);
    assert!(matches!(
        tratar_sync(&mut q, 0x3C << 26, 7),
        Atendimento::Registrar { nome: "breakpoint", pc: 0x4000 }
    ));
    assert_eq!(q.elr, 0x4004);
    assert!(matches!(
        tratar_sync(&mut q, 0x25 << 26, 7),
        Atendimento::Fatal { nome: "data_abort", pc: 0x4004, endereco: Some(7) }
    ));
    assert!(matches!(
        tratar_sync(&mut q, 0x22 << 26, 7),
        Atendimento::Fatal { nome: "pc_alignment_fault", pc: 0x4004, endereco: None }
    ));
}

#[test]
fn chamada_de_sistema_do_processo() {
    let mut q = quadro();
    assert!(veio_de_usuario(&q));
    assert_eq!(chamada_de(&q), Chamada { numero: 108, a0: 100, a1: 101, a2: 102 });
    responder(&mut q, -5);
    assert_eq!(q.x[0], (-5i64) as u64);
    assert_eq!(q.x[1], 101);
    q.spsr = SPSR_FIO_DO_KERNEL;
    assert!(!veio_de_usuario(&q));
}

#[test]
fn contexto_inicial_do_aarch64() {
    let mut c = Contexto::vazio();
    assert_eq!(c.pilha_de_kernel(), 0);
    preparar_contexto(&mut c, 0x2_0000_100F, 0x1111, 0x2222, 0x3333);
    assert_eq!(c.sp, 0x2_0000_1000);
    assert_eq!(c.pilha_de_kernel(), 0x2_0000_1000);
    assert_eq!(c.quadro.elr, 0x1111);
    assert_eq!(c.quadro.spsr, SPSR_FIO_DO_KERNEL);
    assert_eq!((c.quadro.x[0], c.quadro.x[1], c.quadro.x[30]), (0x2222, 0x3333, 0));
}
