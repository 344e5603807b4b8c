use duke::arch::x86_64::apic::{self, Acao, Evento, Motivo, Partida, Registro};
use duke::arch::x86_64::contexto::{ceder_cpu, preparar_contexto, Contexto};
use duke::arch::x86_64::idt::{self, Excecao};
use duke::arch::x86_64::pic::{
    self, desmascarar, fim_de_interrupcao, mascarar, programar_timer, Mascaras,
};
use duke::arch::x86_64::usuario::{definir_pilha_de_kernel, quadro_de_entrada};
use duke::arch::x86_64::{
    dormir_se_ocioso, e_privado, esperar_interrupcao, falha_de_estouro_de_pilha, identificar_cpu,
    nome, nome_formato_pixel, reservar_faixas, tipo_da_regiao, Especie, Formato, BASE_DO_HEAP,
    BASE_DO_KERNEL,
};
use duke::arch::Repouso;
use duke::fios::{self, ContextoDeFio, Escalonador, QUANTUM_EM_TIQUES};
use duke::irq::{contagem_da_linha, Linhas};

fn parado() -> Escalonador<Contexto, u32> {
    let mut e = Escalonador::novo();
    fios::init(&mut e, 0);
    e
}

#[test]
fn nomes_do_x86_64() {
    assert_eq!(nome(), "x86_64");
    assert_eq!(falha_de_estouro_de_pilha(), "double_fault");
    assert_eq!(reservar_faixas(), vec![]);
}

#[test]
fn metade_alta_nao_e_do_usuario() {
    assert!(e_privado(0));
    assert!(e_privado(0x7F_FFFF_FFFF));
    assert!(!e_privado(0x80_0000_0000));
    assert!(!e_privado(BASE_DO_KERNEL));
    assert!(!e_privado(BASE_DO_HEAP));
}

#[test]
fn especies_de_memoria_e_formatos() {
    assert_eq!(tipo_da_regiao(Especie::Utilizavel).nome(), "usable");
    assert_eq!(tipo_da_regiao(Especie::Bootloader).nome(), "bootloader");
    assert_eq!(tipo_da_regiao(Especie::DoFirmware(7)).nome(), "reserved");
    assert_eq!(nome_formato_pixel(Formato::Rgb), "rgb");
    assert_eq!(nome_formato_pixel(Formato::Bgr), "bgr");
    assert_eq!(nome_formato_pixel(Formato::Cinza), "grayscale8");
    assert_eq!(nome_formato_pixel(Formato::Outro), "desconhecido");
}

#[test]
fn repouso_do_x86_64() {
    assert_eq!(esperar_interrupcao(true), Repouso::Dormir);
    assert_eq!(esperar_interrupcao(false), Repouso::Girar);
    assert_eq!(dormir_se_ocioso(true, true), Repouso::Dormir);
    assert_eq!(dormir_se_ocioso(false, true), Repouso::Girar);
    assert_eq!(dormir_se_ocioso(true, false), Repouso::Seguir);
    assert_eq!(dormir_se_ocioso(false, false), Repouso::Seguir);
}

#[test]
fn doze_letras_do_processador() {
    let id = identificar_cpu(
        u32::from_le_bytes(*b"Genu"),
        u32::from_le_bytes(*b"ineI"),
        u32::from_le_bytes(*b"ntel"),
    );
    assert_eq!(id.como_str(), "GenuineIntel");
}

#[test]
fn sequencia_dos_controladores() {
    let s: Vec<(u16, u8)> = pic::init().iter().map(|e| (e.porta, e.valor)).collect();
    assert_eq!(
        s,
        vec![
            (0x20, 0x11),
            (0xA0, 0x11),
            (0x21, 32),
            (0xA1, 40),
            (0x21, 4),
            (0xA1, 2),
            (0x21, 1),
            (0xA1, 1),
            (0x21, 0xFC),
            (0xA1, 0xFF),
        ]
    );
}

#[test]
fn linha_do_mestre_e_do_escravo() {
    let m = Mascaras { mestre: 0xFC, escravo: 0xFF };
    assert_eq!(desmascarar(m, 3), Mascaras { mestre: 0xF4, escravo: 0xFF });
    assert_eq!(desmascarar(m, 11), Mascaras { mestre: 0xF8, escravo: 0xF7 });
    assert_eq!(desmascarar(m, 15), Mascaras { mestre: 0xF8, escravo: 0x7F });
    assert_eq!(desmascarar(m, 16), m);
    assert_eq!(mascarar(m, 0), Mascaras { mestre: 0xFD, escravo: 0xFF });
    assert_eq!(mascarar(m, 8), m);
    let aberto = Mascaras { mestre: 0xF8, escravo: 0xFB };
    assert_eq!(mascarar(aberto, 10), Mascaras { mestre: 0xF8, escravo: 0xFF });
    assert_eq!(mascarar(aberto, 16), aberto);
}

#[test]
fn mascarar_desfaz_desmascarar() {
    let m = Mascaras { mestre: 0xFC, escravo: 0xFF };
    assert_eq!(mascarar(desmascarar(m, 5), 5), m);
}

#[test]
fn divisor_do_timer_da_placa() {
    let p = programar_timer(100);
    assert_eq!((p.divisor, p.baixo, p.alto, p.hz), (11931, 0x9B, 0x2E, 100));
    let lento = programar_timer(1);
    assert_eq!((lento.divisor, lento.baixo, lento.alto, lento.hz), (65535, 0xFF, 0xFF, 18));
    let rapido = programar_timer(u32::MAX);
    assert_eq!((rapido.divisor, rapido.hz), (1, 1_193_182));
}

#[test]
fn escravo_avisado_das_suas_linhas() {
    assert!(!fim_de_interrupcao(39));
    assert!(fim_de_interrupcao(40));
}

#[test]
fn onde_esta_o_apic() {
    assert_eq!(apic::endereco(0x200, 0xFEE0_0900), Some(0xFEE0_0000));
    assert_eq!(apic::endereco(0, 0xFEE0_0900), None);
    assert_eq!(apic::endereco(0x200, 0xFEE0_0100), None);
}

#[test]
fn espera_por_disparos_tem_fim() {
    let mut e = apic::esperar_disparos(u64::MAX, 2);
    assert_eq!(e.voltas, 200_000_000);
    assert_eq!(e.olhar(u64::MAX), apic::Olhada::Esperar);
    assert_eq!(e.olhar(0), apic::Olhada::Esperar);
    assert_eq!(e.voltas, 199_999_998);
    assert_eq!(e.olhar(3), apic::Olhada::Chegou(4));
    e.voltas = 0;
    assert_eq!(e.olhar(3), apic::Olhada::Desistir);
    assert_eq!(apic::esperar_disparos(0, u64::MAX).voltas, u64::MAX);
}

#[test]
fn medida_do_contador() {
    assert_eq!(apic::calibrar(u32::MAX - 3_125_000, 100, 5), Some(62_500_000));
    assert_eq!(apic::calibrar(u32::MAX - 3_125_000, 100, 10), Some(31_250_000));
    assert_eq!(apic::calibrar(u32::MAX, 100, 5), None);
    assert_eq!(apic::calibrar(0, 0, 5), None);
    assert_eq!(apic::calibrar(0, 100, 0), None);
    assert_eq!(apic::calibrar(0, 1000, 5), None);
}

#[test]
fn programa_do_apic() {
    let p = apic::programar(62_500_000, 100);
    assert_eq!((p.contagem, p.hz), (625_000, 100));
    let q = apic::programar(50, 100);
    assert_eq!((q.contagem, q.hz), (1, 50));
    let r = apic::programar(77, 0);
    assert_eq!((r.contagem, r.hz), (77, 1));
}

#[test]
fn conferencia_pega_erro_de_unidade() {
    assert!(apic::conferir_contra_o_pit(100, 100, 20, 20));
    assert!(apic::conferir_contra_o_pit(100, 100, 20, 25));
    assert!(!apic::conferir_contra_o_pit(100, 100, 20, 26));
    assert!(apic::conferir_contra_o_pit(100, 100, 20, 15));
    assert!(!apic::conferir_contra_o_pit(100, 100, 20, 14));
    assert!(!apic::conferir_contra_o_pit(100, 100, 20, 1));
    assert!(!apic::conferir_contra_o_pit(0, 100, 20, 0));
    assert!(!apic::conferir_contra_o_pit(100, 0, 20, 20));
    assert!(!apic::conferir_contra_o_pit(1, 100, 20, 0));
    assert!(!apic::conferir_contra_o_pit(u32::MAX, 1, u64::MAX, 0));
    assert!(!apic::conferir_contra_o_pit(1, 1, 1, u64::MAX));
}

#[test]
fn relatorio_do_apic() {
    let nada = apic::Apic::desconhecido();
    assert!(!apic::fim_de_interrupcao(&nada));
    assert_eq!(apic::id_do_nucleo(&nada, 0x0300_0000), None);
    let a = apic::Apic { base: 0xFEE0_0000, frequencia: 62_500_000 };
    assert!(apic::fim_de_interrupcao(&a));
    assert_eq!(apic::frequencia_do_contador(&a), 62_500_000);
    assert_eq!(apic::frequencia_do_barramento(&a), 1_000_000_000);
    assert_eq!(apic::id_do_nucleo(&a, 0x0300_0001), Some(3));
}

#[test]
fn interrupcao_de_cada_linha() {
    let mut l = Linhas::novas();
    let mut e = parado();
    let a = idt::atender(&mut l, &mut e, 1);
    assert_eq!((a.fonte, a.avisar_escravo, a.preemptar), (idt::Fonte::Teclado, false, false));
    assert_eq!(idt::atender(&mut l, &mut e, 3).fonte, idt::Fonte::Serial);
    let b = idt::atender(&mut l, &mut e, 11);
    assert_eq!((b.fonte, b.avisar_escravo), (idt::Fonte::Dispositivo, true));
    assert_eq!(contagem_da_linha(&l, 11), 1);
    for i in 1..=QUANTUM_EM_TIQUES {
        let t = idt::atender(&mut l, &mut e, 0);
        assert_eq!(t.fonte, idt::Fonte::Timer);
        assert_eq!(t.preemptar, i == QUANTUM_EM_TIQUES);
    }
}

#[test]
fn excecoes_do_kernel_e_do_processo() {
    assert!(matches!(
        idt::ponto_de_parada(9),
        Excecao::Registrar { nome: "breakpoint", pc: 9 }
    ));
    assert!(matches!(
        idt::opcode_invalido(9),
        Excecao::Fatal { nome: "invalid_opcode", pc: 9, endereco: None, codigo: 0 }
    ));
    assert!(matches!(
        idt::protecao_geral(0x08, 9, 3),
        Excecao::Fatal { nome: "general_protection_fault", codigo: 3, .. }
    ));
    assert!(matches!(
        idt::protecao_geral(0x23, 9, 3),
        Excecao::MatarProcesso { nome: "general_protection_fault", codigo: 3, .. }
    ));
    assert!(matches!(idt::protecao_geral(0x0A, 9, 3), Excecao::Fatal { .. }));
    assert!(matches!(
        idt::falha_de_pagina(9, Some(0xDEAD), 2),
        Excecao::Fatal { nome: "page_fault", endereco: Some(0xDEAD), codigo: 2, .. }
    ));
    assert!(matches!(
        idt::falha_de_pagina(9, None, 0x1_0000_0007),
        Excecao::MatarProcesso { nome: "page_fault", endereco: None, .. }
    ));
    assert!(matches!(
        idt::falha_dupla(9, 0),
        Excecao::Fatal { nome: "double_fault", pc: 9, .. }
    ));
}

#[test]
fn contexto_inicial_do_x86_64() {
    let mut c = Contexto::vazio();
    let palavras = preparar_contexto(&mut c, 0x9_100F, 0x1111, 0x2222, 0x3333);
    assert_eq!(c, Contexto { sp: 0x9_0FC8, pilha_de_kernel: 0x9_1000 });
    assert_eq!(palavras, [0, 0, 0x3333, 0x2222, 0, 0, 0x1111]);
    assert_eq!(c.sp + 56, c.pilha_de_kernel());
}

#[test]
fn fio_sozinho_nao_cede() {
    let mut e = parado();
    assert!(ceder_cpu(&mut e, 0x1000, 0x1000).is_none());
}

#[test]
fn pilha_de_kernel_so_de_quem_tem() {
    let mut atual = 7;
    definir_pilha_de_kernel(&mut atual, 0);
    assert_eq!(atual, 7);
    definir_pilha_de_kernel(&mut atual, 0x9000);
    assert_eq!(atual, 0x9000);
}

#[test]
fn quadro_para_entrar_no_processo() {
    assert_eq!(
        quadro_de_entrada(0x1B, 0x23, 0x40_0000, 0x7F_0000),
        [0x1B, 0x7F_0000, 0x202, 0x23, 0x40_0000]
    );
}

/// Answers what the start of the timer asks for, with a board's timer that
/// fires at every look, or never; returns what was written and how it ended.
fn partida(
    edx: u32,
    msr: u64,
    pit_anda: bool,
    restante: u32,
    apic_por_pit: u64,
) -> (Vec<(Registro, u32)>, Acao) {
    let mut p = Partida::nova(100, 100);
    let mut escritas = Vec::new();
    let mut pit: u64 = 7;
    let mut acao = p.passo(Evento::Comeco);
    loop {
        let evento = match acao {
            Acao::PerguntarAoProcessador => Evento::Processador(edx),
            Acao::LerEndereco => Evento::Endereco(msr),
            Acao::Mapear(fisico) => {
                assert_eq!(fisico, 0xFEE0_0000);
                Evento::Mapeado(0xFFFF_A000_0000_0000)
            }
            Acao::Escrever(r, v) => {
                escritas.push((r, v));
                Evento::Escrito
            }
            Acao::LerContador => Evento::Contador(restante),
            Acao::Contar => {
                if pit_anda {
                    pit += 1;
                } else {
                    match &mut p.fase {
                        apic::Fase::Borda(e) => e.voltas = 0,
                        apic::Fase::Medindo(e) => e.voltas = 0,
                        apic::Fase::Conferindo(_, e, _) => e.voltas = 0,
                        _ => {}
                    }
                }
                Evento::Contagens { pit, apic: pit * apic_por_pit }
            }
            fim => return (escritas, fim),
        };
        acao = p.passo(evento);
    }
}

const MSR_LIGADO: u64 = 0xFEE0_0900;

#[test]
fn timer_local_assume_depois_de_conferido() {
    let (escritas, fim) = partida(0x200, MSR_LIGADO, true, u32::MAX - 3_125_000, 1);
    assert_eq!(fim, Acao::Assumir(100));
    assert_eq!(
        escritas,
        vec![
            (Registro::VetorEspurio, 0x1FF),
            (Registro::Prioridade, 0),
            (Registro::Divisor, 3),
            (Registro::Timer, 0x1_0000),
            (Registro::ContagemInicial, u32::MAX),
            (Registro::ContagemInicial, 0),
            (Registro::Divisor, 3),
            (Registro::Timer, 0x2_0030),
            (Registro::ContagemInicial, 625_000),
        ]
    );
}

#[test]
fn timer_local_fora_da_taxa_e_desarmado() {
    let (escritas, fim) = partida(0x200, MSR_LIGADO, true, u32::MAX - 3_125_000, 3);
    assert_eq!(fim, Acao::Desistir(Motivo::ForaDaTaxa));
    assert_eq!(
        escritas[escritas.len() - 2..],
        [(Registro::Timer, 0x1_0000), (Registro::ContagemInicial, 0)]
    );
}

#[test]
fn sem_controlador_nada_e_escrito() {
    assert_eq!(
        partida(0, MSR_LIGADO, true, 0, 1),
        (vec![], Acao::Desistir(Motivo::SemControlador))
    );
    assert_eq!(
        partida(0x200, 0xFEE0_0100, true, 0, 1),
        (vec![], Acao::Desistir(Motivo::SemControlador))
    );
    let mut p = Partida::nova(100, 100);
    assert_eq!(p.passo(Evento::Comeco), Acao::PerguntarAoProcessador);
    assert_eq!(p.passo(Evento::Processador(0)), Acao::Desistir(Motivo::SemControlador));
    assert_eq!(p.passo(Evento::Escrito), Acao::Desistir(Motivo::SemControlador));
}

#[test]
fn partida_do_timer_que_falha_no_caminho() {
    assert_eq!(
        partida(0x200, MSR_LIGADO, true, u32::MAX, 1).1,
        Acao::Desistir(Motivo::SemFrequencia)
    );
    let (escritas, fim) = partida(0x200, MSR_LIGADO, false, 0, 1);
    assert_eq!(fim, Acao::Desistir(Motivo::PitParado));
    assert!(escritas.iter().all(|e| e.0 != Registro::ContagemInicial));
    let mut p = Partida::nova(100, 0);
    p.passo(Evento::Comeco);
    p.passo(Evento::Processador(0x200));
    p.passo(Evento::Endereco(MSR_LIGADO));
    let mut q = p;
    assert_eq!(q.passo(Evento::NaoMapeado), Acao::Desistir(Motivo::SemMapa));
    p.passo(Evento::Mapeado(0x1000));
    assert_eq!(p.apic.base, 0x1000);
    p.passo(Evento::Escrito);
    assert_eq!(p.passo(Evento::Escrito), Acao::Desistir(Motivo::SemReferencia));
}

#[test]
fn medida_que_nao_termina_para_o_contador() {
    let mut p = Partida::nova(100, 100);
    p.fase = apic::Fase::Medindo(apic::Espera { de: 0, quantos: 5, voltas: 1 });
    p.pedido = Acao::Contar;
    assert_eq!(p.passo(Evento::Contagens { pit: 4, apic: 0 }), Acao::Contar);
    assert_eq!(
        p.passo(Evento::Contagens { pit: 4, apic: 0 }),
        Acao::Escrever(Registro::ContagemInicial, 0)
    );
    assert_eq!(p.passo(Evento::Contagens { pit: 9, apic: 0 }), Acao::Escrever(Registro::ContagemInicial, 0));
    assert_eq!(p.passo(Evento::Escrito), Acao::Desistir(Motivo::PitParado));
}
