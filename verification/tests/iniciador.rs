use duke::iniciador::crc32::Parcial;
use duke::iniciador::efi::{
    deu_errado, guid_do_video, Cabecalho, Descritor, InformacaoDeVideo, ModoDeVideo,
    ASSINATURA_DOS_SERVICOS_DE_BOOT, ASSINATURA_DO_SISTEMA, BUFFER_PEQUENO,
};
use duke::iniciador::linha::{escrever_utf16, Linha};
use duke::iniciador::relatorio::{
    conferir_cabecalho, contar, descrever_memoria, descrever_video, quanto_ler, queixa,
    queixa_do_mapa, relatar_firmware, relatar_memoria, relatar_sistema, relatorio, Acao, Contagem,
    Etapa, Fase, Lida, Resposta, VideoAchado,
};
use duke::iniciador::serial::{init, pode_transmitir, Serial};

fn crc(dados: &[u8]) -> u32 {
    let mut p = Parcial::nova();
    p.somar(dados);
    p.terminar()
}

fn tabela(assinatura: u64, tamanho: u32) -> Vec<u8> {
    let mut b = vec![0u8; tamanho as usize];
    b[..8].copy_from_slice(&assinatura.to_le_bytes());
    b[8..12].copy_from_slice(&0x0002_0046u32.to_le_bytes());
    b[12..16].copy_from_slice(&tamanho.to_le_bytes());
    for i in 24..b.len() {
        b[i] = i as u8;
    }
    let c = crc(&b);
    b[16..20].copy_from_slice(&c.to_le_bytes());
    b
}

fn lida(b: &[u8]) -> Lida<'_> {
    Lida { cabecalho: Cabecalho::ler(b).unwrap(), bytes: b }
}

fn mapa(por: usize, itens: &[(u32, u64)]) -> Vec<u8> {
    let mut b = vec![0u8; por * itens.len()];
    for (i, (tipo, paginas)) in itens.iter().enumerate() {
        let em = i * por;
        b[em..em + 4].copy_from_slice(&tipo.to_le_bytes());
        b[em + 8..em + 16].copy_from_slice(&(0x1000 * i as u64).to_le_bytes());
        b[em + 24..em + 32].copy_from_slice(&paginas.to_le_bytes());
    }
    b
}

#[test]
fn crc_conhecido() {
    assert_eq!(crc(b"123456789"), 0xCBF4_3926);
    assert_eq!(crc(b""), 0);
    assert_eq!(crc(&[0, 0, 0, 0]), 0x2144_DF1C);
    assert_eq!(crc(b"The quick brown fox jumps over the lazy dog"), 0x414F_A339);
}

#[test]
fn crc_em_pedacos() {
    let mut p = Parcial::nova();
    p.somar(b"1234");
    p.somar(b"");
    p.somar(b"56789");
    assert_eq!(p.terminar(), 0xCBF4_3926);
}

#[test]
fn status_de_erro() {
    assert!(!deu_errado(0));
    assert!(!deu_errado(5));
    assert!(deu_errado(BUFFER_PEQUENO));
    assert!(deu_errado(u64::MAX));
}

#[test]
fn nome_do_protocolo_de_video() {
    let g = guid_do_video();
    assert_eq!(
        format!("{:08x}-{:04x}-{:04x}-{:02x?}", g.a, g.b, g.c, g.d),
        "9042a9de-23dc-4a38-[96, fb, 7a, de, d0, 80, 51, 6a]"
    );
}

#[test]
fn assinaturas_em_letras() {
    assert_eq!(&ASSINATURA_DO_SISTEMA.to_le_bytes(), b"IBI SYST");
    assert_eq!(&ASSINATURA_DOS_SERVICOS_DE_BOOT.to_le_bytes(), b"BOOTSERV");
    assert_eq!(&Etapa::Execucao.assinatura().to_le_bytes(), b"RUNTSERV");
}

#[test]
fn cabecalho_lido_dos_bytes() {
    let b = tabela(ASSINATURA_DO_SISTEMA, 120);
    let c = Cabecalho::ler(&b).unwrap();
    assert_eq!((c.assinatura, c.revisao, c.tamanho), (ASSINATURA_DO_SISTEMA, 0x0002_0046, 120));
    assert_eq!(Cabecalho::ler(&b[..23]), None);
}

#[test]
fn tabela_integra_confere() {
    let b = tabela(ASSINATURA_DO_SISTEMA, 120);
    let c = Cabecalho::ler(&b).unwrap();
    assert_eq!(quanto_ler(&c, ASSINATURA_DO_SISTEMA), 120);
    assert_eq!(conferir_cabecalho(&c, ASSINATURA_DO_SISTEMA, &b), Ok(()));
    assert_eq!(
        relatar_sistema(&c),
        "tabela do sistema confere: uefi 2.70, 120 bytes"
    );
}

#[test]
fn tabela_trocada_implausivel_ou_corrompida() {
    let mut b = tabela(ASSINATURA_DO_SISTEMA, 120);
    let c = Cabecalho::ler(&b).unwrap();
    assert_eq!(quanto_ler(&c, ASSINATURA_DOS_SERVICOS_DE_BOOT), 0);
    assert_eq!(
        conferir_cabecalho(&c, ASSINATURA_DOS_SERVICOS_DE_BOOT, &[]),
        Err("assinatura de tabela errada")
    );
    for tamanho in [23, 4097] {
        let d = Cabecalho { tamanho, ..c };
        assert_eq!(quanto_ler(&d, ASSINATURA_DO_SISTEMA), 0);
        assert_eq!(
            conferir_cabecalho(&d, ASSINATURA_DO_SISTEMA, &[]),
            Err("tabela com tamanho implausivel")
        );
    }
    b[100] ^= 1;
    assert_eq!(
        conferir_cabecalho(&c, ASSINATURA_DO_SISTEMA, &b),
        Err("crc de tabela nao confere")
    );
}

#[test]
fn tabela_errada_tem_queixa_com_numeros() {
    let mut b = tabela(ASSINATURA_DO_SISTEMA, 120);
    let c = Cabecalho::ler(&b).unwrap();
    let quem = Etapa::Sistema.quem();
    assert_eq!(queixa(&c, ASSINATURA_DO_SISTEMA, &b, quem), None);
    assert_eq!(
        queixa(&c, ASSINATURA_DOS_SERVICOS_DE_BOOT, &[], Etapa::Boot.quem()).unwrap(),
        format!(
            "ERRO os servicos de boot tem assinatura {:#018x}, esperava {:#018x}",
            ASSINATURA_DO_SISTEMA, ASSINATURA_DOS_SERVICOS_DE_BOOT
        )
    );
    let curta = Cabecalho { tamanho: 23, ..c };
    assert_eq!(queixa(&curta, ASSINATURA_DO_SISTEMA, &[], quem), None);
    b[100] ^= 1;
    let mut p = Parcial::nova();
    p.somar(&b[..16]);
    p.somar(&[0; 4]);
    p.somar(&b[20..]);
    assert_eq!(
        queixa(&c, ASSINATURA_DO_SISTEMA, &b, quem).unwrap(),
        format!("ERRO a tabela do sistema: crc {:#010x}, calculado {:#010x}", c.crc32, p.terminar())
    );
    assert_eq!(Etapa::Execucao.quem(), "os servicos de execucao");
}

#[test]
fn mapa_negado_tem_queixa() {
    assert_eq!(queixa_do_mapa(Fase::Sondando, BUFFER_PEQUENO), None);
    assert_eq!(
        queixa_do_mapa(Fase::Sondando, 0).unwrap(),
        "ERRO a sondagem do mapa devolveu 0x0"
    );
    assert_eq!(queixa_do_mapa(Fase::Alocando(8), u64::MAX), None);
    assert_eq!(queixa_do_mapa(Fase::Pedindo, 5), None);
    assert_eq!(
        queixa_do_mapa(Fase::Pedindo, 0x8000_0000_0000_0002).unwrap(),
        "ERRO o mapa de memoria devolveu 0x8000000000000002"
    );
}

#[test]
fn firmware_relatado() {
    let nome: Vec<u16> = "EDK II\0".encode_utf16().collect();
    assert_eq!(
        relatar_firmware(Some(&nome), 0x10000).como_str(),
        "firmware `EDK II` revisao 0x10000"
    );
    assert_eq!(relatar_firmware(None, 0).como_str(), "firmware `<sem nome>` revisao 0x0");
    assert_eq!(
        relatar_firmware(Some(&[65u16; 100]), u32::MAX).como_str(),
        format!("firmware `{}` revisao 0xffffffff", "A".repeat(64))
    );
}

#[test]
fn as_tres_tabelas_na_ordem() {
    let s = tabela(Etapa::Sistema.assinatura(), 120);
    let b = tabela(Etapa::Boot.assinatura(), 376);
    let e = tabela(Etapa::Execucao.assinatura(), 136);
    assert_eq!(relatorio(Etapa::Sistema, Some(lida(&s))), Ok(Etapa::Boot));
    assert_eq!(relatorio(Etapa::Boot, Some(lida(&b))), Ok(Etapa::Execucao));
    assert_eq!(relatorio(Etapa::Execucao, Some(lida(&e))), Ok(Etapa::Memoria));
    assert_eq!(relatorio(Etapa::Boot, Some(lida(&s))), Err("assinatura de tabela errada"));
    for revisao in [0x4141, 0x0001_FFFF, 0x0003_0000] {
        let mut t = lida(&s);
        t.cabecalho.revisao = revisao;
        assert_eq!(relatorio(Etapa::Sistema, Some(t)), Err("tabela com revisao implausivel"));
    }
    assert_eq!(relatorio(Etapa::Sistema, None), Err("a tabela do sistema veio nula"));
    assert_eq!(relatorio(Etapa::Boot, None), Err("os servicos de boot vieram nulos"));
    assert_eq!(relatorio(Etapa::Execucao, None), Err("os servicos de execucao vieram nulos"));
}

#[test]
fn descritores_com_o_passo_do_firmware() {
    let b = mapa(48, &[(7, 10), (1, 3)]);
    assert_eq!(Descritor::ler(&b, 48).unwrap().tipo, 1);
    assert_eq!(Descritor::ler(&b, 48).unwrap().paginas, 3);
    assert_eq!(Descritor::ler(&b, 57), None);
    assert_eq!(
        contar(&b, 48),
        Contagem {
            descritores: 2,
            por_descritor: 48,
            descritas: 13,
            livres: 10,
            maior: 10,
            do_iniciador: 3,
        }
    );
}

#[test]
fn contagem_por_tipo() {
    let b = mapa(40, &[(7, 256), (3, 512), (4, 1), (1, 20), (2, 5), (0, 1000), (9, 2)]);
    let c = contar(&b, 40);
    assert_eq!((c.descritas, c.livres, c.maior, c.do_iniciador), (1796, 769, 512, 25));
    let (a, u) = relatar_memoria(&c);
    assert_eq!(
        a,
        "memoria: 7 descritores de 40 bytes, 7 MiB descritos, 3 MiB livres, maior faixa 2 MiB"
    );
    assert_eq!(u, "o iniciador ocupa 100 KiB em 25 paginas");
}

#[test]
fn danca_do_mapa_de_memoria() {
    let mut fase = Fase::Sondando;
    let sondagem = Resposta::Sondagem { status: BUFFER_PEQUENO, tamanho: 4800, por_descritor: 48 };
    assert!(matches!(descrever_memoria(&mut fase, sondagem), Acao::Alocar(4896)));
    let alocado = Resposta::Alocacao { status: 0, nulo: false };
    assert!(matches!(descrever_memoria(&mut fase, alocado), Acao::Pedir(4896)));
    let b = mapa(48, &[(7, 10)]);
    let entregue = Resposta::Mapa { status: 0, por_descritor: 48, bytes: &b };
    match descrever_memoria(&mut fase, entregue) {
        Acao::Fim { liberar, resultado } => {
            assert!(liberar);
            assert_eq!(resultado.map(|c| c.livres), Ok(10));
        }
        _ => panic!("o mapa nao terminou"),
    }
}

#[test]
fn mapa_de_memoria_recusado() {
    let mut f = Fase::Sondando;
    assert!(matches!(
        descrever_memoria(
            &mut f,
            Resposta::Sondagem { status: 0, tamanho: 1, por_descritor: 48 }
        ),
        Acao::Fim {
            liberar: false,
            resultado: Err("o mapa de memoria nao respondeu como esperado"),
        }
    ));
    let mut f = Fase::Sondando;
    assert!(matches!(
        descrever_memoria(
            &mut f,
            Resposta::Sondagem { status: BUFFER_PEQUENO, tamanho: 1, por_descritor: 39 }
        ),
        Acao::Fim {
            liberar: false,
            resultado: Err("o firmware declarou descritores menores que o formato"),
        }
    ));
    for (status, nulo) in [(BUFFER_PEQUENO, false), (0, true)] {
        let mut f = Fase::Alocando(100);
        assert!(matches!(
            descrever_memoria(&mut f, Resposta::Alocacao { status, nulo }),
            Acao::Fim {
                liberar: false,
                resultado: Err("o firmware recusou alocar o buffer do mapa"),
            }
        ));
    }
    let mut f = Fase::Pedindo;
    assert!(matches!(
        descrever_memoria(
            &mut f,
            Resposta::Mapa { status: u64::MAX, por_descritor: 48, bytes: &[] }
        ),
        Acao::Fim {
            liberar: true,
            resultado: Err("o firmware recusou entregar o mapa"),
        }
    ));
}

#[test]
fn video_descrito_ou_ausente() {
    let modo = ModoDeVideo {
        quantos_modos: 30,
        modo_atual: 2,
        buffer: 0x8000_0000,
        tamanho_do_buffer: 4_096_000,
    };
    let info =
        InformacaoDeVideo { versao: 0, largura: 1280, altura: 800, formato: 1, pixels_por_linha: 1280 };
    assert_eq!(
        descrever_video(&VideoAchado::Completo { modo, info }),
        Ok(String::from(
            "video: 1280x800 bgr, 1280 pixels por linha, buffer em 0x80000000 com 4000 KiB, modo 2 de 30"
        ))
    );
    assert_eq!(
        descrever_video(&VideoAchado::Nenhum(0x8000_0000_0000_000e)),
        Ok(String::from("video: nenhum (o firmware devolveu 0x800000000000000e)"))
    );
    assert_eq!(
        descrever_video(&VideoAchado::SemModo),
        Err("o protocolo de video veio sem modo")
    );
    assert_eq!(
        descrever_video(&VideoAchado::SemInformacao),
        Err("o modo de video veio sem informacao")
    );
    let nomes = |formato| InformacaoDeVideo { formato, ..info }.nome_do_formato();
    assert_eq!(
        (nomes(0), nomes(2), nomes(3), nomes(4)),
        ("rgb", "mascaras", "so-transferencia", "desconhecido")
    );
}

#[test]
fn linha_corta_em_caractere_inteiro() {
    let mut l = Linha::nova();
    let quase: String = "a".repeat(127);
    l.write_str(&quase);
    l.write_str("ção");
    assert_eq!(l.como_str(), quase);
    l.write_str("zy");
    assert_eq!(l.como_str().len(), 128);
    assert!(l.como_str().ends_with("az"));
}

#[test]
fn linha_pula_o_que_nao_cabe() {
    let mut l = Linha::nova();
    l.write_str(&"é".repeat(63));
    l.write_str("x");
    assert_eq!(l.como_str().len(), 127);
    l.write_str("é");
    assert_eq!(l.como_str().len(), 127);
    l.write_str("y");
    assert!(l.como_str().ends_with("xy"));
}

#[test]
fn nome_do_firmware() {
    let mut l = Linha::nova();
    l.write_str("firmware `");
    let nome: Vec<u16> = "EDK ção\0lixo".encode_utf16().collect();
    escrever_utf16(&mut l, Some(&nome));
    l.write_str("`");
    assert_eq!(l.como_str(), "firmware `EDK ??o`");
    let mut vazio = Linha::nova();
    escrever_utf16(&mut vazio, None);
    assert_eq!(vazio.como_str(), "<sem nome>");
    let mut longo = Linha::nova();
    escrever_utf16(&mut longo, Some(&[65u16; 100]));
    assert_eq!(longo.como_str(), "A".repeat(64));
}

#[test]
fn porta_programada_e_texto_para_terminal() {
    let s: Vec<(u16, u8)> = init().iter().map(|e| (e.registro, e.valor)).collect();
    assert_eq!(
        s,
        vec![(1, 0), (3, 0x80), (0, 3), (1, 0), (3, 3), (2, 0xC7), (4, 0x0B)]
    );
    assert!(pode_transmitir(0x60));
    assert!(!pode_transmitir(0x1F));
    assert_eq!(Serial.write_str("a\nb\n\n"), b"a\r\nb\r\n\r\n".to_vec());
    assert_eq!(Serial.write_str(""), vec![]);
}
