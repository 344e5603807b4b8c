use duke::rede::{conferir, montar_pedido, resolver, Acao, Evento, Resolucao, VOLTAS_PROCURANDO};

const MAC: [u8; 6] = [0x52, 0x54, 0x00, 0x12, 0x34, 0x56];
const DONO: [u8; 6] = [0x52, 0x55, 0x0a, 0x00, 0x02, 0x02];
const IP: [u8; 4] = [10, 0, 2, 15];
const ALVO: [u8; 4] = [10, 0, 2, 2];

fn resposta() -> Vec<u8> {
    let mut q = Vec::new();
    q.extend_from_slice(&MAC);
    q.extend_from_slice(&DONO);
    q.extend_from_slice(&[0x08, 0x06, 0x00, 0x01, 0x08, 0x00, 6, 4, 0x00, 0x02]);
    q.extend_from_slice(&DONO);
    q.extend_from_slice(&ALVO);
    q.extend_from_slice(&MAC);
    q.extend_from_slice(&IP);
    q
}

fn fim(a: Acao) -> Result<[u8; 6], &'static str> {
    match a {
        Acao::Fim(r) => r,
        _ => panic!("a pergunta nao terminou"),
    }
}

fn procurando() -> Resolucao {
    let mut p = Resolucao::nova(ALVO, IP);
    assert!(matches!(
        resolver(&mut p, Evento::Endereco(Some(MAC))),
        Acao::Transmitir(_)
    ));
    assert!(matches!(
        resolver(&mut p, Evento::Transmitido(Ok(()))),
        Acao::Receber
    ));
    p
}

#[test]
fn pedido_byte_a_byte() {
    let q = montar_pedido(&MAC, &IP, &ALVO);
    assert_eq!(
        q,
        vec![
            0xFF, 0xFF, 0xFF, 0xFF, 0xFF, 0xFF, 0x52, 0x54, 0x00, 0x12, 0x34, 0x56, 0x08, 0x06,
            0x00, 0x01, 0x08, 0x00, 6, 4, 0x00, 0x01, 0x52, 0x54, 0x00, 0x12, 0x34, 0x56, 10, 0, 2,
            15, 0, 0, 0, 0, 0, 0, 10, 0, 2, 2,
        ]
    );
}

#[test]
fn resposta_honesta_e_aceita() {
    assert_eq!(conferir(&resposta(), &ALVO, &IP, &MAC), Some(Ok(DONO)));
    let mut p = procurando();
    assert!(matches!(
        resolver(&mut p, Evento::Recebido(None)),
        Acao::Receber
    ));
    assert_eq!(fim(resolver(&mut p, Evento::Recebido(Some(&resposta())))), Ok(DONO));
}

#[test]
fn nosso_pedido_nao_e_resposta() {
    let q = montar_pedido(&MAC, &IP, &ALVO);
    assert_eq!(conferir(&q, &ALVO, &IP, &MAC), None);
    assert_eq!(conferir(&q, &IP, &IP, &MAC), None);
}

#[test]
fn trafego_alheio_nao_e_falha() {
    let mut curto = resposta();
    curto.pop();
    assert_eq!(conferir(&curto, &ALVO, &IP, &MAC), None);
    let mut ipv4 = resposta();
    ipv4[13] = 0x00;
    assert_eq!(conferir(&ipv4, &ALVO, &IP, &MAC), None);
    let mut outro = resposta();
    outro[31] = 3;
    assert_eq!(conferir(&outro, &ALVO, &IP, &MAC), None);
}

#[test]
fn cada_campo_errado_tem_o_seu_motivo() {
    let mut q = resposta();
    q[41] = 99;
    assert_eq!(
        conferir(&q, &ALVO, &IP, &MAC),
        Some(Err("a resposta ARP e para outro endereco IP"))
    );
    let mut q = resposta();
    q[32] ^= 1;
    assert_eq!(
        conferir(&q, &ALVO, &IP, &MAC),
        Some(Err("a resposta ARP e para outra placa"))
    );
    let mut q = resposta();
    q[0] ^= 1;
    assert_eq!(
        conferir(&q, &ALVO, &IP, &MAC),
        Some(Err("o quadro Ethernet da resposta e para outra placa"))
    );
    let mut q = resposta();
    for b in &mut q[22..28] {
        *b = 0;
    }
    assert_eq!(
        conferir(&q, &ALVO, &IP, &MAC),
        Some(Err("a resposta ARP anuncia um endereco todo zeros"))
    );
}

#[test]
fn sem_placa_sem_endereco_e_sem_envio() {
    let mut p = Resolucao::nova(ALVO, IP);
    assert_eq!(
        fim(resolver(&mut p, Evento::SemPlaca)),
        Err("nao ha placa de rede nesta maquina")
    );
    let mut p = Resolucao::nova(ALVO, IP);
    assert_eq!(
        fim(resolver(&mut p, Evento::Endereco(None))),
        Err("a placa nao publicou endereco")
    );
    let mut p = Resolucao::nova(ALVO, IP);
    match resolver(&mut p, Evento::Endereco(Some(MAC))) {
        Acao::Transmitir(q) => assert_eq!(q, montar_pedido(&MAC, &IP, &ALVO)),
        _ => panic!("nada foi transmitido"),
    }
    assert_eq!(
        fim(resolver(&mut p, Evento::Transmitido(Err("fila cheia")))),
        Err("fila cheia")
    );
}

#[test]
fn desiste_depois_de_todas_as_voltas() {
    let mut p = procurando();
    let mut voltas = 0u32;
    loop {
        voltas += 1;
        match resolver(&mut p, Evento::Recebido(None)) {
            Acao::Receber => {}
            Acao::Fim(r) => {
                assert_eq!(r, Err("nenhuma resposta ARP chegou"));
                break;
            }
            Acao::Transmitir(_) => panic!("transmitiu de novo"),
        }
    }
    assert_eq!(voltas, VOLTAS_PROCURANDO);
}
