use duke::serial::{
    bytes_de_saida_perdidos, orcamento_de_saida, perder_saida, saida_fluiu, Envio, Gesto, Saida,
    VOLTAS_ESPERANDO_A_FIFO,
};

#[test]
fn porta_que_drena_leva_tudo() {
    let mut s = Saida::nova();
    let mut e = Envio::novo(&s, 3);
    assert_eq!(e.olhar(&mut s, false), Gesto::Escrever(0));
    assert_eq!(e.olhar(&mut s, true), Gesto::Esperar);
    assert_eq!(e.olhar(&mut s, false), Gesto::Escrever(1));
    assert!(e.falta());
    assert_eq!(e.olhar(&mut s, false), Gesto::Escrever(2));
    assert!(!e.falta());
    assert_eq!(bytes_de_saida_perdidos(&s), 0);
}

#[test]
fn porta_parada_custa_o_orcamento_uma_vez() {
    let mut s = Saida::nova();
    let mut e = Envio::novo(&s, 5);
    assert_eq!(e.olhar(&mut s, false), Gesto::Escrever(0));
    let mut esperas = 0u32;
    while e.olhar(&mut s, true) == Gesto::Esperar {
        esperas += 1;
    }
    assert_eq!(esperas, VOLTAS_ESPERANDO_A_FIFO);
    assert_eq!(bytes_de_saida_perdidos(&s), 4);
    assert_eq!(orcamento_de_saida(&s), 0);
    let mut seguinte = Envio::novo(&s, 7);
    assert_eq!(seguinte.olhar(&mut s, true), Gesto::Desistir);
    assert_eq!(bytes_de_saida_perdidos(&s), 11);
}

#[test]
fn um_byte_que_sai_devolve_o_orcamento() {
    let mut s = Saida::nova();
    perder_saida(&mut s, 2);
    assert_eq!(orcamento_de_saida(&s), 0);
    let mut e = Envio::novo(&s, 1);
    assert_eq!(e.olhar(&mut s, false), Gesto::Escrever(0));
    assert_eq!(orcamento_de_saida(&s), VOLTAS_ESPERANDO_A_FIFO);
    assert_eq!(bytes_de_saida_perdidos(&s), 2);
    saida_fluiu(&mut s);
    assert_eq!(s, Saida { perdidos: 2, travada: false });
}

#[test]
fn perdidos_dao_a_volta() {
    let mut s = Saida { perdidos: u64::MAX, travada: false };
    perder_saida(&mut s, 3);
    assert_eq!(s, Saida { perdidos: 2, travada: true });
}
