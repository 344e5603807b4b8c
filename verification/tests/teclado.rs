use duke::teclado::{
    caractere, descartados, esperando, esvaziar, evento, ler, pressionadas, Teclado, CAPACIDADE,
};

#[test]
fn letras_digitos_e_controle() {
    let t = Teclado::novo();
    assert_eq!(caractere(&t, 2), Some('1'));
    assert_eq!(caractere(&t, 14), Some('\u{8}'));
    assert_eq!(caractere(&t, 15), Some('\t'));
    assert_eq!(caractere(&t, 16), Some('q'));
    assert_eq!(caractere(&t, 28), Some('\n'));
    assert_eq!(caractere(&t, 30), Some('a'));
    assert_eq!(caractere(&t, 44), Some('z'));
    assert_eq!(caractere(&t, 57), Some(' '));
}

#[test]
fn teclas_sem_caractere() {
    let t = Teclado::novo();
    assert_eq!(caractere(&t, 0), None);
    assert_eq!(caractere(&t, 1), None);
    assert_eq!(caractere(&t, 29), None);
    assert_eq!(caractere(&t, 42), None);
    assert_eq!(caractere(&t, 54), None);
    assert_eq!(caractere(&t, 56), None);
    assert_eq!(caractere(&t, 58), None);
    assert_eq!(caractere(&t, 255), None);
}

#[test]
fn shift_muda_o_caractere_enquanto_dura() {
    let mut t = Teclado::novo();
    evento(&mut t, 42, true);
    assert_eq!(caractere(&t, 2), Some('!'));
    assert_eq!(caractere(&t, 16), Some('Q'));
    assert_eq!(caractere(&t, 30), Some('A'));
    assert_eq!(caractere(&t, 44), Some('Z'));
    assert_eq!(caractere(&t, 28), Some('\n'));
    assert_eq!(caractere(&t, 57), Some(' '));
    evento(&mut t, 30, true);
    evento(&mut t, 42, false);
    evento(&mut t, 30, true);
    assert_eq!(ler(&mut t), Some('A'));
    assert_eq!(ler(&mut t), Some('a'));
    assert_eq!(ler(&mut t), None);
}

#[test]
fn soltar_nao_escreve() {
    let mut t = Teclado::novo();
    evento(&mut t, 30, true);
    evento(&mut t, 30, false);
    assert_eq!(pressionadas(&t), 1);
    assert_eq!(esperando(&t), 1);
    evento(&mut t, 1, true);
    assert_eq!(pressionadas(&t), 1);
}

#[test]
fn teclado_cheio_conta_o_que_perde() {
    let mut t = Teclado::novo();
    for _ in 0..CAPACIDADE + 3 {
        evento(&mut t, 31, true);
    }
    assert_eq!(esperando(&t), CAPACIDADE);
    assert_eq!(descartados(&t), 3);
    assert_eq!(pressionadas(&t), CAPACIDADE as u64 + 3);
    evento(&mut t, 54, true);
    esvaziar(&mut t);
    assert_eq!(esperando(&t), 0);
    assert_eq!(ler(&mut t), None);
    assert_eq!(caractere(&t, 30), Some('a'));
    assert_eq!(descartados(&t), 3);
}

#[test]
fn as_duas_tabelas_tem_as_mesmas_teclas() {
    let sem = Teclado::novo();
    let mut com = Teclado::novo();
    evento(&mut com, 42, true);
    for codigo in 0..=255u8 {
        assert_eq!(
            caractere(&sem, codigo).is_some(),
            caractere(&com, codigo).is_some()
        );
    }
}

#[test]
fn um_shift_solto_e_outro_ainda_apertado() {
    let mut t = Teclado::novo();
    evento(&mut t, 42, true);
    evento(&mut t, 54, true);
    evento(&mut t, 54, false);
    evento(&mut t, 30, true);
    assert_eq!(ler(&mut t), Some('A'));
    evento(&mut t, 42, false);
    evento(&mut t, 30, true);
    assert_eq!(ler(&mut t), Some('a'));
}
