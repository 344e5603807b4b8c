use duke::inteiros::{u32_em, u64_em};
use duke::texto::{
    acrescentar_decimal, acrescentar_decimal_com_sinal, acrescentar_hex, acrescentar_hex_fixo,
    aparar, caractere_do_digito, e_branco, iguais, ler_numero, mesmo_texto,
};

#[test]
fn bytes_iguais_e_diferentes() {
    assert!(iguais(b"abc", b"abc"));
    assert!(!iguais(b"abc", b"abd"));
    assert!(!iguais(b"abc", b"ab"));
    assert!(iguais(b"", b""));
}

#[test]
fn textos_iguais_e_diferentes() {
    assert!(mesmo_texto("agent.ping", "agent.ping"));
    assert!(!mesmo_texto("agent.ping", "agent.pin"));
    assert!(!mesmo_texto("a", "á"));
}

#[test]
fn decimal_nas_pontas() {
    let mut s = String::from("n=");
    acrescentar_decimal(&mut s, 0);
    s.push(' ');
    acrescentar_decimal(&mut s, 1090);
    s.push(' ');
    acrescentar_decimal(&mut s, u64::MAX);
    assert_eq!(s, "n=0 1090 18446744073709551615");
}

#[test]
fn decimal_com_sinal_nas_pontas() {
    let mut s = String::new();
    acrescentar_decimal_com_sinal(&mut s, i64::MIN);
    s.push(' ');
    acrescentar_decimal_com_sinal(&mut s, -1);
    s.push(' ');
    acrescentar_decimal_com_sinal(&mut s, i64::MAX);
    assert_eq!(s, "-9223372036854775808 -1 9223372036854775807");
}

#[test]
fn hexadecimal_com_e_sem_zeros() {
    let mut s = String::new();
    acrescentar_hex(&mut s, 0xdead_beef);
    s.push(' ');
    acrescentar_hex(&mut s, 0);
    s.push(' ');
    acrescentar_hex_fixo(&mut s, 0x1f, 4);
    s.push(' ');
    acrescentar_hex_fixo(&mut s, 0x12345, 2);
    assert_eq!(s, "deadbeef 0 001f 45");
}

#[test]
fn digitos_de_zero_a_quinze() {
    assert_eq!(caractere_do_digito(0), '0');
    assert_eq!(caractere_do_digito(9), '9');
    assert_eq!(caractere_do_digito(10), 'a');
    assert_eq!(caractere_do_digito(15), 'f');
}

#[test]
fn brancos_de_unicode() {
    assert!(e_branco(' '));
    assert!(e_branco('\t'));
    assert!(e_branco('\n'));
    assert!(e_branco('\u{a0}'));
    assert!(e_branco('\u{3000}'));
    assert!(!e_branco('a'));
    assert!(!e_branco('\u{200b}'));
    for u in 0u32..0x3100 {
        if let Some(c) = char::from_u32(u) {
            assert_eq!(e_branco(c), c.is_whitespace());
        }
    }
}

#[test]
fn aparar_so_as_pontas() {
    assert_eq!(aparar("  a b \t\n"), "a b");
    assert_eq!(aparar("   "), "");
    assert_eq!(aparar(""), "");
    assert_eq!(aparar("\u{3000}ção\u{a0}"), "ção");
}

#[test]
fn numeros_aceitos_e_recusados() {
    assert_eq!(ler_numero("0"), Some(0));
    assert_eq!(ler_numero("+7"), Some(7));
    assert_eq!(ler_numero("007"), Some(7));
    assert_eq!(ler_numero("18446744073709551615"), Some(u64::MAX));
    assert_eq!(ler_numero("18446744073709551616"), None);
    assert_eq!(ler_numero(""), None);
    assert_eq!(ler_numero("+"), None);
    assert_eq!(ler_numero("-1"), None);
    assert_eq!(ler_numero("1a"), None);
}

#[test]
fn inteiros_com_o_menos_significativo_primeiro() {
    let b = [0x01, 0x02, 0x03, 0x04, 0x05, 0x06, 0x07, 0x88, 0x99];
    assert_eq!(u32_em(&b, 1), Some(0x0504_0302));
    assert_eq!(u32_em(&b, 6), None);
    assert_eq!(u64_em(&b, 0), Some(0x8807_0605_0403_0201));
    assert_eq!(u64_em(&b, 1), Some(0x9988_0706_0504_0302));
    assert_eq!(u64_em(&b, 2), None);
}
