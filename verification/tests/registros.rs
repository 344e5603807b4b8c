use duke::irq::{
    com_contadores, contabilizar, contagem_da_linha, fora_do_teto, nomear, total, Linhas,
    MAX_LINHAS,
};
use duke::log::{
    linha_de_console, registrar, total_emitidos, ultimos, Anel, Cursor, Level, CAPACIDADE, MSG_MAX,
};

#[test]
fn linhas_contadas_por_nome() {
    let mut l = Linhas::novas();
    assert!(nomear(&mut l, 4, "serial"));
    assert!(!nomear(&mut l, MAX_LINHAS, "nada"));
    contabilizar(&mut l, 4);
    contabilizar(&mut l, 4);
    contabilizar(&mut l, 9);
    contabilizar(&mut l, MAX_LINHAS);
    assert_eq!((contagem_da_linha(&l, 4), contagem_da_linha(&l, 9)), (2, 1));
    assert_eq!((contagem_da_linha(&l, 5), contagem_da_linha(&l, usize::MAX)), (0, 0));
    assert_eq!((total(&l), fora_do_teto(&l)), (4, 1));
    let v = com_contadores(&l);
    assert_eq!(v.len(), 2);
    assert_eq!((v[0].linha, v[0].nome, v[0].total), (4, "serial", 2));
    assert_eq!((v[1].linha, v[1].total), (9, 1));
}

#[test]
fn niveis_por_nome_e_ordem() {
    for l in [Level::Error, Level::Warn, Level::Info, Level::Debug, Level::Trace] {
        assert_eq!(Level::de_nome(l.nome()).map(|x| x.ordem()), Some(l.ordem()));
    }
    assert!(Level::Error.ordem() < Level::Trace.ordem());
    assert!(Level::de_nome("fatal").is_none());
}

#[test]
fn registros_em_ordem_e_por_nivel() {
    let mut a = Anel::novo();
    assert_eq!(registrar(&mut a, Level::Info, "boot", 10, &["ola ", "mundo"]), 0);
    assert_eq!(registrar(&mut a, Level::Error, "mem", 20, &["falhou"]), 1);
    assert_eq!(registrar(&mut a, Level::Debug, "mem", 30, &[]), 2);
    assert_eq!(total_emitidos(&a), 3);
    let v = ultimos(&a, 10, Level::Trace);
    assert_eq!(v.len(), 3);
    assert_eq!((v[0].seq, v[0].uptime_ms, v[0].mensagem()), (0, 10, "ola mundo"));
    assert_eq!(v[2].mensagem(), "");
    let graves = ultimos(&a, 10, Level::Info);
    assert_eq!(graves.iter().map(|r| r.seq).collect::<Vec<u64>>(), vec![0, 1]);
    let cauda = ultimos(&a, 2, Level::Info);
    assert_eq!(cauda.iter().map(|r| r.seq).collect::<Vec<u64>>(), vec![1]);
}

#[test]
fn anel_guarda_os_mais_novos() {
    let mut a = Anel::novo();
    for i in 0..CAPACIDADE as u64 + 5 {
        registrar(&mut a, Level::Info, "x", i, &[]);
    }
    let v = ultimos(&a, usize::MAX, Level::Trace);
    assert_eq!(v.len(), CAPACIDADE);
    assert_eq!((v[0].seq, v[CAPACIDADE - 1].seq), (5, CAPACIDADE as u64 + 4));
}

#[test]
fn mensagem_cortada_em_caractere_inteiro() {
    let mut a = Anel::novo();
    let longa = "a".repeat(MSG_MAX - 1);
    registrar(&mut a, Level::Info, "x", 0, &[&longa, "ção"]);
    let v = ultimos(&a, 1, Level::Trace);
    assert!(v[0].mensagem().starts_with(&longa));
    assert!(v[0].bytes.len() <= MSG_MAX);
    let mut c = Cursor::novo();
    c.write_str("texto");
}

#[test]
fn linha_alinhada_no_console() {
    assert_eq!(
        linha_de_console(7, Level::Info, "boot", "ola"),
        "[    7] info  boot     ola"
    );
    assert_eq!(
        linha_de_console(123456, Level::Error, "paginacao", "ola"),
        "[123456] error paginacao ola"
    );
}
