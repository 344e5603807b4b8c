use duke::particoes::{
    ler_cabecalho, ler_entrada, varrer, Lido, Particao, Passo, Tabela, Tipo, Varredura, ASSINATURA,
    GUID_DADOS, GUID_ESP, MAX,
};

fn entrada(guid: &[u8; 16], primeiro: u64, ultimo: u64) -> Vec<u8> {
    let mut b = vec![0u8; 128];
    b[..16].copy_from_slice(guid);
    b[32..40].copy_from_slice(&primeiro.to_le_bytes());
    b[40..48].copy_from_slice(&ultimo.to_le_bytes());
    b
}

fn cabecalho(em: u64, quantas: u32, tamanho: u32) -> Vec<u8> {
    let mut b = vec![0u8; 512];
    b[..8].copy_from_slice(&ASSINATURA);
    b[72..80].copy_from_slice(&em.to_le_bytes());
    b[80..84].copy_from_slice(&quantas.to_le_bytes());
    b[84..88].copy_from_slice(&tamanho.to_le_bytes());
    b
}

fn percorrer(setores: &[(u64, Vec<u8>)]) -> Result<Tabela, &'static str> {
    let mut v = Varredura::nova();
    loop {
        let n = v.setor().expect("setor dentro do disco");
        let conteudo = setores
            .iter()
            .find(|s| s.0 == n)
            .map(|s| s.1.clone())
            .unwrap_or(vec![0u8; 512]);
        match varrer(&mut v, Lido::Setor(&conteudo)) {
            Passo::LerMais => {}
            Passo::Pronta(t) => return Ok(t),
            Passo::Erro(m) => return Err(m),
        }
    }
}

fn juntar(entradas: &[Vec<u8>]) -> Vec<u8> {
    let mut s: Vec<u8> = entradas.concat();
    s.resize(512, 0);
    s
}

#[test]
fn assinatura_e_efi_part() {
    assert_eq!(&ASSINATURA, b"EFI PART");
}

#[test]
fn entrada_livre_nao_e_particao() {
    assert_eq!(ler_entrada(&[0u8; 128]), None);
    assert_eq!(ler_entrada(&entrada(&[0; 16], 34, 99)), None);
}

#[test]
fn entrada_de_cada_tipo() {
    assert_eq!(
        ler_entrada(&entrada(&GUID_ESP, 34, 33 + 2048)),
        Some(Particao { primeiro: 34, setores: 2048, tipo: Tipo::Esp })
    );
    assert_eq!(
        ler_entrada(&entrada(&GUID_DADOS, 4096, 4096)),
        Some(Particao { primeiro: 4096, setores: 1, tipo: Tipo::Dados })
    );
    assert_eq!(
        ler_entrada(&entrada(&[7; 16], 1, 2)),
        Some(Particao { primeiro: 1, setores: 2, tipo: Tipo::Outro })
    );
}

#[test]
fn entrada_impossivel_ou_cortada() {
    assert_eq!(ler_entrada(&entrada(&GUID_ESP, 10, 9)), None);
    assert_eq!(ler_entrada(&entrada(&GUID_ESP, 0, u64::MAX)), None);
    assert_eq!(ler_entrada(&entrada(&GUID_ESP, 1, 5)[..47]), None);
    assert_eq!(ler_entrada(&entrada(&GUID_ESP, 1, 5)[..8]), None);
    assert!(ler_entrada(&entrada(&GUID_ESP, 1, 5)[..48]).is_some());
}

#[test]
fn nomes_dos_tipos() {
    assert_eq!(Tipo::Esp.como_str(), "esp");
    assert_eq!(Tipo::Dados.como_str(), "dados");
    assert_eq!(Tipo::Outro.como_str(), "outro");
    assert_eq!(Tipo::do_guid(&GUID_ESP[..15]), Tipo::Outro);
}

#[test]
fn cabecalho_sem_assinatura_ou_implausivel() {
    assert_eq!(
        ler_cabecalho(&[0u8; 512]).unwrap_err(),
        "o setor um nao traz o cabecalho da GPT"
    );
    assert_eq!(
        ler_cabecalho(&cabecalho(2, 128, 47)).unwrap_err(),
        "tamanho de entrada implausivel na GPT"
    );
    assert_eq!(
        ler_cabecalho(&cabecalho(2, 128, 513)).unwrap_err(),
        "tamanho de entrada implausivel na GPT"
    );
    let c = ler_cabecalho(&cabecalho(2, 128, 128)).unwrap();
    assert_eq!((c.entradas_em, c.quantas, c.tamanho), (2, 128, 128));
}

#[test]
fn tabela_de_duas_particoes() {
    let t = percorrer(&[
        (1, cabecalho(2, 128, 128)),
        (2, juntar(&[entrada(&GUID_ESP, 34, 133), vec![0; 128], entrada(&GUID_DADOS, 200, 299)])),
    ])
    .unwrap_or(Tabela::vazia());
    assert_eq!(
        t.iter(),
        &[
            Particao { primeiro: 34, setores: 100, tipo: Tipo::Esp },
            Particao { primeiro: 200, setores: 100, tipo: Tipo::Dados },
        ]
    );
    assert_eq!(t.primeira(Tipo::Dados).map(|p| p.primeiro), Some(200));
    assert_eq!(t.primeira(Tipo::Outro), None);
}

#[test]
fn entradas_em_varios_setores_na_ordem() {
    let setor = |n: u64| {
        juntar(&[
            entrada(&GUID_DADOS, n * 100, n * 100 + 1),
            vec![0; 128],
            vec![0; 128],
            entrada(&GUID_DADOS, n * 100 + 50, n * 100 + 51),
        ])
    };
    let t = percorrer(&[
        (1, cabecalho(7, 8, 128)),
        (7, setor(7)),
        (8, setor(8)),
        (9, setor(9)),
    ])
    .unwrap_or(Tabela::vazia());
    let primeiros: Vec<u64> = t.iter().iter().map(|p| p.primeiro).collect();
    assert_eq!(primeiros, vec![700, 750, 800, 850]);
}

#[test]
fn so_as_primeiras_oito() {
    let cheio = juntar(&[
        entrada(&GUID_DADOS, 1, 1),
        entrada(&GUID_DADOS, 2, 2),
        entrada(&GUID_DADOS, 3, 3),
        entrada(&GUID_DADOS, 4, 4),
    ]);
    let t = percorrer(&[
        (1, cabecalho(2, 128, 128)),
        (2, cheio.clone()),
        (3, cheio.clone()),
        (4, cheio.clone()),
    ])
    .unwrap_or(Tabela::vazia());
    assert_eq!(t.iter().len(), MAX);
    let primeiros: Vec<u64> = t.iter().iter().map(|p| p.primeiro).collect();
    assert_eq!(primeiros, vec![1, 2, 3, 4, 1, 2, 3, 4]);
}

#[test]
fn tabela_sem_entradas_e_vazia() {
    let t = percorrer(&[(1, cabecalho(2, 0, 128))]).unwrap_or(Tabela::vazia());
    assert_eq!(t.iter().len(), 0);
    assert!(percorrer(&[(1, cabecalho(2, 0, 128))]).is_ok());
}

#[test]
fn disco_ausente_ou_que_recusa() {
    let mut v = Varredura::nova();
    assert_eq!(v.setor(), Some(1));
    assert!(matches!(
        varrer(&mut v, Lido::SemDisco),
        Passo::Erro("nao ha disco nesta maquina")
    ));
    let mut v = Varredura::nova();
    assert!(matches!(
        varrer(&mut v, Lido::Falhou("setor ilegivel")),
        Passo::Erro("setor ilegivel")
    ));
}

#[test]
fn setor_alem_de_qualquer_disco() {
    let mut v = Varredura::nova();
    let c = cabecalho(u64::MAX, 128, 128);
    assert!(matches!(varrer(&mut v, Lido::Setor(&c)), Passo::LerMais));
    assert_eq!(v.setor(), Some(u64::MAX));
    assert!(matches!(varrer(&mut v, Lido::Setor(&[0u8; 512])), Passo::LerMais));
    assert_eq!(v.setor(), None);
}
