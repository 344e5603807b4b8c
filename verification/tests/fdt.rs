use duke::arch::aarch64::fdt::{
    encontrar_barramento_pci, interrupcao_pci, percorrer_memoria, tamanho_total, BarramentoPci,
    Interrupcao,
};
use duke::arch::aarch64::mmu::{self, Mmu};
use duke::arch::aarch64::pci::{janela_mmio, linha_de_interrupcao, Ponte};
use duke::arch::aarch64::{init_pci, Barramento};
use duke::arch::memoria::Memoria;
use duke::frames::{self, Alocador};
use duke::machine::{adicionar_regiao, Maquina, Regiao, TipoRegiao};
use duke::mmio::Faixa;
use duke::pci::EnderecoPci;

const NOMES: &[u8] =
    b"reg\0#address-cells\0#size-cells\0compatible\0ranges\0interrupt-map-mask\0interrupt-map\0phandle\0#interrupt-cells\0";

fn nome(qual: &str) -> u32 {
    let procurado = qual.as_bytes();
    let mut em = 0;
    for pedaco in NOMES.split(|&b| b == 0) {
        if pedaco == procurado {
            return em as u32;
        }
        em += pedaco.len() + 1;
    }
    panic!("nome ausente do bloco de nomes");
}

struct Arvore {
    corpo: Vec<u8>,
}

impl Arvore {
    fn nova() -> Arvore {
        Arvore { corpo: Vec::new() }
    }

    fn palavra(mut self, v: u32) -> Arvore {
        self.corpo.extend_from_slice(&v.to_be_bytes());
        self
    }

    fn alinhada(mut self) -> Arvore {
        while self.corpo.len() % 4 != 0 {
            self.corpo.push(0);
        }
        self
    }

    fn abre(self, n: &str) -> Arvore {
        let mut s = self.palavra(1);
        s.corpo.extend_from_slice(n.as_bytes());
        s.corpo.push(0);
        s.alinhada()
    }

    fn fecha(self) -> Arvore {
        self.palavra(2)
    }

    fn bytes(self, n: &str, v: &[u8]) -> Arvore {
        let mut s = self.palavra(3).palavra(v.len() as u32).palavra(nome(n));
        s.corpo.extend_from_slice(v);
        s.alinhada()
    }

    fn prop(self, n: &str, v: &[u32]) -> Arvore {
        let mut b = Vec::new();
        for x in v {
            b.extend_from_slice(&x.to_be_bytes());
        }
        self.bytes(n, &b)
    }

    fn blob(self) -> Vec<u8> {
        let corpo = self.palavra(9).corpo;
        let total = 40 + corpo.len() + NOMES.len();
        let cabecalho = [0xd00d_feed, total as u32, 40, 40 + corpo.len() as u32, 0, 0, 0, 0, 0, 0];
        let mut b = Vec::new();
        for x in cabecalho {
            b.extend_from_slice(&u32::to_be_bytes(x));
        }
        b.extend_from_slice(&corpo);
        b.extend_from_slice(NOMES);
        b
    }
}

fn placa(com_janela: bool) -> Vec<u8> {
    let a = Arvore::nova()
        .abre("")
        .prop("#address-cells", &[2])
        .prop("#size-cells", &[2])
        .palavra(4)
        .abre("memory@40000000")
        .prop("reg", &[0, 0x4000_0000, 0, 0x800_0000, 1, 0, 0, 0x1000])
        .fecha()
        .abre("intc@8000000")
        .prop("#interrupt-cells", &[3])
        .prop("#address-cells", &[2])
        .prop("phandle", &[0x8001])
        .fecha()
        .abre("pcie@10000000")
        .prop(
            "interrupt-map",
            &[
                0, 0, 0, 1, 0x8001, 0, 0, 0, 3, 4, 0x800, 0, 0, 1, 0x8001, 0, 0, 0, 5, 4, 0x800,
                0, 0, 2, 0x8001, 0, 0, 1, 6, 4,
            ],
        )
        .prop("interrupt-map-mask", &[0x1800, 0, 0, 7])
        .prop("reg", &[0x40, 0x1000_0000, 0, 0x1000_0000]);
    let a = if com_janela {
        a.prop(
            "ranges",
            &[
                0x0100_0000, 0, 0, 0, 0x3eff_0000, 0, 0x1_0000, 0x0200_0000, 0, 0x1000_0000, 0,
                0x1000_0000, 0, 0x2eff_0000,
            ],
        )
    } else {
        a
    };
    a.bytes("compatible", b"outra-ponte\0pci-host-ecam-generic\0").fecha().fecha().blob()
}

#[test]
fn memoria_da_placa() {
    let b = placa(true);
    assert_eq!(tamanho_total(&b), Some(b.len() as u64));
    assert_eq!(
        percorrer_memoria(&b),
        (vec![(0x4000_0000, 0x800_0000), (0x1_0000_0000, 0x1000)], Ok(()))
    );
}

#[test]
fn larguras_absurdas_sao_ignoradas() {
    let b = Arvore::nova()
        .abre("")
        .prop("#address-cells", &[u32::MAX])
        .prop("#size-cells", &[1])
        .abre("memory")
        .prop("reg", &[0, 0x1000, 0x2000, 7])
        .fecha()
        .fecha()
        .blob();
    assert_eq!(percorrer_memoria(&b), (vec![(0x1000, 0x2000)], Ok(())));
}

#[test]
fn arvores_quebradas() {
    assert_eq!(tamanho_total(&[]), None);
    assert_eq!(tamanho_total(&[0; 8]), None);
    assert_eq!(percorrer_memoria(&[]), (vec![], Err("ponteiro de device tree nulo")));
    assert_eq!(percorrer_memoria(&[0; 40]), (vec![], Err("assinatura de device tree invalida")));
    let mut b = placa(true);
    let achou = percorrer_memoria(&b).0;
    let fim = b.len() - NOMES.len() - 4;
    b[fim + 3] = 7;
    assert_eq!(percorrer_memoria(&b), (achou, Err("token desconhecido no device tree")));
    assert!(percorrer_memoria(&b[..60]).1.is_err());
    assert_eq!(encontrar_barramento_pci(&[0; 40]), None);
}

#[test]
fn barramento_da_placa() {
    assert_eq!(
        encontrar_barramento_pci(&placa(true)),
        Some(BarramentoPci {
            ecam: (0x40_1000_0000, 0x1000_0000),
            mmio32: Some((0x1000_0000, 0x1000_0000, 0x2eff_0000)),
        })
    );
    assert_eq!(
        encontrar_barramento_pci(&placa(false)),
        Some(BarramentoPci { ecam: (0x40_1000_0000, 0x1000_0000), mmio32: None })
    );
    let sem = Arvore::nova().abre("").abre("pcie").prop("reg", &[1, 2, 3, 4]).fecha().fecha().blob();
    assert_eq!(encontrar_barramento_pci(&sem), None);
}

#[test]
fn rota_da_interrupcao() {
    let b = placa(true);
    assert_eq!(
        interrupcao_pci(&b, 0x0000, 1),
        Some(Interrupcao { tipo: 0, numero: 3, flags: 4 })
    );
    assert_eq!(
        interrupcao_pci(&b, 0x2800 | 0x700, 1),
        Some(Interrupcao { tipo: 0, numero: 5, flags: 4 })
    );
    assert_eq!(interrupcao_pci(&b, 0x1000, 1), None);
    assert_eq!(interrupcao_pci(&b, 0, 2), None);
    let em = |dispositivo| EnderecoPci { barramento: 0, dispositivo, funcao: 0 };
    assert_eq!(linha_de_interrupcao(&b, em(1), 1), Some(37));
    assert_eq!(linha_de_interrupcao(&b, em(1), 2), Some(22));
    assert_eq!(linha_de_interrupcao(&b, em(1), 0), None);
    assert_eq!(linha_de_interrupcao(&b, em(2), 1), None);
}

#[test]
fn barramento_iniciado_na_memoria() {
    let mut maq = Maquina::nova();
    adicionar_regiao(
        &mut maq,
        Regiao { inicio: 0x4000_0000, fim: 0x4002_0000, tipo: TipoRegiao::Utilizavel },
    );
    let mut a = Alocador::novo();
    frames::init(&mut a, &maq, &[(0x4000_0000, 0x4000_8000)]);
    let mut m = Mmu::nova(Memoria::sobre(0x4000_0000, vec![0; 512 * 32]).unwrap());
    mmu::init(&mut m, &mut a, &maq, 0x4000_0000, 0x4000_3000).unwrap();
    let mut ponte = Ponte::desconhecida();
    let mut faixa = Faixa::nova(0x30_0000_0000, 0x4000_0000);
    assert!(matches!(init_pci(&mut ponte, &mut faixa, &mut m, &mut a, &[]), Barramento::Ausente));
    assert!(matches!(
        init_pci(&mut ponte, &mut faixa, &mut m, &mut a, &placa(false)),
        Barramento::SemJanela { base: 0x40_1000_0000, janela: 0x10_0000 }
    ));
    assert!(janela_mmio(&ponte).is_none());
    assert_eq!(mmu::traduzir(&m, 0x30_0000_0004), Some(0x40_1000_0004));
    assert!(matches!(
        init_pci(&mut ponte, &mut faixa, &mut m, &mut a, &placa(true)),
        Barramento::Pronto { base: 0x40_1000_0000, janela: 0x10_0000 }
    ));
    assert_eq!((ponte.base, ponte.tamanho), (0x30_0010_0000, 0x10_0000));
    let j = janela_mmio(&ponte).unwrap();
    assert_eq!((j.barramento, j.cpu, j.tamanho), (0x1000_0000, 0x1000_0000, 0x2eff_0000));
    let mut curta = Faixa::nova(0x31_0000_0000, 0x1000);
    assert!(matches!(
        init_pci(&mut ponte, &mut curta, &mut m, &mut a, &placa(true)),
        Barramento::NaoMapeado("a faixa de MMIO do kernel acabou")
    ));
}

fn com_controlador(enderecos: u32, celulas: u32) -> Vec<u8> {
    Arvore::nova()
        .abre("")
        .prop("#address-cells", &[2])
        .prop("#size-cells", &[2])
        .abre("intc@8000000")
        .prop("#interrupt-cells", &[celulas])
        .prop("#address-cells", &[enderecos])
        .prop("phandle", &[0x8001])
        .fecha()
        .abre("pcie@10000000")
        .prop("interrupt-map", &[0, 0, 0, 1, 0x8001, 0, 3, 4, 0, 0, 0, 0])
        .prop("interrupt-map-mask", &[0x1800, 0, 0, 7])
        .prop("reg", &[0x40, 0x1000_0000, 0, 0x1000_0000])
        .bytes("compatible", b"pci-host-ecam-generic\0")
        .fecha()
        .fecha()
        .blob()
}

#[test]
fn controlador_com_largura_absurda_nao_da_rota() {
    assert_eq!(
        interrupcao_pci(&com_controlador(0, 3), 0, 1),
        Some(Interrupcao { tipo: 0, numero: 3, flags: 4 })
    );
    assert_eq!(interrupcao_pci(&com_controlador(5, 3), 0, 1), None);
    assert_eq!(interrupcao_pci(&com_controlador(0, 5), 0, 1), None);
}
