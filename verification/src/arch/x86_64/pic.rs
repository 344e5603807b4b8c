//! The interrupt controllers and the timer of the board.
use vstd::prelude::*;

verus! {

/// The vector of the first line of the master; the 32 before it are for the
/// exceptions of the processor.
pub const OFFSET_MESTRE: u8 = 32;

/// The vector of the first line of the slave.
pub const OFFSET_ESCRAVO: u8 = 40;

/// The line of the timer.
pub const IRQ_TIMER: u8 = 0;

/// The line of the port of the agent's channel.
pub const IRQ_SERIAL_AGENTE: u8 = 3;

/// The line of the master on which the slave interrupts.
pub const IRQ_CASCATA: u8 = 2;

/// The rate of the timer before it is divided.
pub const FREQUENCIA_BASE_PIT: u32 = 1_193_182;

/// Command port of the master.
pub const CMD_MESTRE: u16 = 0x20;

/// Data port of the master.
pub const DADOS_MESTRE: u16 = 0x21;

/// Command port of the slave.
pub const CMD_ESCRAVO: u16 = 0xA0;

/// Data port of the slave.
pub const DADOS_ESCRAVO: u16 = 0xA1;

/// A write to a port.
#[derive(Clone, Copy, Debug, PartialEq, Eq, Structural)]
pub struct Escrita {
    pub porta: u16,
    pub valor: u8,
}

/// The writes that start both controllers: the start itself, the vector of the
/// first line of each, how they hang together, and the mode; then only the
/// timer and the keyboard are let through.
pub open spec fn sequencia_spec() -> Seq<Escrita> {
    seq![
        Escrita { porta: CMD_MESTRE, valor: 0x11 },
        Escrita { porta: CMD_ESCRAVO, valor: 0x11 },
        Escrita { porta: DADOS_MESTRE, valor: OFFSET_MESTRE },
        Escrita { porta: DADOS_ESCRAVO, valor: OFFSET_ESCRAVO },
        Escrita { porta: DADOS_MESTRE, valor: 0x04 },
        Escrita { porta: DADOS_ESCRAVO, valor: IRQ_CASCATA },
        Escrita { porta: DADOS_MESTRE, valor: 0x01 },
        Escrita { porta: DADOS_ESCRAVO, valor: 0x01 },
        Escrita { porta: DADOS_MESTRE, valor: 0xFC },
        Escrita { porta: DADOS_ESCRAVO, valor: 0xFF },
    ]
}

/// The writes that start both controllers, in order.
pub fn init() -> (r: Vec<Escrita>)
    ensures
        r@ == sequencia_spec(),
{
    let r = vec![
        Escrita { porta: CMD_MESTRE, valor: 0x11 },
        Escrita { porta: CMD_ESCRAVO, valor: 0x11 },
        Escrita { porta: DADOS_MESTRE, valor: OFFSET_MESTRE },
        Escrita { porta: DADOS_ESCRAVO, valor: OFFSET_ESCRAVO },
        Escrita { porta: DADOS_MESTRE, valor: 0x04 },
        Escrita { porta: DADOS_ESCRAVO, valor: IRQ_CASCATA },
        Escrita { porta: DADOS_MESTRE, valor: 0x01 },
        Escrita { porta: DADOS_ESCRAVO, valor: 0x01 },
        Escrita { porta: DADOS_MESTRE, valor: 0xFC },
        Escrita { porta: DADOS_ESCRAVO, valor: 0xFF },
    ];
    proof {
        assert(r@ =~= sequencia_spec());
    }
    r
}

/// The masks of both controllers. A bit that is on holds its line back.
#[derive(Clone, Copy, Debug, PartialEq, Eq, Structural)]
pub struct Mascaras {
    pub mestre: u8,
    pub escravo: u8,
}

/// The line gets to the processor: its own bit is off and, for a line of the
/// slave, that of the master's line the slave hangs on is off too.
pub open spec fn passa(m: Mascaras, linha: u8) -> bool {
    if linha < 8 {
        (m.mestre >> linha) & 1 == 0
    } else {
        (m.escravo >> ((linha - 8) as u8)) & 1 == 0 && (m.mestre >> IRQ_CASCATA) & 1 == 0
    }
}

/// The line's own bit is on.
pub open spec fn retida(m: Mascaras, linha: u8) -> bool {
    if linha < 8 {
        (m.mestre >> linha) & 1 == 1
    } else {
        (m.escravo >> ((linha - 8) as u8)) & 1 == 1
    }
}

/// The masks with a line let through.
pub open spec fn desmascarada(m: Mascaras, linha: u8) -> Mascaras {
    if linha >= 16 {
        m
    } else if linha < 8 {
        Mascaras { mestre: m.mestre & !(1u8 << linha), ..m }
    } else {
        Mascaras {
            mestre: m.mestre & !(1u8 << IRQ_CASCATA),
            escravo: m.escravo & !(1u8 << ((linha - 8) as u8)),
        }
    }
}

/// The masks with a line held back.
pub open spec fn mascarada(m: Mascaras, linha: u8) -> Mascaras {
    if linha >= 16 {
        m
    } else if linha < 8 {
        Mascaras { mestre: m.mestre | (1u8 << linha), ..m }
    } else {
        Mascaras { escravo: m.escravo | (1u8 << ((linha - 8) as u8)), ..m }
    }
}

proof fn lemma_desligar(m: u8, i: u8, j: u8)
    requires
        i < 8,
        j < 8,
    ensures
        ((m & !(1u8 << i)) >> j) & 1 == 0 <==> (i == j || (m >> j) & 1 == 0),
{
    assert(((m & !(1u8 << i)) >> j) & 1 == 0 <==> (i == j || (m >> j) & 1 == 0)) by (bit_vector)
        requires
            i < 8,
            j < 8,
    ;
}

proof fn lemma_ligar(m: u8, i: u8, j: u8)
    requires
        i < 8,
        j < 8,
    ensures
        ((m | (1u8 << i)) >> j) & 1 == 0 <==> (i != j && (m >> j) & 1 == 0),
{
    assert(((m | (1u8 << i)) >> j) & 1 == 0 <==> (i != j && (m >> j) & 1 == 0)) by (bit_vector)
        requires
            i < 8,
            j < 8,
    ;
}

/// Lets a line through. A line of the slave lets the line it hangs on through
/// too. There are sixteen lines.
pub fn desmascarar(m: Mascaras, linha: u8) -> (r: Mascaras)
    ensures
        r == desmascarada(m, linha),
        linha >= 16 ==> r == m,
        linha < 16 ==> passa(r, linha),
        forall|o: u8|
            o < 8 && o != linha && !(8 <= linha && linha < 16 && o == IRQ_CASCATA) ==> (passa(r, o)
                <==> #[trigger] passa(m, o)),
        forall|o: u8|
            8 <= o && o < 16 && o != linha ==> #[trigger] (r.escravo >> ((o - 8) as u8)) & 1 == (
            m.escravo >> ((o - 8) as u8)) & 1,
        linha < 8 ==> r.escravo == m.escravo,
{
    if linha >= 16 {
        return m;
    }
    if linha < 8 {
        let r = Mascaras { mestre: m.mestre & !(1u8 << linha), escravo: m.escravo };
        proof {
            lemma_desligar(m.mestre, linha, linha);
            assert forall|o: u8| o < 8 && o != linha implies (passa(r, o) <==> #[trigger] passa(m, o)) by {
                lemma_desligar(m.mestre, linha, o);
            }
        }
        return r;
    }
    let dela: u8 = linha - 8;
    let r = Mascaras {
        mestre: m.mestre & !(1u8 << IRQ_CASCATA),
        escravo: m.escravo & !(1u8 << dela),
    };
    proof {
        lemma_desligar(m.mestre, IRQ_CASCATA, IRQ_CASCATA);
        lemma_desligar(m.escravo, dela, dela);
        assert forall|o: u8| o < 8 && o != IRQ_CASCATA implies (passa(r, o) <==> #[trigger] passa(m, o)) by {
            lemma_desligar(m.mestre, IRQ_CASCATA, o);
        }
        assert forall|o: u8| 8 <= o && o < 16 && o != linha implies #[trigger] (r.escravo >> ((o
            - 8) as u8)) & 1 == (m.escravo >> ((o - 8) as u8)) & 1 by {
            let j = (o - 8) as u8;
            let e = m.escravo;
            assert(((e & !(1u8 << dela)) >> j) & 1 == (e >> j) & 1) by (bit_vector)
                requires
                    dela < 8,
                    j < 8,
                    dela != j,
            ;
        }
    }
    r
}

/// Holds a line back. The line that the slave hangs on is left alone: its other
/// lines may need it. There are sixteen lines.
pub fn mascarar(m: Mascaras, linha: u8) -> (r: Mascaras)
    ensures
        r == mascarada(m, linha),
        linha < 16 ==> !passa(r, linha),
        forall|o: u8| o < 8 && o != linha ==> (passa(r, o) <==> #[trigger] passa(m, o)),
        forall|o: u8|
            8 <= o && o < 16 && o != linha ==> #[trigger] (r.escravo >> ((o - 8) as u8)) & 1 == (
            m.escravo >> ((o - 8) as u8)) & 1,
{
    if linha >= 16 {
        return m;
    }
    if linha < 8 {
        let r = Mascaras { mestre: m.mestre | (1u8 << linha), escravo: m.escravo };
        proof {
            lemma_ligar(m.mestre, linha, linha);
            assert forall|o: u8| o < 8 && o != linha implies (passa(r, o) <==> #[trigger] passa(m, o)) by {
                lemma_ligar(m.mestre, linha, o);
            }
        }
        return r;
    }
    let dela: u8 = linha - 8;
    let r = Mascaras { mestre: m.mestre, escravo: m.escravo | (1u8 << dela) };
    proof {
        assert forall|j: u8| j < 8 implies #[trigger] (r.escravo >> j) & 1 == if j == dela {
            1
        } else {
            (m.escravo >> j) & 1
        } by {
            let e = m.escravo;
            assert(((e | (1u8 << dela)) >> j) & 1 == if j == dela {
                1
            } else {
                (e >> j) & 1
            }) by (bit_vector)
                requires
                    dela < 8,
                    j < 8,
            ;
        }
        assert((r.escravo >> dela) & 1 == 1);
    }
    r
}

/// Holding a line back undoes letting it through, for a line that was held
/// back: both masks are as they were, but for the line that the slave hangs on,
/// which stays open.
pub proof fn lei_mascarar_desfaz(m: Mascaras, linha: u8)
    requires
        linha < 16,
        retida(m, linha),
    ensures
        ({
            let r = mascarada(desmascarada(m, linha), linha);
            &&& r.escravo == m.escravo
            &&& r.mestre == if linha < 8 {
                m.mestre
            } else {
                m.mestre & !(1u8 << IRQ_CASCATA)
            }
        }),
{
    let (x, i) = if linha < 8 {
        (m.mestre, linha)
    } else {
        (m.escravo, (linha - 8) as u8)
    };
    assert((x & !(1u8 << i)) | (1u8 << i) == x) by (bit_vector)
        requires
            i < 8,
            (x >> i) & 1 == 1,
    ;
}

/// How the timer of the board is set.
#[derive(Clone, Copy, Debug, PartialEq, Eq, Structural)]
pub struct Programa {
    pub divisor: u16,
    /// The low byte of the divisor, which is written first.
    pub baixo: u8,
    /// The high byte.
    pub alto: u8,
    /// The rate that comes out of it.
    pub hz: u32,
}

/// The divisor for a rate, between 1 and 65535.
pub open spec fn divisor_para(hz_desejado: u32) -> int {
    let d = FREQUENCIA_BASE_PIT as int / hz_desejado as int;
    if d < 1 {
        1
    } else if d > 65535 {
        65535
    } else {
        d
    }
}

/// How to set the timer for a rate.
pub fn programar_timer(hz_desejado: u32) -> (r: Programa)
    requires
        hz_desejado > 0,
    ensures
        r.divisor == divisor_para(hz_desejado),
        r.baixo == r.divisor % 256,
        r.alto == r.divisor / 256,
        r.hz == FREQUENCIA_BASE_PIT as int / r.divisor as int,
{
    let d: u32 = FREQUENCIA_BASE_PIT / hz_desejado;
    let limitado: u32 = if d < 1 {
        1
    } else if d > 65535 {
        65535
    } else {
        d
    };
    let divisor: u16 = limitado as u16;
    Programa {
        divisor,
        baixo: (divisor % 256) as u8,
        alto: (divisor / 256) as u8,
        hz: FREQUENCIA_BASE_PIT / limitado,
    }
}

/// Which controllers are told that an interrupt was handled: the slave, for
/// one of its lines, and the master in any case.
pub fn fim_de_interrupcao(vetor: u8) -> (r: bool)
    ensures
        r == (vetor >= OFFSET_ESCRAVO),
{
    vetor >= OFFSET_ESCRAVO
}

/// The divisor of the board's timer: the largest that fires at least as often as was
/// asked, between 1 and 65535.
pub proof fn lei_divisor(hz: u32)
    requires
        hz > 0,
    ensures
        1 <= divisor_para(hz) <= 65535,
        hz <= 1193182 ==> divisor_para(hz) * hz <= 1193182,
        divisor_para(hz) < 65535 ==> 1193182 < (divisor_para(hz) + 1) * hz,
{
    let f: int = 1193182;
    let n = hz as int;
    let q = f / n;
    vstd::arithmetic::div_mod::lemma_fundamental_div_mod(f, n);
    vstd::arithmetic::div_mod::lemma_mod_bound(f, n);
    assert(q * n <= f && f < (q + 1) * n) by (nonlinear_arith)
        requires
            f == n * q + f % n,
            0 <= f % n < n,
    ;
    if n <= f {
        assert(q >= 1) by (nonlinear_arith)
            requires
                f < (q + 1) * n,
                n <= f,
                n > 0,
        ;
        let d = divisor_para(hz);
        assert(d * n <= f) by (nonlinear_arith)
            requires
                q * n <= f,
                d <= q,
                n > 0,
        ;
    } else {
        assert(q < 1) by (nonlinear_arith)
            requires
                q * n <= f,
                n > f,
                f > 0,
        ;
        assert(f < 2 * n);
    }
}

/// Letting a line through lets it through, and holding one back holds it; neither
/// holds back or lets through any other, but for the line that the slave hangs on,
/// which goes with any line of it that is let through.
pub proof fn lei_so_a_linha_muda(m: Mascaras, linha: u8, outra: u8)
    requires
        linha < 16,
        outra < 16,
        outra != linha,
    ensures
        passa(desmascarada(m, linha), linha),
        retida(mascarada(m, linha), linha),
        !passa(mascarada(m, linha), linha),
        linha < 8 || outra != 2 ==> retida(desmascarada(m, linha), outra) == retida(m, outra),
        retida(mascarada(m, linha), outra) == retida(m, outra),
{
    let i = if linha < 8 {
        linha
    } else {
        (linha - 8) as u8
    };
    let j = if outra < 8 {
        outra
    } else {
        (outra - 8) as u8
    };
    lemma_desligar(m.mestre, i, j);
    lemma_desligar(m.mestre, i, i);
    lemma_desligar(m.mestre, 2, j);
    lemma_desligar(m.mestre, 2, 2);
    lemma_desligar(m.escravo, i, j);
    lemma_desligar(m.escravo, i, i);
    lemma_ligar(m.mestre, i, j);
    lemma_ligar(m.mestre, i, i);
    lemma_ligar(m.escravo, i, j);
    lemma_ligar(m.escravo, i, i);
    lemma_um_bit(m.mestre, m.escravo, j);
    lemma_um_bit(desmascarada(m, linha).mestre, desmascarada(m, linha).escravo, j);
    lemma_um_bit(mascarada(m, linha).mestre, mascarada(m, linha).escravo, j);
    lemma_um_bit(mascarada(m, linha).mestre, mascarada(m, linha).escravo, i);
}

proof fn lemma_um_bit(a: u8, b: u8, j: u8)
    requires
        j < 8,
    ensures
        (a >> j) & 1 == 0 || (a >> j) & 1 == 1,
        (b >> j) & 1 == 0 || (b >> j) & 1 == 1,
{
    assert(((a >> j) & 1 == 0 || (a >> j) & 1 == 1) && ((b >> j) & 1 == 0 || (b >> j) & 1 == 1))
        by (bit_vector);
}

/// Of the sixteen lines only the timer's and the keyboard's get through once the
/// controllers were started, and line `n` of the master is vector `32 + n`, of the
/// slave `40 + n`.
pub proof fn lei_so_timer_e_teclado(linha: u8)
    requires
        linha < 16,
    ensures
        ({
            let s = sequencia_spec();
            let m = Mascaras { mestre: s[8].valor, escravo: s[9].valor };
            &&& s.len() == 10
            &&& passa(m, linha) <==> linha == 0 || linha == 1
            &&& s[8].porta == 0x21 && s[9].porta == 0xA1
            &&& s[2].porta == 0x21 && s[2].valor + linha == 32 + linha
            &&& s[3].porta == 0xA1 && s[3].valor + linha == 40 + linha
            &&& s[0].porta == 0x20 && s[0].valor == 0x11
            &&& s[1].porta == 0xA0 && s[1].valor == 0x11
            &&& s[4].porta == 0x21 && s[4].valor == 4
            &&& s[5].porta == 0xA1 && s[5].valor == 2
            &&& s[6].porta == 0x21 && s[6].valor == 1
            &&& s[7].porta == 0xA1 && s[7].valor == 1
        }),
{
    let i = if linha < 8 {
        linha
    } else {
        (linha - 8) as u8
    };
    assert(((0xFCu8 >> i) & 1 == 0 <==> i == 0 || i == 1) && (0xFFu8 >> i) & 1 == 1) by (bit_vector)
        requires
            i < 8,
    ;
}

} // verus!
