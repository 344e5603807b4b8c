//! The interrupt controller: numbers of lines, and what to do about each
//! interrupt.
use vstd::prelude::*;

use crate::fios::Escalonador;
use crate::irq::Linhas;

verus! {

/// The line of the timer of the processor.
pub const INTID_TIMER: u32 = 30;

/// The line of the serial port.
pub const INTID_UART: u32 = 33;

/// What the controller answers where no interrupt is pending.
pub const INTID_ESPURIO: u32 = 1023;

/// Lines that the controller can route.
pub const LINHAS: u32 = 1020;

/// Which register enables a line, and what is written in it.
pub open spec fn habilitacao(intid: u32) -> (int, u32) {
    (intid as int / 32, 1u32 << (intid % 32))
}

/// The register that enables a line and the word that is written in it. A bit
/// that is zero in the word leaves its line as it is.
pub fn habilitar_linha(intid: u32) -> (r: (usize, u32))
    requires
        intid < 1024,
    ensures
        r.0 == habilitacao(intid).0,
        r.0 < 32,
        r.1 == habilitacao(intid).1,
{
    ((intid / 32) as usize, 1u32 << (intid % 32))
}

/// The word that enables a line enables that line and no other.
pub proof fn lei_habilita_uma_linha(intid: u32, outra: u32)
    requires
        intid < 1024,
        outra < 1024,
    ensures
        (habilitacao(intid).0 == outra as int / 32 && crate::bits::bit32(
            habilitacao(intid).1,
            outra % 32,
        )) <==> intid == outra,
{
    let i = intid % 32;
    let j = outra % 32;
    assert(crate::bits::bit32(1u32 << i, j) == (i == j)) by (bit_vector)
        requires
            i < 32,
            j < 32,
    ;
}

/// What it takes to enable a line that is shared between processors.
#[derive(Clone, Copy, Debug, PartialEq, Eq, Structural)]
pub struct Rota {
    /// The register with the target, where the first processor is written.
    pub alvo: usize,
    /// The register that enables the line.
    pub indice: usize,
    /// What is written in the register that enables the line.
    pub valor: u32,
}

/// What it takes to enable a shared line, or `None` for a line that the
/// controller does not have.
pub fn habilitar_spi(intid: u32) -> (r: Option<Rota>)
    ensures
        match r {
            Some(rota) => intid < LINHAS && rota.alvo == intid && rota.indice == habilitacao(intid).0
                && rota.valor == habilitacao(intid).1,
            None => intid >= LINHAS,
        },
{
    if intid >= LINHAS {
        return None;
    }
    let (indice, valor) = habilitar_linha(intid);
    Some(Rota { alvo: intid as usize, indice, valor })
}

/// The number of the line that a device tree calls by a type and a number.
/// The type 0 is for shared lines, which come after the 32 private ones; the
/// type 1 is for those of a processor, which come after the 16 that programs
/// raise.
pub open spec fn intid_spec(tipo: u32, numero: u32) -> Option<u32> {
    let intid = if tipo == 0 {
        32 + numero
    } else if tipo == 1 {
        16 + numero
    } else {
        LINHAS as int
    };
    if intid < LINHAS {
        Some(intid as u32)
    } else {
        None
    }
}

/// The number of the line that a device tree calls by a type and a number.
pub fn intid_de(tipo: u32, numero: u32) -> (r: Option<u32>)
    ensures
        r == intid_spec(tipo, numero),
{
    let primeira: u32 = match tipo {
        0 => 32,
        1 => 16,
        _ => {
            return None;
        },
    };
    match primeira.checked_add(numero) {
        None => None,
        Some(intid) => if intid < LINHAS {
            Some(intid)
        } else {
            None
        },
    }
}

/// How the timer is set.
#[derive(Clone, Copy, Debug, PartialEq, Eq, Structural)]
pub struct Ritmo {
    /// Counts of the processor's counter between two interrupts.
    pub intervalo: u32,
    /// Interrupts per second that come out of it.
    pub hz: u32,
}

/// The interval that comes closest to a rate, from below or exact, and the
/// rate that comes out of it. A rate beyond the counter's gives an interrupt
/// per count.
pub fn init_timer(frequencia: u32, hz_desejado: u32) -> (r: Ritmo)
    requires
        hz_desejado > 0,
    ensures
        r.intervalo == if frequencia / hz_desejado == 0 {
            1
        } else {
            frequencia / hz_desejado
        },
        r.hz == frequencia / r.intervalo,
        frequencia >= hz_desejado ==> r.hz >= hz_desejado,
        frequencia < hz_desejado ==> r.hz == frequencia,
{
    let contagens: u32 = frequencia / hz_desejado;
    let intervalo: u32 = if contagens == 0 {
        1
    } else {
        contagens
    };
    let hz: u32 = frequencia / intervalo;
    proof {
        let f = frequencia as int;
        let h = hz_desejado as int;
        let i = intervalo as int;
        if f >= h {
            vstd::arithmetic::div_mod::lemma_div_non_zero(f, h);
            vstd::arithmetic::div_mod::lemma_fundamental_div_mod(f, h);
            vstd::arithmetic::mul::lemma_mul_is_commutative(h, i);
            assert(h * i <= f);
            vstd::arithmetic::div_mod::lemma_div_is_ordered(i * h, f, i);
            vstd::arithmetic::div_mod::lemma_div_multiples_vanish(h, i);
        } else {
            vstd::arithmetic::div_mod::lemma_basic_div(f, h);
        }
    }
    Ritmo { intervalo, hz }
}

/// Whose interrupt it is.
#[derive(Clone, Copy, Debug, PartialEq, Eq, Structural)]
pub enum Fonte {
    /// The timer: count the tick and set the timer again.
    Timer,
    /// The serial port: collect what arrived.
    Uart,
    /// A device of the bus: look at each of those on this line.
    Dispositivo,
}

/// An interrupt that was acknowledged and counted.
#[derive(Clone, Copy, Debug, PartialEq, Eq, Structural)]
pub struct Atendida {
    /// What the controller is told at the end.
    pub intid: u32,
    pub fonte: Fonte,
    /// The quantum of the thread ran out.
    pub preemptar: bool,
}

/// The number of the line in what the controller answers: its ten low bits.
pub open spec fn reconhecida(iar: u32) -> u32 {
    (iar % 1024) as u32
}

/// What to do about an interrupt, given what the controller answered. Where
/// none is pending nothing is counted, and the controller is told nothing.
pub fn tratar<C, D>(linhas: &mut Linhas, e: &mut Escalonador<C, D>, iar: u32) -> (r: Option<
    Atendida,
>)
    requires
        old(linhas).wf(),
        old(e).wf(),
    ensures
        final(linhas).wf(),
        final(e).wf(),
        final(linhas).nomes() == old(linhas).nomes(),
        r == (if reconhecida(iar) == INTID_ESPURIO {
            None::<Atendida>
        } else if reconhecida(iar) == INTID_TIMER {
            Some(
                Atendida {
                    intid: INTID_TIMER,
                    fonte: Fonte::Timer,
                    preemptar: !old(e).congelado() && old(e).ligado() && old(e).quantum() == 1,
                },
            )
        } else if reconhecida(iar) == INTID_UART {
            Some(Atendida { intid: INTID_UART, fonte: Fonte::Uart, preemptar: false })
        } else {
            Some(
                Atendida {
                    intid: reconhecida(iar),
                    fonte: Fonte::Dispositivo,
                    preemptar: false,
                },
            )
        }),
        match r {
            None => *final(linhas) == *old(linhas) && *final(e) == *old(e),
            Some(a) => {
                &&& final(linhas).total_spec() == old(linhas).total_spec().wrapping_add(1)
                &&& a.intid < crate::irq::MAX_LINHAS ==> final(linhas).contadores() == old(linhas).contadores().update(
                    a.intid as int,
                    old(linhas).contadores()[a.intid as int].wrapping_add(1),
                ) && final(linhas).fora() == old(linhas).fora()
                &&& a.intid >= crate::irq::MAX_LINHAS ==> final(linhas).contadores() == old(linhas).contadores() && final(linhas).fora() == old(linhas).fora().wrapping_add(1)
                &&& a.fonte != Fonte::Timer ==> *final(e) == *old(e)
                &&& a.fonte == Fonte::Timer ==> crate::fios::bateu(old(e), final(e), a.preemptar)
            },
        },
{
    let intid: u32 = iar % 1024;
    if intid == INTID_ESPURIO {
        return None;
    }
    let mut preemptar: bool = false;
    let fonte = if intid == INTID_TIMER {
        preemptar = crate::fios::tique(e);
        Fonte::Timer
    } else if intid == INTID_UART {
        Fonte::Uart
    } else {
        Fonte::Dispositivo
    };
    crate::irq::contabilizar(linhas, intid as usize);
    Some(Atendida { intid, fonte, preemptar })
}

/// A shared line comes after the 32 private ones, and a private one after the 16
/// that programs raise; no other kind is known, and no line from 1020 on.
pub proof fn lei_intid(tipo: u32, numero: u32)
    ensures
        tipo == 0 && numero < 988 ==> intid_spec(tipo, numero) is Some && intid_spec(tipo, numero)->0
            - numero == 32,
        tipo == 1 && numero < 1004 ==> intid_spec(tipo, numero) is Some && intid_spec(tipo, numero)->0
            - numero == 16,
        intid_spec(tipo, numero) is Some <==> (tipo == 0 && numero < 988) || (tipo == 1 && numero
            < 1004),
{
}

/// The line is in the ten low bits of what the controller answers.
pub proof fn lei_reconhecida(iar: u32)
    ensures
        reconhecida(iar) == iar & 0x3FF,
{
    assert(iar % 1024 == iar & 0x3FF) by (bit_vector);
}

} // verus!
