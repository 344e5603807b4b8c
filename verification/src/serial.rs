//! The output through a serial port that may stop draining.
use vstd::prelude::*;

verus! {

/// How many looks at a full port a piece of output may cost.
pub const VOLTAS_ESPERANDO_A_FIFO: u32 = 10_000_000;

/// How the output is going.
#[derive(Clone, Copy, Debug, PartialEq, Eq, Structural)]
pub struct Saida {
    /// Bytes that were lost, modulo the width of the counter.
    pub perdidos: u64,
    /// The port did not drain the last time.
    pub travada: bool,
}

impl Saida {
    /// Nothing was lost, and the port drains.
    pub open spec fn nova_spec() -> Saida {
        Saida { perdidos: 0, travada: false }
    }

    /// The looks that the next piece of output may cost.
    pub open spec fn orcamento(self) -> u32 {
        if self.travada {
            0
        } else {
            VOLTAS_ESPERANDO_A_FIFO
        }
    }

    /// Nothing was lost, and the port drains.
    pub fn nova() -> (r: Saida)
        ensures
            r == Saida::nova_spec(),
    {
        Saida { perdidos: 0, travada: false }
    }
}

/// The looks that the next piece of output may cost: none, while the port is
/// taken to be stuck.
pub fn orcamento_de_saida(s: &Saida) -> (r: u32)
    ensures
        r == s.orcamento(),
{
    if s.travada {
        0
    } else {
        VOLTAS_ESPERANDO_A_FIFO
    }
}

/// A byte went out: the port drains.
pub fn saida_fluiu(s: &mut Saida)
    ensures
        *final(s) == (Saida { travada: false, ..*old(s) }),
{
    if s.travada {
        s.travada = false;
    }
}

/// Counts bytes that the port did not take.
pub fn perder_saida(s: &mut Saida, quantos: u64)
    ensures
        *final(s) == (Saida { perdidos: old(s).perdidos.wrapping_add(quantos), travada: true }),
{
    s.travada = true;
    s.perdidos = s.perdidos.wrapping_add(quantos);
}

/// How many bytes were lost.
pub fn bytes_de_saida_perdidos(s: &Saida) -> (r: u64)
    ensures
        r == s.perdidos,
{
    s.perdidos
}

/// A piece of output that is on its way.
#[derive(Clone, Copy, Debug, PartialEq, Eq, Structural)]
pub struct Envio {
    /// How many bytes there are.
    pub total: usize,
    /// How many went out.
    pub enviados: usize,
    /// How many looks at a full port are left, for the whole piece.
    pub orcamento: u32,
}

/// What to do with the port.
#[derive(Clone, Copy, Debug, PartialEq, Eq, Structural)]
pub enum Gesto {
    /// Write the byte at this place.
    Escrever(usize),
    /// Look again.
    Esperar,
    /// Nothing more: the rest is lost.
    Desistir,
}

/// What is done at a look at the port, and what becomes of the piece and of the
/// output.
pub open spec fn passo(s: Saida, e: Envio, cheia: bool) -> (Gesto, Saida, Envio) {
    if !cheia {
        (
            Gesto::Escrever(e.enviados),
            Saida { travada: false, ..s },
            Envio { enviados: (e.enviados + 1) as usize, ..e },
        )
    } else if e.orcamento == 0 {
        (
            Gesto::Desistir,
            Saida {
                perdidos: s.perdidos.wrapping_add((e.total - e.enviados) as u64),
                travada: true,
            },
            e,
        )
    } else {
        (Gesto::Esperar, s, Envio { orcamento: (e.orcamento - 1) as u32, ..e })
    }
}

impl Envio {
    /// The piece before its first byte.
    pub open spec fn novo_spec(s: Saida, total: usize) -> Envio {
        Envio { total, enviados: 0, orcamento: s.orcamento() }
    }

    /// Something is left to write.
    pub open spec fn resta(self) -> bool {
        self.enviados < self.total
    }

    /// How many looks at the port are left at most.
    pub open spec fn olhadas(self) -> int {
        self.total - self.enviados + self.orcamento
    }

    /// The piece before its first byte.
    pub fn novo(s: &Saida, total: usize) -> (r: Envio)
        ensures
            r == Envio::novo_spec(*s, total),
    {
        Envio { total, enviados: 0, orcamento: orcamento_de_saida(s) }
    }

    /// Is something left to write?
    pub fn falta(&self) -> (r: bool)
        ensures
            r == self.resta(),
    {
        self.enviados < self.total
    }

    /// What to do at a look at the port, given whether it is full.
    ///
    /// No piece of output hangs: every look but the last leaves fewer.
    pub fn olhar(&mut self, s: &mut Saida, cheia: bool) -> (r: Gesto)
        requires
            old(self).resta(),
        ensures
            (r, *final(s), *final(self)) == passo(*old(s), *old(self), cheia),
            r != Gesto::Desistir ==> 0 <= final(self).olhadas() < old(self).olhadas(),
    {
        if !cheia {
            let i: usize = self.enviados;
            self.enviados = i + 1;
            saida_fluiu(s);
            return Gesto::Escrever(i);
        }
        if self.orcamento == 0 {
            perder_saida(s, (self.total - self.enviados) as u64);
            return Gesto::Desistir;
        }
        self.orcamento = self.orcamento - 1;
        Gesto::Esperar
    }
}

/// A stuck port costs its looks once: after a piece was given up, the next one
/// is given up at the first look at a port that is still full.
pub proof fn lei_porta_parada_custa_uma_vez(s: Saida, e: Envio, total: usize)
    requires
        e.resta(),
        e.orcamento == 0,
    ensures
        ({
            let depois = passo(s, e, true).1;
            passo(depois, Envio::novo_spec(depois, total), true).0 == Gesto::Desistir
        }),
{
}

/// A port that drains again is used again: one byte that goes out gives the
/// whole allowance back.
pub proof fn lei_recupera_sozinha(s: Saida, e: Envio, total: usize)
    requires
        e.resta(),
    ensures
        Envio::novo_spec(passo(s, e, false).1, total).orcamento == VOLTAS_ESPERANDO_A_FIFO,
{
}

/// A byte is written where the port has room, the next one of the piece; where it
/// has none, the port is looked at again as long as the piece may cost it, and then
/// what is left of the piece is lost, all of it.
pub proof fn lei_olhada(s: Saida, e: Envio, cheia: bool)
    requires
        e.enviados < e.total,
    ensures
        ({
            let (g, t, f) = passo(s, e, cheia);
            &&& f.total == e.total
            &&& !cheia ==> g == Gesto::Escrever(e.enviados) && f.enviados == e.enviados + 1 && f.orcamento
                == e.orcamento && t.perdidos == s.perdidos && !t.travada
            &&& cheia && e.orcamento > 0 ==> g is Esperar && f.enviados == e.enviados && f.orcamento
                == e.orcamento - 1 && t == s
            &&& cheia && e.orcamento == 0 ==> g is Desistir && t.travada && (s.perdidos + (e.total
                - e.enviados) <= u64::MAX ==> t.perdidos == s.perdidos + (e.total - e.enviados))
        }),
{
}

/// A piece starts at its first byte, and may cost looks at the port only where the
/// last one did not find it stuck.
pub proof fn lei_envio_novo(s: Saida, total: usize)
    ensures
        Envio::novo_spec(s, total).enviados == 0,
        Envio::novo_spec(s, total).total == total,
        s.travada <==> Envio::novo_spec(s, total).orcamento == 0,
        Envio::novo_spec(s, total).resta() <==> total > 0,
{
}

} // verus!
