//! The first serial port, before there is anything else to speak through.
use vstd::prelude::*;

verus! {

/// The first serial port.
pub const COM1: u16 = 0x3F8;

/// The register with the state of the line.
pub const ESTADO_DA_LINHA: u16 = 5;

/// In the state of the line: a byte can be sent.
pub const PODE_TRANSMITIR: u8 = 0x20;

/// A write to a register of the port.
#[derive(Clone, Copy, Debug, PartialEq, Eq, Structural)]
pub struct Escrita {
    pub registro: u16,
    pub valor: u8,
}

/// The writes that set the port: no interrupts, the divisor of the rate, eight
/// bits without parity, the queues on, and the lines of the modem on.
pub open spec fn sequencia_spec() -> Seq<Escrita> {
    seq![
        Escrita { registro: 1, valor: 0x00 },
        Escrita { registro: 3, valor: 0x80 },
        Escrita { registro: 0, valor: 0x03 },
        Escrita { registro: 1, valor: 0x00 },
        Escrita { registro: 3, valor: 0x03 },
        Escrita { registro: 2, valor: 0xC7 },
        Escrita { registro: 4, valor: 0x0B },
    ]
}

/// The writes that set the port, in order.
pub fn init() -> (r: Vec<Escrita>)
    ensures
        r@ == sequencia_spec(),
{
    let r = vec![
        Escrita { registro: 1, valor: 0x00 },
        Escrita { registro: 3, valor: 0x80 },
        Escrita { registro: 0, valor: 0x03 },
        Escrita { registro: 1, valor: 0x00 },
        Escrita { registro: 3, valor: 0x03 },
        Escrita { registro: 2, valor: 0xC7 },
        Escrita { registro: 4, valor: 0x0B },
    ];
    proof {
        assert(r@ =~= sequencia_spec());
    }
    r
}

/// Can a byte be sent, given the state of the line?
pub fn pode_transmitir(estado: u8) -> (r: bool)
    ensures
        r == (estado & PODE_TRANSMITIR != 0),
{
    estado & PODE_TRANSMITIR != 0
}

/// The port as a place to write text to.
pub struct Serial;

/// The bytes that go out for some bytes of text: a terminal that only gets a
/// new line stays in its column, so it gets a return first.
pub open spec fn para_terminal(texto: Seq<u8>) -> Seq<u8>
    decreases texto.len(),
{
    if texto.len() == 0 {
        Seq::empty()
    } else {
        let antes = para_terminal(texto.drop_last());
        if texto.last() == 10 {
            antes.push(13).push(10)
        } else {
            antes.push(texto.last())
        }
    }
}

impl Serial {
    /// The bytes that go out for a text.
    pub fn write_str(&self, texto: &str) -> (r: Vec<u8>)
        ensures
            r@ == para_terminal(vstd::utf8::encode_utf8(texto@)),
    {
        let bytes = texto.as_bytes();
        let mut r: Vec<u8> = Vec::new();
        let mut i: usize = 0;
        proof {
            assert(bytes@.take(0) =~= Seq::<u8>::empty());
        }
        while i < bytes.len()
            invariant
                i <= bytes@.len(),
                r@ == para_terminal(bytes@.take(i as int)),
            decreases bytes@.len() - i,
        {
            proof {
                assert(bytes@.take(i + 1).drop_last() =~= bytes@.take(i as int));
                assert(bytes@.take(i + 1).last() == bytes@[i as int]);
            }
            if bytes[i] == 10 {
                r.push(13);
            }
            r.push(bytes[i]);
            i = i + 1;
        }
        proof {
            assert(bytes@.take(i as int) =~= bytes@);
        }
        r
    }
}

/// A terminal gets every byte of a text, in order, with a return before each end of
/// line and nothing else.
pub proof fn lei_para_terminal(s: Seq<u8>, t: Seq<u8>, b: u8)
    ensures
        para_terminal(s + t) == para_terminal(s) + para_terminal(t),
        para_terminal(seq![10u8]) == seq![13u8, 10u8],
        b != 10 ==> para_terminal(seq![b]) == seq![b],
        para_terminal(Seq::empty()) == Seq::<u8>::empty(),
    decreases t.len(),
{
    let (u, v) = (seq![10u8], seq![b]);
    assert(u.drop_last() =~= Seq::<u8>::empty());
    assert(v.drop_last() =~= Seq::<u8>::empty());
    reveal_with_fuel(para_terminal, 2);
    assert(para_terminal(u) =~= seq![13u8, 10u8]);
    if b != 10 {
        assert(para_terminal(v) =~= v);
    }
    if t.len() == 0 {
        assert(s + t =~= s);
        assert(para_terminal(s) + para_terminal(t) =~= para_terminal(s));
    } else {
        let r = t.drop_last();
        assert((s + t).drop_last() =~= s + r);
        lei_para_terminal(s, r, b);
        assert(para_terminal(s + t) =~= para_terminal(s) + para_terminal(t));
    }
}

} // verus!
