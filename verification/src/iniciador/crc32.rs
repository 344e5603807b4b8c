//! The CRC-32 of Ethernet, which the firmware writes in the headers of its
//! tables.
use vstd::prelude::*;

verus! {

/// The polynomial, with the most significant term in the lowest bit.
pub const POLINOMIO: u32 = 0xEDB8_8320;

/// One step of the division by the polynomial.
pub open spec fn bit(v: u32) -> u32 {
    if v & 1 != 0 {
        (v >> 1) ^ POLINOMIO
    } else {
        v >> 1
    }
}

/// Eight steps: those of a byte.
pub open spec fn oito(v: u32) -> u32 {
    bit(bit(bit(bit(bit(bit(bit(bit(v))))))))
}

/// What comes of a running sum after some bytes.
pub open spec fn somado(s: u32, dados: Seq<u8>) -> u32
    decreases dados.len(),
{
    if dados.len() == 0 {
        s
    } else {
        oito(somado(s, dados.drop_last()) ^ (dados.last() as u32))
    }
}

/// The CRC-32 of some bytes.
pub open spec fn crc(dados: Seq<u8>) -> u32 {
    !somado(0xFFFF_FFFF, dados)
}

/// The division is linear: its steps on a whole word are those on its low byte
/// and a shift of the rest.
proof fn lemma_tabela(v: u32)
    ensures
        oito(v) == (v >> 8) ^ oito(v & 0xFF),
{
    assert(oito(v) == (v >> 8) ^ oito(v & 0xFF)) by (bit_vector);
}

/// The steps of every byte, worked out once.
pub open spec fn tabela_spec() -> Seq<u32> {
    Seq::new(256, |i: int| oito(i as u32))
}

/// One step of the division.
fn passo(v: u32) -> (r: u32)
    ensures
        r == bit(v),
{
    if v & 1 != 0 {
        (v >> 1) ^ POLINOMIO
    } else {
        v >> 1
    }
}

/// The steps of every byte.
fn tabela() -> (r: Vec<u32>)
    ensures
        r@ == tabela_spec(),
{
    let mut t: Vec<u32> = Vec::new();
    let mut i: u32 = 0;
    while i < 256
        invariant
            i <= 256,
            t@.len() == i,
            forall|j: int| 0 <= j < i ==> #[trigger] t@[j] == oito(j as u32),
        decreases 256 - i,
    {
        let v: u32 = passo(passo(passo(passo(passo(passo(passo(passo(i))))))));
        t.push(v);
        i = i + 1;
    }
    proof {
        assert(t@ =~= tabela_spec());
    }
    t
}

/// A sum that is not over yet, for bytes that are not all in one piece.
pub struct Parcial {
    valor: u32,
    tabela: Vec<u32>,
}

impl Parcial {
    /// The running sum.
    pub closed spec fn valor(&self) -> u32 {
        self.valor
    }

    pub closed spec fn wf(&self) -> bool {
        self.tabela@ == tabela_spec()
    }

    /// Before the first byte.
    pub fn nova() -> (r: Parcial)
        ensures
            r.wf(),
            r.valor() == 0xFFFF_FFFF,
    {
        Parcial { valor: 0xFFFF_FFFF, tabela: tabela() }
    }

    /// Goes on with some bytes.
    pub fn somar(&mut self, dados: &[u8])
        requires
            old(self).wf(),
        ensures
            final(self).wf(),
            final(self).valor() == somado(old(self).valor(), dados@),
    {
        let mut i: usize = 0;
        let ghost s0 = self.valor;
        proof {
            assert(dados@.take(0) =~= Seq::<u8>::empty());
        }
        while i < dados.len()
            invariant
                i <= dados@.len(),
                self.tabela@ == tabela_spec(),
                self.valor == somado(s0, dados@.take(i as int)),
            decreases dados@.len() - i,
        {
            let x: u32 = self.valor ^ (dados[i] as u32);
            let baixo: u32 = x & 0xFF;
            let antes: u32 = self.valor;
            let b: u32 = dados[i] as u32;
            proof {
                assert(x & 0xFF <= 0xFF) by (bit_vector);
                assert((antes ^ b) >> 8 == antes >> 8) by (bit_vector)
                    requires
                        b <= 0xFF,
                ;
                lemma_tabela(x);
                assert(dados@.take(i + 1).drop_last() =~= dados@.take(i as int));
                assert(dados@.take(i + 1).last() == dados@[i as int]);
            }
            self.valor = (self.valor >> 8) ^ self.tabela[baixo as usize];
            i = i + 1;
        }
        proof {
            assert(dados@.take(i as int) =~= dados@);
        }
    }

    /// The CRC of the bytes so far.
    pub fn terminar(&self) -> (r: u32)
        ensures
            r == !self.valor(),
    {
        !self.valor
    }
}

/// Bytes may come in pieces: the sum of two pieces, one after the other, is
/// that of the whole.
pub proof fn lei_pedacos(s: u32, a: Seq<u8>, b: Seq<u8>)
    ensures
        somado(somado(s, a), b) == somado(s, a + b),
    decreases b.len(),
{
    if b.len() == 0 {
        assert(a + b =~= a);
    } else {
        lei_pedacos(s, a, b.drop_last());
        assert((a + b).drop_last() =~= a + b.drop_last());
    }
}

/// The CRC of some bytes, written after them with the least significant byte first,
/// brings every running sum to the same value, whatever the bytes are: this is how a
/// receiver knows that nothing changed on the way.
pub proof fn lei_residuo(dados: Seq<u8>)
    ensures
        ({
            let c = crc(dados);
            let fim = seq![
                (c & 0xFF) as u8,
                ((c >> 8) & 0xFF) as u8,
                ((c >> 16) & 0xFF) as u8,
                ((c >> 24) & 0xFF) as u8,
            ];
            somado(0xFFFF_FFFF, dados + fim) == 0xDEBB_20E3
        }),
{
    let s = somado(0xFFFF_FFFF, dados);
    let c = crc(dados);
    let fim = seq![
        (c & 0xFF) as u8,
        ((c >> 8) & 0xFF) as u8,
        ((c >> 16) & 0xFF) as u8,
        ((c >> 24) & 0xFF) as u8,
    ];
    lei_pedacos(0xFFFF_FFFF, dados, fim);
    let (b0, b1, b2, b3) = (fim[0] as u32, fim[1] as u32, fim[2] as u32, fim[3] as u32);
    let s1 = oito(s ^ b0);
    let s2 = oito(s1 ^ b1);
    let s3 = oito(s2 ^ b2);
    let s4 = oito(s3 ^ b3);
    lemma_quatro_bytes(s, fim);
    assert(b0 == c & 0xFF && b1 == (c >> 8) & 0xFF && b2 == (c >> 16) & 0xFF && b3 == (c >> 24)
        & 0xFF) by (bit_vector)
        requires
            b0 == ((c & 0xFF) as u8) as u32,
            b1 == (((c >> 8) & 0xFF) as u8) as u32,
            b2 == (((c >> 16) & 0xFF) as u8) as u32,
            b3 == (((c >> 24) & 0xFF) as u8) as u32,
    ;
    lemma_tabela(s ^ b0);
    lemma_tabela(s1 ^ b1);
    lemma_tabela(s2 ^ b2);
    lemma_tabela(s3 ^ b3);
    let (t0, t1, t2, t3) = (
        oito((s ^ b0) & 0xFF),
        oito((s1 ^ b1) & 0xFF),
        oito((s2 ^ b2) & 0xFF),
        oito((s3 ^ b3) & 0xFF),
    );
    assert(oito(0xFFu32) == 0x2D02_EF8D && oito(0x72u32) == 0xBE0B_1010 && oito(0u32) == 0 && oito(0xEDu32)
        == 0xDEBB_9EC5) by (bit_vector);
    assert((s ^ b0) & 0xFF == 0xFF && (t0 == 0x2D02_EF8D ==> (s1 ^ b1) & 0xFF == 0x72) && (t0
        == 0x2D02_EF8D && t1 == 0xBE0B_1010 ==> (s2 ^ b2) & 0xFF == 0) && (t0 == 0x2D02_EF8D && t1
        == 0xBE0B_1010 && t2 == 0 ==> (s3 ^ b3) & 0xFF == 0xED) && (t0 == 0x2D02_EF8D && t1
        == 0xBE0B_1010 && t2 == 0 && t3 == 0xDEBB_9EC5 ==> s4 == 0xDEBB_20E3)) by (bit_vector)
        requires
            c == !s,
            b0 == c & 0xFF,
            b1 == (c >> 8) & 0xFF,
            b2 == (c >> 16) & 0xFF,
            b3 == (c >> 24) & 0xFF,
            s1 == ((s ^ b0) >> 8) ^ t0,
            s2 == ((s1 ^ b1) >> 8) ^ t1,
            s3 == ((s2 ^ b2) >> 8) ^ t2,
            s4 == ((s3 ^ b3) >> 8) ^ t3,
    ;
}

proof fn lemma_quatro_bytes(s: u32, b: Seq<u8>)
    requires
        b.len() == 4,
    ensures
        somado(s, b) == oito(
            oito(oito(oito(s ^ (b[0] as u32)) ^ (b[1] as u32)) ^ (b[2] as u32)) ^ (b[3] as u32),
        ),
{
    let (c1, c2, c3) = (b.drop_last(), b.drop_last().drop_last(), b.drop_last().drop_last().drop_last());
    assert(c3.drop_last() =~= Seq::<u8>::empty());
    assert(somado(s, c3.drop_last()) == s);
    assert(somado(s, c3) == oito(s ^ (b[0] as u32)));
    assert(somado(s, c2) == oito(somado(s, c3) ^ (b[1] as u32)));
    assert(somado(s, c1) == oito(somado(s, c2) ^ (b[2] as u32)));
}

} // verus!
