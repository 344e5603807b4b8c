//! A line of text of a fixed size.
use vstd::prelude::*;

verus! {

/// How many bytes a line holds.
pub const CAPACIDADE: usize = 128;

/// How many units of the name of the firmware are read, where it has no end.
pub const MAIOR_NOME: usize = 64;

/// A line of text. What does not fit is left out, a whole character at a time.
pub struct Linha {
    texto: String,
    quantos: usize,
}

/// How many bytes a character takes.
pub open spec fn largura(c: char) -> int {
    vstd::utf8::encode_scalar(c as u32).len() as int
}

/// How many bytes a text takes.
pub open spec fn bytes_de(s: Seq<char>) -> int
    decreases s.len(),
{
    if s.len() == 0 {
        0
    } else {
        bytes_de(s.drop_last()) + largura(s.last())
    }
}

/// What a line that holds `antes` holds after a text is written to it: as much
/// of the text as fits.
pub open spec fn cabendo(antes: Seq<char>, texto: Seq<char>) -> Seq<char>
    decreases texto.len(),
{
    if texto.len() == 0 || bytes_de(antes) + largura(texto[0]) > CAPACIDADE {
        antes
    } else {
        cabendo(antes.push(texto[0]), texto.skip(1))
    }
}

/// How many bytes a character takes.
fn largura_de(c: char) -> (r: usize)
    ensures
        r == largura(c),
        1 <= r <= 4,
{
    let u: u32 = c as u32;
    proof {
        vstd::utf8::char_is_scalar(c);
    }
    if u < 0x80 {
        1
    } else if u < 0x800 {
        2
    } else if u < 0x1_0000 {
        3
    } else {
        4
    }
}

impl Linha {
    pub closed spec fn view(&self) -> Seq<char> {
        self.texto@
    }

    pub closed spec fn wf(&self) -> bool {
        &&& self.quantos == bytes_de(self.texto@)
        &&& self.quantos <= CAPACIDADE
    }

    /// An empty line.
    pub fn nova() -> (r: Linha)
        ensures
            r.wf(),
            r@ == Seq::<char>::empty(),
    {
        Linha { texto: String::new(), quantos: 0 }
    }

    /// The text of the line.
    pub fn como_str(&self) -> (r: &str)
        ensures
            r@ == self@,
    {
        self.texto.as_str()
    }

    /// A line never takes more bytes than it holds.
    pub proof fn lei_linha_cabe(&self)
        requires
            self.wf(),
        ensures
            bytes_de(self@) <= CAPACIDADE,
    {
    }

    /// Writes a character, if it fits.
    fn caractere(&mut self, c: char) -> (r: bool)
        requires
            old(self).wf(),
        ensures
            final(self).wf(),
            r == (bytes_de(old(self)@) + largura(c) <= CAPACIDADE),
            final(self)@ == if r {
                old(self)@.push(c)
            } else {
                old(self)@
            },
    {
        let n: usize = largura_de(c);
        if self.quantos + n > CAPACIDADE {
            return false;
        }
        let ghost antes = self.texto@;
        self.texto.push(c);
        self.quantos = self.quantos + n;
        proof {
            assert(self.texto@.drop_last() =~= antes);
        }
        true
    }

    /// Writes as much of a text as fits.
    pub fn write_str(&mut self, texto: &str)
        requires
            old(self).wf(),
        ensures
            final(self).wf(),
            final(self)@ == cabendo(old(self)@, texto@),
    {
        let n: usize = texto.unicode_len();
        let mut i: usize = 0;
        proof {
            assert(texto@.skip(0) =~= texto@);
        }
        while i < n
            invariant
                n == texto@.len(),
                i <= n,
                self.wf(),
                cabendo(self@, texto@.skip(i as int)) == cabendo(old(self)@, texto@),
            decreases n - i,
        {
            proof {
                assert(texto@.skip(i as int)[0] == texto@[i as int]);
                assert(texto@.skip(i as int).skip(1) =~= texto@.skip(i + 1));
            }
            if !self.caractere(texto.get_char(i)) {
                return;
            }
            i = i + 1;
        }
    }
}

/// What a unit of a name is shown as: itself, where it is printable ASCII.
pub open spec fn mostrado(unidade: u16) -> char {
    if 0x20 <= unidade < 0x7F {
        unidade as char
    } else {
        '?'
    }
}

/// The text of a name: its units up to the first zero, and not more than
/// [`MAIOR_NOME`] of them.
pub open spec fn nome_de(unidades: Seq<u16>, i: int) -> Seq<char>
    decreases MAIOR_NOME - i,
{
    if i < 0 || i >= MAIOR_NOME || i >= unidades.len() || unidades[i] == 0 {
        Seq::empty()
    } else {
        seq![mostrado(unidades[i])] + nome_de(unidades, i + 1)
    }
}

/// Writes a name, which the firmware gives as units of 16 bits that end in a
/// zero. Characters that are not ASCII are shown as `?`.
pub fn escrever_utf16(destino: &mut Linha, unidades: Option<&[u16]>)
    requires
        old(destino).wf(),
    ensures
        final(destino).wf(),
        final(destino)@ == match unidades {
            None => cabendo(old(destino)@, "<sem nome>"@),
            Some(u) => cada_um(old(destino)@, nome_de(u@, 0)),
        },
{
    let u: &[u16] = match unidades {
        None => {
            destino.write_str("<sem nome>");
            return;
        },
        Some(u) => u,
    };
    let mut i: usize = 0;
    let ghost alvo = cada_um(destino@, nome_de(u@, 0));
    while i < MAIOR_NOME && i < u.len() && u[i] != 0
        invariant
            destino.wf(),
            i <= MAIOR_NOME,
            i <= u@.len(),
            cada_um(destino@, nome_de(u@, i as int)) == alvo,
        decreases MAIOR_NOME - i,
    {
        let unidade: u16 = u[i];
        let c: char = if 0x20 <= unidade && unidade < 0x7F {
            unidade as u8 as char
        } else {
            '?'
        };
        proof {
            let resto = nome_de(u@, i as int);
            assert(resto[0] == mostrado(u@[i as int]));
            assert(resto.skip(1) =~= nome_de(u@, i + 1));
        }
        let _ = destino.caractere(c);
        i = i + 1;
    }
}

/// What a line holds after the characters of a text are written to it one by
/// one: each that fits.
pub open spec fn cada_um(antes: Seq<char>, texto: Seq<char>) -> Seq<char>
    decreases texto.len(),
{
    if texto.len() == 0 {
        antes
    } else if bytes_de(antes) + largura(texto[0]) > CAPACIDADE {
        cada_um(antes, texto.skip(1))
    } else {
        cada_um(antes.push(texto[0]), texto.skip(1))
    }
}

/// A text that fits is written whole, at once or one character at a time.
pub proof fn lei_o_que_cabe_entra(antes: Seq<char>, texto: Seq<char>)
    requires
        bytes_de(antes) + bytes_de(texto) <= CAPACIDADE,
    ensures
        cabendo(antes, texto) == antes + texto,
        cada_um(antes, texto) == antes + texto,
    decreases texto.len(),
{
    if texto.len() == 0 {
        assert(antes + texto =~= antes);
    } else {
        let primeiro = seq![texto[0]];
        let resto = texto.skip(1);
        assert(primeiro + resto =~= texto);
        lemma_bytes_soma(primeiro, resto);
        lemma_bytes_soma(antes, primeiro);
        assert(antes + primeiro =~= antes.push(texto[0]));
        assert(primeiro.drop_last() =~= Seq::<char>::empty());
        assert(bytes_de(primeiro) == largura(texto[0])) by {
            reveal_with_fuel(bytes_de, 2);
            assert(primeiro.last() == texto[0]);
        }
        lemma_bytes_positivos(resto);
        lei_o_que_cabe_entra(antes.push(texto[0]), resto);
        assert(antes.push(texto[0]) + resto =~= antes + texto);
    }
}

proof fn lemma_bytes_positivos(s: Seq<char>)
    ensures
        0 <= bytes_de(s),
    decreases s.len(),
{
    if s.len() > 0 {
        lemma_bytes_positivos(s.drop_last());
    }
}

proof fn lemma_bytes_soma(a: Seq<char>, b: Seq<char>)
    ensures
        bytes_de(a + b) == bytes_de(a) + bytes_de(b),
    decreases b.len(),
{
    if b.len() == 0 {
        assert(a + b =~= a);
    } else {
        assert((a + b).drop_last() =~= a + b.drop_last());
        lemma_bytes_soma(a, b.drop_last());
    }
}

/// The count of bytes of a line is that of its text in UTF-8.
pub proof fn lei_conta_em_utf8(s: Seq<char>)
    ensures
        bytes_de(s) == vstd::utf8::encode_utf8(s).len(),
    decreases s.len(),
{
    if s.len() > 0 {
        let resto = s.drop_first();
        lei_conta_em_utf8(resto);
        lemma_bytes_soma(seq![s[0]], resto);
        assert(seq![s[0]] + resto =~= s);
        assert(seq![s[0]].drop_last() =~= Seq::<char>::empty());
        assert(bytes_de(seq![s[0]]) == largura(s[0])) by {
            reveal_with_fuel(bytes_de, 2);
            assert(seq![s[0]].last() == s[0]);
        }
    }
}

/// A unit of a name is shown as itself where it is printable, and as a question mark
/// where it is not.
pub proof fn lei_mostrado(unidade: u16)
    ensures
        ' ' <= mostrado(unidade) <= '~',
        0x20 <= unidade <= 0x7E ==> mostrado(unidade) as int == unidade,
        !(0x20 <= unidade <= 0x7E) ==> mostrado(unidade) == '?',
{
}

/// A name is shown up to its first zero, unit by unit, and not beyond 64 units.
pub proof fn lei_nome(unidades: Seq<u16>, i: int, j: int)
    requires
        0 <= i <= 64,
    ensures
        ({
            let s = nome_de(unidades, i);
            &&& i + s.len() <= 64
            &&& i <= unidades.len() ==> i + s.len() <= unidades.len()
            &&& 0 <= j < s.len() ==> unidades[i + j] != 0 && s[j] == mostrado(unidades[i + j])
            &&& i + s.len() == 64 || i + s.len() >= unidades.len() || unidades[i + s.len()] == 0
        }),
    decreases 64 - i,
{
    if !(i >= 64 || i >= unidades.len() || unidades[i] == 0) {
        lei_nome(unidades, i + 1, j - 1);
        let r = nome_de(unidades, i + 1);
        let s = nome_de(unidades, i);
        assert(s == seq![mostrado(unidades[i])] + r);
        if 0 < j < s.len() {
            assert(s[j] == r[j - 1]);
        }
    }
}

} // verus!
