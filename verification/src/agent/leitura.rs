//! Reading JSON by scanning: a value is a slice of the bytes it came in, and
//! every question about it is answered by walking those bytes.
use vstd::prelude::*;

use crate::texto::{aparar, de_utf8, iguais, ler_numero};

verus! {

/// One of the bytes JSON allows between tokens.
pub open spec fn espaco(b: u8) -> bool {
    b == 32 || b == 9 || b == 10 || b == 13
}

/// Where the white space that starts at `i` ends.
pub open spec fn apos_espacos(b: Seq<u8>, i: int) -> int
    decreases b.len() - i,
{
    if 0 <= i < b.len() && espaco(b[i]) {
        apos_espacos(b, i + 1)
    } else {
        i
    }
}

/// Where a string ends whose inside continues at `i`: just past the closing
/// quote. A backslash takes the next byte with it, whatever it is.
pub open spec fn apos_corpo(b: Seq<u8>, i: int) -> Option<int>
    decreases
        if i < b.len() {
            b.len() - i
        } else {
            0
        },
{
    if i < 0 || i >= b.len() {
        None
    } else if b[i] == 92 {
        apos_corpo(b, i + 2)
    } else if b[i] == 34 {
        Some(i + 1)
    } else {
        apos_corpo(b, i + 1)
    }
}

/// Where the string that opens at `i` ends.
pub open spec fn apos_string(b: Seq<u8>, i: int) -> Option<int> {
    if 0 <= i < b.len() && b[i] == 34 {
        apos_corpo(b, i + 1)
    } else {
        None
    }
}

pub proof fn lemma_apos_corpo(b: Seq<u8>, i: int)
    ensures
        match apos_corpo(b, i) {
            Some(j) => i < j <= b.len() && b[j - 1] == 34,
            None => true,
        },
    decreases
        if i < b.len() {
            b.len() - i
        } else {
            0
        },
{
    if 0 <= i < b.len() {
        if b[i] == 92 {
            lemma_apos_corpo(b, i + 2);
        } else if b[i] != 34 {
            lemma_apos_corpo(b, i + 1);
        }
    }
}

pub proof fn lemma_apos_espacos(b: Seq<u8>, i: int)
    requires
        0 <= i <= b.len(),
    ensures
        i <= apos_espacos(b, i) <= b.len(),
    decreases b.len() - i,
{
    if i < b.len() && espaco(b[i]) {
        lemma_apos_espacos(b, i + 1);
    }
}

/// Where a container ends, seen from `i` with `nivel` of its kind open. Strings
/// are skipped whole, so a bracket inside one counts for nothing.
pub open spec fn apos_nivel(b: Seq<u8>, i: int, abre: u8, fecha: u8, nivel: int) -> Option<int>
    decreases b.len() - i,
{
    if i < 0 || i >= b.len() {
        None
    } else if b[i] == 34 {
        match apos_string(b, i) {
            Some(j) => {
                proof {
                    lemma_apos_corpo(b, i + 1);
                }
                apos_nivel(b, j, abre, fecha, nivel)
            },
            None => None,
        }
    } else if b[i] == abre {
        apos_nivel(b, i + 1, abre, fecha, nivel + 1)
    } else if b[i] == fecha {
        if nivel == 1 {
            Some(i + 1)
        } else {
            apos_nivel(b, i + 1, abre, fecha, nivel - 1)
        }
    } else {
        apos_nivel(b, i + 1, abre, fecha, nivel)
    }
}

/// Where the container that opens at `i` ends.
pub open spec fn apos_container(b: Seq<u8>, i: int, abre: u8, fecha: u8) -> Option<int> {
    if 0 <= i < b.len() && b[i] == abre {
        apos_nivel(b, i, abre, fecha, 0)
    } else {
        None
    }
}

/// A byte that ends a number, `true`, `false` or `null`.
pub open spec fn delimitador(b: u8) -> bool {
    b == 44 || b == 125 || b == 93 || espaco(b)
}

/// Where the run of bytes that starts at `i` and holds no delimiter ends.
pub open spec fn apos_atomo(b: Seq<u8>, i: int) -> int
    decreases b.len() - i,
{
    if 0 <= i < b.len() && !delimitador(b[i]) {
        apos_atomo(b, i + 1)
    } else {
        i
    }
}

pub proof fn lemma_apos_atomo(b: Seq<u8>, i: int)
    requires
        0 <= i <= b.len(),
    ensures
        i <= apos_atomo(b, i) <= b.len(),
    decreases b.len() - i,
{
    if i < b.len() && !delimitador(b[i]) {
        lemma_apos_atomo(b, i + 1);
    }
}

/// Where the value that starts at `i`, after white space, ends.
pub open spec fn apos_valor(b: Seq<u8>, i: int) -> Option<int> {
    let k = apos_espacos(b, i);
    if k < 0 || k >= b.len() {
        None
    } else if b[k] == 34 {
        apos_string(b, k)
    } else if b[k] == 123 {
        apos_container(b, k, 123, 125)
    } else if b[k] == 91 {
        apos_container(b, k, 91, 93)
    } else if apos_atomo(b, k) > k {
        Some(apos_atomo(b, k))
    } else {
        None
    }
}

pub proof fn lemma_apos_nivel(b: Seq<u8>, i: int, abre: u8, fecha: u8, nivel: int)
    ensures
        match apos_nivel(b, i, abre, fecha, nivel) {
            Some(j) => i < j <= b.len(),
            None => true,
        },
    decreases b.len() - i,
{
    if 0 <= i < b.len() {
        if b[i] == 34 {
            lemma_apos_corpo(b, i + 1);
            if let Some(j) = apos_string(b, i) {
                lemma_apos_nivel(b, j, abre, fecha, nivel);
            }
        } else if b[i] == abre {
            lemma_apos_nivel(b, i + 1, abre, fecha, nivel + 1);
        } else if b[i] == fecha {
            lemma_apos_nivel(b, i + 1, abre, fecha, nivel - 1);
        } else {
            lemma_apos_nivel(b, i + 1, abre, fecha, nivel);
        }
    }
}

pub proof fn lemma_apos_valor(b: Seq<u8>, i: int)
    requires
        0 <= i <= b.len(),
    ensures
        match apos_valor(b, i) {
            Some(j) => i < j <= b.len(),
            None => true,
        },
{
    lemma_apos_espacos(b, i);
    let k = apos_espacos(b, i);
    if k < b.len() {
        lemma_apos_corpo(b, k + 1);
        lemma_apos_nivel(b, k, 123, 125, 0);
        lemma_apos_nivel(b, k, 91, 93, 0);
        lemma_apos_atomo(b, k);
    }
}

/// A field of an object: where its key (quotes and all) and its value lie.
pub struct Membro {
    pub chave: (int, int),
    pub valor: (int, int),
}

/// The field of an object that begins with a quote at `i`.
pub open spec fn membro_em(b: Seq<u8>, i: int) -> Option<Membro> {
    match apos_string(b, i) {
        None => None,
        Some(fim_chave) => {
            let dois_pontos = apos_espacos(b, fim_chave);
            if 0 <= dois_pontos < b.len() && b[dois_pontos] == 58 {
                let valor = apos_espacos(b, dois_pontos + 1);
                match apos_valor(b, valor) {
                    Some(fim) => Some(
                        Membro { chave: (i, fim_chave), valor: (valor, fim) },
                    ),
                    None => None,
                }
            } else {
                None
            }
        },
    }
}

pub proof fn lemma_membro_em(b: Seq<u8>, i: int)
    requires
        0 <= i,
    ensures
        match membro_em(b, i) {
            Some(m) => {
                &&& m.chave.0 == i
                &&& i + 2 <= m.chave.1 < m.valor.0 < m.valor.1 <= b.len()
                &&& b[i] == 34
                &&& b[m.chave.1 - 1] == 34
            },
            None => true,
        },
{
    lemma_apos_corpo(b, i + 1);
    if let Some(fim_chave) = apos_string(b, i) {
        lemma_apos_espacos(b, fim_chave);
        let d = apos_espacos(b, fim_chave);
        if d < b.len() {
            lemma_apos_espacos(b, d + 1);
            lemma_apos_valor(b, apos_espacos(b, d + 1));
        }
    }
}

/// The fields of the object whose inside continues at `i`, in order, up to its
/// end or to the first thing that is not a field.
pub open spec fn membros_de(b: Seq<u8>, i: int) -> Seq<Membro>
    decreases b.len() - i,
{
    let k = apos_espacos(b, i);
    if i < 0 || k < i || k >= b.len() {
        Seq::empty()
    } else if b[k] == 44 {
        membros_de(b, k + 1)
    } else if b[k] == 34 {
        match membro_em(b, k) {
            None => Seq::empty(),
            Some(m) => {
                proof {
                    lemma_membro_em(b, k);
                }
                seq![m] + membros_de(b, m.valor.1)
            },
        }
    } else {
        Seq::empty()
    }
}

/// The fields of an object, in order. Anything else has none.
pub open spec fn membros(b: Seq<u8>) -> Seq<Membro> {
    let i = apos_espacos(b, 0);
    if 0 <= i < b.len() && b[i] == 123 {
        membros_de(b, i + 1)
    } else {
        Seq::empty()
    }
}

/// Well-formed fields lead from `i` to the brace that closes the object.
pub open spec fn fecha_de(b: Seq<u8>, i: int) -> bool
    decreases b.len() - i,
{
    let k = apos_espacos(b, i);
    if i < 0 || k < i || k >= b.len() {
        false
    } else if b[k] == 44 {
        fecha_de(b, k + 1)
    } else if b[k] == 34 {
        match membro_em(b, k) {
            None => false,
            Some(m) => {
                proof {
                    lemma_membro_em(b, k);
                }
                fecha_de(b, m.valor.1)
            },
        }
    } else {
        b[k] == 125
    }
}

/// An object whose fields are well-formed up to the brace that closes it.
pub open spec fn objeto_fechado(b: Seq<u8>) -> bool {
    let i = apos_espacos(b, 0);
    0 <= i < b.len() && b[i] == 123 && fecha_de(b, i + 1)
}

/// The bytes of a key, between its quotes.
pub open spec fn nome_do(b: Seq<u8>, m: Membro) -> Seq<u8> {
    b.subrange(m.chave.0 + 1, m.chave.1 - 1)
}

/// The bytes of a value.
pub open spec fn valor_do(b: Seq<u8>, m: Membro) -> Seq<u8> {
    b.subrange(m.valor.0, m.valor.1)
}

/// The value of the first of the fields whose key is `chave`.
pub open spec fn primeiro_com(b: Seq<u8>, s: Seq<Membro>, chave: Seq<u8>) -> Option<Seq<u8>>
    decreases s.len(),
{
    if s.len() == 0 {
        None
    } else if nome_do(b, s[0]) == chave {
        Some(valor_do(b, s[0]))
    } else {
        primeiro_com(b, s.drop_first(), chave)
    }
}

/// The keys of the fields, as text, leaving out those that are not UTF-8.
pub open spec fn chaves_de(b: Seq<u8>, s: Seq<Membro>) -> Seq<Seq<char>>
    decreases s.len(),
{
    if s.len() == 0 {
        Seq::empty()
    } else {
        let resto = chaves_de(b, s.drop_first());
        if vstd::utf8::valid_utf8(nome_do(b, s[0])) {
            seq![vstd::utf8::decode_utf8(nome_do(b, s[0]))] + resto
        } else {
            resto
        }
    }
}

/// The keys of an object, as text. One that is malformed or cut off has none.
pub open spec fn chaves(b: Seq<u8>) -> Seq<Seq<char>> {
    if objeto_fechado(b) {
        chaves_de(b, membros(b))
    } else {
        Seq::empty()
    }
}

/// Skips white space.
fn pular_espacos(b: &[u8], de: usize) -> (r: usize)
    requires
        de <= b@.len(),
    ensures
        r == apos_espacos(b@, de as int),
        de <= r <= b@.len(),
{
    let mut i: usize = de;
    while i < b.len() && (b[i] == 32 || b[i] == 9 || b[i] == 10 || b[i] == 13)
        invariant
            de <= i <= b@.len(),
            apos_espacos(b@, de as int) == apos_espacos(b@, i as int),
        decreases b@.len() - i,
    {
        i = i + 1;
    }
    i
}

/// Skips a string.
fn pular_string(b: &[u8], de: usize) -> (r: Option<usize>)
    requires
        de <= b@.len(),
    ensures
        match r {
            Some(j) => apos_string(b@, de as int) == Some(j as int) && de < j <= b@.len(),
            None => apos_string(b@, de as int) is None,
        },
{
    if de >= b.len() || b[de] != 34 {
        return None;
    }
    let mut i: usize = de + 1;
    while i < b.len()
        invariant
            de < b@.len(),
            b@[de as int] == 34,
            de < i,
            apos_string(b@, de as int) == apos_corpo(b@, i as int),
        decreases b@.len() - i,
    {
        if b[i] == 92 {
            if b.len() - i <= 2 {
                proof {
                    assert(apos_corpo(b@, i as int) == apos_corpo(b@, i + 2));
                    assert(apos_corpo(b@, i + 2) is None);
                }
                return None;
            }
            i = i + 2;
        } else if b[i] == 34 {
            return Some(i + 1);
        } else {
            i = i + 1;
        }
    }
    None
}

/// Skips a whole object or array.
fn pular_container(b: &[u8], de: usize, abre: u8, fecha: u8) -> (r: Option<usize>)
    requires
        de <= b@.len(),
        abre != fecha,
        abre != 34,
    ensures
        match r {
            Some(j) => apos_container(b@, de as int, abre, fecha) == Some(j as int) && de < j
                <= b@.len(),
            None => apos_container(b@, de as int, abre, fecha) is None,
        },
{
    if de >= b.len() || b[de] != abre {
        return None;
    }
    let mut i: usize = de;
    let mut nivel: usize = 0;
    while i < b.len()
        invariant
            de < b@.len(),
            b@[de as int] == abre,
            abre != fecha,
            abre != 34,
            de <= i,
            nivel <= i,
            nivel == 0 ==> i == de,
            apos_container(b@, de as int, abre, fecha) == apos_nivel(
                b@,
                i as int,
                abre,
                fecha,
                nivel as int,
            ),
        decreases b@.len() - i,
    {
        let c: u8 = b[i];
        if c == 34 {
            match pular_string(b, i) {
                Some(j) => {
                    i = j;
                },
                None => {
                    return None;
                },
            }
        } else {
            if c == abre {
                nivel = nivel + 1;
            } else if c == fecha {
                nivel = nivel - 1;
                if nivel == 0 {
                    return Some(i + 1);
                }
            }
            i = i + 1;
        }
    }
    None
}

/// Skips a value.
fn pular_valor(b: &[u8], de: usize) -> (r: Option<usize>)
    requires
        de <= b@.len(),
    ensures
        match r {
            Some(j) => apos_valor(b@, de as int) == Some(j as int) && de < j <= b@.len(),
            None => apos_valor(b@, de as int) is None,
        },
{
    let i: usize = pular_espacos(b, de);
    if i >= b.len() {
        return None;
    }
    let c: u8 = b[i];
    if c == 34 {
        pular_string(b, i)
    } else if c == 123 {
        pular_container(b, i, 123, 125)
    } else if c == 91 {
        pular_container(b, i, 91, 93)
    } else {
        let mut j: usize = i;
        while j < b.len() && !(b[j] == 44 || b[j] == 125 || b[j] == 93 || b[j] == 32 || b[j] == 9 || b[j]
            == 10 || b[j] == 13)
            invariant
                i <= j <= b@.len(),
                apos_atomo(b@, i as int) == apos_atomo(b@, j as int),
            decreases b@.len() - j,
        {
            j = j + 1;
        }
        if j > i {
            Some(j)
        } else {
            None
        }
    }
}

/// A decimal digit.
pub open spec fn digito_ascii(b: u8) -> bool {
    48 <= b <= 57
}

/// Nothing but decimal digits.
pub open spec fn digitos_ascii(s: Seq<u8>) -> bool {
    forall|i: int| 0 <= i < s.len() ==> digito_ascii(#[trigger] s[i])
}

/// The integer part of a JSON number: digits, and no leading zero.
pub open spec fn inteiro_json(s: Seq<u8>) -> bool {
    s.len() > 0 && digitos_ascii(s) && (s[0] == 48 ==> s.len() == 1)
}

/// The fraction of a JSON number: nothing, or a point and digits.
pub open spec fn fracao_json(s: Seq<u8>) -> bool {
    s.len() == 0 || (s[0] == 46 && s.len() > 1 && digitos_ascii(s.skip(1)))
}

/// What follows the letter of an exponent: an optional sign, and digits.
pub open spec fn grandeza_json(s: Seq<u8>) -> bool {
    let d = if s.len() > 0 && (s[0] == 43 || s[0] == 45) {
        s.skip(1)
    } else {
        s
    };
    d.len() > 0 && digitos_ascii(d)
}

/// The exponent of a JSON number: nothing, or a letter, a sign and digits.
pub open spec fn expoente_json(s: Seq<u8>) -> bool {
    s.len() == 0 || ((s[0] == 101 || s[0] == 69) && grandeza_json(s.skip(1)))
}

/// Where the digits of a number start: after its minus sign, if it has one.
pub open spec fn apos_sinal(b: Seq<u8>) -> int {
    if b.len() > 0 && b[0] == 45 {
        1
    } else {
        0
    }
}

/// The number's integer part ends at `i` and its fraction at `f`.
pub open spec fn partes_do_numero(b: Seq<u8>, i: int, f: int) -> bool {
    &&& apos_sinal(b) <= i <= f <= b.len()
    &&& inteiro_json(b.subrange(apos_sinal(b), i))
    &&& fracao_json(b.subrange(i, f))
    &&& expoente_json(b.subrange(f, b.len() as int))
}

/// A JSON number: a sign, an integer, a fraction and an exponent, all but the
/// integer optional.
pub open spec fn numero_json(b: Seq<u8>) -> bool {
    exists|i: int, f: int| #[trigger] partes_do_numero(b, i, f)
}

/// A JSON string that can be copied into a document as it is.
pub open spec fn string_ecoavel(b: Seq<u8>) -> bool {
    &&& apos_string(b, 0) == Some(b.len() as int)
    &&& forall|i: int| 0 <= i < b.len() ==> #[trigger] b[i] >= 0x20
    &&& vstd::utf8::valid_utf8(b)
}

/// The bytes are a string's: quotes at both ends.
pub open spec fn entre_aspas(b: Seq<u8>) -> bool {
    b.len() >= 2 && b[0] == 34 && b[b.len() - 1] == 34
}

/// The texts of a list of strings.
pub open spec fn textos(v: Seq<&str>) -> Seq<Seq<char>> {
    Seq::new(v.len(), |i: int| v[i]@)
}

/// Skips digits.
fn pular_digitos(b: &[u8], de: usize) -> (r: usize)
    requires
        de <= b@.len(),
    ensures
        de <= r <= b@.len(),
        forall|j: int| de <= j < r ==> digito_ascii(#[trigger] b@[j]),
        r < b@.len() ==> !digito_ascii(b@[r as int]),
{
    let mut i: usize = de;
    while i < b.len() && 48 <= b[i] && b[i] <= 57
        invariant
            de <= i <= b@.len(),
            forall|j: int| de <= j < i ==> digito_ascii(#[trigger] b@[j]),
        decreases b@.len() - i,
    {
        i = i + 1;
    }
    i
}

/// The bytes of a JSON value.
#[derive(Clone, Copy, Debug)]
pub struct Json<'a>(pub &'a [u8]);

impl<'a> Json<'a> {
    /// The raw bytes as text, if they are UTF-8.
    pub fn raw_str(&self) -> (r: Option<&'a str>)
        ensures
            match r {
                Some(s) => vstd::utf8::valid_utf8(self.0@) && s@ == vstd::utf8::decode_utf8(self.0@),
                None => !vstd::utf8::valid_utf8(self.0@),
            },
    {
        de_utf8(self.0)
    }

    /// The value of a field, where this is an object. Only the object's own
    /// fields count, and the first of a repeated key.
    pub fn member(&self, chave: &str) -> (r: Option<Json<'a>>)
        ensures
            match r {
                Some(j) => primeiro_com(
                    self.0@,
                    membros(self.0@),
                    vstd::utf8::encode_utf8(chave@),
                ) == Some(j.0@),
                None => primeiro_com(
                    self.0@,
                    membros(self.0@),
                    vstd::utf8::encode_utf8(chave@),
                ) is None,
            },
    {
        let b: &'a [u8] = self.0;
        let procurada: &[u8] = chave.as_bytes();
        let mut i: usize = pular_espacos(b, 0);
        if i >= b.len() || b[i] != 123 {
            return None;
        }
        i = i + 1;
        loop
            invariant
                i <= b@.len(),
                b == self.0,
                procurada@ == vstd::utf8::encode_utf8(chave@),
                primeiro_com(b@, membros(b@), procurada@) == primeiro_com(
                    b@,
                    membros_de(b@, i as int),
                    procurada@,
                ),
            decreases b@.len() - i,
        {
            let k: usize = pular_espacos(b, i);
            if k >= b.len() {
                return None;
            }
            if b[k] == 44 {
                i = k + 1;
                continue;
            }
            if b[k] != 34 {
                return None;
            }
            match passar_membro(b, k) {
                None => {
                    return None;
                },
                Some((fim_chave, inicio_valor, fim_valor)) => {
                    let nome = &b[k + 1..fim_chave - 1];
                    proof {
                        let m = Membro {
                            chave: (k as int, fim_chave as int),
                            valor: (inicio_valor as int, fim_valor as int),
                        };
                        let todos = membros_de(b@, i as int);
                        assert(todos == seq![m] + membros_de(b@, fim_valor as int));
                        assert(todos.drop_first() =~= membros_de(b@, fim_valor as int));
                        assert(todos[0] == m);
                    }
                    if iguais(nome, procurada) {
                        return Some(Json(&b[inicio_valor..fim_valor]));
                    }
                    i = fim_valor;
                },
            }
        }
    }

    fn nenhuma_chave() -> (r: Vec<&'a str>)
        ensures
            textos(r@) == Seq::<Seq<char>>::empty(),
    {
        let r: Vec<&'a str> = Vec::new();
        proof {
            assert(textos(r@) =~= Seq::<Seq<char>>::empty());
        }
        r
    }

    /// The keys of this object's own fields, in order. Keys that are not UTF-8
    /// are left out. An object that is malformed or does not close has no keys.
    pub fn para_cada_chave(&self) -> (r: Vec<&'a str>)
        ensures
            textos(r@) == chaves(self.0@),
    {
        let b: &'a [u8] = self.0;
        let mut r: Vec<&'a str> = Vec::new();
        let mut i: usize = pular_espacos(b, 0);
        proof {
            assert(textos(r@) =~= Seq::<Seq<char>>::empty());
        }
        if i >= b.len() || b[i] != 123 {
            return r;
        }
        i = i + 1;
        loop
            invariant
                i <= b@.len(),
                b == self.0,
                objeto_fechado(b@) == fecha_de(b@, i as int),
                chaves_de(b@, membros(b@)) == textos(r@) + chaves_de(b@, membros_de(b@, i as int)),
            decreases b@.len() - i,
        {
            let k: usize = pular_espacos(b, i);
            if k < b.len() && b[k] == 44 {
                i = k + 1;
                continue;
            }
            if k < b.len() && b[k] == 125 {
                proof {
                    assert(chaves_de(b@, membros(b@)) =~= textos(r@));
                }
                return r;
            }
            if k >= b.len() || b[k] != 34 {
                return Self::nenhuma_chave();
            }
            match passar_membro(b, k) {
                None => {
                    return Self::nenhuma_chave();
                },
                Some((fim_chave, inicio_valor, fim_valor)) => {
                    let nome = &b[k + 1..fim_chave - 1];
                    let ghost antes = r@;
                    let ghost resto = membros_de(b@, fim_valor as int);
                    proof {
                        let m = Membro {
                            chave: (k as int, fim_chave as int),
                            valor: (inicio_valor as int, fim_valor as int),
                        };
                        let todos = membros_de(b@, i as int);
                        assert(todos == seq![m] + resto);
                        assert(todos.drop_first() =~= resto);
                        assert(todos[0] == m);
                    }
                    if let Some(chave) = de_utf8(nome) {
                        r.push(chave);
                        proof {
                            assert(textos(r@) =~= textos(antes).push(chave@));
                            assert(textos(r@) + chaves_de(b@, resto) =~= textos(antes) + (seq![chave@]
                                + chaves_de(b@, resto)));
                        }
                    }
                    i = fim_valor;
                },
            }
        }
    }

    /// The inside of a string, with its escapes as they are.
    pub fn as_str(&self) -> (r: Option<&'a str>)
        ensures
            ({
                let dentro = self.0@.subrange(1, self.0@.len() - 1);
                match r {
                    Some(s) => entre_aspas(self.0@) && vstd::utf8::valid_utf8(dentro) && s@
                        == vstd::utf8::decode_utf8(dentro),
                    None => !(entre_aspas(self.0@) && vstd::utf8::valid_utf8(dentro)),
                }
            }),
    {
        let b: &'a [u8] = self.0;
        if b.len() >= 2 && b[0] == 34 && b[b.len() - 1] == 34 {
            de_utf8(&b[1..b.len() - 1])
        } else {
            None
        }
    }

    /// The unsigned number this is, white space around it aside.
    pub fn as_u64(&self) -> (r: Option<u64>)
        ensures
            r == if vstd::utf8::valid_utf8(self.0@) {
                crate::texto::numero_de(
                    crate::texto::aparado(vstd::utf8::decode_utf8(self.0@)),
                )
            } else {
                None
            },
    {
        match de_utf8(self.0) {
            Some(s) => ler_numero(aparar(s)),
            None => None,
        }
    }

    pub fn as_bool(&self) -> (r: Option<bool>)
        ensures
            r == if self.0@ == seq![116u8, 114, 117, 101] {
                Some(true)
            } else if self.0@ == seq![102u8, 97, 108, 115, 101] {
                Some(false)
            } else {
                None
            },
    {
        let b: &[u8] = self.0;
        if b.len() == 4 && b[0] == 116 && b[1] == 114 && b[2] == 117 && b[3] == 101 {
            proof {
                assert(b@ =~= seq![116u8, 114, 117, 101]);
            }
            Some(true)
        } else if b.len() == 5 && b[0] == 102 && b[1] == 97 && b[2] == 108 && b[3] == 115 && b[4] == 101 {
            proof {
                assert(b@ =~= seq![102u8, 97, 108, 115, 101]);
            }
            Some(false)
        } else {
            None
        }
    }

    pub fn is_null(&self) -> (r: bool)
        ensures
            r == (self.0@ == seq![110u8, 117, 108, 108]),
    {
        let b: &[u8] = self.0;
        proof {
            if b@.len() == 4 && b@[0] == 110 && b@[1] == 117 && b@[2] == 108 && b@[3] == 108 {
                assert(b@ =~= seq![110u8, 117, 108, 108]);
            }
        }
        b.len() == 4 && b[0] == 110 && b[1] == 117 && b[2] == 108 && b[3] == 108
    }

    /// Is this a string that can be copied into a document as it is? It closes
    /// at its last byte, is UTF-8, and holds no raw control byte.
    pub fn e_string_ecoavel(&self) -> (r: bool)
        ensures
            r == string_ecoavel(self.0@),
    {
        let b: &[u8] = self.0;
        match pular_string(b, 0) {
            None => {
                return false;
            },
            Some(fim) => if fim != b.len() {
                return false;
            },
        }
        let mut i: usize = 0;
        while i < b.len()
            invariant
                i <= b@.len(),
                b == self.0,
                forall|j: int| 0 <= j < i ==> #[trigger] b@[j] >= 0x20,
            decreases b@.len() - i,
        {
            if b[i] < 0x20 {
                return false;
            }
            i = i + 1;
        }
        de_utf8(b).is_some()
    }

    /// Is this a well-formed JSON number?
    #[verifier::spinoff_prover]
    #[verifier::rlimit(40)]
    pub fn e_numero(&self) -> (r: bool)
        ensures
            r == numero_json(self.0@),
    {
        let b: &[u8] = self.0;
        let ghost n = b@.len() as int;
        let s: usize = if b.len() > 0 && b[0] == 45 {
            1
        } else {
            0
        };
        if s >= b.len() || !(48 <= b[s] && b[s] <= 57) {
            proof {
                assert forall|iw: int, fw: int| !(#[trigger] partes_do_numero(b@, iw, fw)) by {
                    if partes_do_numero(b@, iw, fw) {
                        let t = b@.subrange(s as int, iw);
                        assert(digito_ascii(t[0]));
                    }
                }
            }
            return false;
        }
        let i: usize = if b[s] == 48 {
            s + 1
        } else {
            pular_digitos(b, s)
        };
        proof {
            assert forall|iw: int, fw: int| #[trigger] partes_do_numero(b@, iw, fw) implies iw == i by {
                lemma_fim_do_inteiro(b@, i as int, iw, fw);
            }
            let t = b@.subrange(s as int, i as int);
            assert(inteiro_json(t));
        }
        let mut f: usize = i;
        if i < b.len() && b[i] == 46 {
            f = pular_digitos(b, i + 1);
            if f == i + 1 {
                proof {
                    assert forall|iw: int, fw: int| !(#[trigger] partes_do_numero(b@, iw, fw)) by {
                        if partes_do_numero(b@, iw, fw) {
                            lemma_fim_da_fracao(b@, i as int, f as int, fw);
                            let t = b@.subrange(iw, fw);
                            assert(t.len() == 1);
                        }
                    }
                }
                return false;
            }
            proof {
                let t = b@.subrange(i as int, f as int);
                assert forall|j: int| 0 <= j < t.skip(1).len() implies digito_ascii(#[trigger] t.skip(1)[j]) by {
                    assert(t.skip(1)[j] == b@[i + 1 + j]);
                }
                assert(fracao_json(t));
            }
        }
        proof {
            assert forall|iw: int, fw: int| #[trigger] partes_do_numero(b@, iw, fw) implies fw == f by {
                lemma_fim_da_fracao(b@, i as int, f as int, fw);
            }
        }
        let ghost resto = b@.subrange(f as int, n);
        let mut k: usize = f;
        if f < b.len() && (b[f] == 101 || b[f] == 69) {
            k = f + 1;
            if k < b.len() && (b[k] == 43 || b[k] == 45) {
                k = k + 1;
            }
            let antes: usize = k;
            k = pular_digitos(b, antes);
            proof {
                let t = resto.skip(1);
                let d = if t.len() > 0 && (t[0] == 43 || t[0] == 45) {
                    t.skip(1)
                } else {
                    t
                };
                assert(d =~= b@.subrange(antes as int, n));
                if k == n && k > antes {
                    assert(digitos_ascii(d));
                } else if k < n {
                    assert(d[k - antes] == b@[k as int]);
                    assert(!digitos_ascii(d));
                }
            }
            if k == antes {
                proof {
                    assert(!expoente_json(resto));
                }
                return false;
            }
        }
        proof {
            assert(expoente_json(resto) == (k == n));
            if k == n {
                assert(partes_do_numero(b@, i as int, f as int));
            }
        }
        k == b.len()
    }
}

/// Every number's integer part ends where its run of digits does.
proof fn lemma_fim_do_inteiro(b: Seq<u8>, i: int, iw: int, fw: int)
    requires
        ({
            let s = apos_sinal(b);
            &&& s < i <= b.len()
            &&& s < b.len()
            &&& digito_ascii(b[s])
            &&& b[s] == 48 ==> i == s + 1
            &&& b[s] != 48 ==> {
                &&& forall|j: int| s <= j < i ==> digito_ascii(#[trigger] b[j])
                &&& i < b.len() ==> !digito_ascii(b[i])
            }
        }),
        partes_do_numero(b, iw, fw),
    ensures
        iw == i,
{
    let s = apos_sinal(b);
    let t = b.subrange(s, iw);
    assert(t[0] == b[s]);
    if b[s] != 48 {
        if iw > i {
            assert(t[i - s] == b[i]);
            assert(digito_ascii(t[i - s]));
        }
        if iw < i {
            assert(digito_ascii(b[iw]));
            let fr = b.subrange(iw, fw);
            let ex = b.subrange(fw, b.len() as int);
            if fr.len() > 0 {
                assert(fr[0] == b[iw]);
            } else {
                assert(ex[0] == b[iw]);
            }
        }
    }
}

/// Every number's fraction ends where its run of digits does.
proof fn lemma_fim_da_fracao(b: Seq<u8>, i: int, f: int, fw: int)
    requires
        0 <= i <= f <= b.len(),
        if i < b.len() && b[i] == 46 {
            &&& i + 1 <= f
            &&& forall|j: int| i + 1 <= j < f ==> digito_ascii(#[trigger] b[j])
            &&& f < b.len() ==> !digito_ascii(b[f])
        } else {
            f == i
        },
        partes_do_numero(b, i, fw),
    ensures
        fw == f,
{
    let fr = b.subrange(i, fw);
    let ex = b.subrange(fw, b.len() as int);
    if fr.len() == 0 {
        if i < b.len() {
            assert(ex[0] == b[i]);
        }
    } else {
        assert(fr[0] == b[i]);
        let d = fr.skip(1);
        if fw > f {
            assert(d[f - i - 1] == b[f]);
            assert(digito_ascii(d[f - i - 1]));
        }
        if fw < f {
            assert(ex[0] == b[fw]);
            assert(digito_ascii(b[fw]));
        }
    }
}

/// Walks over a field: where its key ends, its value starts, and it ends.
fn passar_membro(b: &[u8], k: usize) -> (r: Option<(usize, usize, usize)>)
    requires
        k < b@.len(),
    ensures
        match r {
            Some((fim_chave, inicio, fim)) => {
                &&& membro_em(b@, k as int) == Some(
                    Membro {
                        chave: (k as int, fim_chave as int),
                        valor: (inicio as int, fim as int),
                    },
                )
                &&& k + 2 <= fim_chave < inicio < fim <= b@.len()
            },
            None => membro_em(b@, k as int) is None,
        },
{
    match pular_string(b, k) {
        None => None,
        Some(fim_chave) => {
            proof {
                lemma_apos_corpo(b@, k + 1);
            }
            let d: usize = pular_espacos(b, fim_chave);
            if d >= b.len() || b[d] != 58 {
                return None;
            }
            let inicio: usize = pular_espacos(b, d + 1);
            match pular_valor(b, inicio) {
                None => None,
                Some(fim) => Some((fim_chave, inicio, fim)),
            }
        },
    }
}

proof fn lemma_bytes_altos(c: u32)
    by (bit_vector)
    ensures
        vstd::utf8::leading_byte_width_2(c) >= 0x80,
        vstd::utf8::leading_byte_width_3(c) >= 0x80,
        vstd::utf8::leading_byte_width_4(c) >= 0x80,
        vstd::utf8::last_continuation_byte(c) >= 0x80,
        vstd::utf8::second_last_continuation_byte(c) >= 0x80,
        vstd::utf8::third_last_continuation_byte(c) >= 0x80,
{
}

pub proof fn lemma_bytes_da_soma(a: Seq<char>, b: Seq<char>)
    ensures
        vstd::utf8::encode_utf8(a + b) == vstd::utf8::encode_utf8(a) + vstd::utf8::encode_utf8(b),
    decreases a.len(),
{
    if a.len() == 0 {
        assert(a + b =~= b);
        assert(vstd::utf8::encode_utf8(a) + vstd::utf8::encode_utf8(b) =~= vstd::utf8::encode_utf8(b));
    } else {
        assert((a + b).drop_first() =~= a.drop_first() + b);
        lemma_bytes_da_soma(a.drop_first(), b);
        assert(vstd::utf8::encode_utf8(a + b) =~= vstd::utf8::encode_utf8(a)
            + vstd::utf8::encode_utf8(b));
    }
}

/// Bytes that are neither a quote nor a backslash are passed one by one.
proof fn lemma_passa_comuns(b: Seq<u8>, i: int, n: int)
    requires
        0 <= i,
        0 <= n,
        i + n <= b.len(),
        forall|j: int| i <= j < i + n ==> #[trigger] b[j] != 34 && b[j] != 92,
    ensures
        apos_corpo(b, i) == apos_corpo(b, i + n),
    decreases n,
{
    if n > 0 {
        lemma_passa_comuns(b, i + 1, n - 1);
    }
}

/// The bytes `t` stand in `b` at `i`.
spec fn em(b: Seq<u8>, i: int, t: Seq<u8>) -> bool {
    0 <= i && i + t.len() <= b.len() && b.subrange(i, i + t.len()) == t
}

/// The scan passes an escaped character whole, and none of its bytes is a
/// control byte.
proof fn lemma_passa_caractere(b: Seq<u8>, i: int, c: char)
    requires
        em(b, i, vstd::utf8::encode_utf8(crate::agent::json::escapado_char(c))),
    ensures
        ({
            let t = vstd::utf8::encode_utf8(crate::agent::json::escapado_char(c));
            &&& apos_corpo(b, i) == apos_corpo(b, i + t.len())
            &&& forall|j: int| 0 <= j < t.len() ==> #[trigger] t[j] >= 0x20
        }),
{
    let e = crate::agent::json::escapado_char(c);
    let t = vstd::utf8::encode_utf8(e);
    assert forall|j: int| 0 <= j < t.len() implies b[i + j] == #[trigger] t[j] by {
        assert(b.subrange(i, i + t.len())[j] == b[i + j]);
    }
    if (c as u32) < 0x80 {
        if (c as u32) < 0x20 && c != '\n' && c != '\r' && c != '\t' {
            let v = c as u32 as nat;
            reveal_with_fuel(crate::texto::hex_fixo, 5);
            assert(e =~= seq![
                '\\',
                'u',
                '0',
                '0',
                crate::texto::digito((v / 16) as int),
                crate::texto::digito((v % 16) as int),
            ]);
        }
        assert(vstd::utf8::is_ascii_chars(e));
        vstd::utf8::is_ascii_chars_encode_utf8(e);
        assert forall|j: int| 0 <= j < t.len() implies #[trigger] t[j] == e[j] as u8 by {}
        if e[0] == '\\' {
            assert(t[0] == 92);
            assert(apos_corpo(b, i) == apos_corpo(b, i + 2));
            assert forall|j: int| i + 2 <= j < i + t.len() implies #[trigger] b[j] != 34 && b[j] != 92 by {
                assert(b[i + (j - i)] == t[j - i]);
                assert(t[j - i] == e[j - i] as u8);
            }
            lemma_passa_comuns(b, i + 2, t.len() - 2);
        } else {
            assert(t.len() == 1);
            assert(t[0] == e[0] as u8);
        }
    } else {
        lemma_bytes_altos(c as u32);
        assert(e =~= seq![c]);
        assert(e.drop_first() =~= Seq::<char>::empty());
        reveal_with_fuel(vstd::utf8::encode_utf8, 2);
        assert(t =~= vstd::utf8::encode_scalar(c as u32));
        assert forall|j: int| i <= j < i + t.len() implies #[trigger] b[j] != 34 && b[j] != 92 by {
            assert(b[i + (j - i)] == t[j - i]);
        }
        lemma_passa_comuns(b, i, t.len() as int);
    }
}

proof fn lemma_passa_escapado(b: Seq<u8>, i: int, s: Seq<char>)
    requires
        em(b, i, vstd::utf8::encode_utf8(crate::agent::json::escapado(s))),
    ensures
        ({
            let t = vstd::utf8::encode_utf8(crate::agent::json::escapado(s));
            &&& apos_corpo(b, i) == apos_corpo(b, i + t.len())
            &&& forall|j: int| 0 <= j < t.len() ==> #[trigger] t[j] >= 0x20
        }),
    decreases s.len(),
{
    if s.len() > 0 {
        let antes = crate::agent::json::escapado(s.drop_last());
        let ultimo = crate::agent::json::escapado_char(s.last());
        lemma_bytes_da_soma(antes, ultimo);
        let (x, y) = (vstd::utf8::encode_utf8(antes), vstd::utf8::encode_utf8(ultimo));
        let t = x + y;
        assert(b.subrange(i, i + x.len()) =~= t.subrange(0, x.len() as int));
        assert(t.subrange(0, x.len() as int) =~= x);
        assert(b.subrange(i + x.len(), i + x.len() + y.len()) =~= t.subrange(
            x.len() as int,
            t.len() as int,
        ));
        assert(t.subrange(x.len() as int, t.len() as int) =~= y);
        lemma_passa_escapado(b, i, s.drop_last());
        lemma_passa_caractere(b, i + x.len(), s.last());
    }
}

/// A string that the writer wrote can be echoed: its bytes are one whole JSON
/// string, in UTF-8, without a control byte; and its inside stands for the
/// text that was written.
pub proof fn lei_string_escrita_e_ecoavel(s: Seq<char>)
    ensures
        string_ecoavel(vstd::utf8::encode_utf8(crate::agent::json::string_json(s))),
        crate::agent::json::desescapado(crate::agent::json::escapado(s)) == Some(s),
{
    crate::agent::json::lei_escapado_e_lido_de_volta(s);
    let meio = crate::agent::json::escapado(s);
    let aspas = seq!['"'];
    let t = crate::agent::json::string_json(s);
    lemma_bytes_da_soma(aspas + meio, aspas);
    lemma_bytes_da_soma(aspas, meio);
    assert(vstd::utf8::is_ascii_chars(aspas));
    vstd::utf8::is_ascii_chars_encode_utf8(aspas);
    assert(aspas[0] as u8 == vstd::utf8::encode_utf8(aspas)[0]);
    assert(vstd::utf8::encode_utf8(aspas) =~= seq![34u8]);
    let (b, x) = (vstd::utf8::encode_utf8(t), vstd::utf8::encode_utf8(meio));
    assert(b == seq![34u8] + x + seq![34u8]);
    vstd::utf8::encode_utf8_valid_utf8(t);
    assert(b.subrange(1, 1int + x.len()) =~= x);
    lemma_passa_escapado(b, 1, s);
    assert(apos_corpo(b, 1int + x.len()) == Some(b.len() as int));
    assert forall|i: int| 0 <= i < b.len() implies #[trigger] b[i] >= 0x20 by {
        if 0 < i < b.len() - 1 {
            assert(b[i] == x[i - 1]);
        }
    }
}

/// The text of a number, of `true`, of `false` or of `null`: nothing in it ends a
/// value or opens another.
pub open spec fn atomo(t: Seq<char>) -> bool {
    &&& t.len() > 0
    &&& forall|i: int|
        0 <= i < t.len() ==> '!' <= (#[trigger] t[i]) <= '~' && t[i] != ',' && t[i] != '}' && t[i] != ']' && t[i] != '{' && t[i] != '[' && t[i] != '"'
}

/// The text of one whole string, quotes and all.
pub open spec fn string_inteira(t: Seq<char>) -> bool {
    apos_string(vstd::utf8::encode_utf8(t), 0) == Some(vstd::utf8::encode_utf8(t).len() as int)
}

/// Every text in a document is that of one value.
pub open spec fn escrito(v: crate::agent::json::Valor) -> bool
    decreases v, 0nat,
{
    match v {
        crate::agent::json::Valor::Cru(t) => atomo(t) || string_inteira(t),
        crate::agent::json::Valor::Objeto(c) => campos_escritos(c, c.len()),
        crate::agent::json::Valor::Lista(s) => itens_escritos(s, s.len()),
    }
}

/// Every text in the first `n` fields is that of one value.
pub open spec fn campos_escritos(c: Seq<(Seq<char>, crate::agent::json::Valor)>, n: nat) -> bool
    decreases c, n,
{
    if n == 0 || n > c.len() {
        true
    } else {
        campos_escritos(c, (n - 1) as nat) && escrito(c[n - 1].1)
    }
}

/// Every text in the first `n` items is that of one value.
pub open spec fn itens_escritos(s: Seq<crate::agent::json::Valor>, n: nat) -> bool
    decreases s, n,
{
    if n == 0 || n > s.len() {
        true
    } else {
        itens_escritos(s, (n - 1) as nat) && escrito(s[n - 1])
    }
}

proof fn lemma_em_partes(b: Seq<u8>, i: int, x: Seq<u8>, y: Seq<u8>)
    requires
        em(b, i, x + y),
    ensures
        em(b, i, x),
        em(b, i + x.len(), y),
{
    let t = x + y;
    assert(b.subrange(i, i + x.len()) =~= b.subrange(i, i + t.len()).subrange(0, x.len() as int));
    assert(t.subrange(0, x.len() as int) =~= x);
    assert(b.subrange(i + x.len(), i + t.len()) =~= b.subrange(i, i + t.len()).subrange(
        x.len() as int,
        t.len() as int,
    ));
    assert(t.subrange(x.len() as int, t.len() as int) =~= y);
}

/// The encoding of one character of ASCII is its byte.
proof fn lemma_um_byte(c: char)
    requires
        (c as u32) < 0x80,
    ensures
        vstd::utf8::encode_utf8(seq![c]) == seq![c as u8],
{
    let s = seq![c];
    assert(vstd::utf8::is_ascii_chars(s));
    vstd::utf8::is_ascii_chars_encode_utf8(s);
    assert(s[0] as u8 == vstd::utf8::encode_utf8(s)[0]);
    assert(vstd::utf8::encode_utf8(s) =~= seq![c as u8]);
}

/// A byte that stands somewhere is there.
proof fn lemma_byte_em(b: Seq<u8>, i: int, x: u8)
    requires
        em(b, i, seq![x]),
    ensures
        i < b.len(),
        b[i] == x,
{
    assert(b.subrange(i, i + 1)[0] == b[i]);
}

proof fn lemma_corpo_desloca(b: Seq<u8>, i: int, t: Seq<u8>, j: int)
    requires
        em(b, i, t),
        0 <= j,
        apos_corpo(t, j) is Some,
    ensures
        apos_corpo(b, i + j) == Some(i + apos_corpo(t, j)->0),
    decreases
            if j < t.len() {
                t.len() - j
            } else {
                0
            },
{
    assert(b.subrange(i, i + t.len())[j] == b[i + j]);
    if t[j] == 92 {
        lemma_corpo_desloca(b, i, t, j + 2);
    } else if t[j] != 34 {
        lemma_corpo_desloca(b, i, t, j + 1);
    }
}

/// A whole string ends where it ends, wherever it stands.
proof fn lemma_string_em(b: Seq<u8>, i: int, t: Seq<char>)
    requires
        em(b, i, vstd::utf8::encode_utf8(t)),
        string_inteira(t),
    ensures
        b[i] == 34,
        i < b.len(),
        vstd::utf8::encode_utf8(t).len() >= 2,
        apos_string(b, i) == Some(i + vstd::utf8::encode_utf8(t).len()),
{
    let x = vstd::utf8::encode_utf8(t);
    lemma_apos_corpo(x, 1);
    assert(b.subrange(i, i + x.len())[0] == b[i]);
    lemma_corpo_desloca(b, i, x, 1);
}

/// A string that the writer wrote is one whole string.
proof fn lemma_string_json_inteira(s: Seq<char>)
    ensures
        string_inteira(crate::agent::json::string_json(s)),
{
    lei_string_escrita_e_ecoavel(s);
}

proof fn lemma_nivel_comuns(b: Seq<u8>, i: int, n: int, abre: u8, fecha: u8, nivel: int)
    requires
        0 <= i,
        0 <= n,
        i + n <= b.len(),
        forall|j: int| i <= j < i + n ==> #[trigger] b[j] != 34 && b[j] != abre && b[j] != fecha,
    ensures
        apos_nivel(b, i, abre, fecha, nivel) == apos_nivel(b, i + n, abre, fecha, nivel),
    decreases n,
{
    if n > 0 {
        lemma_nivel_comuns(b, i + 1, n - 1, abre, fecha, nivel);
    }
}

/// The bytes of an atom are its characters.
proof fn lemma_bytes_do_atomo(b: Seq<u8>, i: int, t: Seq<char>)
    requires
        em(b, i, vstd::utf8::encode_utf8(t)),
        atomo(t),
    ensures
        vstd::utf8::encode_utf8(t).len() == t.len(),
        forall|j: int| i <= j < i + t.len() ==> #[trigger] b[j] == t[j - i] as u8,
{
    let x = vstd::utf8::encode_utf8(t);
    assert(vstd::utf8::is_ascii_chars(t));
    vstd::utf8::is_ascii_chars_encode_utf8(t);
    assert forall|j: int| i <= j < i + t.len() implies #[trigger] b[j] == t[j - i] as u8 by {
        assert(b.subrange(i, i + x.len())[j - i] == b[j]);
        assert(x[j - i] == t[j - i] as u8);
    }
}

/// Looking for the end of a container, a value inside it is passed whole.
proof fn lemma_nivel_valor(
    b: Seq<u8>,
    i: int,
    v: crate::agent::json::Valor,
    abre: u8,
    fecha: u8,
    nivel: int,
)
    requires
        escrito(v),
        em(b, i, vstd::utf8::encode_utf8(crate::agent::json::texto_de(v))),
        nivel >= 1,
        (abre == 123 && fecha == 125) || (abre == 91 && fecha == 93),
    ensures
        apos_nivel(b, i, abre, fecha, nivel) == apos_nivel(
            b,
            i + vstd::utf8::encode_utf8(crate::agent::json::texto_de(v)).len(),
            abre,
            fecha,
            nivel,
        ),
    decreases v, 0nat,
{
    match v {
        crate::agent::json::Valor::Cru(t) => {
            if atomo(t) {
                lemma_bytes_do_atomo(b, i, t);
                assert forall|j: int| i <= j < i + t.len() implies #[trigger] b[j] != 34 && b[j] != abre
                    && b[j] != fecha by {
                    assert(b[j] == t[j - i] as u8);
                }
                lemma_nivel_comuns(b, i, t.len() as int, abre, fecha, nivel);
            } else {
                lemma_string_em(b, i, t);
            }
        },
        crate::agent::json::Valor::Objeto(c) => {
            let dentro = crate::agent::json::texto_dos_campos(c, c.len());
            let x = vstd::utf8::encode_utf8(dentro);
            lemma_container(b, i, '{', dentro, '}');
            let n2 = if abre == 123 {
                nivel + 1
            } else {
                nivel
            };
            lemma_nivel_campos(b, i + 1, c, c.len(), abre, fecha, n2);
        },
        crate::agent::json::Valor::Lista(s) => {
            let dentro = crate::agent::json::texto_dos_itens(s, s.len());
            lemma_container(b, i, '[', dentro, ']');
            let n2 = if abre == 91 {
                nivel + 1
            } else {
                nivel
            };
            lemma_nivel_itens(b, i + 1, s, s.len(), abre, fecha, n2);
        },
    }
}

/// Where the parts of a container stand.
proof fn lemma_container(b: Seq<u8>, i: int, a: char, dentro: Seq<char>, f: char)
    requires
        (a as u32) < 0x80,
        (f as u32) < 0x80,
        em(b, i, vstd::utf8::encode_utf8(seq![a] + dentro + seq![f])),
    ensures
        ({
            let x = vstd::utf8::encode_utf8(dentro);
            &&& vstd::utf8::encode_utf8(seq![a] + dentro + seq![f]).len() == x.len() + 2
            &&& 0 <= i
            &&& i + x.len() + 1 < b.len()
            &&& b[i] == a as u8
            &&& em(b, i + 1, x)
            &&& b[i + 1 + x.len()] == f as u8
        }),
{
    let x = vstd::utf8::encode_utf8(dentro);
    lemma_bytes_da_soma(seq![a] + dentro, seq![f]);
    lemma_bytes_da_soma(seq![a], dentro);
    lemma_um_byte(a);
    lemma_um_byte(f);
    lemma_em_partes(b, i, seq![a as u8] + x, seq![f as u8]);
    lemma_em_partes(b, i, seq![a as u8], x);
    lemma_byte_em(b, i, a as u8);
    lemma_byte_em(b, i + 1 + x.len(), f as u8);
}

/// Where the parts of the last of `n` fields stand.
proof fn lemma_partes_do_campo(b: Seq<u8>, i: int, c: Seq<(Seq<char>, crate::agent::json::Valor)>, n: nat)
    requires
        0 < n <= c.len(),
        em(b, i, vstd::utf8::encode_utf8(crate::agent::json::texto_dos_campos(c, n))),
    ensures
        ({
            let antes = vstd::utf8::encode_utf8(
                crate::agent::json::texto_dos_campos(c, (n - 1) as nat),
            );
            let chave = vstd::utf8::encode_utf8(crate::agent::json::string_json(c[n - 1].0));
            let valor = vstd::utf8::encode_utf8(crate::agent::json::texto_de(c[n - 1].1));
            let virgula = if n > 1 {
                1int
            } else {
                0
            };
            let k = i + antes.len() + virgula;
            &&& 0 <= i
            &&& em(b, i, antes)
            &&& n > 1 ==> i + antes.len() < b.len() && b[i + antes.len()] == 44
            &&& em(b, k, chave)
            &&& k + chave.len() < b.len()
            &&& b[k + chave.len()] == 58
            &&& em(b, k + chave.len() + 1, valor)
            &&& k + chave.len() + 1 + valor.len() == i + vstd::utf8::encode_utf8(
                crate::agent::json::texto_dos_campos(c, n),
            ).len()
        }),
{
    let antes = crate::agent::json::texto_dos_campos(c, (n - 1) as nat);
    let virgula: Seq<char> = if n > 1 {
        seq![',']
    } else {
        Seq::empty()
    };
    let chave = crate::agent::json::string_json(c[n - 1].0);
    let valor = crate::agent::json::texto_de(c[n - 1].1);
    let p: Seq<char> = seq![':'];
    lemma_bytes_da_soma(antes + virgula + chave + p, valor);
    lemma_bytes_da_soma(antes + virgula + chave, p);
    lemma_bytes_da_soma(antes + virgula, chave);
    lemma_bytes_da_soma(antes, virgula);
    lemma_um_byte(':');
    lemma_um_byte(',');
    let (ea, ev, ec, ep, el) = (
        vstd::utf8::encode_utf8(antes),
        vstd::utf8::encode_utf8(virgula),
        vstd::utf8::encode_utf8(chave),
        vstd::utf8::encode_utf8(p),
        vstd::utf8::encode_utf8(valor),
    );
    assert(vstd::utf8::encode_utf8(Seq::<char>::empty()) =~= Seq::<u8>::empty());
    lemma_em_partes(b, i, ea + ev + ec + ep, el);
    lemma_em_partes(b, i, ea + ev + ec, ep);
    lemma_em_partes(b, i, ea + ev, ec);
    lemma_em_partes(b, i, ea, ev);
    lemma_byte_em(b, i + ea.len() + ev.len() + ec.len(), 58);
    if n > 1 {
        lemma_byte_em(b, i + ea.len(), 44);
    }
}

proof fn lemma_nivel_campos(
    b: Seq<u8>,
    i: int,
    c: Seq<(Seq<char>, crate::agent::json::Valor)>,
    n: nat,
    abre: u8,
    fecha: u8,
    nivel: int,
)
    requires
        n <= c.len(),
        campos_escritos(c, n),
        em(b, i, vstd::utf8::encode_utf8(crate::agent::json::texto_dos_campos(c, n))),
        nivel >= 1,
        (abre == 123 && fecha == 125) || (abre == 91 && fecha == 93),
    ensures
        apos_nivel(b, i, abre, fecha, nivel) == apos_nivel(
            b,
            i + vstd::utf8::encode_utf8(crate::agent::json::texto_dos_campos(c, n)).len(),
            abre,
            fecha,
            nivel,
        ),
    decreases c, n,
{
    if n == 0 {
        assert(vstd::utf8::encode_utf8(Seq::<char>::empty()) =~= Seq::<u8>::empty());
    } else {
        lemma_partes_do_campo(b, i, c, n);
        lemma_nivel_campos(b, i, c, (n - 1) as nat, abre, fecha, nivel);
        let antes = vstd::utf8::encode_utf8(crate::agent::json::texto_dos_campos(c, (n - 1) as nat));
        let chave = vstd::utf8::encode_utf8(crate::agent::json::string_json(c[n - 1].0));
        let virgula = if n > 1 {
            1int
        } else {
            0
        };
        let k = i + antes.len() + virgula;
        if n > 1 {
            lemma_nivel_comuns(b, i + antes.len(), 1, abre, fecha, nivel);
        }
        lemma_string_json_inteira(c[n - 1].0);
        lemma_string_em(b, k, crate::agent::json::string_json(c[n - 1].0));
        lemma_nivel_comuns(b, k + chave.len(), 1, abre, fecha, nivel);
        lemma_nivel_valor(b, k + chave.len() + 1, c[n - 1].1, abre, fecha, nivel);
    }
}

proof fn lemma_nivel_itens(
    b: Seq<u8>,
    i: int,
    s: Seq<crate::agent::json::Valor>,
    n: nat,
    abre: u8,
    fecha: u8,
    nivel: int,
)
    requires
        n <= s.len(),
        itens_escritos(s, n),
        em(b, i, vstd::utf8::encode_utf8(crate::agent::json::texto_dos_itens(s, n))),
        nivel >= 1,
        (abre == 123 && fecha == 125) || (abre == 91 && fecha == 93),
    ensures
        apos_nivel(b, i, abre, fecha, nivel) == apos_nivel(
            b,
            i + vstd::utf8::encode_utf8(crate::agent::json::texto_dos_itens(s, n)).len(),
            abre,
            fecha,
            nivel,
        ),
    decreases s, n,
{
    assert(vstd::utf8::encode_utf8(Seq::<char>::empty()) =~= Seq::<u8>::empty());
    if n > 0 {
        let antes = crate::agent::json::texto_dos_itens(s, (n - 1) as nat);
        let virgula: Seq<char> = if n > 1 {
            seq![',']
        } else {
            Seq::empty()
        };
        let valor = crate::agent::json::texto_de(s[n - 1]);
        lemma_bytes_da_soma(antes + virgula, valor);
        lemma_bytes_da_soma(antes, virgula);
        lemma_um_byte(',');
        let (ea, ev, el) = (
            vstd::utf8::encode_utf8(antes),
            vstd::utf8::encode_utf8(virgula),
            vstd::utf8::encode_utf8(valor),
        );
        lemma_em_partes(b, i, ea + ev, el);
        lemma_em_partes(b, i, ea, ev);
        lemma_nivel_itens(b, i, s, (n - 1) as nat, abre, fecha, nivel);
        if n > 1 {
            lemma_byte_em(b, i + ea.len(), 44);
            lemma_nivel_comuns(b, i + ea.len(), 1, abre, fecha, nivel);
        }
        lemma_nivel_valor(b, i + ea.len() + ev.len(), s[n - 1], abre, fecha, nivel);
    }
}

proof fn lemma_atomo_termina(b: Seq<u8>, i: int, n: int)
    requires
        0 <= i,
        0 <= n,
        i + n <= b.len(),
        forall|j: int| i <= j < i + n ==> !delimitador(#[trigger] b[j]),
        i + n == b.len() || delimitador(b[i + n]),
    ensures
        apos_atomo(b, i) == i + n,
    decreases n,
{
    if n > 0 {
        lemma_atomo_termina(b, i + 1, n - 1);
    }
}

/// A written value ends where its text ends.
proof fn lemma_valor_em(b: Seq<u8>, i: int, v: crate::agent::json::Valor)
    requires
        escrito(v),
        em(b, i, vstd::utf8::encode_utf8(crate::agent::json::texto_de(v))),
        ({
            let fim = i + vstd::utf8::encode_utf8(crate::agent::json::texto_de(v)).len();
            fim == b.len() || delimitador(b[fim])
        }),
    ensures
        apos_espacos(b, i) == i,
        apos_valor(b, i) == Some(i + vstd::utf8::encode_utf8(crate::agent::json::texto_de(v)).len()),
{
    match v {
        crate::agent::json::Valor::Cru(t) => {
            if atomo(t) {
                lemma_bytes_do_atomo(b, i, t);
                assert(b[i] == t[0] as u8);
                assert forall|j: int| i <= j < i + t.len() implies !delimitador(#[trigger] b[j]) by {
                    assert(b[j] == t[j - i] as u8);
                }
                lemma_atomo_termina(b, i, t.len() as int);
            } else {
                lemma_string_em(b, i, t);
            }
        },
        crate::agent::json::Valor::Objeto(c) => {
            let dentro = crate::agent::json::texto_dos_campos(c, c.len());
            lemma_container(b, i, '{', dentro, '}');
            lemma_nivel_campos(b, i + 1, c, c.len(), 123, 125, 1);
        },
        crate::agent::json::Valor::Lista(s) => {
            let dentro = crate::agent::json::texto_dos_itens(s, s.len());
            lemma_container(b, i, '[', dentro, ']');
            lemma_nivel_itens(b, i + 1, s, s.len(), 91, 93, 1);
        },
    }
}

/// The first fields stand where all of them do.
proof fn lemma_primeiros_campos(b: Seq<u8>, i: int, c: Seq<(Seq<char>, crate::agent::json::Valor)>, k: nat, n: nat)
    requires
        k <= n <= c.len(),
        em(b, i, vstd::utf8::encode_utf8(crate::agent::json::texto_dos_campos(c, n))),
        campos_escritos(c, n),
    ensures
        em(b, i, vstd::utf8::encode_utf8(crate::agent::json::texto_dos_campos(c, k))),
        campos_escritos(c, k),
    decreases n,
{
    if k < n {
        lemma_partes_do_campo(b, i, c, n);
        lemma_primeiros_campos(b, i, c, k, (n - 1) as nat);
    }
}

/// Where a field stands, given what stands before it, and what is read there.
proof fn lemma_um_membro(b: Seq<u8>, c: Seq<(Seq<char>, crate::agent::json::Valor)>, k: nat) -> (m: Membro)
    requires
        k < c.len(),
        campos_escritos(c, c.len()),
        b == vstd::utf8::encode_utf8(crate::agent::json::texto_de(crate::agent::json::Valor::Objeto(c))),
    ensures
        ({
            let p = 1int + vstd::utf8::encode_utf8(crate::agent::json::texto_dos_campos(c, k)).len();
            let fim = 1int + vstd::utf8::encode_utf8(
                crate::agent::json::texto_dos_campos(c, (k + 1) as nat),
            ).len();
            &&& 0 <= p < fim < b.len()
            &&& m.valor.1 == fim
            &&& membros_de(b, p) == seq![m] + membros_de(b, fim)
            &&& fecha_de(b, p) == fecha_de(b, fim)
            &&& nome_do(b, m) == vstd::utf8::encode_utf8(crate::agent::json::escapado(c[k as int].0))
            &&& valor_do(b, m) == vstd::utf8::encode_utf8(crate::agent::json::texto_de(c[k as int].1))
        }),
{
    let tudo = crate::agent::json::texto_dos_campos(c, c.len());
    assert(b.subrange(0, b.len() as int) =~= b);
    lemma_container(b, 0, '{', tudo, '}');
    let n = (k + 1) as nat;
    lemma_primeiros_campos(b, 1, c, n, c.len());
    lemma_partes_do_campo(b, 1, c, n);
    let x = vstd::utf8::encode_utf8(crate::agent::json::texto_dos_campos(c, k));
    let p = 1int + x.len();
    let chave_t = crate::agent::json::string_json(c[k as int].0);
    let chave = vstd::utf8::encode_utf8(chave_t);
    let valor = vstd::utf8::encode_utf8(crate::agent::json::texto_de(c[k as int].1));
    let q = p + if n > 1 {
        1int
    } else {
        0
    };
    let d = q + chave.len();
    let iv = d + 1;
    let fim = iv + valor.len();
    assert(em(b, q, chave));
    assert(em(b, iv, valor));
    assert(fim == 1 + vstd::utf8::encode_utf8(crate::agent::json::texto_dos_campos(c, n)).len());
    assert(fim < b.len() && (b[fim] == 44 || b[fim] == 125)) by {
        if n < c.len() {
            lemma_primeiros_campos(b, 1, c, (n + 1) as nat, c.len());
            lemma_partes_do_campo(b, 1, c, (n + 1) as nat);
        }
    }
    lemma_string_json_inteira(c[k as int].0);
    lemma_string_em(b, q, chave_t);
    lemma_valor_em(b, iv, c[k as int].1);
    let m = Membro { chave: (q, d), valor: (iv, fim) };
    assert(apos_espacos(b, d) == d);
    assert(membro_em(b, q) == Some(m));
    assert(apos_espacos(b, q) == q);
    assert(membros_de(b, q) == seq![m] + membros_de(b, fim));
    assert(fecha_de(b, q) == fecha_de(b, fim));
    if n > 1 {
        assert(b[p] == 44);
        assert(apos_espacos(b, p) == p);
    }
    lemma_dentro_das_aspas(b, q, c[k as int].0);
    m
}

/// The bytes between the quotes of a written string.
proof fn lemma_dentro_das_aspas(b: Seq<u8>, q: int, s: Seq<char>)
    requires
        em(b, q, vstd::utf8::encode_utf8(crate::agent::json::string_json(s))),
    ensures
        ({
            let d = q + vstd::utf8::encode_utf8(crate::agent::json::string_json(s)).len();
            b.subrange(q + 1, d - 1) == vstd::utf8::encode_utf8(crate::agent::json::escapado(s))
        }),
{
    let meio = crate::agent::json::escapado(s);
    let aspas: Seq<char> = seq!['"'];
    lemma_bytes_da_soma(aspas + meio, aspas);
    lemma_bytes_da_soma(aspas, meio);
    lemma_um_byte('"');
    let e = vstd::utf8::encode_utf8(meio);
    lemma_em_partes(b, q, seq![34u8] + e, seq![34u8]);
    lemma_em_partes(b, q, seq![34u8], e);
}

/// The fields that are read after the first `k` are those that were written after
/// them.
proof fn lemma_membros_escritos(b: Seq<u8>, c: Seq<(Seq<char>, crate::agent::json::Valor)>, k: nat)
    requires
        k <= c.len(),
        campos_escritos(c, c.len()),
        b == vstd::utf8::encode_utf8(crate::agent::json::texto_de(crate::agent::json::Valor::Objeto(c))),
    ensures
        ({
            let p = 1int + vstd::utf8::encode_utf8(crate::agent::json::texto_dos_campos(c, k)).len();
            let ms = membros_de(b, p);
            &&& fecha_de(b, p)
            &&& ms.len() == c.len() - k
            &&& forall|j: int|
                0 <= j < ms.len() ==> nome_do(b, #[trigger] ms[j]) == vstd::utf8::encode_utf8(
                    crate::agent::json::escapado(c[k + j].0),
                ) && valor_do(b, ms[j]) == vstd::utf8::encode_utf8(
                    crate::agent::json::texto_de(c[k + j].1),
                )
        }),
    decreases c.len() - k,
{
    let p = 1int + vstd::utf8::encode_utf8(crate::agent::json::texto_dos_campos(c, k)).len();
    if k == c.len() {
        assert(b.subrange(0, b.len() as int) =~= b);
        lemma_container(b, 0, '{', crate::agent::json::texto_dos_campos(c, c.len()), '}');
        assert(b[p] == 125);
        assert(apos_espacos(b, p) == p);
        assert(membros_de(b, p) =~= Seq::<Membro>::empty());
    } else {
        let m = lemma_um_membro(b, c, k);
        let n = (k + 1) as nat;
        lemma_membros_escritos(b, c, n);
        let resto = membros_de(b, m.valor.1);
        let ms = membros_de(b, p);
        assert forall|j: int| 0 <= j < ms.len() implies nome_do(b, #[trigger] ms[j])
            == vstd::utf8::encode_utf8(crate::agent::json::escapado(c[k + j].0)) && valor_do(b, ms[j])
            == vstd::utf8::encode_utf8(crate::agent::json::texto_de(c[k + j].1)) by {
            if j > 0 {
                assert(ms[j] == resto[j - 1]);
                assert(c[n + (j - 1)] == c[k + j]);
            } else {
                assert(ms[0] == m);
            }
        }
    }
}

/// What is written as an object is read as one: the fields come back in the order
/// they were written, none missing and none more, each with the bytes of its name
/// and the bytes of its value.
pub proof fn lei_objeto_escrito_e_lido(c: Seq<(Seq<char>, crate::agent::json::Valor)>)
    requires
        escrito(crate::agent::json::Valor::Objeto(c)),
    ensures
        ({
            let b = vstd::utf8::encode_utf8(
                crate::agent::json::texto_de(crate::agent::json::Valor::Objeto(c)),
            );
            &&& objeto_fechado(b)
            &&& membros(b).len() == c.len()
            &&& forall|k: int|
                0 <= k < c.len() ==> nome_do(b, #[trigger] membros(b)[k]) == vstd::utf8::encode_utf8(
                    crate::agent::json::escapado(c[k].0),
                ) && valor_do(b, membros(b)[k]) == vstd::utf8::encode_utf8(
                    crate::agent::json::texto_de(c[k].1),
                )
        }),
{
    let b = vstd::utf8::encode_utf8(
        crate::agent::json::texto_de(crate::agent::json::Valor::Objeto(c)),
    );
    lemma_membros_escritos(b, c, 0);
    assert(crate::agent::json::texto_dos_campos(c, 0) =~= Seq::<char>::empty());
    assert(vstd::utf8::encode_utf8(Seq::<char>::empty()) =~= Seq::<u8>::empty());
    assert(b.subrange(0, b.len() as int) =~= b);
    lemma_container(b, 0, '{', crate::agent::json::texto_dos_campos(c, c.len()), '}');
    assert(apos_espacos(b, 0) == 0);
}

/// A field of a written object is found by its name: the first with that name.
pub proof fn lei_campo_escrito_e_achado(c: Seq<(Seq<char>, crate::agent::json::Valor)>, k: int)
    requires
        escrito(crate::agent::json::Valor::Objeto(c)),
        0 <= k < c.len(),
        forall|j: int|
            0 <= j < k ==> crate::agent::json::escapado(#[trigger] c[j].0)
                != crate::agent::json::escapado(c[k].0),
    ensures
        ({
            let b = vstd::utf8::encode_utf8(
                crate::agent::json::texto_de(crate::agent::json::Valor::Objeto(c)),
            );
            primeiro_com(
                b,
                membros(b),
                vstd::utf8::encode_utf8(crate::agent::json::escapado(c[k].0)),
            ) == Some(vstd::utf8::encode_utf8(crate::agent::json::texto_de(c[k].1)))
        }),
{
    let b = vstd::utf8::encode_utf8(
        crate::agent::json::texto_de(crate::agent::json::Valor::Objeto(c)),
    );
    lei_objeto_escrito_e_lido(c);
    let ms = membros(b);
    let chave = vstd::utf8::encode_utf8(crate::agent::json::escapado(c[k].0));
    assert forall|j: int| 0 <= j < k implies nome_do(b, #[trigger] ms[j]) != chave by {
        let t = crate::agent::json::escapado(c[j].0);
        vstd::utf8::encode_utf8_decode_utf8(t);
        vstd::utf8::encode_utf8_decode_utf8(crate::agent::json::escapado(c[k].0));
    }
    lemma_primeiro_com(b, ms, chave, k);
}

proof fn lemma_primeiro_com(b: Seq<u8>, s: Seq<Membro>, chave: Seq<u8>, k: int)
    requires
        0 <= k < s.len(),
        nome_do(b, s[k]) == chave,
        forall|j: int| 0 <= j < k ==> nome_do(b, #[trigger] s[j]) != chave,
    ensures
        primeiro_com(b, s, chave) == Some(valor_do(b, s[k])),
    decreases k,
{
    if k > 0 {
        let t = s.drop_first();
        assert forall|j: int| 0 <= j < k - 1 implies nome_do(b, #[trigger] t[j]) != chave by {
            assert(t[j] == s[j + 1]);
        }
        lemma_primeiro_com(b, t, chave, k - 1);
    }
}

/// A number that was written is read back as itself, `true` and `false` as what
/// they are, and the inside of a string as the text between the quotes.
pub proof fn lei_valores_voltam(n: u64, l: bool, s: Seq<char>)
    ensures
        crate::agent::registry::inteiro_do_valor(
            vstd::utf8::encode_utf8(crate::texto::decimal(n as nat)),
        ) == Some(n),
        crate::agent::registry::logico_do_valor(
            vstd::utf8::encode_utf8(crate::agent::json::logico_json(l)),
        ) == Some(l),
        crate::agent::protocol::texto_do_valor(
            vstd::utf8::encode_utf8(crate::agent::json::string_json(s)),
        ) == Some(crate::agent::json::escapado(s)),
{
    let t = crate::texto::decimal(n as nat);
    crate::texto::lei_decimal_le_de_volta(n);
    crate::texto::lemma_decimal(n as nat);
    vstd::utf8::encode_utf8_decode_utf8(t);
    vstd::utf8::encode_utf8_valid_utf8(t);
    assert(crate::texto::e_digito(t[0]));
    assert(crate::texto::e_digito(t[t.len() - 1]));
    assert(crate::texto::aparado(t) == t);
    reveal_strlit("true");
    reveal_strlit("false");
    let tl = crate::agent::json::logico_json(l);
    assert(vstd::utf8::is_ascii_chars(tl)) by {
        if l {
            assert(tl =~= seq!['t', 'r', 'u', 'e']);
        } else {
            assert(tl =~= seq!['f', 'a', 'l', 's', 'e']);
        }
    }
    vstd::utf8::is_ascii_chars_encode_utf8(tl);
    let bl = vstd::utf8::encode_utf8(tl);
    assert forall|j: int| 0 <= j < bl.len() implies #[trigger] bl[j] == tl[j] as u8 by {}
    if l {
        assert(bl =~= seq![116u8, 114, 117, 101]);
    } else {
        assert(bl =~= seq![102u8, 97, 108, 115, 101]);
    }
    let meio = crate::agent::json::escapado(s);
    let aspas: Seq<char> = seq!['"'];
    lemma_bytes_da_soma(aspas + meio, aspas);
    lemma_bytes_da_soma(aspas, meio);
    lemma_um_byte('"');
    let e = vstd::utf8::encode_utf8(meio);
    let b = vstd::utf8::encode_utf8(crate::agent::json::string_json(s));
    assert(b == seq![34u8] + e + seq![34u8]);
    assert(b.subrange(1, b.len() - 1) =~= e);
    vstd::utf8::encode_utf8_decode_utf8(meio);
    vstd::utf8::encode_utf8_valid_utf8(meio);
}

/// A text without quotes, backslashes and control characters is written as it is.
pub proof fn lei_texto_simples_nao_muda(s: Seq<char>)
    requires
        forall|i: int|
            0 <= i < s.len() ==> (#[trigger] s[i]) as u32 >= 0x20 && s[i] != '"' && s[i] != '\\',
    ensures
        crate::agent::json::escapado(s) == s,
    decreases s.len(),
{
    if s.len() > 0 {
        let r = s.drop_last();
        assert forall|i: int| 0 <= i < r.len() implies (#[trigger] r[i]) as u32 >= 0x20 && r[i] != '"'
            && r[i] != '\\' by {
            assert(r[i] == s[i]);
        }
        lei_texto_simples_nao_muda(r);
        assert(s[s.len() - 1] == s.last());
        assert(s =~= r + seq![s.last()]);
    }
}

/// White space is space, tab, line feed and carriage return, and the scan stops at
/// the first byte that is none of them.
pub proof fn lei_espacos(b: Seq<u8>, i: int, j: int)
    requires
        0 <= i <= b.len(),
    ensures
        i <= apos_espacos(b, i) <= b.len(),
        i <= j < apos_espacos(b, i) ==> b[j] == 0x20 || b[j] == 9 || b[j] == 10 || b[j] == 13,
        apos_espacos(b, i) < b.len() ==> b[apos_espacos(b, i)] != 0x20 && b[apos_espacos(b, i)] != 9
            && b[apos_espacos(b, i)] != 10 && b[apos_espacos(b, i)] != 13,
    decreases b.len() - i,
{
    if i < b.len() && espaco(b[i]) {
        lei_espacos(b, i + 1, j);
    }
}

/// A run without delimiters stops at the first comma, closing bracket or brace, or
/// white space.
pub proof fn lei_atomo(b: Seq<u8>, i: int, j: int)
    requires
        0 <= i <= b.len(),
    ensures
        i <= apos_atomo(b, i) <= b.len(),
        i <= j < apos_atomo(b, i) ==> b[j] != ',' as u8 && b[j] != ']' as u8 && b[j] != '}' as u8
            && b[j] != 0x20 && b[j] != 9 && b[j] != 10 && b[j] != 13,
        apos_atomo(b, i) < b.len() ==> ({
            let f = b[apos_atomo(b, i)];
            f == ',' as u8 || f == ']' as u8 || f == '}' as u8 || f == 0x20 || f == 9 || f == 10 || f
                == 13
        }),
    decreases b.len() - i,
{
    if i < b.len() && !delimitador(b[i]) {
        lei_atomo(b, i + 1, j);
    }
}

/// What is found under a name is the value of the first member that has it, and
/// nothing is found only where none has.
pub proof fn lei_primeiro_com(b: Seq<u8>, s: Seq<Membro>, chave: Seq<u8>)
    ensures
        primeiro_com(b, s, chave) is None <==> forall|k: int|
            0 <= k < s.len() ==> nome_do(b, #[trigger] s[k]) != chave,
        primeiro_com(b, s, chave) is Some ==> exists|k: int|
            {
                &&& 0 <= k < s.len()
                &&& nome_do(b, #[trigger] s[k]) == chave
                &&& valor_do(b, s[k]) == primeiro_com(b, s, chave)->0
                &&& forall|j: int| 0 <= j < k ==> nome_do(b, #[trigger] s[j]) != chave
            },
    decreases s.len(),
{
    if s.len() > 0 {
        let t = s.drop_first();
        if nome_do(b, s[0]) == chave {
            assert(valor_do(b, s[0]) == primeiro_com(b, s, chave)->0);
        } else {
            lei_primeiro_com(b, t, chave);
            if primeiro_com(b, t, chave) is Some {
                let k = choose|k: int|
                    {
                        &&& 0 <= k < t.len()
                        &&& nome_do(b, #[trigger] t[k]) == chave
                        &&& valor_do(b, t[k]) == primeiro_com(b, t, chave)->0
                        &&& forall|j: int| 0 <= j < k ==> nome_do(b, #[trigger] t[j]) != chave
                    };
                assert(s[k + 1] == t[k]);
                assert forall|j: int| 0 <= j < k + 1 implies nome_do(b, #[trigger] s[j]) != chave by {
                    if j > 0 {
                        assert(t[j - 1] == s[j]);
                    }
                }
                assert(nome_do(b, s[k + 1]) == chave);
            } else {
                assert forall|k: int| 0 <= k < s.len() implies nome_do(b, #[trigger] s[k]) != chave by {
                    if k > 0 {
                        assert(t[k - 1] == s[k]);
                    }
                }
            }
        }
    }
}

/// A JSON number is made of figures, signs, a point and the letter of the exponent,
/// and starts with a figure or a minus sign.
pub proof fn lei_bytes_do_numero(b: Seq<u8>, k: int)
    requires
        numero_json(b),
        0 <= k < b.len(),
    ensures
        48 <= b[k] <= 57 || b[k] == 43 || b[k] == 45 || b[k] == 46 || b[k] == 69 || b[k] == 101,
        48 <= b[0] <= 57 || b[0] == 45,
{
    let (i, f) = choose|i: int, f: int| #[trigger] partes_do_numero(b, i, f);
    let a = apos_sinal(b);
    let inteiro = b.subrange(a, i);
    let fracao = b.subrange(i, f);
    let expoente = b.subrange(f, b.len() as int);
    assert(digito_ascii(inteiro[0]));
    assert(inteiro[0] == b[a]);
    if k >= a {
        if k < i {
            assert(inteiro[k - a] == b[k]);
            assert(digito_ascii(inteiro[k - a]));
        } else if k < f {
            assert(fracao[k - i] == b[k]);
            if k > i {
                assert(fracao.skip(1)[k - i - 1] == b[k]);
                assert(digito_ascii(fracao.skip(1)[k - i - 1]));
            }
        } else {
            assert(expoente[k - f] == b[k]);
            if k > f {
                let g = expoente.skip(1);
                assert(g[k - f - 1] == b[k]);
                if g.len() > 0 && (g[0] == 43 || g[0] == 45) {
                    if k > f + 1 {
                        assert(g.skip(1)[k - f - 2] == b[k]);
                        assert(digito_ascii(g.skip(1)[k - f - 2]));
                    }
                } else {
                    assert(digito_ascii(g[k - f - 1]));
                }
            }
        }
    }
}

/// A run of figures is a JSON number, unless it starts with a zero and goes on; so is
/// it after a minus sign.
pub proof fn lei_inteiro_e_numero(d: Seq<u8>)
    requires
        d.len() > 0,
        forall|k: int| 0 <= k < d.len() ==> 48 <= #[trigger] d[k] <= 57,
        d[0] != 48 || d.len() == 1,
    ensures
        numero_json(d),
        numero_json(seq![45u8] + d),
{
    let n = d.len() as int;
    assert(d.subrange(0, n) =~= d);
    assert forall|k: int| 0 <= k < d.len() implies digito_ascii(#[trigger] d[k]) by {}
    assert(partes_do_numero(d, n, n));
    let s = seq![45u8] + d;
    assert(s.subrange(1, n + 1) =~= d);
    assert(partes_do_numero(s, n + 1, n + 1));
}

/// The keys of an object are the names of its members, in order, but for those that
/// are no text.
pub proof fn lei_chaves(b: Seq<u8>, s: Seq<Membro>)
    ensures
        (forall|k: int| 0 <= k < s.len() ==> vstd::utf8::valid_utf8(nome_do(b, #[trigger] s[k]))) ==> {
            &&& chaves_de(b, s).len() == s.len()
            &&& forall|k: int|
                0 <= k < s.len() ==> vstd::utf8::encode_utf8(#[trigger] chaves_de(b, s)[k]) == nome_do(
                    b,
                    s[k],
                )
        },
        chaves_de(b, s).len() <= s.len(),
        !objeto_fechado(b) ==> chaves(b).len() == 0,
        objeto_fechado(b) ==> chaves(b) == chaves_de(b, membros(b)),
    decreases s.len(),
{
    if s.len() > 0 {
        let t = s.drop_first();
        lei_chaves(b, t);
        if forall|k: int| 0 <= k < s.len() ==> vstd::utf8::valid_utf8(nome_do(b, #[trigger] s[k])) {
            assert forall|k: int| 0 <= k < t.len() implies vstd::utf8::valid_utf8(
                nome_do(b, #[trigger] t[k]),
            ) by {
                assert(t[k] == s[k + 1]);
            }
            vstd::utf8::decode_utf8_encode_utf8(nome_do(b, s[0]));
            assert forall|k: int| 0 <= k < s.len() implies vstd::utf8::encode_utf8(
                #[trigger] chaves_de(b, s)[k],
            ) == nome_do(b, s[k]) by {
                if k > 0 {
                    assert(chaves_de(b, s)[k] == chaves_de(b, t)[k - 1]);
                    assert(t[k - 1] == s[k]);
                }
            }
        }
    }
}

} // verus!
