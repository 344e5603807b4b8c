//! Text: numbers in decimal and hexadecimal, bytes as UTF-8, and what a parsed
//! number means.
use vstd::prelude::*;

verus! {

/// `String::push` appends one character to the text.
pub assume_specification[ String::push ](s: &mut String, c: char)
    ensures
        final(s)@ == old(s)@.push(c),
;

/// `core::str::from_utf8` succeeds exactly on valid UTF-8, and the text it
/// hands back is encoded by the very bytes it was given.
#[verifier::external_body]
pub(crate) fn de_utf8(b: &[u8]) -> (r: Option<&str>)
    ensures
        match r {
            Some(s) => vstd::utf8::valid_utf8(b@) && s@ == vstd::utf8::decode_utf8(b@),
            None => !vstd::utf8::valid_utf8(b@),
        },
{
    core::str::from_utf8(b).ok()
}

/// Are the two runs of bytes the same?
pub fn iguais(a: &[u8], b: &[u8]) -> (r: bool)
    ensures
        r == (a@ == b@),
{
    if a.len() != b.len() {
        return false;
    }
    let mut i: usize = 0;
    while i < a.len()
        invariant
            a@.len() == b@.len(),
            i <= a@.len(),
            forall|j: int| 0 <= j < i ==> a@[j] == b@[j],
        decreases a@.len() - i,
    {
        if a[i] != b[i] {
            return false;
        }
        i = i + 1;
    }
    proof {
        assert(a@ =~= b@);
    }
    true
}

/// Are the two texts the same?
pub fn mesmo_texto(a: &str, b: &str) -> (r: bool)
    ensures
        r == (a@ == b@),
{
    proof {
        vstd::utf8::encode_utf8_decode_utf8(a@);
        vstd::utf8::encode_utf8_decode_utf8(b@);
    }
    iguais(a.as_bytes(), b.as_bytes())
}

/// The character of a decimal or lower-case hexadecimal digit.
pub open spec fn digito(d: int) -> char {
    if d < 10 {
        (48 + d) as char
    } else {
        (87 + d) as char
    }
}

/// A number in decimal, without leading zeros.
pub open spec fn decimal(n: nat) -> Seq<char>
    decreases n,
{
    if n < 10 {
        seq![digito(n as int)]
    } else {
        decimal(n / 10).push(digito((n % 10) as int))
    }
}

/// A number in decimal, with a minus sign where it is negative.
pub open spec fn decimal_com_sinal(n: int) -> Seq<char> {
    if n < 0 {
        seq!['-'] + decimal((-n) as nat)
    } else {
        decimal(n as nat)
    }
}

/// The last `n` hexadecimal digits of a number.
pub open spec fn hex_fixo(v: nat, n: nat) -> Seq<char>
    decreases n,
{
    if n == 0 {
        Seq::empty()
    } else {
        hex_fixo(v / 16, (n - 1) as nat).push(digito((v % 16) as int))
    }
}

/// A number in hexadecimal, without leading zeros.
pub open spec fn hex(v: nat) -> Seq<char>
    decreases v,
{
    if v < 16 {
        seq![digito(v as int)]
    } else {
        hex(v / 16).push(digito((v % 16) as int))
    }
}

/// The character of a digit.
pub fn caractere_do_digito(d: u8) -> (r: char)
    requires
        d < 16,
    ensures
        r == digito(d as int),
{
    if d < 10 {
        (48 + d) as char
    } else {
        (87 + d) as char
    }
}

/// Appends a number in decimal.
pub fn acrescentar_decimal(s: &mut String, n: u64)
    ensures
        final(s)@ == old(s)@ + decimal(n as nat),
    decreases n,
{
    if n >= 10 {
        acrescentar_decimal(s, n / 10);
    }
    s.push(caractere_do_digito((n % 10) as u8));
    proof {
        if n < 10 {
            assert(s@ =~= old(s)@ + decimal(n as nat));
        } else {
            assert(s@ =~= old(s)@ + decimal(n as nat));
        }
    }
}

/// Appends a signed number in decimal.
pub fn acrescentar_decimal_com_sinal(s: &mut String, n: i64)
    ensures
        final(s)@ == old(s)@ + decimal_com_sinal(n as int),
{
    if n < 0 {
        s.push('-');
        let ghost meio = s@;
        let modulo: u64 = if n == i64::MIN {
            9223372036854775808
        } else {
            (-n) as u64
        };
        acrescentar_decimal(s, modulo);
        proof {
            assert(s@ =~= old(s)@ + decimal_com_sinal(n as int));
        }
    } else {
        acrescentar_decimal(s, n as u64);
    }
}

/// Appends the last `n` hexadecimal digits of a number.
pub fn acrescentar_hex_fixo(s: &mut String, v: u64, n: u32)
    ensures
        final(s)@ == old(s)@ + hex_fixo(v as nat, n as nat),
    decreases n,
{
    if n == 0 {
        proof {
            assert(s@ =~= old(s)@ + hex_fixo(v as nat, 0));
        }
        return;
    }
    acrescentar_hex_fixo(s, v / 16, n - 1);
    s.push(caractere_do_digito((v % 16) as u8));
    proof {
        assert(s@ =~= old(s)@ + hex_fixo(v as nat, n as nat));
    }
}

/// Appends a number in hexadecimal.
pub fn acrescentar_hex(s: &mut String, v: u64)
    ensures
        final(s)@ == old(s)@ + hex(v as nat),
    decreases v,
{
    if v >= 16 {
        acrescentar_hex(s, v / 16);
    }
    s.push(caractere_do_digito((v % 16) as u8));
    proof {
        assert(s@ =~= old(s)@ + hex(v as nat));
    }
}

/// A character of Unicode's White_Space property.
pub open spec fn branco(c: char) -> bool {
    let u = c as u32;
    ||| 0x9 <= u <= 0xd
    ||| u == 0x20
    ||| u == 0x85
    ||| u == 0xa0
    ||| u == 0x1680
    ||| 0x2000 <= u <= 0x200a
    ||| u == 0x2028
    ||| u == 0x2029
    ||| u == 0x202f
    ||| u == 0x205f
    ||| u == 0x3000
}

/// The text without the white space at its start.
pub open spec fn sem_brancos_antes(s: Seq<char>) -> Seq<char>
    decreases s.len(),
{
    if s.len() > 0 && branco(s[0]) {
        sem_brancos_antes(s.drop_first())
    } else {
        s
    }
}

/// The text without the white space at its end.
pub open spec fn sem_brancos_depois(s: Seq<char>) -> Seq<char>
    decreases s.len(),
{
    if s.len() > 0 && branco(s.last()) {
        sem_brancos_depois(s.drop_last())
    } else {
        s
    }
}

/// The text without the white space around it.
pub open spec fn aparado(s: Seq<char>) -> Seq<char> {
    sem_brancos_depois(sem_brancos_antes(s))
}

/// Is this a character of Unicode's White_Space property?
pub fn e_branco(c: char) -> (r: bool)
    ensures
        r == branco(c),
{
    let u: u32 = c as u32;
    (0x9 <= u && u <= 0xd) || u == 0x20 || u == 0x85 || u == 0xa0 || u == 0x1680 || (0x2000 <= u && u
        <= 0x200a) || u == 0x2028 || u == 0x2029 || u == 0x202f || u == 0x205f || u == 0x3000
}

proof fn lemma_sem_brancos_antes(s: Seq<char>, i: int)
    requires
        0 <= i <= s.len(),
        forall|j: int| 0 <= j < i ==> branco(#[trigger] s[j]),
        i < s.len() ==> !branco(s[i]),
    ensures
        sem_brancos_antes(s) == s.skip(i),
    decreases s.len(),
{
    if i == 0 {
        assert(s.skip(0) =~= s);
    } else {
        let t = s.drop_first();
        assert forall|j: int| 0 <= j < i - 1 implies branco(#[trigger] t[j]) by {
            assert(t[j] == s[j + 1]);
        }
        lemma_sem_brancos_antes(t, i - 1);
        assert(t.skip(i - 1) =~= s.skip(i));
    }
}

proof fn lemma_sem_brancos_depois(s: Seq<char>, n: int)
    requires
        0 <= n <= s.len(),
        forall|j: int| n <= j < s.len() ==> branco(#[trigger] s[j]),
        n > 0 ==> !branco(s[n - 1]),
    ensures
        sem_brancos_depois(s) == s.take(n),
    decreases s.len(),
{
    if n == s.len() {
        assert(s.take(n) =~= s);
    } else {
        lemma_sem_brancos_depois(s.drop_last(), n);
        assert(s.drop_last().take(n) =~= s.take(n));
    }
}

/// The text without the white space around it.
pub fn aparar(s: &str) -> (r: &str)
    ensures
        r@ == aparado(s@),
{
    let n: usize = s.unicode_len();
    let mut i: usize = 0;
    while i < n && e_branco(s.get_char(i))
        invariant
            n == s@.len(),
            i <= n,
            forall|j: int| 0 <= j < i ==> branco(#[trigger] s@[j]),
        decreases n - i,
    {
        i = i + 1;
    }
    let mut k: usize = n;
    while k > i && e_branco(s.get_char(k - 1))
        invariant
            n == s@.len(),
            i <= k <= n,
            forall|j: int| k <= j < n ==> branco(#[trigger] s@[j]),
        decreases k,
    {
        k = k - 1;
    }
    proof {
        lemma_sem_brancos_antes(s@, i as int);
        let t = s@.skip(i as int);
        assert forall|j: int| k - i <= j < t.len() implies branco(#[trigger] t[j]) by {
            assert(t[j] == s@[j + i]);
        }
        lemma_sem_brancos_depois(t, k - i);
        assert(t.take(k - i) =~= s@.subrange(i as int, k as int));
    }
    s.substring_char(i, k)
}

/// A decimal digit.
pub open spec fn e_digito(c: char) -> bool {
    '0' <= c <= '9'
}

/// The value of a run of decimal digits.
pub open spec fn valor_decimal(s: Seq<char>) -> nat
    decreases s.len(),
{
    if s.len() == 0 {
        0
    } else {
        valor_decimal(s.drop_last()) * 10 + (s.last() as u32 - 48) as nat
    }
}

/// Nothing but decimal digits.
pub open spec fn so_digitos(s: Seq<char>) -> bool {
    forall|i: int| 0 <= i < s.len() ==> e_digito(#[trigger] s[i])
}

/// The text without one leading plus sign.
pub open spec fn sem_mais(s: Seq<char>) -> Seq<char> {
    if s.len() > 0 && s[0] == '+' {
        s.drop_first()
    } else {
        s
    }
}

/// The unsigned number a text spells: an optional plus sign, then at least one
/// digit and nothing else, of a value that fits 64 bits.
pub open spec fn numero_de(s: Seq<char>) -> Option<u64> {
    let digitos = sem_mais(s);
    if digitos.len() > 0 && so_digitos(digitos) && valor_decimal(digitos) <= u64::MAX {
        Some(valor_decimal(digitos) as u64)
    } else {
        None
    }
}

proof fn lemma_valor_cresce(s: Seq<char>, n: int)
    requires
        0 <= n <= s.len(),
        so_digitos(s),
    ensures
        valor_decimal(s.take(n)) <= valor_decimal(s),
    decreases s.len(),
{
    if n < s.len() {
        lemma_valor_cresce(s.drop_last(), n);
        assert(s.drop_last().take(n) =~= s.take(n));
    } else {
        assert(s.take(n) =~= s);
    }
}

/// Reads an unsigned number.
pub fn ler_numero(s: &str) -> (r: Option<u64>)
    ensures
        r == numero_de(s@),
{
    let n: usize = s.unicode_len();
    let mut i: usize = 0;
    if n > 0 && s.get_char(0) == '+' {
        i = 1;
    }
    let ghost inicio = i as int;
    let ghost digitos = sem_mais(s@);
    if i == n {
        return None;
    }
    let mut valor: u64 = 0;
    proof {
        assert(digitos.take(0) =~= Seq::<char>::empty());
    }
    while i < n
        invariant
            n == s@.len(),
            0 <= inicio <= i <= n,
            inicio <= 1,
            inicio == 1 <==> (s@.len() > 0 && s@[0] == '+'),
            digitos == sem_mais(s@),
            digitos.len() == n - inicio,
            valor == valor_decimal(digitos.take(i - inicio)),
            forall|j: int| 0 <= j < i - inicio ==> e_digito(#[trigger] digitos[j]),
        decreases n - i,
    {
        let c: char = s.get_char(i);
        proof {
            assert(c == digitos[i - inicio]);
            let t = digitos.take(i - inicio + 1);
            assert(t.drop_last() =~= digitos.take(i - inicio));
        }
        if !('0' <= c && c <= '9') {
            proof {
                assert(!e_digito(digitos[i - inicio]));
            }
            return None;
        }
        let d: u64 = (c as u32 - 48) as u64;
        proof {
            if numero_de(s@) is Some {
                lemma_valor_cresce(digitos, i - inicio + 1);
            }
        }
        match valor.checked_mul(10) {
            None => {
                return None;
            },
            Some(m) => match m.checked_add(d) {
                None => {
                    return None;
                },
                Some(v) => {
                    valor = v;
                },
            },
        }
        i = i + 1;
    }
    proof {
        assert(digitos.take(i - inicio) =~= digitos);
    }
    Some(valor)
}

/// A number written in decimal reads back as itself.
pub proof fn lei_decimal_le_de_volta(n: u64)
    ensures
        numero_de(decimal(n as nat)) == Some(n),
{
    lemma_decimal(n as nat);
    let s = decimal(n as nat);
    assert(e_digito(s[0]));
}

pub proof fn lemma_decimal(n: nat)
    ensures
        decimal(n).len() > 0,
        forall|i: int| 0 <= i < decimal(n).len() ==> e_digito(#[trigger] decimal(n)[i]),
        valor_decimal(decimal(n)) == n,
    decreases n,
{
    if n >= 10 {
        lemma_decimal(n / 10);
        assert(decimal(n).drop_last() =~= decimal(n / 10));
    } else {
        assert(decimal(n).drop_last() =~= Seq::<char>::empty());
        assert(valor_decimal(Seq::<char>::empty()) == 0);
    }
}

/// The digits: the ten figures, then the first six letters.
pub proof fn lei_digitos(d: int)
    ensures
        0 <= d < 10 ==> digito(d) as int == '0' as int + d,
        10 <= d < 16 ==> digito(d) as int == 'a' as int + (d - 10),
{
}

/// A number in decimal ends in the figure of what is left over by ten, after the
/// tenth of the number in decimal; it starts with a zero only where it is zero.
pub proof fn lei_decimal(n: nat)
    ensures
        decimal(n).last() as int == '0' as int + n % 10,
        n >= 10 ==> decimal(n).drop_last() == decimal(n / 10),
        n < 10 ==> decimal(n).len() == 1,
        n > 0 ==> decimal(n)[0] != '0',
        decimal_com_sinal(n as int) == decimal(n),
        n > 0 ==> decimal_com_sinal(-n) == seq!['-'] + decimal(n),
    decreases n,
{
    if n >= 10 {
        lei_decimal(n / 10);
        assert(decimal(n).drop_last() =~= decimal(n / 10));
    }
}

/// So many hexadecimal digits: each is that of what is left over by sixteen, after
/// those of the sixteenth of the number. Without leading zeros there are as many as
/// it takes.
pub proof fn lei_hex(v: nat, n: nat)
    ensures
        hex_fixo(v, n).len() == n,
        n > 0 ==> hex_fixo(v, n).last() == digito((v % 16) as int),
        n > 0 ==> hex_fixo(v, n).drop_last() == hex_fixo(v / 16, (n - 1) as nat),
        hex(v).last() == digito((v % 16) as int),
        v >= 16 ==> hex(v).drop_last() == hex(v / 16),
        v < 16 ==> hex(v).len() == 1,
        v > 0 ==> hex(v)[0] != '0',
    decreases n + v,
{
    if n > 0 {
        lei_hex(v / 16, (n - 1) as nat);
        assert(hex_fixo(v, n).drop_last() =~= hex_fixo(v / 16, (n - 1) as nat));
    } else if v >= 16 {
        lei_hex(v / 16, 0);
        assert(hex(v).drop_last() =~= hex(v / 16));
    }
    if v >= 16 {
        assert(hex(v).drop_last() =~= hex(v / 16));
        if n > 0 {
            lei_hex(v / 16, 0);
        }
    }
}

proof fn lemma_antes_e_corte(s: Seq<char>) -> (i: int)
    ensures
        0 <= i <= s.len(),
        sem_brancos_antes(s) == s.subrange(i, s.len() as int),
        forall|j: int| 0 <= j < i ==> branco(#[trigger] s[j]),
        i < s.len() ==> !branco(s[i]),
    decreases s.len(),
{
    if s.len() > 0 && branco(s[0]) {
        let k = lemma_antes_e_corte(s.drop_first());
        assert(s.drop_first().subrange(k, s.len() - 1) =~= s.subrange(k + 1, s.len() as int));
        assert forall|j: int| 0 <= j < k + 1 implies branco(#[trigger] s[j]) by {
            if j > 0 {
                assert(s.drop_first()[j - 1] == s[j]);
            }
        }
        k + 1
    } else {
        assert(s.subrange(0, s.len() as int) =~= s);
        0
    }
}

proof fn lemma_depois_e_corte(s: Seq<char>) -> (n: int)
    ensures
        0 <= n <= s.len(),
        sem_brancos_depois(s) == s.subrange(0, n),
        forall|j: int| n <= j < s.len() ==> branco(#[trigger] s[j]),
        n > 0 ==> !branco(s[n - 1]),
    decreases s.len(),
{
    if s.len() > 0 && branco(s.last()) {
        let n = lemma_depois_e_corte(s.drop_last());
        assert(s.drop_last().subrange(0, n) =~= s.subrange(0, n));
        assert forall|j: int| n <= j < s.len() implies branco(#[trigger] s[j]) by {
            if j < s.len() - 1 {
                assert(s.drop_last()[j] == s[j]);
            }
        }
        n
    } else {
        assert(s.subrange(0, s.len() as int) =~= s);
        s.len() as int
    }
}

/// Trimming takes white space off both ends, all of it and nothing else.
pub proof fn lei_aparado(s: Seq<char>) -> (cortes: (int, int))
    ensures
        0 <= cortes.0 <= cortes.1 <= s.len(),
        aparado(s) == s.subrange(cortes.0, cortes.1),
        forall|j: int|
            0 <= j < s.len() && !(cortes.0 <= j < cortes.1) ==> branco(#[trigger] s[j]),
        aparado(s).len() > 0 ==> !branco(aparado(s)[0]) && !branco(aparado(s).last()),
{
    let i = lemma_antes_e_corte(s);
    let t = s.subrange(i, s.len() as int);
    let n = lemma_depois_e_corte(t);
    assert(t.subrange(0, n) =~= s.subrange(i, i + n));
    assert forall|j: int| 0 <= j < s.len() && !(i <= j < i + n) implies branco(#[trigger] s[j]) by {
        if j >= i + n {
            assert(t[j - i] == s[j]);
        }
    }
    (i, i + n)
}

/// The white space: the tabs and line ends of ASCII, the space, the next line and
/// the unbreakable space, and the spaces of the rest of Unicode. No other character
/// of ASCII.
pub proof fn lei_brancos(c: char)
    ensures
        c == '\t' || c == '\n' || c == '\r' || c == ' ' ==> branco(c),
        '!' <= c <= '~' ==> !branco(c),
        (c as u32) < 0x80 && branco(c) ==> c == ' ' || 9 <= c as u32 <= 13,
        c as u32 >= 0x80 && branco(c) <==> c as u32 == 0x85 || c as u32 == 0xa0 || c as u32 == 0x1680
            || 0x2000 <= c as u32 <= 0x200a || c as u32 == 0x2028 || c as u32 == 0x2029 || c as u32 == 0x202f || c as u32
            == 0x205f || c as u32 == 0x3000,
{
}

/// One more figure makes a number ten times itself and that figure more, as far as
/// 64 bits go.
pub proof fn lei_mais_um_digito(s: Seq<char>, n: u64, c: char)
    requires
        numero_de(s) == Some(n),
        '0' <= c <= '9',
    ensures
        numero_de(s.push(c)) == if n * 10 + (c as int - '0' as int) <= u64::MAX {
            Some((n * 10 + (c as int - '0' as int)) as u64)
        } else {
            None
        },
{
    let t = s.push(c);
    let d = sem_mais(s);
    assert(t[0] == s[0]);
    assert(sem_mais(t) =~= d.push(c));
    assert(d.push(c).drop_last() =~= d);
    assert forall|i: int| 0 <= i < d.push(c).len() implies e_digito(#[trigger] d.push(c)[i]) by {
        if i < d.len() {
            assert(e_digito(d[i]));
        }
    }
    assert(so_digitos(d.push(c)));
    assert(sem_mais(t) == d.push(c));
}

/// One figure is its number; no figure, or a character that is none, is no number,
/// but for one plus sign before.
pub proof fn lei_que_e_numero(s: Seq<char>, c: char, i: int)
    ensures
        '0' <= c <= '9' ==> numero_de(seq![c]) == Some((c as int - '0' as int) as u64),
        numero_de(Seq::empty()) is None,
        numero_de(seq!['+']) is None,
        0 < i < s.len() && !('0' <= s[i] <= '9') ==> numero_de(s) is None,
        s.len() > 0 && !('0' <= s[0] <= '9') && s[0] != '+' ==> numero_de(s) is None,
        '0' <= c <= '9' ==> numero_de(seq!['+', c]) == numero_de(seq![c]),
{
    let u = seq![c];
    assert(u.drop_last() =~= Seq::<char>::empty());
    reveal_with_fuel(valor_decimal, 2);
    assert(seq!['+'].drop_first() =~= Seq::<char>::empty());
    assert(seq!['+', c].drop_first() =~= u);
    if 0 < i < s.len() && !('0' <= s[i] <= '9') {
        let d = sem_mais(s);
        if s[0] == '+' {
            assert(d[i - 1] == s[i]);
        } else {
            assert(d[i] == s[i]);
        }
        assert(!so_digitos(d));
    }
    if s.len() > 0 && !('0' <= s[0] <= '9') && s[0] != '+' {
        assert(!e_digito(sem_mais(s)[0]));
    }
}

} // verus!
