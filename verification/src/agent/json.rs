//! JSON, written token by token: [`JsonWriter`] appends to a text as the caller
//! walks the document in order.
use vstd::prelude::*;

use crate::texto::{acrescentar_decimal, acrescentar_decimal_com_sinal, acrescentar_hex_fixo};

verus! {

broadcast use crate::bits::group_bits;

/// How a character appears inside a JSON string.
pub open spec fn escapado_char(c: char) -> Seq<char> {
    if c == '"' {
        seq!['\\', '"']
    } else if c == '\\' {
        seq!['\\', '\\']
    } else if c == '\n' {
        seq!['\\', 'n']
    } else if c == '\r' {
        seq!['\\', 'r']
    } else if c == '\t' {
        seq!['\\', 't']
    } else if (c as u32) < 0x20 {
        seq!['\\', 'u'] + crate::texto::hex_fixo(c as u32 as nat, 4)
    } else {
        seq![c]
    }
}

/// The inside of a JSON string, without the quotes.
pub open spec fn escapado(s: Seq<char>) -> Seq<char>
    decreases s.len(),
{
    if s.len() == 0 {
        Seq::empty()
    } else {
        escapado(s.drop_last()) + escapado_char(s.last())
    }
}

/// A JSON string, with its quotes.
pub open spec fn string_json(s: Seq<char>) -> Seq<char> {
    seq!['"'] + escapado(s) + seq!['"']
}

/// `true` or `false`.
pub open spec fn logico_json(b: bool) -> Seq<char> {
    if b {
        "true"@
    } else {
        "false"@
    }
}

/// Where a writer stands: what it wrote so far and what the next token needs
/// before it.
#[verifier::ext_equal]
pub struct Escrita {
    pub texto: Seq<char>,
    /// How many containers are open.
    pub nivel: u32,
    /// One bit per level: set once the level has an element.
    pub pendentes: u32,
    /// A key was just written, so the next token is its value.
    pub espera_valor: bool,
}

impl Escrita {
    /// A writer that starts after `texto`.
    pub open spec fn nova(texto: Seq<char>) -> Escrita {
        Escrita { texto, nivel: 0, pendentes: 0, espera_valor: false }
    }

    /// Ready for a token: the comma is there where one is due.
    pub closed spec fn separada(self) -> Escrita {
        let bit = 1u32 << (self.nivel & 31);
        if self.espera_valor {
            Escrita { espera_valor: false, ..self }
        } else if self.pendentes & bit != 0 {
            Escrita { texto: self.texto.push(','), ..self }
        } else {
            Escrita { pendentes: self.pendentes | bit, ..self }
        }
    }

    /// More text, nothing else changed.
    pub closed spec fn mais(self, t: Seq<char>) -> Escrita {
        Escrita { texto: self.texto + t, ..self }
    }

    /// After a whole value whose text is `t`.
    pub open spec fn valor(self, t: Seq<char>) -> Escrita {
        self.separada().mais(t)
    }

    /// After the opening of a container.
    pub closed spec fn abre(self, c: char) -> Escrita {
        let s = self.separada();
        Escrita {
            texto: s.texto.push(c),
            nivel: (s.nivel + 1) as u32,
            pendentes: s.pendentes & !(1u32 << (((s.nivel + 1) as u32) & 31)),
            ..s
        }
    }

    /// After the closing of a container.
    pub closed spec fn fecha(self, c: char) -> Escrita {
        Escrita {
            texto: self.texto.push(c),
            nivel: if self.nivel > 0 {
                (self.nivel - 1) as u32
            } else {
                0
            },
            ..self
        }
    }

    /// After a key.
    pub closed spec fn chave(self, nome: Seq<char>) -> Escrita {
        Escrita {
            espera_valor: true,
            ..self.separada().mais(string_json(nome)).mais(seq![':'])
        }
    }

    /// After a key and a value whose text is `t`.
    pub open spec fn campo(self, nome: Seq<char>, t: Seq<char>) -> Escrita {
        self.chave(nome).valor(t)
    }

    /// After a string field.
    pub open spec fn campo_str(self, nome: Seq<char>, v: Seq<char>) -> Escrita {
        self.campo(nome, string_json(v))
    }

    /// After a number field.
    pub open spec fn campo_u64(self, nome: Seq<char>, v: int) -> Escrita {
        self.campo(nome, crate::texto::decimal(v as nat))
    }

    /// After a boolean field.
    pub open spec fn campo_bool(self, nome: Seq<char>, v: bool) -> Escrita {
        self.campo(nome, logico_json(v))
    }
}

/// A JSON writer.
pub struct JsonWriter {
    saida: String,
    depth: u32,
    pending: u32,
    expect_value: bool,
}

impl JsonWriter {
    /// Where the writer stands.
    pub closed spec fn view(&self) -> Escrita {
        Escrita {
            texto: self.saida@,
            nivel: self.depth,
            pendentes: self.pending,
            espera_valor: self.expect_value,
        }
    }

    /// A writer that appends to `saida`.
    pub fn new(saida: String) -> (r: JsonWriter)
        ensures
            r@ == Escrita::nova(saida@),
    {
        JsonWriter { saida, depth: 0, pending: 0, expect_value: false }
    }

    /// What was written.
    pub fn terminar(self) -> (r: String)
        ensures
            r@ == self@.texto,
    {
        self.saida
    }

    /// Emits the comma where one is due.
    fn sep(&mut self)
        ensures
            final(self)@ == old(self)@.separada(),
    {
        if self.expect_value {
            self.expect_value = false;
            return;
        }
        let bit: u32 = 1u32 << (self.depth & 31);
        if self.pending & bit != 0 {
            self.saida.push(',');
        } else {
            self.pending = self.pending | bit;
        }
    }

    fn abrir(&mut self, c: char)
        requires
            old(self)@.nivel < u32::MAX,
        ensures
            final(self)@ == old(self)@.abre(c),
    {
        self.sep();
        self.saida.push(c);
        self.depth = self.depth + 1;
        self.pending = self.pending & !(1u32 << (self.depth & 31));
    }

    fn fechar(&mut self, c: char)
        ensures
            final(self)@ == old(self)@.fecha(c),
    {
        self.depth = self.depth.saturating_sub(1);
        self.saida.push(c);
    }

    pub fn begin_object(&mut self)
        requires
            old(self)@.nivel < u32::MAX,
        ensures
            final(self)@ == old(self)@.abre('{'),
    {
        self.abrir('{');
    }

    pub fn end_object(&mut self)
        ensures
            final(self)@ == old(self)@.fecha('}'),
    {
        self.fechar('}');
    }

    pub fn begin_array(&mut self)
        requires
            old(self)@.nivel < u32::MAX,
        ensures
            final(self)@ == old(self)@.abre('['),
    {
        self.abrir('[');
    }

    pub fn end_array(&mut self)
        ensures
            final(self)@ == old(self)@.fecha(']'),
    {
        self.fechar(']');
    }

    /// Writes a key. The next token is its value.
    pub fn key(&mut self, nome: &str)
        ensures
            final(self)@ == old(self)@.chave(nome@),
    {
        self.sep();
        self.escrever_string(nome);
        let ghost meio = self@;
        self.saida.push(':');
        proof {
            assert(self.saida@ =~= meio.texto + seq![':']);
        }
        self.expect_value = true;
    }

    pub fn str_value(&mut self, valor: &str)
        ensures
            final(self)@ == old(self)@.valor(string_json(valor@)),
    {
        self.sep();
        self.escrever_string(valor);
    }

    pub fn u64_value(&mut self, valor: u64)
        ensures
            final(self)@ == old(self)@.valor(crate::texto::decimal(valor as nat)),
    {
        self.sep();
        acrescentar_decimal(&mut self.saida, valor);
    }

    pub fn i64_value(&mut self, valor: i64)
        ensures
            final(self)@ == old(self)@.valor(crate::texto::decimal_com_sinal(valor as int)),
    {
        self.sep();
        acrescentar_decimal_com_sinal(&mut self.saida, valor);
    }

    pub fn bool_value(&mut self, valor: bool)
        ensures
            final(self)@ == old(self)@.valor(logico_json(valor)),
    {
        self.sep();
        self.saida.append(if valor {
            "true"
        } else {
            "false"
        });
    }

    pub fn null_value(&mut self)
        ensures
            final(self)@ == old(self)@.valor("null"@),
    {
        self.sep();
        self.saida.append("null");
    }

    /// Writes JSON that is already text, as it is.
    pub fn raw_value(&mut self, bruto: &str)
        ensures
            final(self)@ == old(self)@.valor(bruto@),
    {
        self.sep();
        self.saida.append(bruto);
    }

    pub fn field_str(&mut self, chave: &str, valor: &str)
        ensures
            final(self)@ == old(self)@.campo_str(chave@, valor@),
    {
        self.key(chave);
        self.str_value(valor);
    }

    pub fn field_u64(&mut self, chave: &str, valor: u64)
        ensures
            final(self)@ == old(self)@.campo_u64(chave@, valor as int),
    {
        self.key(chave);
        self.u64_value(valor);
    }

    pub fn field_bool(&mut self, chave: &str, valor: bool)
        ensures
            final(self)@ == old(self)@.campo_bool(chave@, valor),
    {
        self.key(chave);
        self.bool_value(valor);
    }

    /// A string with the escapes JSON asks for.
    fn escrever_string(&mut self, s: &str)
        ensures
            final(self)@ == old(self)@.mais(string_json(s@)),
    {
        let ghost antes = self@;
        self.saida.push('"');
        self.escrever_corpo(s);
        self.saida.push('"');
        proof {
            assert(self.saida@ =~= antes.texto + string_json(s@));
        }
    }

    /// One character of the inside of a string.
    fn escrever_caractere(&mut self, c: char)
        ensures
            final(self)@ == old(self)@.mais(escapado_char(c)),
    {
        let ghost antes = self@;
        if c == '"' {
            self.saida.push('\\');
            self.saida.push('"');
        } else if c == '\\' {
            self.saida.push('\\');
            self.saida.push('\\');
        } else if c == '\n' {
            self.saida.push('\\');
            self.saida.push('n');
        } else if c == '\r' {
            self.saida.push('\\');
            self.saida.push('r');
        } else if c == '\t' {
            self.saida.push('\\');
            self.saida.push('t');
        } else if (c as u32) < 0x20 {
            self.saida.push('\\');
            self.saida.push('u');
            acrescentar_hex_fixo(&mut self.saida, c as u32 as u64, 4);
        } else {
            self.saida.push(c);
        }
        proof {
            assert(self.saida@ =~= antes.texto + escapado_char(c));
        }
    }

    /// The inside of a string, escaped, without the quotes.
    fn escrever_corpo(&mut self, s: &str)
        ensures
            final(self)@ == old(self)@.mais(escapado(s@)),
    {
        let ghost antes = self@;
        proof {
            assert(s@.take(0) =~= Seq::<char>::empty());
            assert(antes.texto + Seq::<char>::empty() =~= antes.texto);
        }
        for c in it: s.chars()
            invariant
                it.seq() == s@,
                self@ == antes.mais(escapado(s@.take(it.index()))),
        {
            let ghost i = it.index();
            let ghost meio = self@;
            self.escrever_caractere(c);
            proof {
                let t = s@.take(i + 1);
                assert(t.drop_last() =~= s@.take(i));
                assert(t.last() == c);
                assert(self@.texto =~= antes.texto + escapado(t));
            }
        }
        proof {
            assert(s@.take(s@.len() as int) =~= s@);
        }
    }

    /// Opens a string whose content comes in pieces.
    pub fn begin_str(&mut self)
        ensures
            final(self)@ == old(self)@.valor(seq!['"']),
    {
        self.sep();
        let ghost meio = self@;
        self.saida.push('"');
        proof {
            assert(self.saida@ =~= meio.texto + seq!['"']);
        }
    }

    /// Appends text to the open string, escaped.
    pub fn push_str(&mut self, pedaco: &str)
        ensures
            final(self)@ == old(self)@.mais(escapado(pedaco@)),
    {
        self.escrever_corpo(pedaco);
    }

    /// Appends a character to the open string, escaped.
    pub fn push_char(&mut self, c: char)
        ensures
            final(self)@ == old(self)@.mais(escapado_char(c)),
    {
        self.escrever_caractere(c);
    }

    /// Closes the open string.
    pub fn end_str(&mut self)
        ensures
            final(self)@ == old(self)@.mais(seq!['"']),
    {
        let ghost antes = self@;
        self.saida.push('"');
        proof {
            assert(self.saida@ =~= antes.texto + seq!['"']);
        }
    }
}

/// Text that comes in pieces is the text that comes at once, and it goes after
/// what was there.
pub proof fn lei_pedacos_se_juntam(e: Escrita, a: Seq<char>, b: Seq<char>)
    ensures
        e.mais(a).texto == e.texto + a,
        e.mais(a).mais(b) == e.mais(a + b),
{
    assert(e.mais(a).mais(b).texto =~= e.mais(a + b).texto);
}

/// Escaping goes character by character: the pieces of a text are escaped as
/// the whole is.
pub proof fn lei_escapado_junta(a: Seq<char>, b: Seq<char>)
    ensures
        escapado(a + b) == escapado(a) + escapado(b),
    decreases b.len(),
{
    if b.len() == 0 {
        assert(a + b =~= a);
        assert(escapado(a) + escapado(b) =~= escapado(a));
    } else {
        assert((a + b).drop_last() =~= a + b.drop_last());
        lei_escapado_junta(a, b.drop_last());
        assert(escapado(a + b) =~= escapado(a) + escapado(b));
    }
}

/// A character alone is escaped as the text that is made of it.
pub proof fn lei_caractere_e_texto(e: Escrita, c: char)
    ensures
        escapado(seq![c]) == escapado_char(c),
        e.mais(escapado_char(c)) == e.mais(escapado(seq![c])),
{
    reveal_with_fuel(escapado, 2);
    assert(seq![c].drop_last() =~= Seq::<char>::empty());
    assert(Seq::<char>::empty() + escapado_char(c) =~= escapado_char(c));
}

/// A string that is opened, filled in two pieces and closed is the string of
/// the whole text.
pub proof fn lei_string_em_pedacos(e: Escrita, a: Seq<char>, b: Seq<char>)
    ensures
        e.valor(seq!['"']).mais(escapado(a)).mais(escapado(b)).mais(seq!['"']) == e.valor(
            string_json(a + b),
        ),
{
    lei_escapado_junta(a, b);
    let s = e.separada();
    assert(s.texto + seq!['"'] + escapado(a) + escapado(b) + seq!['"'] =~= s.texto + string_json(
        a + b,
    ));
}

/// The value of a hexadecimal digit.
pub open spec fn valor_hex(c: char) -> Option<int> {
    if '0' <= c <= '9' {
        Some(c as int - 48)
    } else if 'a' <= c <= 'f' {
        Some(c as int - 87)
    } else if 'A' <= c <= 'F' {
        Some(c as int - 55)
    } else {
        None
    }
}

/// The number that four hexadecimal digits make.
pub open spec fn quatro_hex(t: Seq<char>) -> Option<int> {
    if t.len() == 4 && valor_hex(t[0]) is Some && valor_hex(t[1]) is Some && valor_hex(t[2]) is Some
        && valor_hex(t[3]) is Some {
        Some(
            valor_hex(t[0])->0 * 4096 + valor_hex(t[1])->0 * 256 + valor_hex(t[2])->0 * 16
                + valor_hex(t[3])->0,
        )
    } else {
        None
    }
}

/// What the escape at the start of a text stands for, and how long it is. The
/// halves of a surrogate pair stand for nothing on their own.
pub open spec fn escape_em(t: Seq<char>) -> Option<(char, int)> {
    if t.len() < 2 || t[0] != '\\' {
        None
    } else if t[1] == '"' || t[1] == '\\' || t[1] == '/' {
        Some((t[1], 2))
    } else if t[1] == 'b' {
        Some((8 as char, 2))
    } else if t[1] == 'f' {
        Some((12 as char, 2))
    } else if t[1] == 'n' {
        Some(('\n', 2))
    } else if t[1] == 'r' {
        Some(('\r', 2))
    } else if t[1] == 't' {
        Some(('\t', 2))
    } else if t[1] == 'u' && t.len() >= 6 && quatro_hex(t.subrange(2, 6)) is Some {
        let n = quatro_hex(t.subrange(2, 6))->0;
        if 0xD800 <= n <= 0xDFFF {
            None
        } else {
            Some((n as char, 6))
        }
    } else {
        None
    }
}

/// What the inside of a JSON string stands for.
pub open spec fn desescapado(t: Seq<char>) -> Option<Seq<char>>
    decreases t.len(),
{
    if t.len() == 0 {
        Some(Seq::empty())
    } else {
        let (c, n): (Option<char>, int) = match escape_em(t) {
            Some(e) => (Some(e.0), e.1),
            None => if t[0] == '\\' || t[0] == '"' || (t[0] as u32) < 0x20 {
                (None, 1)
            } else {
                (Some(t[0]), 1)
            },
        };
        match (c, desescapado(t.skip(n))) {
            (Some(c), Some(resto)) => Some(seq![c] + resto),
            _ => None,
        }
    }
}

proof fn lemma_escape_do_caractere(c: char, r: Seq<char>)
    ensures
        desescapado(escapado_char(c) + r) == match desescapado(r) {
            Some(resto) => Some(seq![c] + resto),
            None => None,
        },
{
    let e = escapado_char(c);
    let t = e + r;
    assert(t.skip(e.len() as int) =~= r);
    if (c as u32) < 0x20 && c != '\n' && c != '\r' && c != '\t' {
        let v = c as u32 as nat;
        reveal_with_fuel(crate::texto::hex_fixo, 5);
        let h = crate::texto::hex_fixo(v, 4);
        assert(h =~= seq!['0', '0', crate::texto::digito((v / 16) as int), crate::texto::digito(
            (v % 16) as int,
        )]);
        assert(e =~= seq!['\\', 'u'] + h);
        assert(t.subrange(2, 6) =~= h);
        assert(quatro_hex(h) == Some(v as int));
    }
}

/// What is escaped is read back: the inside of a written string stands for the
/// text that was written.
pub proof fn lei_escapado_e_lido_de_volta(s: Seq<char>)
    ensures
        desescapado(escapado(s)) == Some(s),
    decreases s.len(),
{
    if s.len() > 0 {
        let (c, r) = (s[0], s.drop_first());
        assert(seq![c] + r =~= s);
        lei_escapado_junta(seq![c], r);
        lei_caractere_e_texto(Escrita::nova(Seq::empty()), c);
        lei_escapado_e_lido_de_volta(r);
        lemma_escape_do_caractere(c, escapado(r));
    }
}

/// A JSON document as a tree. The text of an atom is kept as it is written.
pub enum Valor {
    Cru(Seq<char>),
    Objeto(Seq<(Seq<char>, Valor)>),
    Lista(Seq<Valor>),
}

/// The text of a document.
pub open spec fn texto_de(v: Valor) -> Seq<char>
    decreases v, 0nat,
{
    match v {
        Valor::Cru(t) => t,
        Valor::Objeto(c) => seq!['{'] + texto_dos_campos(c, c.len()) + seq!['}'],
        Valor::Lista(s) => seq!['['] + texto_dos_itens(s, s.len()) + seq![']'],
    }
}

/// The first `n` fields, with commas between them.
pub open spec fn texto_dos_campos(c: Seq<(Seq<char>, Valor)>, n: nat) -> Seq<char>
    decreases c, n,
{
    if n == 0 || n > c.len() {
        Seq::empty()
    } else {
        let virgula = if n > 1 {
            seq![',']
        } else {
            Seq::empty()
        };
        texto_dos_campos(c, (n - 1) as nat) + virgula + string_json(c[n - 1].0) + seq![':'] + texto_de(
            c[n - 1].1,
        )
    }
}

/// The first `n` items, with commas between them.
pub open spec fn texto_dos_itens(s: Seq<Valor>, n: nat) -> Seq<char>
    decreases s, n,
{
    if n == 0 || n > s.len() {
        Seq::empty()
    } else {
        let virgula = if n > 1 {
            seq![',']
        } else {
            Seq::empty()
        };
        texto_dos_itens(s, (n - 1) as nat) + virgula + texto_de(s[n - 1])
    }
}

/// Walking a document in order with the writer's operations.
pub open spec fn percorrida(e: Escrita, v: Valor) -> Escrita
    decreases v, 0nat,
{
    match v {
        Valor::Cru(t) => e.valor(t),
        Valor::Objeto(c) => campos_percorridos(e.abre('{'), c, c.len()).fecha('}'),
        Valor::Lista(s) => itens_percorridos(e.abre('['), s, s.len()).fecha(']'),
    }
}

/// The first `n` fields, each a key followed by its value.
pub open spec fn campos_percorridos(e: Escrita, c: Seq<(Seq<char>, Valor)>, n: nat) -> Escrita
    decreases c, n,
{
    if n == 0 || n > c.len() {
        e
    } else {
        percorrida(campos_percorridos(e, c, (n - 1) as nat).chave(c[n - 1].0), c[n - 1].1)
    }
}

/// The first `n` items.
pub open spec fn itens_percorridos(e: Escrita, s: Seq<Valor>, n: nat) -> Escrita
    decreases s, n,
{
    if n == 0 || n > s.len() {
        e
    } else {
        percorrida(itens_percorridos(e, s, (n - 1) as nat), s[n - 1])
    }
}

/// The document nests at most `k` containers.
pub closed spec fn cabe(v: Valor, k: nat) -> bool
    decreases v, 0nat,
{
    match v {
        Valor::Cru(_) => true,
        Valor::Objeto(c) => k > 0 && campos_cabem(c, c.len(), (k - 1) as nat),
        Valor::Lista(s) => k > 0 && itens_cabem(s, s.len(), (k - 1) as nat),
    }
}

/// Each of the first `n` fields nests at most `k` containers.
pub closed spec fn campos_cabem(c: Seq<(Seq<char>, Valor)>, n: nat, k: nat) -> bool
    decreases c, n,
{
    if n == 0 || n > c.len() {
        true
    } else {
        campos_cabem(c, (n - 1) as nat, k) && cabe(c[n - 1].1, k)
    }
}

/// Each of the first `n` items nests at most `k` containers.
pub closed spec fn itens_cabem(s: Seq<Valor>, n: nat, k: nat) -> bool
    decreases s, n,
{
    if n == 0 || n > s.len() {
        true
    } else {
        itens_cabem(s, (n - 1) as nat, k) && cabe(s[n - 1], k)
    }
}

/// The two writers agree on the levels from `de` up to `n`, as far as each has
/// a bit.
pub open spec fn mesmos_niveis(a: u32, b: u32, de: u32, n: u32) -> bool {
    forall|i: u32|
        #![trigger crate::bits::bit32(a, i)]
        #![trigger crate::bits::bit32(b, i)]
        de <= i <= n && i < 32 ==> crate::bits::bit32(a, i) == crate::bits::bit32(b, i)
}

/// The first level that a document written at `nivel` leaves as it was. The
/// deepest level shares its bit with the outermost one.
pub open spec fn piso(v: Valor, nivel: u32) -> u32 {
    if nivel < 32 && !cabe(v, (31 - nivel) as nat) {
        1
    } else {
        0
    }
}

/// Walking a document writes its text after whatever separator was due, and
/// leaves the writer at the level where it was, ready for a sibling. The
/// writer tracks one bit per level, 32 in all: down to there the text is that
/// of the document, and every level that shares its bit with none below keeps
/// its place.
pub proof fn lei_escritor_escreve_o_documento(e: Escrita, v: Valor)
    requires
        e.nivel <= 32,
        cabe(v, (32 - e.nivel) as nat),
    ensures
        percorrida(e, v).texto == e.separada().texto + texto_de(v),
        percorrida(e, v).nivel == e.nivel,
        !percorrida(e, v).espera_valor,
        mesmos_niveis(
            percorrida(e, v).pendentes,
            e.separada().pendentes,
            piso(v, e.nivel),
            e.nivel,
        ),
    decreases v, 0nat,
{
    match v {
        Valor::Cru(t) => {},
        Valor::Objeto(c) => {
            let a = e.abre('{');
            lemma_abre(e, '{');
            lemma_campos(a, c, c.len());
            lemma_raso(v, e.nivel);
            assert(percorrida(e, v).texto =~= e.separada().texto + texto_de(v));
        },
        Valor::Lista(s) => {
            let a = e.abre('[');
            lemma_abre(e, '[');
            lemma_itens(a, s, s.len());
            lemma_raso(v, e.nivel);
            assert(percorrida(e, v).texto =~= e.separada().texto + texto_de(v));
        },
    }
}

/// The outermost level keeps its place while no level below shares its bit.
proof fn lemma_raso(v: Valor, nivel: u32)
    requires
        nivel < 32,
        !(v is Cru),
    ensures
        piso(v, nivel) == 0 ==> nivel < 31 && match v {
            Valor::Cru(_) => true,
            Valor::Objeto(c) => campos_cabem(c, c.len(), (30 - nivel) as nat),
            Valor::Lista(s) => itens_cabem(s, s.len(), (30 - nivel) as nat),
        },
{
}

proof fn lemma_abre(e: Escrita, c: char)
    requires
        e.nivel < 32,
    ensures
        e.abre(c).nivel == e.nivel + 1,
        !e.abre(c).espera_valor,
        !crate::bits::bit32(e.abre(c).pendentes, ((e.nivel + 1) % 32) as u32),
        mesmos_niveis(
            e.abre(c).pendentes,
            e.separada().pendentes,
            if e.nivel == 31 {
                1
            } else {
                0
            },
            e.nivel,
        ),
{
}

proof fn lemma_campos(e: Escrita, c: Seq<(Seq<char>, Valor)>, n: nat)
    requires
        0 < e.nivel <= 32,
        !e.espera_valor,
        !crate::bits::bit32(e.pendentes, e.nivel % 32),
        n <= c.len(),
        campos_cabem(c, n, (32 - e.nivel) as nat),
    ensures
        campos_percorridos(e, c, n).texto == e.texto + texto_dos_campos(c, n),
        campos_percorridos(e, c, n).nivel == e.nivel,
        !campos_percorridos(e, c, n).espera_valor,
        crate::bits::bit32(campos_percorridos(e, c, n).pendentes, e.nivel % 32) == (n > 0),
        mesmos_niveis(
            campos_percorridos(e, c, n).pendentes,
            e.pendentes,
            if e.nivel < 32 && campos_cabem(c, n, (31 - e.nivel) as nat) {
                0
            } else {
                1
            },
            (e.nivel - 1) as u32,
        ),
    decreases c, n,
{
    if n > 0 {
        let m = (n - 1) as nat;
        lemma_campos(e, c, m);
        let a = campos_percorridos(e, c, m);
        let k = a.chave(c[m as int].0);
        let filho = c[m as int].1;
        assert(cabe(filho, (32 - e.nivel) as nat));
        lei_escritor_escreve_o_documento(k, filho);
        assert(k.separada().pendentes == k.pendentes);
        assert(crate::bits::bit32(k.pendentes, e.nivel % 32));
        if e.nivel < 32 {
            assert(crate::bits::bit32(percorrida(k, filho).pendentes, e.nivel));
        }
        assert(campos_percorridos(e, c, n).texto =~= e.texto + texto_dos_campos(c, n));
    } else {
        assert(e.texto =~= e.texto + texto_dos_campos(c, n));
    }
}

proof fn lemma_itens(e: Escrita, s: Seq<Valor>, n: nat)
    requires
        0 < e.nivel <= 32,
        !e.espera_valor,
        !crate::bits::bit32(e.pendentes, e.nivel % 32),
        n <= s.len(),
        itens_cabem(s, n, (32 - e.nivel) as nat),
    ensures
        itens_percorridos(e, s, n).texto == e.texto + texto_dos_itens(s, n),
        itens_percorridos(e, s, n).nivel == e.nivel,
        !itens_percorridos(e, s, n).espera_valor,
        crate::bits::bit32(itens_percorridos(e, s, n).pendentes, e.nivel % 32) == (n > 0),
        mesmos_niveis(
            itens_percorridos(e, s, n).pendentes,
            e.pendentes,
            if e.nivel < 32 && itens_cabem(s, n, (31 - e.nivel) as nat) {
                0
            } else {
                1
            },
            (e.nivel - 1) as u32,
        ),
    decreases s, n,
{
    if n > 0 {
        let m = (n - 1) as nat;
        lemma_itens(e, s, m);
        let a = itens_percorridos(e, s, m);
        let filho = s[m as int];
        assert(cabe(filho, (32 - e.nivel) as nat));
        lei_escritor_escreve_o_documento(a, filho);
        assert(crate::bits::bit32(a.separada().pendentes, e.nivel % 32));
        if e.nivel < 32 {
            assert(crate::bits::bit32(percorrida(a, filho).pendentes, e.nivel));
        }
        assert(itens_percorridos(e, s, n).texto =~= e.texto + texto_dos_itens(s, n));
    } else {
        assert(e.texto =~= e.texto + texto_dos_itens(s, n));
    }
}

proof fn lemma_campos_prefixo(e: Escrita, c: Seq<(Seq<char>, Valor)>, x: (Seq<char>, Valor), n: nat)
    requires
        n <= c.len(),
    ensures
        campos_percorridos(e, c.push(x), n) == campos_percorridos(e, c, n),
    decreases n,
{
    if n > 0 {
        lemma_campos_prefixo(e, c, x, (n - 1) as nat);
    }
}

proof fn lemma_itens_prefixo(e: Escrita, s: Seq<Valor>, x: Valor, n: nat)
    requires
        n <= s.len(),
    ensures
        itens_percorridos(e, s.push(x), n) == itens_percorridos(e, s, n),
    decreases n,
{
    if n > 0 {
        lemma_itens_prefixo(e, s, x, (n - 1) as nat);
    }
}

/// One more field is its key and then its value.
pub broadcast proof fn lemma_mais_um_campo(
    e: Escrita,
    c: Seq<(Seq<char>, Valor)>,
    x: (Seq<char>, Valor),
)
    ensures
        #[trigger] campos_percorridos(e, c.push(x), c.push(x).len()) == percorrida(
            campos_percorridos(e, c, c.len()).chave(x.0),
            x.1,
        ),
{
    lemma_campos_prefixo(e, c, x, c.len());
}

/// One more item is its value.
pub broadcast proof fn lemma_mais_um_item(e: Escrita, s: Seq<Valor>, x: Valor)
    ensures
        #[trigger] itens_percorridos(e, s.push(x), s.push(x).len()) == percorrida(
            itens_percorridos(e, s, s.len()),
            x,
        ),
{
    lemma_itens_prefixo(e, s, x, s.len());
}

/// Nothing written yet.
pub broadcast proof fn lemma_vazio(e: Escrita)
    ensures
        #![trigger campos_percorridos(e, Seq::empty(), Seq::<(Seq<char>, Valor)>::empty().len())]
        #![trigger itens_percorridos(e, Seq::empty(), Seq::<Valor>::empty().len())]
        campos_percorridos(e, Seq::empty(), Seq::<(Seq<char>, Valor)>::empty().len()) == e,
        itens_percorridos(e, Seq::empty(), Seq::<Valor>::empty().len()) == e,
{
}

/// An object is its fields between braces.
pub broadcast proof fn lemma_objeto(e: Escrita, c: Seq<(Seq<char>, Valor)>)
    ensures
        #[trigger] percorrida(e, Valor::Objeto(c)) == campos_percorridos(
            e.abre('{'),
            c,
            c.len(),
        ).fecha('}'),
{
}

/// A list is its items between brackets.
pub broadcast proof fn lemma_lista(e: Escrita, s: Seq<Valor>)
    ensures
        #[trigger] percorrida(e, Valor::Lista(s)) == itens_percorridos(
            e.abre('['),
            s,
            s.len(),
        ).fecha(']'),
{
}

/// Keys and values stay on the level they are on.
pub broadcast proof fn lemma_mesmo_nivel(e: Escrita, t: Seq<char>)
    ensures
        #![trigger e.chave(t)]
        #![trigger e.valor(t)]
        #![trigger e.mais(t)]
        e.chave(t).nivel == e.nivel,
        e.valor(t).nivel == e.nivel,
        e.mais(t).nivel == e.nivel,
{
}

/// A container goes one level down, and its end one level up.
pub broadcast proof fn lemma_nivel_do_container(e: Escrita, c: char)
    ensures
        #![trigger e.abre(c)]
        #![trigger e.fecha(c)]
        e.nivel < u32::MAX ==> e.abre(c).nivel == e.nivel + 1,
        e.nivel > 0 ==> e.fecha(c).nivel == e.nivel - 1,
{
}

/// Where the writer stands after each operation.
pub broadcast group group_niveis {
    lemma_mesmo_nivel,
    lemma_nivel_do_container,
}

/// How the writer's operations add up to a document.
pub broadcast group group_documento {
    lemma_objeto,
    lemma_lista,
    lemma_mais_um_campo,
    lemma_mais_um_item,
    lemma_vazio,
}

/// The fields of an object, in order.
pub struct Campos {
    pub campos: Seq<(Seq<char>, Valor)>,
}

impl Campos {
    pub open spec fn nenhum() -> Campos {
        Campos { campos: Seq::empty() }
    }

    pub open spec fn mais(self, nome: Seq<char>, v: Valor) -> Campos {
        Campos { campos: self.campos.push((nome, v)) }
    }

    pub open spec fn texto(self, nome: Seq<char>, t: Seq<char>) -> Campos {
        self.mais(nome, Valor::Cru(string_json(t)))
    }

    pub open spec fn numero(self, nome: Seq<char>, n: int) -> Campos {
        self.mais(nome, Valor::Cru(crate::texto::decimal(n as nat)))
    }

    pub open spec fn logico(self, nome: Seq<char>, b: bool) -> Campos {
        self.mais(nome, Valor::Cru(logico_json(b)))
    }

    pub open spec fn nulo(self, nome: Seq<char>) -> Campos {
        self.mais(nome, Valor::Cru("null"@))
    }

    pub open spec fn objeto(self) -> Valor {
        Valor::Objeto(self.campos)
    }
}

/// A whole document, written by a new writer, is what was there before and the
/// document's text, down to 32 levels.
pub proof fn lei_documento_inteiro(antes: Seq<char>, v: Valor)
    requires
        cabe(v, 32),
    ensures
        percorrida(Escrita::nova(antes), v).texto == antes + texto_de(v),
{
    let e = Escrita::nova(antes);
    assert((0u32 >> 0u32) & 1 == 0) by (bit_vector);
    assert(!crate::bits::bit32(e.pendentes, e.nivel));
    lei_escritor_escreve_o_documento(e, v);
}

proof fn lemma_campos_cabem_prefixo(
    c: Seq<(Seq<char>, Valor)>,
    x: (Seq<char>, Valor),
    n: nat,
    k: nat,
)
    requires
        n <= c.len(),
    ensures
        campos_cabem(c.push(x), n, k) == campos_cabem(c, n, k),
    decreases n,
{
    if n > 0 {
        lemma_campos_cabem_prefixo(c, x, (n - 1) as nat, k);
    }
}

proof fn lemma_itens_cabem(s: Seq<Valor>, n: nat, k: nat)
    requires
        n <= s.len(),
    ensures
        itens_cabem(s, n, k) <==> forall|i: int| 0 <= i < n ==> cabe(#[trigger] s[i], k),
    decreases n,
{
    if n > 0 {
        lemma_itens_cabem(s, (n - 1) as nat, k);
    }
}

/// An object nests as deep as its fields do, and one level more.
pub broadcast proof fn lemma_cabe_mais_um_campo(
    c: Seq<(Seq<char>, Valor)>,
    x: (Seq<char>, Valor),
    k: nat,
)
    requires
        k > 0,
    ensures
        #[trigger] cabe(Valor::Objeto(c.push(x)), k) == (cabe(Valor::Objeto(c), k) && cabe(
            x.1,
            (k - 1) as nat,
        )),
{
    lemma_campos_cabem_prefixo(c, x, c.len(), (k - 1) as nat);
    assert(campos_cabem(c.push(x), c.push(x).len(), (k - 1) as nat) == (campos_cabem(
        c,
        c.len(),
        (k - 1) as nat,
    ) && cabe(x.1, (k - 1) as nat)));
}

/// An object without fields is one level.
pub broadcast proof fn lemma_cabe_vazio(k: nat)
    ensures
        #[trigger] cabe(Valor::Objeto(Seq::empty()), k) == (k > 0),
{
}

/// An atom is no level at all.
pub broadcast proof fn lemma_cabe_cru(t: Seq<char>, k: nat)
    ensures
        #[trigger] cabe(Valor::Cru(t), k),
{
}

/// A list nests as deep as its items do, and one level more.
pub broadcast proof fn lemma_cabe_lista(s: Seq<Valor>, k: nat)
    ensures
        #[trigger] cabe(Valor::Lista(s), k) == (k > 0 && forall|i: int|
            0 <= i < s.len() ==> cabe(#[trigger] s[i], (k - 1) as nat)),
{
    if k > 0 {
        lemma_itens_cabem(s, s.len(), (k - 1) as nat);
    }
}

/// What fits in fewer levels fits in more.
pub proof fn lemma_cabe_mais_fundo(v: Valor, k: nat, n: nat)
    requires
        cabe(v, k),
        k <= n,
    ensures
        cabe(v, n),
    decreases v, 0nat,
{
    match v {
        Valor::Cru(_) => {},
        Valor::Objeto(c) => {
            lemma_campos_mais_fundo(c, c.len(), (k - 1) as nat, (n - 1) as nat);
        },
        Valor::Lista(s) => {
            lemma_itens_mais_fundo(s, s.len(), (k - 1) as nat, (n - 1) as nat);
        },
    }
}

proof fn lemma_campos_mais_fundo(c: Seq<(Seq<char>, Valor)>, m: nat, k: nat, n: nat)
    requires
        campos_cabem(c, m, k),
        m <= c.len(),
        k <= n,
    ensures
        campos_cabem(c, m, n),
    decreases c, m,
{
    if m > 0 {
        lemma_campos_mais_fundo(c, (m - 1) as nat, k, n);
        lemma_cabe_mais_fundo(c[m - 1].1, k, n);
    }
}

proof fn lemma_itens_mais_fundo(s: Seq<Valor>, m: nat, k: nat, n: nat)
    requires
        itens_cabem(s, m, k),
        m <= s.len(),
        k <= n,
    ensures
        itens_cabem(s, m, n),
    decreases s, m,
{
    if m > 0 {
        lemma_itens_mais_fundo(s, (m - 1) as nat, k, n);
        lemma_cabe_mais_fundo(s[m - 1], k, n);
    }
}

/// How deep documents nest.
pub broadcast group group_cabe {
    lemma_cabe_mais_um_campo,
    lemma_cabe_vazio,
    lemma_cabe_cru,
    lemma_cabe_lista,
}

/// A list is written between brackets, its items one after another with commas
/// between.
pub proof fn lei_lista_escrita(s: Seq<Valor>, x: Valor)
    ensures
        texto_de(Valor::Lista(Seq::empty())) == seq!['[', ']'],
        texto_de(Valor::Lista(seq![x])) == seq!['['] + texto_de(x) + seq![']'],
        s.len() > 0 ==> texto_de(Valor::Lista(s.push(x))) == texto_de(Valor::Lista(s)).drop_last() + seq![
            ',',
        ] + texto_de(x) + seq![']'],
{
    assert(texto_de(Valor::Lista(Seq::empty())) =~= seq!['[', ']']);
    let u = seq![x];
    assert(texto_dos_itens(u, 0) =~= Seq::<char>::empty());
    assert(texto_dos_itens(u, 1) =~= texto_de(x)) by {
        assert(u[0] == x);
    }
    lemma_primeiros_itens(s, x, s.len());
    let t = s.push(x);
    assert(t[t.len() - 1] == x);
    if s.len() > 0 {
        assert(texto_dos_itens(t, t.len()) == texto_dos_itens(s, s.len()) + seq![','] + texto_de(x));
        assert(texto_de(Valor::Lista(t)) =~= texto_de(Valor::Lista(s)).drop_last() + seq![',']
            + texto_de(x) + seq![']']);
    }
}

proof fn lemma_primeiros_itens(s: Seq<Valor>, x: Valor, n: nat)
    requires
        n <= s.len(),
    ensures
        texto_dos_itens(s.push(x), n) == texto_dos_itens(s, n),
    decreases n,
{
    if n > 0 {
        lemma_primeiros_itens(s, x, (n - 1) as nat);
        assert(s.push(x)[n - 1] == s[n - 1]);
    }
}

/// The text has no control character.
pub open spec fn claro(t: Seq<char>) -> bool {
    forall|i: int| 0 <= i < t.len() ==> (#[trigger] t[i]) as u32 >= 0x20
}

/// No text in the document has a control character.
pub open spec fn sem_controles(v: Valor) -> bool
    decreases v, 0nat,
{
    match v {
        Valor::Cru(t) => claro(t),
        Valor::Objeto(c) => campos_sem_controles(c, c.len()),
        Valor::Lista(s) => itens_sem_controles(s, s.len()),
    }
}

pub open spec fn campos_sem_controles(c: Seq<(Seq<char>, Valor)>, n: nat) -> bool
    decreases c, n,
{
    if n == 0 || n > c.len() {
        true
    } else {
        campos_sem_controles(c, (n - 1) as nat) && sem_controles(c[n - 1].1)
    }
}

pub open spec fn itens_sem_controles(s: Seq<Valor>, n: nat) -> bool
    decreases s, n,
{
    if n == 0 || n > s.len() {
        true
    } else {
        itens_sem_controles(s, (n - 1) as nat) && sem_controles(s[n - 1])
    }
}

/// A string is written without control characters, whatever its text.
pub proof fn lei_string_sem_controles(s: Seq<char>)
    ensures
        claro(escapado(s)),
        claro(string_json(s)),
    decreases s.len(),
{
    if s.len() > 0 {
        lei_string_sem_controles(s.drop_last());
        let c = s.last();
        let e = escapado_char(c);
        if (c as u32) < 0x20 {
            lemma_hex_claro(c as u32 as nat, 4);
        }
        assert(claro(e));
        assert(escapado(s) == escapado(s.drop_last()) + e);
        assert(claro(escapado(s)));
    }
    let t = string_json(s);
    let d = escapado(s);
    assert forall|i: int| 0 <= i < t.len() implies (#[trigger] t[i]) as u32 >= 0x20 by {
        if 0 < i < t.len() - 1 {
            assert(t[i] == d[i - 1]);
        }
    }
}

proof fn lemma_hex_claro(v: nat, n: nat)
    ensures
        claro(crate::texto::hex_fixo(v, n)),
    decreases n,
{
    if n > 0 {
        lemma_hex_claro(v / 16, (n - 1) as nat);
    }
}

/// A document whose texts have no control characters is written on one line: there
/// is no end of line in it, nor any other control character.
pub proof fn lei_documento_numa_linha(v: Valor)
    requires
        sem_controles(v),
    ensures
        claro(texto_de(v)),
    decreases v, 0nat,
{
    match v {
        Valor::Cru(t) => {},
        Valor::Objeto(c) => {
            lemma_campos_claros(c, c.len());
        },
        Valor::Lista(s) => {
            lemma_itens_claros(s, s.len());
        },
    }
}

proof fn lemma_campos_claros(c: Seq<(Seq<char>, Valor)>, n: nat)
    requires
        n <= c.len(),
        campos_sem_controles(c, n),
    ensures
        claro(texto_dos_campos(c, n)),
    decreases c, n,
{
    if n > 0 {
        lemma_campos_claros(c, (n - 1) as nat);
        lei_string_sem_controles(c[n - 1].0);
        lei_documento_numa_linha(c[n - 1].1);
    }
}

proof fn lemma_itens_claros(s: Seq<Valor>, n: nat)
    requires
        n <= s.len(),
        itens_sem_controles(s, n),
    ensures
        claro(texto_dos_itens(s, n)),
    decreases s, n,
{
    if n > 0 {
        lemma_itens_claros(s, (n - 1) as nat);
        lei_documento_numa_linha(s[n - 1]);
    }
}

} // verus!
