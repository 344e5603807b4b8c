//! The kernel's structured log: a ring of typed records of fixed capacity.
use vstd::prelude::*;

use crate::texto::{acrescentar_decimal, de_utf8, mesmo_texto};

verus! {

/// Severity of a record, the gravest first.
#[derive(Clone, Copy, Debug, PartialEq, Eq, PartialOrd, Ord, Structural)]
pub enum Level {
    Error,
    Warn,
    Info,
    Debug,
    Trace,
}

impl Level {
    /// Position in the order of severity: the gravest is zero.
    pub open spec fn ordem_spec(self) -> int {
        match self {
            Level::Error => 0,
            Level::Warn => 1,
            Level::Info => 2,
            Level::Debug => 3,
            Level::Trace => 4,
        }
    }

    pub open spec fn nome_spec(self) -> Seq<char> {
        match self {
            Level::Error => "error"@,
            Level::Warn => "warn"@,
            Level::Info => "info"@,
            Level::Debug => "debug"@,
            Level::Trace => "trace"@,
        }
    }

    /// The level of a name.
    pub open spec fn de_nome_spec(s: Seq<char>) -> Option<Level> {
        if s == "error"@ {
            Some(Level::Error)
        } else if s == "warn"@ {
            Some(Level::Warn)
        } else if s == "info"@ {
            Some(Level::Info)
        } else if s == "debug"@ {
            Some(Level::Debug)
        } else if s == "trace"@ {
            Some(Level::Trace)
        } else {
            None
        }
    }

    /// Position in the order of severity: the gravest is zero.
    pub fn ordem(self) -> (r: u8)
        ensures
            r == self.ordem_spec(),
    {
        match self {
            Level::Error => 0,
            Level::Warn => 1,
            Level::Info => 2,
            Level::Debug => 3,
            Level::Trace => 4,
        }
    }

    /// The name used on the agent's channel.
    pub fn nome(self) -> (r: &'static str)
        ensures
            r@ == self.nome_spec(),
    {
        match self {
            Level::Error => "error",
            Level::Warn => "warn",
            Level::Info => "info",
            Level::Debug => "debug",
            Level::Trace => "trace",
        }
    }

    /// The level a name stands for.
    pub fn de_nome(s: &str) -> (r: Option<Level>)
        ensures
            r == Level::de_nome_spec(s@),
    {
        if mesmo_texto(s, "error") {
            Some(Level::Error)
        } else if mesmo_texto(s, "warn") {
            Some(Level::Warn)
        } else if mesmo_texto(s, "info") {
            Some(Level::Info)
        } else if mesmo_texto(s, "debug") {
            Some(Level::Debug)
        } else if mesmo_texto(s, "trace") {
            Some(Level::Trace)
        } else {
            None
        }
    }

    /// A level's name stands for that level.
    pub proof fn lei_nome_volta(self)
        ensures
            Level::de_nome_spec(self.nome_spec()) == Some(self),
    {
        reveal_strlit("error");
        reveal_strlit("warn");
        reveal_strlit("info");
        reveal_strlit("debug");
        reveal_strlit("trace");
        assert("error"@[0] == 'e');
        assert("warn"@[0] == 'w');
        assert("info"@[0] == 'i');
        assert("debug"@[0] == 'd');
        assert("trace"@[0] == 't');
    }
}

/// How many records the ring keeps.
pub const CAPACIDADE: usize = 128;

/// How many bytes of a message a record keeps.
pub const MSG_MAX: usize = 160;

/// An event of the kernel.
#[derive(Debug)]
pub struct Record {
    /// Sequence number since boot. A gap between two reads means that records
    /// were overwritten.
    pub seq: u64,
    pub uptime_ms: u64,
    pub level: Level,
    pub subsistema: &'static str,
    /// The message, in UTF-8.
    pub bytes: Vec<u8>,
}

/// A record, seen from outside.
#[verifier::ext_equal]
pub struct Registro {
    pub seq: u64,
    pub uptime_ms: u64,
    pub level: Level,
    pub subsistema: Seq<char>,
    pub mensagem: Seq<char>,
}

impl Record {
    pub open spec fn view(&self) -> Registro {
        Registro {
            seq: self.seq,
            uptime_ms: self.uptime_ms,
            level: self.level,
            subsistema: self.subsistema@,
            mensagem: if vstd::utf8::valid_utf8(self.bytes@) {
                vstd::utf8::decode_utf8(self.bytes@)
            } else {
                "<utf-8 invalido>"@
            },
        }
    }

    /// The message.
    pub fn mensagem(&self) -> (r: &str)
        ensures
            r@ == self@.mensagem,
    {
        match de_utf8(self.bytes.as_slice()) {
            Some(s) => s,
            None => "<utf-8 invalido>",
        }
    }
}

/// The longest prefix of `bytes` of at most `n` bytes that ends between two
/// characters.
pub open spec fn fronteira(bytes: Seq<u8>, n: int) -> int
    decreases n,
{
    if n <= 0 || vstd::utf8::is_char_boundary(bytes, n) {
        n
    } else {
        fronteira(bytes, n - 1)
    }
}

/// A message after one more piece: as much of it as fits, never half a
/// character.
pub open spec fn acrescentado(buf: Seq<u8>, s: Seq<char>) -> Seq<u8> {
    let bytes = vstd::utf8::encode_utf8(s);
    let espaco = MSG_MAX - buf.len();
    let n = if bytes.len() <= espaco {
        bytes.len() as int
    } else {
        espaco
    };
    buf + bytes.take(fronteira(bytes, n))
}

/// A message made of the first `n` pieces.
pub open spec fn montada(pedacos: Seq<&str>, n: int) -> Seq<u8>
    decreases n,
{
    if n <= 0 {
        Seq::empty()
    } else {
        acrescentado(montada(pedacos, n - 1), pedacos[n - 1]@)
    }
}

/// A message being written into a buffer of fixed size.
pub struct Cursor {
    buf: Vec<u8>,
}

impl Cursor {
    pub closed spec fn view(&self) -> Seq<u8> {
        self.buf@
    }

    /// The message fits and is text.
    pub open spec fn wf(&self) -> bool {
        self@.len() <= MSG_MAX && vstd::utf8::valid_utf8(self@)
    }

    pub fn novo() -> (r: Cursor)
        ensures
            r.wf(),
            r@ == Seq::<u8>::empty(),
    {
        Cursor { buf: Vec::new() }
    }

    /// Appends as much of a piece as fits, up to the last whole character.
    pub fn write_str(&mut self, s: &str)
        requires
            old(self).wf(),
        ensures
            final(self).wf(),
            final(self)@ == acrescentado(old(self)@, s@),
    {
        let ghost antes = self.buf@;
        let ghost bytes = vstd::utf8::encode_utf8(s@);
        let b: &[u8] = s.as_bytes();
        proof {
            vstd::utf8::encode_utf8_valid_utf8(s@);
            vstd::utf8::is_char_boundary_start_end_of_seq(bytes);
        }
        let espaco: usize = MSG_MAX - self.buf.len();
        let mut n: usize = if b.len() < espaco {
            b.len()
        } else {
            espaco
        };
        let ghost n0 = n as int;
        while n > 0 && !s.is_char_boundary(n)
            invariant
                bytes == vstd::utf8::encode_utf8(s@),
                n <= n0 <= bytes.len(),
                fronteira(bytes, n0) == fronteira(bytes, n as int),
            decreases n,
        {
            n = n - 1;
        }
        proof {
            vstd::utf8::valid_utf8_split(bytes, n as int);
            assert(bytes.take(n as int) =~= bytes.subrange(0, n as int));
            vstd::utf8::valid_utf8_concat(antes, bytes.take(n as int));
        }
        let mut i: usize = 0;
        while i < n
            invariant
                b@ == bytes,
                i <= n <= bytes.len(),
                self.buf@ == antes + bytes.take(i as int),
            decreases n - i,
        {
            self.buf.push(b[i]);
            proof {
                assert(self.buf@ =~= antes + bytes.take(i + 1));
            }
            i = i + 1;
        }
    }
}

/// The ring.
pub struct Anel {
    registros: Vec<Record>,
    /// Where the next record goes.
    proximo: usize,
    /// How many records were ever emitted.
    total: u64,
}

/// The records of `s` at least as grave as `minimo`, in order.
pub open spec fn graves(s: Seq<Registro>, minimo: Level) -> Seq<Registro>
    decreases s.len(),
{
    if s.len() == 0 {
        Seq::empty()
    } else if s.last().level.ordem_spec() <= minimo.ordem_spec() {
        graves(s.drop_last(), minimo).push(s.last())
    } else {
        graves(s.drop_last(), minimo)
    }
}

/// The last `n` of a sequence.
pub open spec fn cauda(s: Seq<Registro>, n: int) -> Seq<Registro> {
    if n >= s.len() {
        s
    } else {
        s.skip(s.len() - n)
    }
}

/// The views of a list of records.
pub open spec fn vistas(v: Seq<&Record>) -> Seq<Registro> {
    Seq::new(v.len(), |i: int| v[i]@)
}

impl Anel {
    /// How many records were ever emitted.
    pub closed spec fn total(&self) -> nat {
        self.total as nat
    }

    /// The slot of the `i`-th oldest record kept.
    spec fn slot(&self, i: int) -> int {
        if self.registros@.len() < CAPACIDADE || self.proximo + i < CAPACIDADE {
            if self.registros@.len() < CAPACIDADE {
                i
            } else {
                self.proximo + i
            }
        } else {
            self.proximo + i - CAPACIDADE
        }
    }

    /// The records kept, oldest first.
    pub closed spec fn guardados(&self) -> Seq<Registro> {
        Seq::new(self.registros@.len(), |i: int| self.registros@[self.slot(i)]@)
    }

    pub closed spec fn wf(&self) -> bool {
        &&& self.registros@.len() <= CAPACIDADE
        &&& self.proximo < CAPACIDADE
        &&& self.registros@.len() < CAPACIDADE ==> self.proximo == self.registros@.len()
            && self.total == self.registros@.len()
        &&& self.registros@.len() == CAPACIDADE ==> self.total >= CAPACIDADE
        &&& forall|i: int|
            0 <= i < self.registros@.len() ==> (#[trigger] self.guardados()[i]).seq == self.total
                - self.registros@.len() + i
        &&& forall|i: int|
            0 <= i < self.registros@.len() ==> vstd::utf8::valid_utf8(
                (#[trigger] self.registros@[i]).bytes@,
            ) && self.registros@[i].bytes@.len() <= MSG_MAX
    }

    /// An empty log.
    pub fn novo() -> (r: Anel)
        ensures
            r.wf(),
            r.total() == 0,
            r.guardados() == Seq::<Registro>::empty(),
    {
        let r = Anel { registros: Vec::new(), proximo: 0, total: 0 };
        proof {
            assert(r.guardados() =~= Seq::<Registro>::empty());
        }
        r
    }

    /// The log keeps as many records as were emitted, up to its capacity, and
    /// they are the last ones: their numbers follow one another up to the last
    /// that was given. A gap between two reads is what was overwritten.
    pub proof fn lei_guardados(&self)
        requires
            self.wf(),
        ensures
            self.guardados().len() == if self.total() < CAPACIDADE {
                self.total() as int
            } else {
                CAPACIDADE as int
            },
            forall|i: int|
                0 <= i < self.guardados().len() ==> (#[trigger] self.guardados()[i]).seq
                    == self.total() - self.guardados().len() + i,
    {
    }

    /// Every message that is kept is whole text, and none is longer than a
    /// record holds.
    pub proof fn lei_mensagens_inteiras(&self, i: int)
        requires
            self.wf(),
            0 <= i < self.guardados().len(),
        ensures
            vstd::utf8::encode_utf8(self.guardados()[i].mensagem).len() <= MSG_MAX,
    {
        let bytes = self.registros@[self.slot(i)].bytes@;
        vstd::utf8::decode_utf8_encode_utf8(bytes);
    }
}

/// Records an event whose message comes in pieces. Returns its number.
///
/// The ring keeps the newest [`CAPACIDADE`] records.
pub fn registrar(
    a: &mut Anel,
    nivel: Level,
    subsistema: &'static str,
    uptime_ms: u64,
    pedacos: &[&str],
) -> (r: u64)
    requires
        old(a).wf(),
        old(a).total() < u64::MAX,
    ensures
        final(a).wf(),
        r == old(a).total(),
        final(a).total() == old(a).total() + 1,
        final(a).guardados() == cauda(
            old(a).guardados().push(
                Registro {
                    seq: r,
                    uptime_ms,
                    level: nivel,
                    subsistema: subsistema@,
                    mensagem: vstd::utf8::decode_utf8(montada(pedacos@, pedacos@.len() as int)),
                },
            ),
            CAPACIDADE as int,
        ),
{
    let ghost antes = *a;
    let seq: u64 = a.total;
    let mut cursor = Cursor::novo();
    let mut i: usize = 0;
    while i < pedacos.len()
        invariant
            i <= pedacos@.len(),
            cursor.wf(),
            cursor@ == montada(pedacos@, i as int),
        decreases pedacos@.len() - i,
    {
        cursor.write_str(pedacos[i]);
        i = i + 1;
    }
    let registro = Record { seq, uptime_ms, level: nivel, subsistema, bytes: cursor.buf };
    let ghost novo = registro@;
    let idx: usize = a.proximo;
    if a.registros.len() < CAPACIDADE {
        a.registros.push(registro);
    } else {
        a.registros.set(idx, registro);
    }
    a.total = a.total + 1;
    a.proximo = if idx + 1 == CAPACIDADE {
        0
    } else {
        idx + 1
    };
    proof {
        let s = antes.guardados();
        assert(a.guardados() =~= cauda(s.push(novo), CAPACIDADE as int));
    }
    seq
}

/// The newest `max` records, oldest first, of which those less grave than
/// `nivel_minimo` are left out.
pub fn ultimos<'a>(a: &'a Anel, max: usize, nivel_minimo: Level) -> (r: Vec<&'a Record>)
    requires
        a.wf(),
    ensures
        vistas(r@) == graves(cauda(a.guardados(), max as int), nivel_minimo),
{
    let guardados: usize = a.registros.len();
    let quantos: usize = if max < guardados {
        max
    } else {
        guardados
    };
    let ghost fim = cauda(a.guardados(), max as int);
    let mut r: Vec<&'a Record> = Vec::new();
    let mut k: usize = 0;
    proof {
        assert(fim.take(0) =~= Seq::<Registro>::empty());
        assert(vistas(r@) =~= Seq::<Registro>::empty());
    }
    while k < quantos
        invariant
            a.wf(),
            guardados == a.registros@.len(),
            quantos <= guardados,
            quantos == fim.len(),
            fim == cauda(a.guardados(), max as int),
            k <= quantos,
            vistas(r@) == graves(fim.take(k as int), nivel_minimo),
        decreases quantos - k,
    {
        let i: usize = guardados - quantos + k;
        let idx: usize = if guardados < CAPACIDADE {
            i
        } else if a.proximo + i < CAPACIDADE {
            a.proximo + i
        } else {
            a.proximo + i - CAPACIDADE
        };
        let registro: &'a Record = &a.registros[idx];
        let ghost antes = r@;
        proof {
            assert(registro@ == fim[k as int]);
            assert(fim.take(k + 1).drop_last() =~= fim.take(k as int));
        }
        if registro.level.ordem() <= nivel_minimo.ordem() {
            r.push(registro);
            proof {
                assert(vistas(r@) =~= vistas(antes).push(registro@));
            }
        }
        k = k + 1;
    }
    proof {
        assert(fim.take(k as int) =~= fim);
    }
    r
}

/// How many records were ever emitted.
pub fn total_emitidos(a: &Anel) -> (r: u64)
    ensures
        r == a.total(),
{
    a.total
}

/// As many spaces.
pub open spec fn espacos(n: int) -> Seq<char> {
    Seq::new(
        if n > 0 {
            n as nat
        } else {
            0
        },
        |i: int| ' ',
    )
}

/// A text with spaces after it, up to a width.
pub open spec fn a_esquerda(s: Seq<char>, largura: int) -> Seq<char> {
    s + espacos(largura - s.len())
}

/// A text with spaces before it, up to a width.
pub open spec fn a_direita(s: Seq<char>, largura: int) -> Seq<char> {
    espacos(largura - s.len()) + s
}

fn acrescentar_espacos(s: &mut String, n: usize)
    ensures
        final(s)@ == old(s)@ + espacos(n as int),
{
    let mut i: usize = 0;
    proof {
        assert(s@ =~= old(s)@ + espacos(0));
    }
    while i < n
        invariant
            i <= n,
            s@ == old(s)@ + espacos(i as int),
        decreases n - i,
    {
        s.push(' ');
        proof {
            assert(s@ =~= old(s)@ + espacos(i + 1));
        }
        i = i + 1;
    }
}

fn acrescentar_a_esquerda(s: &mut String, t: &str, largura: usize)
    ensures
        final(s)@ == old(s)@ + a_esquerda(t@, largura as int),
{
    let n: usize = t.unicode_len();
    s.append(t);
    let ghost meio = s@;
    if n < largura {
        acrescentar_espacos(s, largura - n);
    }
    proof {
        assert(s@ =~= old(s)@ + a_esquerda(t@, largura as int));
    }
}

/// The line of the human console that shows a record.
pub open spec fn linha_humana(seq: u64, nivel: Level, subsistema: Seq<char>, texto: Seq<char>) -> Seq<
    char,
> {
    seq!['['] + a_direita(crate::texto::decimal(seq as nat), 5) + seq![']', ' '] + a_esquerda(
        nivel.nome_spec(),
        5,
    ) + seq![' '] + a_esquerda(subsistema, 8) + seq![' '] + texto
}

/// The line of the human console that shows a record.
pub fn linha_de_console(seq: u64, nivel: Level, subsistema: &str, texto: &str) -> (r: String)
    ensures
        r@ == linha_humana(seq, nivel, subsistema@, texto@),
{
    let mut numero = String::new();
    acrescentar_decimal(&mut numero, seq);
    let n: usize = numero.as_str().unicode_len();
    let mut s = String::new();
    s.push('[');
    if n < 5 {
        acrescentar_espacos(&mut s, 5 - n);
    }
    s.append(numero.as_str());
    s.push(']');
    s.push(' ');
    acrescentar_a_esquerda(&mut s, nivel.nome(), 5);
    s.push(' ');
    acrescentar_a_esquerda(&mut s, subsistema, 8);
    s.push(' ');
    s.append(texto);
    proof {
        assert(numero@ =~= crate::texto::decimal(seq as nat));
        assert(s@ =~= linha_humana(seq, nivel, subsistema@, texto@));
    }
    s
}

/// The order of severity: an error before a warning, that before information, that
/// before debugging, that before tracing.
pub proof fn lei_ordem_de_gravidade()
    ensures
        Level::Error.ordem_spec() < Level::Warn.ordem_spec() < Level::Info.ordem_spec()
            < Level::Debug.ordem_spec() < Level::Trace.ordem_spec(),
{
}

/// The tail of a list is its last `n`, or all of it where it has no more.
pub proof fn lei_cauda(s: Seq<Registro>, n: int, i: int)
    requires
        n >= 0,
    ensures
        cauda(s, n).len() == if n < s.len() {
            n
        } else {
            s.len() as int
        },
        0 <= i < cauda(s, n).len() ==> cauda(s, n)[i] == s[s.len() - cauda(s, n).len() + i],
{
}

/// The grave records are those whose severity is the least asked for or graver, all
/// of them, in order.
pub proof fn lei_graves(s: Seq<Registro>, minimo: Level)
    ensures
        graves(s, minimo) == s.filter(|r: Registro| r.level.ordem_spec() <= minimo.ordem_spec()),
    decreases s.len(),
{
    reveal(Seq::filter);
    if s.len() > 0 {
        lei_graves(s.drop_last(), minimo);
    }
}

proof fn lemma_fronteira(bytes: Seq<u8>, n: int)
    requires
        0 <= n <= bytes.len(),
    ensures
        0 <= fronteira(bytes, n) <= n,
        fronteira(bytes, n) == 0 || vstd::utf8::is_char_boundary(bytes, fronteira(bytes, n)),
        forall|j: int|
            fronteira(bytes, n) < j <= n ==> !(#[trigger] vstd::utf8::is_char_boundary(bytes, j)),
    decreases n,
{
    if n > 0 && !vstd::utf8::is_char_boundary(bytes, n) {
        lemma_fronteira(bytes, n - 1);
    }
}

/// A message takes as much of a piece as fits in 160 bytes: all of it, or as far as
/// the last whole character that does.
pub proof fn lei_pedaco_cabe(buf: Seq<u8>, s: Seq<char>)
    requires
        buf.len() <= 160,
    ensures
        ({
            let bytes = vstd::utf8::encode_utf8(s);
            let r = acrescentado(buf, s);
            let k = r.len() - buf.len();
            &&& buf.len() <= r.len() <= 160
            &&& r.subrange(0, buf.len() as int) == buf
            &&& k <= bytes.len()
            &&& r.subrange(buf.len() as int, r.len() as int) == bytes.subrange(0, k)
            &&& buf.len() + bytes.len() <= 160 ==> r == buf + bytes
            &&& k == 0 || vstd::utf8::is_char_boundary(bytes, k)
            &&& forall|j: int|
                k < j <= bytes.len() && buf.len() + j <= 160 ==> !(
                #[trigger] vstd::utf8::is_char_boundary(bytes, j))
        }),
{
    let bytes = vstd::utf8::encode_utf8(s);
    let espaco = 160 - buf.len();
    let n = if bytes.len() <= espaco {
        bytes.len() as int
    } else {
        espaco
    };
    lemma_fronteira(bytes, n);
    vstd::utf8::encode_utf8_valid_utf8(s);
    vstd::utf8::is_char_boundary_start_end_of_seq(bytes);
    let r = acrescentado(buf, s);
    let k = fronteira(bytes, n);
    assert(r == buf + bytes.take(k));
    assert(r.subrange(0, buf.len() as int) =~= buf);
    assert(r.subrange(buf.len() as int, r.len() as int) =~= bytes.subrange(0, k));
    if buf.len() + bytes.len() <= 160 {
        assert(bytes.take(k) =~= bytes);
    }
}

/// A message is made of its pieces, one after another.
pub proof fn lei_pedacos(pedacos: Seq<&str>, n: int)
    requires
        0 <= n < pedacos.len(),
    ensures
        montada(pedacos, 0) == Seq::<u8>::empty(),
        montada(pedacos, n + 1) == acrescentado(montada(pedacos, n), pedacos[n]@),
{
}

/// The columns of the human console: the number to the right of five places between
/// brackets, the level to the left of five, the subsystem to the left of eight, the
/// text. What is longer than its column is not cut.
pub proof fn lei_linha_humana(seq: u64, nivel: Level, subsistema: Seq<char>, texto: Seq<char>)
    ensures
        ({
            let l = linha_humana(seq, nivel, subsistema, texto);
            let d = crate::texto::decimal(seq as nat);
            let a: int = if d.len() < 5 {
                5
            } else {
                d.len() as int
            };
            let b: int = if subsistema.len() < 8 {
                8
            } else {
                subsistema.len() as int
            };
            &&& l.len() == a + b + texto.len() + 10
            &&& l[0] == '['
            &&& forall|i: int| 1 <= i < 1 + a - d.len() ==> #[trigger] l[i] == ' '
            &&& l.subrange(1 + a - d.len(), 1 + a) == d
            &&& l[a + 1] == ']'
            &&& l[a + 2] == ' '
            &&& l.subrange(a + 3, a + 3 + nivel.nome_spec().len()) == nivel.nome_spec()
            &&& forall|i: int|
                a + 3 + nivel.nome_spec().len() <= i < a + 9 ==> #[trigger] l[i] == ' '
            &&& l.subrange(a + 9, a + 9 + subsistema.len()) == subsistema
            &&& forall|i: int| a + 9 + subsistema.len() <= i < a + b + 10 ==> #[trigger] l[i] == ' '
            &&& l.subrange(a + b + 10, l.len() as int) == texto
        }),
{
    reveal_strlit("error");
    reveal_strlit("warn");
    reveal_strlit("info");
    reveal_strlit("debug");
    reveal_strlit("trace");
    let l = linha_humana(seq, nivel, subsistema, texto);
    let d = crate::texto::decimal(seq as nat);
    let a: int = if d.len() < 5 {
        5
    } else {
        d.len() as int
    };
    let b: int = if subsistema.len() < 8 {
        8
    } else {
        subsistema.len() as int
    };
    let n = nivel.nome_spec();
    assert(n.len() <= 5);
    assert(l.len() == a + b + texto.len() + 10);
    assert(l.subrange(1 + a - d.len(), 1 + a) =~= d);
    assert(l.subrange(a + 3, a + 3 + n.len()) =~= n);
    assert(l.subrange(a + 9, a + 9 + subsistema.len()) =~= subsistema);
    assert(l.subrange(a + b + 10, l.len() as int) =~= texto);
}

} // verus!
