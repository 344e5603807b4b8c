//! The interpreter: the commands of the agent's channel, typed by a person.
use vstd::prelude::*;

use crate::agent::commands::Instantaneo;
use crate::agent::json::JsonWriter;
use crate::agent::leitura::Json;
use crate::agent::registry::{comandos, encontrar, validar, Handler};
use crate::texto::{aparar, mesmo_texto};

verus! {

/// The longest line that can be typed.
pub const LINHA_MAX: usize = 120;

/// What is shown before what is typed.
pub const PROMPT: &'static str = "duke> ";

/// How many characters the name of a command takes in the list.
pub const COLUNA: usize = 18;

/// The name of a command and its parameters. The name goes up to the first
/// space; where there are no parameters, they are an object without fields.
pub open spec fn separado(s: Seq<char>) -> (Seq<char>, Seq<char>) {
    let linha = crate::texto::aparado(s);
    let i = primeiro_espaco(linha, 0);
    if i < linha.len() {
        let resto = crate::texto::aparado(linha.skip(i + 1));
        (
            linha.take(i),
            if resto.len() == 0 {
                "{}"@
            } else {
                resto
            },
        )
    } else {
        (linha, "{}"@)
    }
}

/// Where the first space from `i` on is; the length where there is none.
pub open spec fn primeiro_espaco(s: Seq<char>, i: int) -> int
    decreases s.len() - i,
{
    if i >= s.len() {
        s.len() as int
    } else if s[i] == ' ' {
        i
    } else {
        primeiro_espaco(s, i + 1)
    }
}

/// Takes the name of a command and its parameters apart.
pub fn separar(linha: &str) -> (r: (&str, &str))
    ensures
        (r.0@, r.1@) == separado(linha@),
{
    let linha = aparar(linha);
    let n: usize = linha.unicode_len();
    let mut i: usize = 0;
    while i < n && linha.get_char(i) != ' '
        invariant
            n == linha@.len(),
            i <= n,
            primeiro_espaco(linha@, 0) == primeiro_espaco(linha@, i as int),
        decreases n - i,
    {
        i = i + 1;
    }
    if i >= n {
        return (linha, "{}");
    }
    let depois = linha.substring_char(i + 1, n);
    proof {
        assert(depois@ =~= linha@.skip(i + 1));
        assert(linha@.subrange(0, i as int) =~= linha@.take(i as int));
    }
    let resto = aparar(depois);
    (
        linha.substring_char(0, i),
        if resto.unicode_len() == 0 {
            "{}"
        } else {
            resto
        },
    )
}

/// The character is text: it has a drawing of its own, or is a space.
pub open spec fn imprimivel(c: char) -> bool {
    ' ' <= c && c <= '~'
}

/// What is being typed.
pub struct Linha {
    texto: Vec<char>,
}

/// What to show after a key.
pub enum Gesto {
    /// Nothing.
    Nada,
    /// The character.
    Ecoar(char),
    /// One character less.
    Apagar,
    /// That the line was too long, and the prompt again.
    Recusar,
    /// A new line, what the line gives, and the prompt again.
    Executar(String),
}

impl Linha {
    pub closed spec fn view(&self) -> Seq<char> {
        self.texto@
    }

    /// The line is text, and not too long.
    pub open spec fn wf(&self) -> bool {
        &&& self@.len() <= LINHA_MAX
        &&& forall|i: int| 0 <= i < self@.len() ==> imprimivel(#[trigger] self@[i])
    }

    /// Nothing was typed.
    pub fn nova() -> (r: Linha)
        ensures
            r.wf(),
            r@ == Seq::<char>::empty(),
    {
        Linha { texto: Vec::new() }
    }

    /// A key was typed. A line that grows too long is refused as a whole, not
    /// cut.
    pub fn tecla(&mut self, c: char) -> (r: Gesto)
        requires
            old(self).wf(),
        ensures
            final(self).wf(),
            if c == '\n' {
                &&& r matches Gesto::Executar(t) && t@ == old(self)@
                &&& final(self)@ == Seq::<char>::empty()
            } else if c == '\u{8}' {
                if old(self)@.len() > 0 {
                    r is Apagar && final(self)@ == old(self)@.drop_last()
                } else {
                    r is Nada && final(self)@ == old(self)@
                }
            } else if imprimivel(c) {
                if old(self)@.len() < LINHA_MAX {
                    r == Gesto::Ecoar(c) && final(self)@ == old(self)@.push(c)
                } else {
                    r is Recusar && final(self)@ == Seq::<char>::empty()
                }
            } else {
                r is Nada && final(self)@ == old(self)@
            },
    {
        if c == '\n' {
            let mut t = String::new();
            let mut i: usize = 0;
            while i < self.texto.len()
                invariant
                    i <= self.texto@.len(),
                    t@ == self.texto@.take(i as int),
                decreases self.texto@.len() - i,
            {
                t.push(self.texto[i]);
                proof {
                    assert(t@ =~= self.texto@.take(i + 1));
                }
                i = i + 1;
            }
            proof {
                assert(self.texto@.take(i as int) =~= self.texto@);
            }
            self.texto.clear();
            return Gesto::Executar(t);
        }
        if c == '\u{8}' {
            if self.texto.len() > 0 {
                let _ = self.texto.pop();
                return Gesto::Apagar;
            }
            return Gesto::Nada;
        }
        if ' ' <= c && c <= '~' {
            if self.texto.len() < LINHA_MAX {
                self.texto.push(c);
                return Gesto::Ecoar(c);
            }
            self.texto.clear();
            return Gesto::Recusar;
        }
        Gesto::Nada
    }
}

/// What a typed line asks for.
pub enum Ordem<'a> {
    /// Nothing.
    Nada,
    /// The list of commands.
    Ajuda,
    /// A command that does not exist.
    Desconhecido(&'a str),
    /// A command, with the first parameter that is not as it should be.
    Invalido { handler: Handler, parametro: &'static str },
    /// A command, with its parameters, which are as they should be.
    Comando { handler: Handler, params: &'a str },
}

/// Reads a typed line. A command is taken from here on the same terms as from
/// the agent's channel: its parameters are checked before it runs.
pub fn executar(linha: &str) -> (r: Ordem<'_>)
    ensures
        ({
            let (nome, params) = separado(linha@);
            match r {
                Ordem::Nada => crate::texto::aparado(linha@).len() == 0,
                Ordem::Ajuda => crate::texto::aparado(linha@).len() > 0 && nome == "ajuda"@,
                Ordem::Desconhecido(n) => {
                    &&& crate::texto::aparado(linha@).len() > 0
                    &&& n@ == nome
                    &&& nome != "ajuda"@
                    &&& forall|h: Handler| (#[trigger] h.nome_spec())@ != nome
                },
                Ordem::Invalido { handler, parametro } => {
                    &&& crate::texto::aparado(linha@).len() > 0
                    &&& nome != "ajuda"@
                    &&& handler.nome_spec()@ == nome
                    &&& crate::agent::registry::primeiro_errado(
                        handler.params_spec(),
                        vstd::utf8::encode_utf8(params),
                    ) == Some(parametro)
                },
                Ordem::Comando { handler, params: p } => {
                    &&& crate::texto::aparado(linha@).len() > 0
                    &&& nome != "ajuda"@
                    &&& handler.nome_spec()@ == nome
                    &&& p@ == params
                    &&& crate::agent::registry::primeiro_errado(
                        handler.params_spec(),
                        vstd::utf8::encode_utf8(params),
                    ) is None
                },
            }
        }),
{
    if aparar(linha).unicode_len() == 0 {
        return Ordem::Nada;
    }
    let (nome, params) = separar(linha);
    if mesmo_texto(nome, "ajuda") {
        return Ordem::Ajuda;
    }
    match encontrar(nome) {
        None => Ordem::Desconhecido(nome),
        Some(c) => match validar(&c, Json(params.as_bytes())) {
            Err(parametro) => Ordem::Invalido { handler: c.handler, parametro },
            Ok(_) => Ordem::Comando { handler: c.handler, params },
        },
    }
}

/// A line of the list: two spaces, the name in its column, a space, and what
/// the command does. A name that is too long for the column pushes the rest.
pub open spec fn linha_da_lista(nome: Seq<char>, resumo: Seq<char>) -> Seq<char> {
    seq![' ', ' '] + nome + espacos(COLUNA - nome.len()) + seq![' '] + resumo
}

/// So many spaces.
pub open spec fn espacos(n: int) -> Seq<char> {
    Seq::new(
        if n < 0 {
            0
        } else {
            n as nat
        },
        |i: int| ' ',
    )
}

/// A line of the list.
fn linha_de_ajuda(nome: &str, resumo: &str) -> (r: String)
    ensures
        r@ == linha_da_lista(nome@, resumo@),
{
    let mut t = String::new();
    t.push(' ');
    t.push(' ');
    t.append(nome);
    let n: usize = nome.unicode_len();
    let mut i: usize = n;
    let ghost base = t@;
    proof {
        assert(base =~= seq![' ', ' '] + nome@);
        assert(base + espacos(0) =~= base);
    }
    while i < COLUNA
        invariant
            n <= i,
            i <= COLUNA || i == n,
            t@ == base + espacos(i - n),
        decreases COLUNA - i,
    {
        t.push(' ');
        proof {
            assert(t@ =~= base + espacos(i + 1 - n));
        }
        i = i + 1;
    }
    proof {
        assert(espacos(i - n) =~= espacos(COLUNA - n));
    }
    t.push(' ');
    t.append(resumo);
    proof {
        assert(t@ =~= linha_da_lista(nome@, resumo@));
    }
    t
}

/// The list of commands, and of `ajuda` itself: the same commands that the
/// channel publishes.
pub fn ajuda() -> (r: Vec<String>)
    ensures
        ({
            let todos = crate::agent::registry::todos();
            &&& r@.len() == todos.len() + 1
            &&& forall|i: int|
                0 <= i < todos.len() ==> (#[trigger] r@[i])@ == linha_da_lista(
                    todos[i].nome_spec()@,
                    todos[i].resumo_spec()@,
                )
            &&& r@[todos.len() as int]@ == linha_da_lista("ajuda"@, "Esta lista."@)
        }),
{
    let todos = comandos();
    let mut r: Vec<String> = Vec::new();
    let mut i: usize = 0;
    while i < todos.len()
        invariant
            i <= todos@.len(),
            todos@ == crate::agent::registry::todos(),
            r@.len() == i,
            forall|j: int|
                0 <= j < i ==> (#[trigger] r@[j])@ == linha_da_lista(
                    todos@[j].nome_spec()@,
                    todos@[j].resumo_spec()@,
                ),
        decreases todos@.len() - i,
    {
        let h = todos[i];
        r.push(linha_de_ajuda(h.nome(), h.resumo()));
        i = i + 1;
    }
    r.push(linha_de_ajuda("ajuda", "Esta lista."));
    r
}

/// Draws JSON so that a person can read it. Nothing is interpreted: levels are
/// counted, text between quotes is left alone, and lines are broken.
#[derive(Clone, Copy, Debug, PartialEq, Eq, Structural)]
pub struct SaidaHumana {
    pub profundidade: u64,
    pub dentro_de_string: bool,
    pub escapado: bool,
}

/// A new line, indented by two spaces for each level.
pub open spec fn quebra(profundidade: int) -> Seq<char> {
    seq!['\n'] + espacos(2 * profundidade)
}

/// What a character draws, and what comes of the state.
pub open spec fn desenho(e: SaidaHumana, c: char) -> (SaidaHumana, Seq<char>) {
    if e.dentro_de_string {
        (
            SaidaHumana {
                escapado: !e.escapado && c == '\\',
                dentro_de_string: e.escapado || c != '"',
                ..e
            },
            seq![c],
        )
    } else if c == '"' {
        (SaidaHumana { dentro_de_string: true, ..e }, seq![c])
    } else if c == '{' || c == '[' {
        (
            SaidaHumana { profundidade: (e.profundidade + 1) as u64, ..e },
            seq![c] + quebra(e.profundidade + 1),
        )
    } else if c == '}' || c == ']' {
        let p = if e.profundidade == 0 {
            0
        } else {
            e.profundidade - 1
        };
        (SaidaHumana { profundidade: p as u64, ..e }, quebra(p) + seq![c])
    } else if c == ',' {
        (e, seq![c] + quebra(e.profundidade as int))
    } else if c == ':' {
        (e, seq![c, ' '])
    } else {
        (e, seq![c])
    }
}

/// What a text draws, and what comes of the state.
pub open spec fn desenhado(e: SaidaHumana, s: Seq<char>) -> (SaidaHumana, Seq<char>)
    decreases s.len(),
{
    if s.len() == 0 {
        (e, Seq::empty())
    } else {
        let antes = desenhado(e, s.drop_last());
        let (depois, d) = desenho(antes.0, s.last());
        (depois, antes.1 + d)
    }
}

impl SaidaHumana {
    pub open spec fn nova_spec() -> SaidaHumana {
        SaidaHumana { profundidade: 0, dentro_de_string: false, escapado: false }
    }

    /// Before the first character.
    pub fn nova() -> (r: SaidaHumana)
        ensures
            r == SaidaHumana::nova_spec(),
    {
        SaidaHumana { profundidade: 0, dentro_de_string: false, escapado: false }
    }

    /// A new line, indented.
    fn quebrar(&self, saida: &mut String)
        ensures
            final(saida)@ == old(saida)@ + quebra(self.profundidade as int),
    {
        saida.push('\n');
        let ghost base = saida@;
        let mut i: u64 = 0;
        proof {
            assert(base + espacos(0) =~= base);
        }
        while i < self.profundidade
            invariant
                i <= self.profundidade,
                saida@ == base + espacos(2 * i),
            decreases self.profundidade - i,
        {
            saida.push(' ');
            saida.push(' ');
            proof {
                assert(saida@ =~= base + espacos(2 * (i + 1)));
            }
            i = i + 1;
        }
        proof {
            assert(saida@ =~= old(saida)@ + quebra(self.profundidade as int));
        }
    }

    /// Draws a character.
    pub fn caractere(&mut self, c: char, saida: &mut String)
        requires
            old(self).profundidade < u64::MAX,
        ensures
            *final(self) == desenho(*old(self), c).0,
            final(saida)@ == old(saida)@ + desenho(*old(self), c).1,
    {
        if self.dentro_de_string {
            saida.push(c);
            if self.escapado {
                self.escapado = false;
            } else if c == '\\' {
                self.escapado = true;
            } else if c == '"' {
                self.dentro_de_string = false;
            }
        } else if c == '"' {
            self.dentro_de_string = true;
            saida.push(c);
        } else if c == '{' || c == '[' {
            saida.push(c);
            self.profundidade = self.profundidade + 1;
            self.quebrar(saida);
        } else if c == '}' || c == ']' {
            self.profundidade = self.profundidade.saturating_sub(1);
            self.quebrar(saida);
            saida.push(c);
        } else if c == ',' {
            saida.push(c);
            self.quebrar(saida);
        } else if c == ':' {
            saida.push(c);
            saida.push(' ');
        } else {
            saida.push(c);
        }
        proof {
            assert(saida@ =~= old(saida)@ + desenho(*old(self), c).1);
        }
    }

    /// Draws a text.
    pub fn write_str(&mut self, pedaco: &str, saida: &mut String)
        requires
            old(self).profundidade + pedaco@.len() <= u64::MAX,
        ensures
            *final(self) == desenhado(*old(self), pedaco@).0,
            final(saida)@ == old(saida)@ + desenhado(*old(self), pedaco@).1,
    {
        let n: usize = pedaco.unicode_len();
        let mut i: usize = 0;
        proof {
            assert(pedaco@.take(0) =~= Seq::<char>::empty());
            assert(saida@ + Seq::<char>::empty() =~= saida@);
        }
        while i < n
            invariant
                n == pedaco@.len(),
                i <= n,
                old(self).profundidade + n <= u64::MAX,
                self.profundidade <= old(self).profundidade + i,
                *self == desenhado(*old(self), pedaco@.take(i as int)).0,
                saida@ == old(saida)@ + desenhado(*old(self), pedaco@.take(i as int)).1,
            decreases n - i,
        {
            let ghost parte = pedaco@.take(i + 1);
            proof {
                assert(parte.drop_last() =~= pedaco@.take(i as int));
                assert(parte.last() == pedaco@[i as int]);
            }
            self.caractere(pedaco.get_char(i), saida);
            proof {
                assert(saida@ =~= old(saida)@ + desenhado(*old(self), parte).1);
            }
            i = i + 1;
        }
        proof {
            assert(pedaco@.take(n as int) =~= pedaco@);
        }
    }
}

/// Whether text is between quotes and after a bar, past a character.
pub open spec fn apos(st: (bool, bool), c: char) -> (bool, bool) {
    if st.0 {
        (st.1 || c != '"', !st.1 && c == '\\')
    } else {
        (c == '"', st.1)
    }
}

/// The same, past a text.
pub open spec fn apos_texto(st: (bool, bool), s: Seq<char>) -> (bool, bool)
    decreases s.len(),
{
    if s.len() == 0 {
        st
    } else {
        apos(apos_texto(st, s.drop_last()), s.last())
    }
}

/// The text without the spaces and new lines that are not between quotes.
pub open spec fn enxuto(st: (bool, bool), s: Seq<char>) -> Seq<char>
    decreases s.len(),
{
    if s.len() == 0 {
        Seq::empty()
    } else {
        let antes = enxuto(st, s.drop_last());
        if !apos_texto(st, s.drop_last()).0 && (s.last() == ' ' || s.last() == '\n') {
            antes
        } else {
            antes.push(s.last())
        }
    }
}

proof fn lemma_enxuto_soma(st: (bool, bool), a: Seq<char>, b: Seq<char>)
    ensures
        apos_texto(st, a + b) == apos_texto(apos_texto(st, a), b),
        enxuto(st, a + b) == enxuto(st, a) + enxuto(apos_texto(st, a), b),
    decreases b.len(),
{
    if b.len() == 0 {
        assert(a + b =~= a);
        assert(enxuto(st, a) + Seq::<char>::empty() =~= enxuto(st, a));
    } else {
        assert((a + b).drop_last() =~= a + b.drop_last());
        lemma_enxuto_soma(st, a, b.drop_last());
        assert(enxuto(st, a + b) =~= enxuto(st, a) + enxuto(apos_texto(st, a), b));
    }
}

proof fn lemma_um(st: (bool, bool), c: char)
    ensures
        apos_texto(st, seq![c]) == apos(st, c),
        !st.0 && (c == ' ' || c == '\n') ==> enxuto(st, seq![c]) == Seq::<char>::empty(),
{
    reveal_with_fuel(apos_texto, 2);
    reveal_with_fuel(enxuto, 2);
    assert(seq![c].drop_last() =~= Seq::<char>::empty());
    assert(seq![c].last() == c);
}

proof fn lemma_espacos_somem(st: (bool, bool), n: int)
    requires
        !st.0,
    ensures
        apos_texto(st, espacos(n)) == st,
        enxuto(st, espacos(n)) == Seq::<char>::empty(),
    decreases n,
{
    if n > 0 {
        lemma_espacos_somem(st, n - 1);
        assert(espacos(n).drop_last() =~= espacos(n - 1));
    }
}

proof fn lemma_quebra_some(st: (bool, bool), p: int)
    requires
        !st.0,
    ensures
        apos_texto(st, quebra(p)) == st,
        enxuto(st, quebra(p)) == Seq::<char>::empty(),
{
    lemma_um(st, '\n');
    lemma_espacos_somem(st, 2 * p);
    lemma_enxuto_soma(st, seq!['\n'], espacos(2 * p));
    assert(Seq::<char>::empty() + Seq::<char>::empty() =~= Seq::<char>::empty());
}

proof fn lemma_desenho(e: SaidaHumana, c: char)
    ensures
        ({
            let st = (e.dentro_de_string, e.escapado);
            let (depois, d) = desenho(e, c);
            &&& (depois.dentro_de_string, depois.escapado) == apos(st, c)
            &&& apos_texto(st, d) == apos(st, c)
            &&& enxuto(st, d) == enxuto(st, seq![c])
        }),
{
    let st = (e.dentro_de_string, e.escapado);
    lemma_um(st, c);
    if !e.dentro_de_string {
        let p = if e.profundidade == 0 {
            0
        } else {
            e.profundidade - 1
        };
        lemma_quebra_some(st, e.profundidade + 1);
        lemma_quebra_some(st, e.profundidade as int);
        lemma_quebra_some(st, p);
        lemma_enxuto_soma(st, seq![c], quebra(e.profundidade + 1));
        lemma_enxuto_soma(st, seq![c], quebra(e.profundidade as int));
        lemma_enxuto_soma(st, quebra(p), seq![c]);
        lemma_um(st, ' ');
        lemma_enxuto_soma(st, seq![c], seq![' ']);
        assert(seq![c, ' '] =~= seq![c] + seq![' ']);
        let um = enxuto(st, seq![c]);
        assert(um + Seq::<char>::empty() =~= um);
        assert(Seq::<char>::empty() + um =~= um);
    }
}

/// What is drawn is what was written: apart from spaces and new lines that are
/// not between quotes, nothing is added, lost or changed.
pub proof fn lei_conteudo_intacto(s: Seq<char>)
    ensures
        enxuto((false, false), desenhado(SaidaHumana::nova_spec(), s).1) == enxuto(
            (false, false),
            s,
        ),
{
    lemma_conteudo(SaidaHumana::nova_spec(), s);
}

proof fn lemma_conteudo(e: SaidaHumana, s: Seq<char>)
    ensures
        ({
            let st = (e.dentro_de_string, e.escapado);
            let (depois, d) = desenhado(e, s);
            &&& (depois.dentro_de_string, depois.escapado) == apos_texto(st, s)
            &&& apos_texto(st, d) == apos_texto(st, s)
            &&& enxuto(st, d) == enxuto(st, s)
        }),
    decreases s.len(),
{
    if s.len() > 0 {
        let st = (e.dentro_de_string, e.escapado);
        let (antes, d) = desenhado(e, s.drop_last());
        let c = s.last();
        lemma_conteudo(e, s.drop_last());
        lemma_desenho(antes, c);
        lemma_enxuto_soma(st, d, desenho(antes, c).1);
        lemma_enxuto_soma(st, s.drop_last(), seq![c]);
        assert(s.drop_last() + seq![c] =~= s);
    }
}

/// What a command answers, drawn for a person.
pub fn despachar(handler: Handler, params: &str, s: &Instantaneo<'_>) -> (r: String)
    requires
        s.wf(),
    ensures
        r@ == desenhado(
            SaidaHumana::nova_spec(),
            crate::agent::json::texto_de(
                crate::agent::commands::documento(handler, s, vstd::utf8::encode_utf8(params@)),
            ),
        ).1,
{
    let mut w = JsonWriter::new(String::new());
    crate::agent::commands::executar(&mut w, handler, s, Json(params.as_bytes()));
    let t = w.terminar();
    proof {
        let v = crate::agent::commands::documento(handler, s, vstd::utf8::encode_utf8(params@));
        crate::agent::commands::lei_documentos_cabem(handler, s, vstd::utf8::encode_utf8(params@));
        crate::agent::json::lemma_cabe_mais_fundo(v, 6, 32);
        crate::agent::json::lei_documento_inteiro(Seq::empty(), v);
        assert(Seq::<char>::empty() + crate::agent::json::texto_de(v)
            =~= crate::agent::json::texto_de(v));
    }
    let tamanho: usize = t.as_str().unicode_len();
    proof {
        assert(t@.len() == tamanho);
    }
    let mut saida = String::new();
    let mut humana = SaidaHumana::nova();
    humana.write_str(t.as_str(), &mut saida);
    proof {
        assert(saida@ =~= desenhado(SaidaHumana::nova_spec(), t@).1);
    }
    saida
}

/// Where the first space is.
proof fn lemma_primeiro_espaco(s: Seq<char>, i: int)
    requires
        0 <= i <= s.len(),
    ensures
        i <= primeiro_espaco(s, i) <= s.len(),
        primeiro_espaco(s, i) < s.len() ==> s[primeiro_espaco(s, i)] == ' ',
        forall|j: int| i <= j < primeiro_espaco(s, i) ==> #[trigger] s[j] != ' ',
    decreases s.len() - i,
{
    if i < s.len() && s[i] != ' ' {
        lemma_primeiro_espaco(s, i + 1);
    }
}

/// A line is a name without spaces and, after the first space, its parameters,
/// trimmed; without any, an object without fields.
pub proof fn lei_separado(s: Seq<char>)
    ensures
        ({
            let l = crate::texto::aparado(s);
            let (nome, params) = separado(s);
            &&& nome.len() <= l.len()
            &&& l.subrange(0, nome.len() as int) == nome
            &&& forall|j: int| 0 <= j < nome.len() ==> #[trigger] nome[j] != ' '
            &&& nome.len() < l.len() ==> l[nome.len() as int] == ' '
            &&& nome.len() == l.len() ==> params == "{}"@
            &&& nome.len() < l.len() ==> ({
                let resto = crate::texto::aparado(l.subrange(1int + nome.len(), l.len() as int));
                &&& resto.len() > 0 ==> params == resto
                &&& resto.len() == 0 ==> params == "{}"@
            })
        }),
{
    let l = crate::texto::aparado(s);
    lemma_primeiro_espaco(l, 0);
    let i = primeiro_espaco(l, 0);
    let (nome, params) = separado(s);
    if i < l.len() {
        assert(nome == l.take(i));
        assert(l.subrange(0, i) =~= nome);
        assert(l.subrange(i + 1, l.len() as int) =~= l.skip(i + 1));
        assert forall|j: int| 0 <= j < nome.len() implies #[trigger] nome[j] != ' ' by {
            assert(nome[j] == l[j]);
        }
    } else {
        assert(l.subrange(0, l.len() as int) =~= l);
    }
}

/// A line of the list: the name from the third column on, and what the command does
/// after it, never closer than one space, and in the same column for all names that
/// fit.
pub proof fn lei_linha_da_lista(nome: Seq<char>, resumo: Seq<char>, i: int)
    ensures
        ({
            let l = linha_da_lista(nome, resumo);
            let c: int = if nome.len() < COLUNA {
                COLUNA as int
            } else {
                nome.len() as int
            };
            &&& l.len() == c + 3 + resumo.len()
            &&& l[0] == ' ' && l[1] == ' '
            &&& l.subrange(2, 2int + nome.len()) == nome
            &&& 2 + nome.len() <= i < c + 3 ==> l[i] == ' '
            &&& l.subrange(c + 3, l.len() as int) == resumo
        }),
{
    let l = linha_da_lista(nome, resumo);
    let c: int = if nome.len() < COLUNA {
        COLUNA as int
    } else {
        nome.len() as int
    };
    assert(l.subrange(2, 2int + nome.len()) =~= nome);
    assert(l.subrange(c + 3, l.len() as int) =~= resumo);
}

/// Outside quotes, an opening starts a line one level deeper after it, a closing
/// starts one before it a level less deep, a comma starts one at the same level;
/// each level is two spaces. Inside quotes nothing is added, and they end at the
/// first quote that no bar precedes.
pub proof fn lei_desenho(e: SaidaHumana, c: char, i: int)
    requires
        e.profundidade < u64::MAX,
    ensures
        ({
            let (d, t) = desenho(e, c);
            let p = e.profundidade as int;
            &&& e.dentro_de_string ==> t == seq![c] && d.profundidade == p && (d.dentro_de_string
                == !(c == '"' && !e.escapado)) && (d.escapado == (c == '\\' && !e.escapado))
            &&& !e.dentro_de_string && (c == '{' || c == '[') ==> d.profundidade == p + 1 && t.len()
                == 2 * (p + 1) + 2 && t[0] == c && t[1] == '\n' && (2 <= i < t.len() ==> t[i] == ' ')
            &&& !e.dentro_de_string && (c == '}' || c == ']') && p > 0 ==> d.profundidade == p - 1
                && t.len() == 2 * (p - 1) + 2 && t[0] == '\n' && t.last() == c && (1 <= i < t.len() - 1
                ==> t[i] == ' ')
            &&& !e.dentro_de_string && c == ',' ==> d == e && t.len() == 2 * p + 2 && t[0] == ',' && t[1]
                == '\n' && (2 <= i < t.len() ==> t[i] == ' ')
            &&& !e.dentro_de_string && c == ':' ==> d == e && t == seq![':', ' ']
            &&& !e.dentro_de_string && c == '"' ==> d.dentro_de_string && d.profundidade == p && t
                == seq![c]
        }),
{
}

/// The text of a line is what ASCII can print: from the space to the tilde.
pub proof fn lei_imprimivel(c: char)
    ensures
        imprimivel(c) <==> 0x20 <= c as u32 <= 0x7E,
{
}

} // verus!
