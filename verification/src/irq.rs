//! How many times each interrupt line fired, and what the line is called.
use vstd::prelude::*;

verus! {

/// How many lines have a counter of their own.
pub const MAX_LINHAS: usize = 256;

/// The counters of every line. All of them wrap around at 64 bits.
pub struct Linhas {
    contadores: Vec<u64>,
    nomes: Vec<&'static str>,
    total: u64,
    fora_do_teto: u64,
}

/// A line that fired at least once.
#[derive(Clone, Copy, Debug)]
pub struct Contagem {
    pub linha: usize,
    pub nome: &'static str,
    pub total: u64,
}

/// The lines of the first `n` that fired, in order.
pub open spec fn disparadas(contadores: Seq<u64>, nomes: Seq<&'static str>, n: int) -> Seq<Contagem>
    decreases n,
{
    if n <= 0 {
        Seq::empty()
    } else {
        let antes = disparadas(contadores, nomes, n - 1);
        if contadores[n - 1] > 0 {
            antes.push(
                Contagem { linha: (n - 1) as usize, nome: nomes[n - 1], total: contadores[n - 1] },
            )
        } else {
            antes
        }
    }
}

/// The sum of the counters.
pub open spec fn soma(s: Seq<u64>) -> int
    decreases s.len(),
{
    if s.len() == 0 {
        0
    } else {
        soma(s.drop_last()) + s.last()
    }
}

proof fn lemma_soma_update(s: Seq<u64>, i: int, v: u64)
    requires
        0 <= i < s.len(),
    ensures
        soma(s.update(i, v)) == soma(s) - s[i] + v,
    decreases s.len(),
{
    if i == s.len() - 1 {
        assert(s.update(i, v).drop_last() =~= s.drop_last());
    } else {
        assert(s.update(i, v).drop_last() =~= s.drop_last().update(i, v));
        lemma_soma_update(s.drop_last(), i, v);
    }
}

proof fn lemma_soma_zeros(n: nat)
    ensures
        soma(Seq::new(n, |i: int| 0u64)) == 0,
    decreases n,
{
    if n > 0 {
        lemma_soma_zeros((n - 1) as nat);
        assert(Seq::new(n, |i: int| 0u64).drop_last() =~= Seq::new((n - 1) as nat, |i: int| 0u64));
    }
}

impl Linhas {
    /// The counter of each line.
    pub closed spec fn contadores(&self) -> Seq<u64> {
        self.contadores@
    }

    /// The name of each line, empty where none was given.
    pub closed spec fn nomes(&self) -> Seq<&'static str> {
        self.nomes@
    }

    pub closed spec fn total_spec(&self) -> u64 {
        self.total
    }

    pub closed spec fn fora(&self) -> u64 {
        self.fora_do_teto
    }

    /// The total is the sum of every line and of what had no line, modulo the
    /// width of the counter.
    pub open spec fn wf(&self) -> bool {
        &&& self.contadores().len() == MAX_LINHAS
        &&& self.nomes().len() == MAX_LINHAS
        &&& exists|k: int| #[trigger] (k * 0x1_0000_0000_0000_0000) == soma(self.contadores()) + self.fora()
            - self.total_spec()
    }

    /// Counters at zero, lines without a name.
    pub fn novas() -> (r: Linhas)
        ensures
            r.wf(),
            r.contadores() == Seq::new(MAX_LINHAS as nat, |i: int| 0u64),
            forall|i: int| 0 <= i < MAX_LINHAS ==> (#[trigger] r.nomes()[i])@ == ""@,
            r.total_spec() == 0,
            r.fora() == 0,
    {
        let mut nomes: Vec<&'static str> = Vec::new();
        let mut i: usize = 0;
        while i < MAX_LINHAS
            invariant
                i <= MAX_LINHAS,
                nomes@.len() == i,
                forall|j: int| 0 <= j < i ==> (#[trigger] nomes@[j])@ == ""@,
            decreases MAX_LINHAS - i,
        {
            nomes.push("");
            i = i + 1;
        }
        let r = Linhas { contadores: vec![0u64; MAX_LINHAS], nomes, total: 0, fora_do_teto: 0 };
        proof {
            lemma_soma_zeros(MAX_LINHAS as nat);
            assert(r.contadores@ =~= Seq::new(MAX_LINHAS as nat, |i: int| 0u64));
            assert(0int * 0x1_0000_0000_0000_0000 == 0);
        }
        r
    }
}

/// Names a line. Returns whether the line has a counter; beyond the ceiling
/// nothing changes.
pub fn nomear(l: &mut Linhas, linha: usize, nome: &'static str) -> (r: bool)
    requires
        old(l).wf(),
    ensures
        final(l).wf(),
        r == (linha < MAX_LINHAS),
        final(l).contadores() == old(l).contadores(),
        final(l).total_spec() == old(l).total_spec(),
        final(l).fora() == old(l).fora(),
        final(l).nomes() == if r {
            old(l).nomes().update(linha as int, nome)
        } else {
            old(l).nomes()
        },
{
    if linha >= MAX_LINHAS {
        return false;
    }
    l.nomes.set(linha, nome);
    true
}

/// Counts one interrupt of a line. Lines beyond the ceiling share a counter.
pub fn contabilizar(l: &mut Linhas, linha: usize)
    requires
        old(l).wf(),
    ensures
        final(l).wf(),
        final(l).nomes() == old(l).nomes(),
        final(l).total_spec() == old(l).total_spec().wrapping_add(1),
        if linha < MAX_LINHAS {
            &&& final(l).contadores() == old(l).contadores().update(
                linha as int,
                old(l).contadores()[linha as int].wrapping_add(1),
            )
            &&& final(l).fora() == old(l).fora()
        } else {
            &&& final(l).contadores() == old(l).contadores()
            &&& final(l).fora() == old(l).fora().wrapping_add(1)
        },
{
    let ghost k = choose|k: int| #[trigger] (k * 0x1_0000_0000_0000_0000) == soma(l.contadores()) + l.fora()
        - l.total_spec();
    let ghost antes = *l;
    if linha < MAX_LINHAS {
        let novo: u64 = l.contadores[linha].wrapping_add(1);
        proof {
            lemma_soma_update(l.contadores@, linha as int, novo);
        }
        l.contadores.set(linha, novo);
    } else {
        l.fora_do_teto = l.fora_do_teto.wrapping_add(1);
    }
    l.total = l.total.wrapping_add(1);
    proof {
        let d = soma(l.contadores()) + l.fora() - l.total_spec();
        assert(d == k * 0x1_0000_0000_0000_0000 || d == (k - 1) * 0x1_0000_0000_0000_0000 || d == (k + 1)
            * 0x1_0000_0000_0000_0000);
    }
}

/// The lines that fired, in order.
pub fn com_contadores(l: &Linhas) -> (r: Vec<Contagem>)
    requires
        l.wf(),
    ensures
        r@ == disparadas(l.contadores(), l.nomes(), MAX_LINHAS as int),
{
    let mut r: Vec<Contagem> = Vec::new();
    let mut linha: usize = 0;
    while linha < MAX_LINHAS
        invariant
            l.wf(),
            linha <= MAX_LINHAS,
            r@ == disparadas(l.contadores(), l.nomes(), linha as int),
        decreases MAX_LINHAS - linha,
    {
        let total: u64 = l.contadores[linha];
        if total > 0 {
            r.push(Contagem { linha, nome: l.nomes[linha], total });
        }
        linha = linha + 1;
    }
    r
}

/// How many times a line fired; zero for a line beyond the ceiling.
pub fn contagem_da_linha(l: &Linhas, linha: usize) -> (r: u64)
    requires
        l.wf(),
    ensures
        r == if linha < MAX_LINHAS {
            l.contadores()[linha as int]
        } else {
            0
        },
{
    if linha >= MAX_LINHAS {
        return 0;
    }
    l.contadores[linha]
}

/// How many interrupts were counted.
pub fn total(l: &Linhas) -> (r: u64)
    ensures
        r == l.total_spec(),
{
    l.total
}

/// How many interrupts came from lines beyond the ceiling.
pub fn fora_do_teto(l: &Linhas) -> (r: u64)
    ensures
        r == l.fora(),
{
    l.fora_do_teto
}

/// The lines that fired are those whose counter is not zero, in order, each with its
/// number, its name and its count.
pub proof fn lei_linhas_disparadas(contadores: Seq<u64>, nomes: Seq<&'static str>, n: nat)
    requires
        n <= 256,
    ensures
        disparadas(contadores, nomes, n as int) == Seq::new(n, |i: int| i).filter(
            |i: int| contadores[i] != 0,
        ).map_values(
            |i: int| Contagem { linha: i as usize, nome: nomes[i], total: contadores[i] },
        ),
    decreases n,
{
    reveal(Seq::filter);
    let f = |i: int| contadores[i] != 0;
    let g = |i: int| Contagem { linha: i as usize, nome: nomes[i], total: contadores[i] };
    let s = Seq::new(n, |i: int| i);
    if n > 0 {
        lei_linhas_disparadas(contadores, nomes, (n - 1) as nat);
        let t = Seq::new((n - 1) as nat, |i: int| i);
        assert(s.drop_last() =~= t);
        assert(s.last() == n - 1);
        if contadores[n - 1] != 0 {
            assert(s.filter(f) =~= t.filter(f).push(n - 1));
            assert(t.filter(f).push(n - 1).map_values(g) =~= t.filter(f).map_values(g).push(g(n - 1)));
        }
    } else {
        assert(s.filter(f) =~= Seq::<int>::empty());
        assert(Seq::<int>::empty().map_values(g) =~= Seq::<Contagem>::empty());
    }
}

/// The sum of the counters of two groups of lines is that of one and that of the
/// other.
pub proof fn lei_soma(s: Seq<u64>, t: Seq<u64>, v: u64)
    ensures
        soma(s + t) == soma(s) + soma(t),
        soma(seq![v]) == v,
        soma(Seq::empty()) == 0,
    decreases t.len(),
{
    assert(seq![v].drop_last() =~= Seq::<u64>::empty());
    reveal_with_fuel(soma, 2);
    if t.len() == 0 {
        assert(s + t =~= s);
    } else {
        assert((s + t).drop_last() =~= s + t.drop_last());
        lei_soma(s, t.drop_last(), v);
    }
}

} // verus!
