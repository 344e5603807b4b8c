//! What the firmware said about the machine's physical memory, in one
//! vocabulary for both architectures.
use vstd::prelude::*;

verus! {

/// How many regions the kernel keeps.
pub const MAX_REGIOES: usize = 64;

/// What a range of physical memory is for.
#[derive(Clone, Copy, Debug, PartialEq, Eq, Structural)]
pub enum TipoRegiao {
    /// Free for the kernel to allocate.
    Utilizavel,
    /// In use by the bootloader or its structures.
    Bootloader,
    /// Kept by firmware or hardware (MMIO, ACPI, ROM).
    Reservada,
    Desconhecida,
}

impl TipoRegiao {
    /// The name shown on the agent's channel.
    pub open spec fn nome_spec(self) -> Seq<char> {
        match self {
            TipoRegiao::Utilizavel => "usable"@,
            TipoRegiao::Bootloader => "bootloader"@,
            TipoRegiao::Reservada => "reserved"@,
            TipoRegiao::Desconhecida => "unknown"@,
        }
    }

    /// The name shown on the agent's channel.
    pub fn nome(self) -> (r: &'static str)
        ensures
            r@ == self.nome_spec(),
    {
        match self {
            TipoRegiao::Utilizavel => "usable",
            TipoRegiao::Bootloader => "bootloader",
            TipoRegiao::Reservada => "reserved",
            TipoRegiao::Desconhecida => "unknown",
        }
    }
}

/// A contiguous range of physical memory.
#[derive(Clone, Copy, Debug)]
pub struct Regiao {
    pub inicio: u64,
    /// Exclusive: the region runs from `inicio` to `fim - 1`.
    pub fim: u64,
    pub tipo: TipoRegiao,
}

impl Regiao {
    /// A region that holds at least one byte.
    pub open spec fn valida(self) -> bool {
        self.inicio < self.fim
    }

    pub fn tamanho(&self) -> (r: u64)
        requires
            self.inicio <= self.fim,
        ensures
            r == self.fim - self.inicio,
    {
        self.fim - self.inicio
    }
}

/// The memory map: at most [`MAX_REGIOES`] regions, none of them empty, and
/// how many were turned away.
pub struct Maquina {
    regioes: Vec<Regiao>,
    descartadas: usize,
}

/// The bytes of the regions of `s`: of all of them, or of the usable ones.
pub open spec fn soma_de(s: Seq<Regiao>, so_utilizavel: bool) -> int
    decreases s.len(),
{
    if s.len() == 0 {
        0
    } else {
        let r = s.last();
        soma_de(s.drop_last(), so_utilizavel) + if !so_utilizavel || r.tipo
            == TipoRegiao::Utilizavel {
            r.fim - r.inicio
        } else {
            0
        }
    }
}

impl Maquina {
    /// The regions that were kept, in the order they were added.
    pub closed spec fn regioes(&self) -> Seq<Regiao> {
        self.regioes@
    }

    /// How many regions were turned away.
    pub closed spec fn descartadas(&self) -> nat {
        self.descartadas as nat
    }

    pub open spec fn wf(&self) -> bool {
        &&& self.regioes().len() <= MAX_REGIOES
        &&& forall|i: int| 0 <= i < self.regioes().len() ==> (#[trigger] self.regioes()[i]).valida()
    }

    /// A machine of which nothing is known yet.
    pub fn nova() -> (r: Maquina)
        ensures
            r.wf(),
            r.regioes() == Seq::<Regiao>::empty(),
            r.descartadas() == 0,
    {
        Maquina { regioes: Vec::new(), descartadas: 0 }
    }
}

/// Records a region.
///
/// Empty regions, those whose end wrapped around, and those beyond
/// [`MAX_REGIOES`] are turned away and counted.
pub fn adicionar_regiao(m: &mut Maquina, regiao: Regiao)
    requires
        old(m).wf(),
        old(m).descartadas() < usize::MAX,
    ensures
        final(m).wf(),
        if regiao.valida() && old(m).regioes().len() < MAX_REGIOES {
            &&& final(m).regioes() == old(m).regioes().push(regiao)
            &&& final(m).descartadas() == old(m).descartadas()
        } else {
            &&& final(m).regioes() == old(m).regioes()
            &&& final(m).descartadas() == old(m).descartadas() + 1
        },
{
    if regiao.fim <= regiao.inicio || m.regioes.len() >= MAX_REGIOES {
        m.descartadas = m.descartadas + 1;
        return;
    }
    m.regioes.push(regiao);
}

/// The recorded regions, in order.
pub fn com_regioes(m: &Maquina) -> (r: &[Regiao])
    ensures
        r@ == m.regioes(),
{
    m.regioes.as_slice()
}

proof fn lemma_soma(s: Seq<Regiao>, n: int)
    requires
        0 <= n <= s.len(),
        forall|i: int| 0 <= i < s.len() ==> (#[trigger] s[i]).valida(),
    ensures
        0 <= soma_de(s.take(n), true) <= soma_de(s.take(n), false) <= soma_de(s, false),
        soma_de(s.take(n), true) <= soma_de(s, true),
    decreases s.len(),
{
    if n < s.len() {
        lemma_soma(s.drop_last(), n);
        assert(s.drop_last().take(n) =~= s.take(n));
        assert(s[s.len() - 1].valida());
        lemma_soma(s.drop_last(), s.len() - 1);
        assert(s.drop_last().take(s.len() - 1) =~= s.drop_last());
    } else {
        assert(s.take(n) =~= s);
        if n > 0 {
            lemma_soma(s.drop_last(), n - 1);
            assert(s.drop_last().take(n - 1) =~= s.drop_last());
            assert(s[n - 1].valida());
        }
    }
}

/// Totals: usable bytes, all bytes, number of regions.
///
/// The map must describe no more memory than fits a 64-bit count.
pub fn estatisticas(m: &Maquina) -> (r: (u64, u64, usize))
    requires
        m.wf(),
        soma_de(m.regioes(), false) <= u64::MAX,
    ensures
        r.0 == soma_de(m.regioes(), true),
        r.1 == soma_de(m.regioes(), false),
        r.2 == m.regioes().len(),
{
    let mut utilizavel: u64 = 0;
    let mut total: u64 = 0;
    let mut i: usize = 0;
    while i < m.regioes.len()
        invariant
            m.wf(),
            soma_de(m.regioes(), false) <= u64::MAX,
            0 <= i <= m.regioes@.len(),
            utilizavel == soma_de(m.regioes().take(i as int), true),
            total == soma_de(m.regioes().take(i as int), false),
        decreases m.regioes@.len() - i,
    {
        let regiao: Regiao = m.regioes[i];
        proof {
            assert(m.regioes()[i as int].valida());
            lemma_soma(m.regioes(), i + 1);
            assert(m.regioes().take(i + 1).drop_last() =~= m.regioes().take(i as int));
            assert(m.regioes().take(i + 1).last() == m.regioes()[i as int]);
        }
        total = total + regiao.tamanho();
        if regiao.tipo == TipoRegiao::Utilizavel {
            utilizavel = utilizavel + regiao.tamanho();
        }
        i = i + 1;
    }
    proof {
        assert(m.regioes().take(i as int) =~= m.regioes());
    }
    (utilizavel, total, m.regioes.len())
}

/// How many regions were turned away.
pub fn regioes_descartadas(m: &Maquina) -> (r: usize)
    ensures
        r == m.descartadas(),
{
    m.descartadas
}

/// The bytes of two lists of regions are those of one and those of the other; of
/// one region, its length, unless only the usable ones count and it is not.
pub proof fn lei_somas(s: Seq<Regiao>, t: Seq<Regiao>, r: Regiao, so_utilizavel: bool)
    ensures
        soma_de(s + t, so_utilizavel) == soma_de(s, so_utilizavel) + soma_de(t, so_utilizavel),
        soma_de(seq![r], false) == r.fim - r.inicio,
        soma_de(seq![r], true) == if r.tipo is Utilizavel {
            r.fim - r.inicio
        } else {
            0
        },
        soma_de(Seq::empty(), so_utilizavel) == 0,
    decreases t.len(),
{
    assert(seq![r].drop_last() =~= Seq::<Regiao>::empty());
    reveal_with_fuel(soma_de, 2);
    if t.len() == 0 {
        assert(s + t =~= s);
    } else {
        assert((s + t).drop_last() =~= s + t.drop_last());
        lei_somas(s, t.drop_last(), r, so_utilizavel);
    }
}

/// A region is kept where it ends after it starts, and its size is what lies
/// between.
pub proof fn lei_regiao(r: Regiao)
    ensures
        r.valida() <==> r.inicio < r.fim,
{
}

/// The usable bytes are no more than all the bytes, and neither is negative.
pub proof fn lei_utilizavel_e_parte(m: &Maquina)
    requires
        m.wf(),
    ensures
        0 <= soma_de(m.regioes(), true) <= soma_de(m.regioes(), false),
        m.descartadas() <= usize::MAX,
{
    lemma_soma(m.regioes(), m.regioes().len() as int);
    assert(m.regioes().take(m.regioes().len() as int) =~= m.regioes());
}

} // verus!
