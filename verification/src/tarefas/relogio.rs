//! Waiting for time to pass: who sleeps, and until which tick.
use vstd::prelude::*;

use crate::tarefas::Passo;

verus! {

/// How many tasks wait for time at once.
pub const MAX_DORMENTES: usize = 16;

/// A wait: when to wake, and whom.
#[derive(Clone, Copy, Debug, PartialEq, Eq, Structural)]
pub struct Espera {
    pub alvo: u64,
    pub tarefa: u64,
}

/// The tasks that wait for the clock.
pub struct Dormentes {
    vagas: Vec<Option<Espera>>,
}

/// Waits until the tick count reaches a target.
pub struct Dormir {
    alvo: u64,
    /// The slot it holds among the sleepers, if any.
    vaga: Option<usize>,
}

/// The tasks of the first `n` slots whose target was reached, in order.
pub open spec fn vencidos(s: Seq<Option<Espera>>, agora: u64, n: int) -> Seq<u64>
    decreases n,
{
    if n <= 0 {
        Seq::empty()
    } else {
        let antes = vencidos(s, agora, n - 1);
        match s[n - 1] {
            Some(e) => if e.alvo <= agora {
                antes.push(e.tarefa)
            } else {
                antes
            },
            None => antes,
        }
    }
}

/// `k` is the first free slot.
pub open spec fn primeira_livre(s: Seq<Option<Espera>>, k: int) -> bool {
    &&& 0 <= k < s.len()
    &&& s[k] is None
    &&& forall|j: int| 0 <= j < k ==> (#[trigger] s[j]) is Some
}

/// A sleeper registered: in the slot `vaga`, the one it held or the first free
/// one, its target and its task; every other slot as it was.
pub open spec fn registrou(
    antes: &Dormir,
    vagas_antes: Seq<Option<Espera>>,
    vaga: Option<usize>,
    vagas: Seq<Option<Espera>>,
    tarefa: u64,
) -> bool {
    match vaga {
        Some(v) => {
            &&& match antes.vaga_spec() {
                Some(antiga) => v == antiga,
                None => primeira_livre(vagas_antes, v as int),
            }
            &&& vagas == vagas_antes.update(
                v as int,
                Some(Espera { alvo: antes.alvo_spec(), tarefa }),
            )
        },
        None => false,
    }
}

/// Slot `i` holds a wait of `tarefa` whose target was reached.
pub open spec fn venceu(s: Seq<Option<Espera>>, i: int, agora: u64, tarefa: u64) -> bool {
    match s[i] {
        Some(e) => e.alvo <= agora && e.tarefa == tarefa,
        None => false,
    }
}

impl Dormentes {
    /// The slots.
    pub closed spec fn vagas(&self) -> Seq<Option<Espera>> {
        self.vagas@
    }

    pub open spec fn wf(&self) -> bool {
        self.vagas().len() == MAX_DORMENTES
    }

    /// Nobody sleeps.
    pub fn novos() -> (r: Dormentes)
        ensures
            r.wf(),
            forall|i: int| 0 <= i < MAX_DORMENTES ==> (#[trigger] r.vagas()[i]) is None,
    {
        let mut vagas: Vec<Option<Espera>> = Vec::new();
        let mut i: usize = 0;
        while i < MAX_DORMENTES
            invariant
                i <= MAX_DORMENTES,
                vagas@.len() == i,
                forall|j: int| 0 <= j < i ==> (#[trigger] vagas@[j]) is None,
            decreases MAX_DORMENTES - i,
        {
            vagas.push(None);
            i = i + 1;
        }
        Dormentes { vagas }
    }
}

/// Sleeps for a number of timer ticks, counted from `agora`.
pub fn por_ticks(agora: u64, ticks: u64) -> (r: Dormir)
    ensures
        r.alvo_spec() == if agora + ticks > u64::MAX {
            u64::MAX as int
        } else {
            agora + ticks
        },
        r.vaga_spec() is None,
{
    Dormir { alvo: agora.saturating_add(ticks), vaga: None }
}

/// How many ticks of a `hz` timer cover `ms` milliseconds: rounded up, never
/// zero, and one where there is no timer. A product beyond 64 bits counts as
/// the largest one.
pub open spec fn ticks_de(ms: u64, hz: u32) -> int {
    let produto = if ms * hz > u64::MAX {
        u64::MAX as int
    } else {
        ms * hz
    };
    let ticks = (produto + 999) / 1000;
    if hz == 0 || ticks < 1 {
        1
    } else {
        ticks
    }
}

/// Sleeps for about `ms` milliseconds of a timer that ticks `hz` times a
/// second.
pub fn por_ms(agora: u64, hz: u32, ms: u64) -> (r: Dormir)
    ensures
        r.alvo_spec() == if agora + ticks_de(ms, hz) > u64::MAX {
            u64::MAX as int
        } else {
            agora + ticks_de(ms, hz)
        },
        r.vaga_spec() is None,
{
    let ticks: u64 = if hz == 0 {
        1
    } else {
        let produto: u64 = match ms.checked_mul(hz as u64) {
            Some(p) => p,
            None => u64::MAX,
        };
        let inteiros: u64 = produto / 1000;
        let acima: u64 = if produto % 1000 == 0 {
            inteiros
        } else {
            inteiros + 1
        };
        if acima < 1 {
            1
        } else {
            acima
        }
    };
    por_ticks(agora, ticks)
}

impl Dormir {
    /// The tick it waits for.
    pub closed spec fn alvo_spec(&self) -> u64 {
        self.alvo
    }

    /// The slot it holds.
    pub closed spec fn vaga_spec(&self) -> Option<usize> {
        self.vaga
    }

    /// The slot it holds exists and holds a wait.
    pub open spec fn valido(&self, d: &Dormentes) -> bool {
        match self.vaga_spec() {
            Some(v) => v < MAX_DORMENTES && d.vagas()[v as int] is Some,
            None => true,
        }
    }

    /// Leaves the wait in the slot it already holds, or in the first free one.
    /// `false` where there is none.
    fn registrar(&mut self, d: &mut Dormentes, tarefa: u64) -> (r: bool)
        requires
            old(d).wf(),
            old(self).valido(old(d)),
        ensures
            final(d).wf(),
            final(self).valido(final(d)),
            final(self).alvo_spec() == old(self).alvo_spec(),
            r ==> registrou(
                old(self),
                old(d).vagas(),
                final(self).vaga_spec(),
                final(d).vagas(),
                tarefa,
            ),
            !r ==> {
                &&& old(self).vaga_spec() is None
                &&& forall|i: int| 0 <= i < MAX_DORMENTES ==> (#[trigger] old(d).vagas()[i]) is Some
                &&& final(d).vagas() == old(d).vagas()
                &&& final(self).vaga_spec() is None
            },
    {
        let vaga: usize = match self.vaga {
            Some(v) => v,
            None => {
                let mut k: usize = 0;
                while k < d.vagas.len() && d.vagas[k].is_some()
                    invariant
                        d.wf(),
                        k <= MAX_DORMENTES,
                        forall|j: int| 0 <= j < k ==> (#[trigger] d.vagas()[j]) is Some,
                    decreases MAX_DORMENTES - k,
                {
                    k = k + 1;
                }
                if k >= d.vagas.len() {
                    return false;
                }
                self.vaga = Some(k);
                k
            },
        };
        d.vagas.set(vaga, Some(Espera { alvo: self.alvo, tarefa }));
        true
    }

    /// Gives the slot back.
    pub fn liberar(&mut self, d: &mut Dormentes)
        requires
            old(d).wf(),
            old(self).valido(old(d)),
        ensures
            final(d).wf(),
            final(self).alvo_spec() == old(self).alvo_spec(),
            final(self).vaga_spec() is None,
            final(d).vagas() == match old(self).vaga_spec() {
                Some(v) => old(d).vagas().update(v as int, None),
                None => old(d).vagas(),
            },
    {
        if let Some(v) = self.vaga {
            d.vagas.set(v, None);
        }
        self.vaga = None;
    }

    /// Done once the target was reached, and then its slot is free again;
    /// otherwise registered among the sleepers, or, where the table is full,
    /// asking to be woken right away so that progress is never lost.
    pub fn poll(&mut self, d: &mut Dormentes, agora: u64, tarefa: u64) -> (r: Passo)
        requires
            old(d).wf(),
            old(self).valido(old(d)),
        ensures
            final(d).wf(),
            final(self).valido(final(d)),
            final(self).alvo_spec() == old(self).alvo_spec(),
            r is Pronto <==> agora >= old(self).alvo_spec(),
            match r {
                Passo::Pronto => {
                    &&& final(self).vaga_spec() is None
                    &&& final(d).vagas() == match old(self).vaga_spec() {
                        Some(v) => old(d).vagas().update(v as int, None),
                        None => old(d).vagas(),
                    }
                },
                Passo::Pendente => registrou(
                    old(self),
                    old(d).vagas(),
                    final(self).vaga_spec(),
                    final(d).vagas(),
                    tarefa,
                ),
                Passo::PendenteAcordar => {
                    &&& old(self).vaga_spec() is None
                    &&& forall|i: int|
                        0 <= i < MAX_DORMENTES ==> (#[trigger] old(d).vagas()[i]) is Some
                    &&& final(d).vagas() == old(d).vagas()
                    &&& final(self).vaga_spec() is None
                },
            },
    {
        if agora >= self.alvo {
            self.liberar(d);
            return Passo::Pronto;
        }
        if !self.registrar(d, tarefa) {
            return Passo::PendenteAcordar;
        }
        Passo::Pendente
    }
}

/// The tasks whose target was reached, in the order of their slots. Every slot
/// stays taken: the task gives it back when it is polled.
pub fn tique(d: &Dormentes, agora: u64) -> (r: Vec<u64>)
    requires
        d.wf(),
    ensures
        r@ == vencidos(d.vagas(), agora, MAX_DORMENTES as int),
{
    let mut r: Vec<u64> = Vec::new();
    let mut i: usize = 0;
    while i < MAX_DORMENTES
        invariant
            d.wf(),
            i <= MAX_DORMENTES,
            r@ == vencidos(d.vagas(), agora, i as int),
        decreases MAX_DORMENTES - i,
    {
        if let Some(e) = d.vagas[i] {
            if e.alvo <= agora {
                r.push(e.tarefa);
            }
        }
        i = i + 1;
    }
    r
}

/// The timer wakes exactly the tasks whose target was reached.
pub proof fn lei_tique_acorda_vencidos(s: Seq<Option<Espera>>, agora: u64, n: int, tarefa: u64)
    requires
        0 <= n <= s.len(),
    ensures
        vencidos(s, agora, n).contains(tarefa) <==> exists|i: int|
            0 <= i < n && #[trigger] venceu(s, i, agora, tarefa),
    decreases n,
{
    if n > 0 {
        lei_tique_acorda_vencidos(s, agora, n - 1, tarefa);
        let antes = vencidos(s, agora, n - 1);
        let depois = vencidos(s, agora, n);
        if antes.contains(tarefa) {
            let k = choose|k: int| 0 <= k < antes.len() && antes[k] == tarefa;
            assert(depois[k] == tarefa);
        }
        if let Some(e) = s[n - 1] {
            if e.alvo <= agora {
                assert(depois[antes.len() as int] == e.tarefa);
            }
        }
        if venceu(s, n - 1, agora, tarefa) {
            assert(depois[antes.len() as int] == tarefa);
        }
        if depois.contains(tarefa) {
            let k = choose|k: int| 0 <= k < depois.len() && depois[k] == tarefa;
            if k < antes.len() {
                assert(antes[k] == tarefa);
                assert(antes.contains(tarefa));
            } else {
                assert(venceu(s, n - 1, agora, tarefa));
            }
        }
    }
}

/// A sleep lasts at least what was asked and less than a tick more, and one tick at
/// least; without a timer, one tick.
pub proof fn lei_ticks_de_sono(ms: u64, hz: u32)
    requires
        ms * hz <= u64::MAX - 999,
    ensures
        ticks_de(ms, hz) >= 1,
        hz > 0 ==> ticks_de(ms, hz) * 1000 >= ms * hz,
        ticks_de(ms, hz) > 1 ==> (ticks_de(ms, hz) - 1) * 1000 < ms * hz,
        hz == 0 ==> ticks_de(ms, hz) == 1,
{
}

/// Who wakes at a tick: the tasks whose time has come, all of them, in the order of
/// their slots.
pub proof fn lei_vencidos(s: Seq<Option<Espera>>, agora: u64, n: nat)
    requires
        n <= s.len(),
    ensures
        vencidos(s, agora, n as int) == s.take(n as int).filter(
            |e: Option<Espera>| e is Some && e->0.alvo <= agora,
        ).map_values(|e: Option<Espera>| e->0.tarefa),
    decreases n,
{
    reveal(Seq::filter);
    let f = |e: Option<Espera>| e is Some && e->0.alvo <= agora;
    let g = |e: Option<Espera>| e->0.tarefa;
    let t = s.take(n as int);
    if n > 0 {
        lei_vencidos(s, agora, (n - 1) as nat);
        let u = s.take(n - 1);
        assert(t.drop_last() =~= u);
        assert(t.last() == s[n - 1]);
        if f(s[n - 1]) {
            assert(t.filter(f) =~= u.filter(f).push(s[n - 1]));
            assert(u.filter(f).push(s[n - 1]).map_values(g) =~= u.filter(f).map_values(g).push(
                g(s[n - 1]),
            ));
        }
    } else {
        assert(t.filter(f) =~= Seq::<Option<Espera>>::empty());
        assert(Seq::<Option<Espera>>::empty().map_values(g) =~= Seq::<u64>::empty());
    }
}

/// A task that goes to sleep is in one slot, with its own time to wake, and nobody
/// else is moved: the slot that it had, or the first that was free.
pub proof fn lei_adormecer(
    antes: &Dormir,
    vagas_antes: Seq<Option<Espera>>,
    vaga: usize,
    vagas: Seq<Option<Espera>>,
    tarefa: u64,
    i: int,
)
    requires
        registrou(antes, vagas_antes, Some(vaga), vagas, tarefa),
        vaga < vagas_antes.len(),
        0 <= i < vagas_antes.len(),
    ensures
        vagas.len() == vagas_antes.len(),
        vagas[vaga as int] is Some,
        vagas[vaga as int]->0.tarefa == tarefa,
        vagas[vaga as int]->0.alvo == antes.alvo_spec(),
        i != vaga ==> vagas[i] == vagas_antes[i],
        antes.vaga_spec() is None ==> vagas_antes[vaga as int] is None && (i < vaga ==> vagas_antes[i]
            is Some),
        antes.vaga_spec() is Some ==> antes.vaga_spec() == Some(vaga),
{
}

/// Where a slot is free, the first free one is there to be taken, and no later than
/// that.
pub proof fn lei_ha_vaga(s: Seq<Option<Espera>>, i: int)
    requires
        0 <= i < s.len(),
        s[i] is None,
    ensures
        exists|k: int| k <= i && #[trigger] primeira_livre(s, k),
    decreases i,
{
    if exists|j: int| 0 <= j < i && (#[trigger] s[j]) is None {
        let j = choose|j: int| 0 <= j < i && (#[trigger] s[j]) is None;
        lei_ha_vaga(s, j);
        let k = choose|k: int| k <= j && #[trigger] primeira_livre(s, k);
        assert(k <= i && primeira_livre(s, k));
    } else {
        assert(primeira_livre(s, i));
    }
}

} // verus!
