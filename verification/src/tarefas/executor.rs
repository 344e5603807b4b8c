//! The executor's decisions: which task runs next, who is alive, and what the
//! agent is told about it. Polling the futures is the caller's part: it asks
//! for the [`Executor::proxima`] task, polls it, and reports the answer to
//! [`Executor::avancou`].
use vstd::prelude::*;

use crate::tarefas::fila::Fila;
use crate::tarefas::{IdTarefa, Passo, Tarefa};

verus! {

/// How many wake-ups may be pending at once.
pub const CAPACIDADE_PRONTAS: usize = 128;

/// How many tasks the inventory shows.
pub const MAX_INVENTARIO: usize = 32;

/// A line of the task inventory.
#[derive(Clone, Copy, Debug)]
pub struct Inscricao {
    pub id: u64,
    pub nome: &'static str,
    pub viva: bool,
}

/// The executor's counters. All of them wrap around at 64 bits.
#[derive(Clone, Copy, Debug)]
pub struct Contadores {
    pub lancadas: u64,
    pub concluidas: u64,
    pub avancos: u64,
    pub despertares: u64,
    /// Entries that found the ready queue full: a task that exists and will
    /// not run.
    pub nunca_agendadas: u64,
    /// Tasks without a line in the inventory.
    pub fora_do_inventario: u64,
}

/// Where a run with a ceiling of rounds stands.
#[derive(Clone, Copy, Debug)]
pub struct Laco {
    /// The rounds that may still begin.
    pub rodadas: usize,
    /// The round that began has run what was ready.
    pub no_meio: bool,
}

impl Laco {
    /// A run that has not begun.
    pub fn novo(teto: usize) -> (r: Laco)
        ensures
            r == (Laco { rodadas: teto, no_meio: false }),
    {
        Laco { rodadas: teto, no_meio: false }
    }

    /// How many steps are left at most.
    pub open spec fn passos(&self) -> int {
        2 * self.rodadas + if self.no_meio {
            1int
        } else {
            0
        }
    }
}

/// The next step of such a run.
#[derive(Clone, Copy, Debug, PartialEq, Eq)]
pub enum Rodada {
    /// Run every task that is ready.
    Rodar,
    /// Sleep, if nothing became ready meanwhile.
    Dormir,
    Fim(Result<(), &'static str>),
}

/// What became of a launch.
#[derive(Clone, Copy, Debug, PartialEq, Eq, Structural)]
pub enum Lancamento {
    /// Alive and queued.
    Pronta,
    /// Alive, but the ready queue was full.
    SemVaga,
    /// A live task already has this identity: nothing changed.
    Duplicada,
}

pub struct Executor {
    /// Identities of the live tasks, each once.
    vivas: Vec<u64>,
    /// Identities someone asked to wake.
    prontas: Fila<u64, CAPACIDADE_PRONTAS>,
    inventario: Vec<Option<Inscricao>>,
    contadores: Contadores,
}

/// The inventory slot for a new task: the first empty one, or else the first
/// one whose task ended.
pub open spec fn vaga_para(s: Seq<Option<Inscricao>>, k: int) -> bool {
    &&& 0 <= k < s.len()
    &&& if exists|i: int| 0 <= i < s.len() && (#[trigger] s[i]) is None {
        s[k] is None && forall|j: int| 0 <= j < k ==> (#[trigger] s[j]) is Some
    } else {
        !(s[k]->0).viva && forall|j: int| 0 <= j < k ==> ((#[trigger] s[j])->0).viva
    }
}

/// Every slot holds a live task.
pub open spec fn lotado(s: Seq<Option<Inscricao>>) -> bool {
    forall|i: int| 0 <= i < s.len() ==> (#[trigger] s[i]) is Some && (s[i]->0).viva
}

/// Registering a task takes the inventory from `s` to `t`.
pub open spec fn inscreveu(
    s: Seq<Option<Inscricao>>,
    t: Seq<Option<Inscricao>>,
    id: u64,
    nome: &'static str,
) -> bool {
    if lotado(s) {
        t == s
    } else {
        exists|k: int| #[trigger]
            vaga_para(s, k) && t == s.update(k, Some(Inscricao { id, nome, viva: true }))
    }
}

/// The inventory with the task marked as ended.
pub open spec fn encerrado(s: Seq<Option<Inscricao>>, id: u64) -> Seq<Option<Inscricao>> {
    Seq::new(
        s.len(),
        |i: int|
            match s[i] {
                Some(e) => if e.id == id {
                    Some(Inscricao { viva: false, ..e })
                } else {
                    Some(e)
                },
                None => None,
            },
    )
}

/// The lines of the first `n` slots, in order.
pub open spec fn linhas(s: Seq<Option<Inscricao>>, n: int) -> Seq<Inscricao>
    decreases n,
{
    if n <= 0 {
        Seq::empty()
    } else {
        match s[n - 1] {
            Some(e) => linhas(s, n - 1).push(e),
            None => linhas(s, n - 1),
        }
    }
}

/// `k` is the first entry of the queue whose task is alive.
pub open spec fn primeira_viva(fila: Seq<u64>, vivas: Set<u64>, k: int) -> bool {
    &&& 0 <= k < fila.len()
    &&& vivas.contains(fila[k])
    &&& forall|j: int| 0 <= j < k ==> !vivas.contains(#[trigger] fila[j])
}

impl Executor {
    /// Identities of the live tasks.
    pub closed spec fn vivas_spec(&self) -> Set<u64> {
        self.vivas@.to_set()
    }

    /// The ready queue, next first.
    pub closed spec fn prontas(&self) -> Seq<u64> {
        self.prontas@
    }

    pub closed spec fn inventario(&self) -> Seq<Option<Inscricao>> {
        self.inventario@
    }

    pub closed spec fn contadores(&self) -> Contadores {
        self.contadores
    }

    pub closed spec fn wf(&self) -> bool {
        &&& self.vivas@.no_duplicates()
        &&& self.prontas.wf()
        &&& self.inventario@.len() == MAX_INVENTARIO
    }

    /// Nobody lives and nobody waits.
    pub fn novo() -> (r: Executor)
        ensures
            r.wf(),
            r.vivas_spec() == Set::<u64>::empty(),
            r.prontas() == Seq::<u64>::empty(),
            linhas(r.inventario(), MAX_INVENTARIO as int) == Seq::<Inscricao>::empty(),
            r.contadores() == (Contadores {
                lancadas: 0,
                concluidas: 0,
                avancos: 0,
                despertares: 0,
                nunca_agendadas: 0,
                fora_do_inventario: 0,
            }),
    {
        let mut inventario: Vec<Option<Inscricao>> = Vec::new();
        let mut i: usize = 0;
        while i < MAX_INVENTARIO
            invariant
                i <= MAX_INVENTARIO,
                inventario@.len() == i,
                forall|j: int| 0 <= j < i ==> (#[trigger] inventario@[j]) is None,
                linhas(inventario@, i as int) == Seq::<Inscricao>::empty(),
            decreases MAX_INVENTARIO - i,
        {
            let ghost antes = inventario@;
            inventario.push(None);
            proof {
                lemma_linhas_prefixo(antes, inventario@, i as int);
            }
            i = i + 1;
        }
        let r = Executor {
            vivas: Vec::new(),
            prontas: Fila::nova(),
            inventario,
            contadores: Contadores {
                lancadas: 0,
                concluidas: 0,
                avancos: 0,
                despertares: 0,
                nunca_agendadas: 0,
                fora_do_inventario: 0,
            },
        };
        proof {
            assert(r.vivas_spec() =~= Set::<u64>::empty());
        }
        r
    }

    /// Position of a live task.
    fn achar(&self, id: u64) -> (r: Option<usize>)
        ensures
            match r {
                Some(k) => k < self.vivas@.len() && self.vivas@[k as int] == id,
                None => !self.vivas@.contains(id),
            },
    {
        let mut k: usize = 0;
        while k < self.vivas.len()
            invariant
                k <= self.vivas@.len(),
                forall|j: int| 0 <= j < k ==> self.vivas@[j] != id,
            decreases self.vivas@.len() - k,
        {
            if self.vivas[k] == id {
                return Some(k);
            }
            k = k + 1;
        }
        None
    }

    /// Registers a task and queues it.
    pub fn lancar(&mut self, tarefa: Tarefa) -> (r: Lancamento)
        requires
            old(self).wf(),
        ensures
            final(self).wf(),
            ({
                let id = tarefa.id_spec().0;
                let c = old(self).contadores();
                match r {
                    Lancamento::Duplicada => {
                        &&& old(self).vivas_spec().contains(id)
                        &&& *final(self) == *old(self)
                    },
                    _ => {
                        let cheia = old(self).prontas().len() == CAPACIDADE_PRONTAS;
                        &&& !old(self).vivas_spec().contains(id)
                        &&& final(self).vivas_spec() == old(self).vivas_spec().insert(id)
                        &&& inscreveu(
                            old(self).inventario(),
                            final(self).inventario(),
                            id,
                            tarefa.nome_spec(),
                        )
                        &&& (r is SemVaga <==> cheia)
                        &&& final(self).prontas() == if cheia {
                            old(self).prontas()
                        } else {
                            old(self).prontas().push(id)
                        }
                        &&& final(self).contadores() == (Contadores {
                            lancadas: c.lancadas.wrapping_add(1),
                            nunca_agendadas: if cheia {
                                c.nunca_agendadas.wrapping_add(1)
                            } else {
                                c.nunca_agendadas
                            },
                            fora_do_inventario: if lotado(old(self).inventario()) {
                                c.fora_do_inventario.wrapping_add(1)
                            } else {
                                c.fora_do_inventario
                            },
                            ..c
                        })
                    },
                }
            }),
    {
        let id: u64 = tarefa.id().numero();
        if self.achar(id).is_some() {
            return Lancamento::Duplicada;
        }
        let ghost antes = *self;
        self.vivas.push(id);
        proof {
            assert(self.vivas_spec() =~= antes.vivas_spec().insert(id)) by {
                assert forall|x: u64| #[trigger] self.vivas@.contains(x) == (antes.vivas@.contains(x) || x == id) by {
                    if antes.vivas@.contains(x) {
                        let k = choose|k: int| 0 <= k < antes.vivas@.len() && antes.vivas@[k] == x;
                        assert(self.vivas@[k] == x);
                    }
                    if x == id {
                        assert(self.vivas@[antes.vivas@.len() as int] == id);
                    }
                }
            }
        }
        self.inventario_registrar(id, tarefa.nome());
        self.contadores.lancadas = self.contadores.lancadas.wrapping_add(1);
        if self.prontas.enfileirar(id).is_err() {
            self.contadores.nunca_agendadas = self.contadores.nunca_agendadas.wrapping_add(1);
            return Lancamento::SemVaga;
        }
        Lancamento::Pronta
    }

    /// The next task to poll: the first queued one that is still alive. Late
    /// wake-ups of ended tasks are dropped on the way.
    pub fn proxima(&mut self) -> (r: Option<IdTarefa>)
        requires
            old(self).wf(),
        ensures
            final(self).wf(),
            final(self).vivas_spec() == old(self).vivas_spec(),
            final(self).inventario() == old(self).inventario(),
            match r {
                Some(id) => {
                    &&& exists|k: int| #[trigger]
                        primeira_viva(old(self).prontas(), old(self).vivas_spec(), k) && id.0
                            == old(self).prontas()[k] && final(self).prontas()
                            == old(self).prontas().skip(k + 1)
                    &&& final(self).contadores() == (Contadores {
                        avancos: old(self).contadores().avancos.wrapping_add(1),
                        ..old(self).contadores()
                    })
                },
                None => {
                    &&& forall|j: int|
                        0 <= j < old(self).prontas().len() ==> !old(self).vivas_spec().contains(
                            #[trigger] old(self).prontas()[j],
                        )
                    &&& final(self).prontas() == Seq::<u64>::empty()
                    &&& final(self).contadores() == old(self).contadores()
                },
            },
    {
        let ghost fila = self.prontas@;
        let ghost mut n: int = 0;
        proof {
            assert(fila.skip(0) =~= fila);
        }
        loop
            invariant
                self.wf(),
                fila == old(self).prontas(),
                0 <= n <= fila.len(),
                self.prontas@ == fila.skip(n),
                self.vivas == old(self).vivas,
                self.inventario == old(self).inventario,
                self.contadores == old(self).contadores,
                forall|j: int| 0 <= j < n ==> !old(self).vivas_spec().contains(#[trigger] fila[j]),
            decreases self.prontas@.len(),
        {
            match self.prontas.desenfileirar() {
                None => {
                    proof {
                        assert(self.prontas@ =~= Seq::<u64>::empty());
                    }
                    return None;
                },
                Some(id) => {
                    proof {
                        assert(fila.skip(n).drop_first() =~= fila.skip(n + 1));
                        assert(fila.skip(n)[0] == fila[n]);
                    }
                    if self.achar(id).is_some() {
                        self.contadores.avancos = self.contadores.avancos.wrapping_add(1);
                        proof {
                            assert(self.vivas@.contains(id));
                            assert(primeira_viva(fila, old(self).vivas_spec(), n));
                        }
                        return Some(IdTarefa(id));
                    }
                    proof {
                        n = n + 1;
                    }
                },
            }
        }
    }

    /// Records what a polled task answered: one that is done leaves the live
    /// set, and one that waits stays as it is.
    pub fn avancou(&mut self, id: IdTarefa, passo: Passo)
        requires
            old(self).wf(),
            old(self).vivas_spec().contains(id.0),
        ensures
            final(self).wf(),
            final(self).prontas() == old(self).prontas(),
            if passo is Pronto {
                &&& final(self).vivas_spec() == old(self).vivas_spec().remove(id.0)
                &&& final(self).inventario() == encerrado(old(self).inventario(), id.0)
                &&& final(self).contadores() == (Contadores {
                    concluidas: old(self).contadores().concluidas.wrapping_add(1),
                    ..old(self).contadores()
                })
            } else {
                *final(self) == *old(self)
            },
    {
        match passo {
            Passo::Pronto => {
                if let Some(k) = self.achar(id.0) {
                    let ghost antes = self.vivas@;
                    self.vivas.remove(k);
                    proof {
                        let depois = self.vivas@;
                        assert(depois == antes.remove(k as int));
                        assert(self.vivas_spec() =~= antes.to_set().remove(id.0)) by {
                            assert forall|x: u64| #[trigger] depois.contains(x) == (antes.contains(x) && x
                                != id.0) by {
                                if antes.contains(x) && x != id.0 {
                                    let j = choose|j: int| 0 <= j < antes.len() && antes[j] == x;
                                    if j < k {
                                        assert(depois[j] == x);
                                    } else {
                                        assert(depois[j - 1] == x);
                                    }
                                }
                                if depois.contains(x) {
                                    let j = choose|j: int| 0 <= j < depois.len() && depois[j] == x;
                                    if j < k {
                                        assert(antes[j] == x);
                                    } else {
                                        assert(antes[j + 1] == x);
                                    }
                                }
                            }
                        }
                        assert forall|i: int, j: int|
                            0 <= i < depois.len() && 0 <= j < depois.len() && i != j implies depois[i]
                            != depois[j] by {
                            let ii = if i < k {
                                i
                            } else {
                                i + 1
                            };
                            let jj = if j < k {
                                j
                            } else {
                                j + 1
                            };
                            assert(antes[ii] != antes[jj]);
                        }
                    }
                }
                self.inventario_encerrar(id.0);
                self.contadores.concluidas = self.contadores.concluidas.wrapping_add(1);
            },
            Passo::Pendente => {},
            Passo::PendenteAcordar => {},
        }
    }

    /// Queues a task because what it waited for happened. Returns whether the
    /// wake-up fit.
    pub fn acordar(&mut self, id: IdTarefa) -> (r: bool)
        requires
            old(self).wf(),
        ensures
            final(self).wf(),
            final(self).vivas_spec() == old(self).vivas_spec(),
            final(self).inventario() == old(self).inventario(),
            r == (old(self).prontas().len() < CAPACIDADE_PRONTAS),
            final(self).prontas() == if r {
                old(self).prontas().push(id.0)
            } else {
                old(self).prontas()
            },
            final(self).contadores() == (Contadores {
                despertares: old(self).contadores().despertares.wrapping_add(1),
                nunca_agendadas: if r {
                    old(self).contadores().nunca_agendadas
                } else {
                    old(self).contadores().nunca_agendadas.wrapping_add(1)
                },
                ..old(self).contadores()
            }),
    {
        proof {
            self.prontas.lei_capacidade();
        }
        self.contadores.despertares = self.contadores.despertares.wrapping_add(1);
        if self.prontas.enfileirar(id.0).is_err() {
            self.contadores.nunca_agendadas = self.contadores.nunca_agendadas.wrapping_add(1);
            return false;
        }
        true
    }

    /// Nothing is queued: the processor may sleep.
    pub fn ocioso(&self) -> (r: bool)
        ensures
            r == (self.prontas().len() == 0),
    {
        self.prontas.vazia()
    }

    /// How many tasks are alive.
    pub fn vivas(&self) -> (r: usize)
        requires
            self.wf(),
        ensures
            r == self.vivas_spec().len(),
    {
        proof {
            self.vivas@.unique_seq_to_set();
        }
        self.vivas.len()
    }

    /// Decides the next step of running until no task is left, in as many
    /// rounds as `l` still has. Every round runs what is ready, and sleeps
    /// where that left tasks alive.
    pub fn rodar_ate_esvaziar(&self, l: &mut Laco) -> (r: Rodada)
        requires
            self.wf(),
        ensures
            ({
                let vivas = self.vivas_spec().len();
                if old(l).no_meio {
                    if vivas == 0 {
                        r == Rodada::Fim(Ok(())) && *final(l) == *old(l)
                    } else {
                        r == Rodada::Dormir && *final(l) == (Laco { no_meio: false, ..*old(l) })
                    }
                } else if old(l).rodadas == 0 {
                    &&& r == Rodada::Fim(Err("tarefas nao terminaram dentro do teto de rodadas"))
                    &&& *final(l) == *old(l)
                } else if vivas == 0 {
                    r == Rodada::Fim(Ok(())) && *final(l) == *old(l)
                } else {
                    &&& r == Rodada::Rodar
                    &&& *final(l) == (Laco { rodadas: (old(l).rodadas - 1) as usize, no_meio: true })
                }
            }),
            r is Fim || 0 <= final(l).passos() < old(l).passos(),
    {
        if l.no_meio {
            if self.vivas() == 0 {
                return Rodada::Fim(Ok(()));
            }
            l.no_meio = false;
            return Rodada::Dormir;
        }
        if l.rodadas == 0 {
            return Rodada::Fim(Err("tarefas nao terminaram dentro do teto de rodadas"));
        }
        if self.vivas() == 0 {
            return Rodada::Fim(Ok(()));
        }
        l.rodadas = l.rodadas - 1;
        l.no_meio = true;
        Rodada::Rodar
    }

    fn inventario_registrar(&mut self, id: u64, nome: &'static str)
        requires
            old(self).wf(),
        ensures
            final(self).wf(),
            final(self).vivas == old(self).vivas,
            final(self).prontas == old(self).prontas,
            inscreveu(old(self).inventario(), final(self).inventario(), id, nome),
            final(self).contadores == (Contadores {
                fora_do_inventario: if lotado(old(self).inventario()) {
                    old(self).contadores.fora_do_inventario.wrapping_add(1)
                } else {
                    old(self).contadores.fora_do_inventario
                },
                ..old(self).contadores
            }),
    {
        let ghost s = self.inventario@;
        let mut k: usize = 0;
        while k < self.inventario.len() && self.inventario[k].is_some()
            invariant
                self.inventario@ == s,
                k <= s.len(),
                forall|j: int| 0 <= j < k ==> (#[trigger] s[j]) is Some,
            decreases s.len() - k,
        {
            k = k + 1;
        }
        if k >= self.inventario.len() {
            k = 0;
            while k < self.inventario.len() && viva(self.inventario[k])
                invariant
                    self.inventario@ == s,
                    k <= s.len(),
                    forall|j: int| 0 <= j < s.len() ==> (#[trigger] s[j]) is Some,
                    forall|j: int| 0 <= j < k ==> ((#[trigger] s[j])->0).viva,
                decreases s.len() - k,
            {
                k = k + 1;
            }
            if k >= self.inventario.len() {
                self.contadores.fora_do_inventario = self.contadores.fora_do_inventario.wrapping_add(1);
                proof {
                    assert(lotado(s));
                }
                return;
            }
        }
        proof {
            assert(vaga_para(s, k as int));
            assert(!lotado(s));
        }
        self.inventario.set(k, Some(Inscricao { id, nome, viva: true }));
    }

    fn inventario_encerrar(&mut self, id: u64)
        requires
            old(self).wf(),
        ensures
            final(self).wf(),
            final(self).vivas == old(self).vivas,
            final(self).prontas == old(self).prontas,
            final(self).contadores == old(self).contadores,
            final(self).inventario() == encerrado(old(self).inventario(), id),
    {
        let ghost s = self.inventario@;
        let mut k: usize = 0;
        while k < self.inventario.len()
            invariant
                self.wf(),
                s.len() == MAX_INVENTARIO,
                s == old(self).inventario@,
                k <= s.len(),
                self.vivas == old(self).vivas,
                self.prontas == old(self).prontas,
                self.contadores == old(self).contadores,
                forall|j: int| 0 <= j < k ==> #[trigger] self.inventario@[j] == encerrado(s, id)[j],
                forall|j: int| k <= j < s.len() ==> #[trigger] self.inventario@[j] == s[j],
            decreases s.len() - k,
        {
            if let Some(e) = self.inventario[k] {
                if e.id == id {
                    self.inventario.set(k, Some(Inscricao { id: e.id, nome: e.nome, viva: false }));
                }
            }
            k = k + 1;
        }
        proof {
            assert(self.inventario@ =~= encerrado(s, id));
        }
    }
}

/// The slot holds a live task.
fn viva(e: Option<Inscricao>) -> (r: bool)
    ensures
        r == (e is Some && (e->0).viva),
{
    match e {
        Some(i) => i.viva,
        None => false,
    }
}

proof fn lemma_linhas_prefixo(s: Seq<Option<Inscricao>>, t: Seq<Option<Inscricao>>, n: int)
    requires
        0 <= n <= s.len(),
        n <= t.len(),
        forall|i: int| 0 <= i < n ==> s[i] == t[i],
    ensures
        linhas(s, n) == linhas(t, n),
    decreases n,
{
    if n > 0 {
        lemma_linhas_prefixo(s, t, n - 1);
    }
}

/// The lines of the inventory, in order.
pub fn com_inventario(e: &Executor) -> (r: Vec<Inscricao>)
    requires
        e.wf(),
    ensures
        r@ == linhas(e.inventario(), MAX_INVENTARIO as int),
{
    let mut r: Vec<Inscricao> = Vec::new();
    let mut k: usize = 0;
    while k < MAX_INVENTARIO
        invariant
            e.wf(),
            k <= MAX_INVENTARIO,
            r@ == linhas(e.inventario(), k as int),
        decreases MAX_INVENTARIO - k,
    {
        if let Some(i) = e.inventario[k] {
            r.push(i);
        }
        k = k + 1;
    }
    r
}

/// The executor's counters.
pub fn estatisticas(e: &Executor) -> (r: Contadores)
    ensures
        r == e.contadores(),
{
    e.contadores
}

/// The turns that are pending: the entries of the queue whose task is alive.
pub open spec fn ordem(fila: Seq<u64>, vivas: Set<u64>) -> Seq<u64>
    decreases fila.len(),
{
    if fila.len() == 0 {
        Seq::empty()
    } else if vivas.contains(fila[0]) {
        seq![fila[0]] + ordem(fila.drop_first(), vivas)
    } else {
        ordem(fila.drop_first(), vivas)
    }
}

/// Tasks run in the order in which they were woken: what runs next is the
/// first pending turn, and only that turn is spent.
pub proof fn lei_roda_quem_chegou_antes(fila: Seq<u64>, vivas: Set<u64>, k: int)
    requires
        primeira_viva(fila, vivas, k),
    ensures
        ordem(fila, vivas) == seq![fila[k]] + ordem(fila.skip(k + 1), vivas),
    decreases fila.len(),
{
    if k == 0 {
        assert(fila.skip(1) =~= fila.drop_first());
    } else {
        let resto = fila.drop_first();
        assert(!vivas.contains(fila[0]));
        assert(resto[k - 1] == fila[k]);
        assert forall|j: int| 0 <= j < k - 1 implies !vivas.contains(#[trigger] resto[j]) by {
            assert(resto[j] == fila[j + 1]);
        }
        lei_roda_quem_chegou_antes(resto, vivas, k - 1);
        assert(resto.skip(k) =~= fila.skip(k + 1));
    }
}

/// A task that is woken gets a turn, after those that were pending, which are
/// not disturbed.
pub proof fn lei_acordada_entra_no_fim(fila: Seq<u64>, vivas: Set<u64>, id: u64)
    requires
        vivas.contains(id),
    ensures
        ordem(fila.push(id), vivas) == ordem(fila, vivas).push(id),
    decreases fila.len(),
{
    if fila.len() == 0 {
        assert(fila.push(id).drop_first() =~= fila);
        assert(ordem(fila.push(id), vivas) =~= ordem(fila, vivas).push(id));
    } else {
        lei_acordada_entra_no_fim(fila.drop_first(), vivas, id);
        assert(fila.push(id).drop_first() =~= fila.drop_first().push(id));
        assert(ordem(fila.push(id), vivas) =~= ordem(fila, vivas).push(id));
    }
}

/// How many tasks the inventory shows.
pub fn capacidade_do_inventario() -> (r: usize)
    ensures
        r == MAX_INVENTARIO,
{
    MAX_INVENTARIO
}

/// How many entries the ready queue holds.
pub fn capacidade_da_fila_de_prontas() -> (r: usize)
    ensures
        r == CAPACIDADE_PRONTAS,
{
    CAPACIDADE_PRONTAS
}

/// The inventory shows every slot that is taken, in order, and nothing of an empty
/// one.
pub proof fn lei_inventario(s: Seq<Option<Inscricao>>, n: nat)
    requires
        n <= s.len(),
    ensures
        linhas(s, n as int) == s.take(n as int).filter(|e: Option<Inscricao>| e is Some).map_values(
            |e: Option<Inscricao>| e->0,
        ),
    decreases n,
{
    reveal(Seq::filter);
    let f = |e: Option<Inscricao>| e is Some;
    let g = |e: Option<Inscricao>| e->0;
    let t = s.take(n as int);
    if n > 0 {
        lei_inventario(s, (n - 1) as nat);
        let u = s.take(n - 1);
        assert(t.drop_last() =~= u);
        assert(t.last() == s[n - 1]);
        if s[n - 1] is Some {
            assert(t.filter(f) =~= u.filter(f).push(s[n - 1]));
            assert(u.filter(f).push(s[n - 1]).map_values(g) =~= u.filter(f).map_values(g).push(
                s[n - 1]->0,
            ));
        }
    } else {
        assert(t.filter(f) =~= Seq::<Option<Inscricao>>::empty());
        assert(Seq::<Option<Inscricao>>::empty().map_values(g) =~= Seq::<Inscricao>::empty());
    }
}

/// A task that ends stays in the inventory under its name, no longer alive; every
/// other line is as it was.
pub proof fn lei_encerrado(s: Seq<Option<Inscricao>>, id: u64, i: int)
    requires
        0 <= i < s.len(),
    ensures
        encerrado(s, id).len() == s.len(),
        encerrado(s, id)[i] is Some == s[i] is Some,
        s[i] is Some ==> encerrado(s, id)[i]->0.id == s[i]->0.id && encerrado(s, id)[i]->0.nome
            == s[i]->0.nome,
        s[i] is Some && s[i]->0.id == id ==> !encerrado(s, id)[i]->0.viva,
        s[i] is Some && s[i]->0.id != id ==> encerrado(s, id)[i] == s[i],
{
}

/// A new task takes a slot that no live task holds, and an empty one before one
/// whose task ended; only where every slot has a live task does it get none.
pub proof fn lei_inscricao(
    s: Seq<Option<Inscricao>>,
    t: Seq<Option<Inscricao>>,
    id: u64,
    nome: &'static str,
    i: int,
)
    requires
        inscreveu(s, t, id, nome),
        0 <= i < s.len(),
        s[i] is None || !s[i]->0.viva,
    ensures
        exists|k: int|
            {
                &&& 0 <= k < s.len()
                &&& t.len() == s.len()
                &&& (#[trigger] t[k]) is Some
                &&& t[k]->0.id == id
                &&& t[k]->0.nome == nome
                &&& t[k]->0.viva
                &&& s[k] is Some ==> !s[k]->0.viva && s[i] is Some
                &&& forall|j: int| 0 <= j < s.len() && j != k ==> #[trigger] t[j] == s[j]
            },
{
    assert(!lotado(s));
    let k = choose|k: int| #[trigger]
        vaga_para(s, k) && t == s.update(k, Some(Inscricao { id, nome, viva: true }));
    assert(t[k]->0.id == id);
    if s[i] is None {
        assert(exists|j: int| 0 <= j < s.len() && (#[trigger] s[j]) is None);
    }
}

/// The tasks run in the order in which they were queued, but for those that are no
/// longer alive.
pub proof fn lei_ordem(fila: Seq<u64>, vivas: Set<u64>)
    ensures
        ordem(fila, vivas) == fila.filter(|id: u64| vivas.contains(id)),
    decreases fila.len(),
{
    let f = |id: u64| vivas.contains(id);
    if fila.len() > 0 {
        let r = fila.drop_first();
        let u = seq![fila[0]];
        lei_ordem(r, vivas);
        assert(fila =~= u + r);
        Seq::filter_distributes_over_add(u, r, f);
        assert(u.filter(f) == if vivas.contains(fila[0]) {
            u
        } else {
            Seq::empty()
        }) by {
            reveal(Seq::filter);
            assert(u.drop_last() =~= Seq::<u64>::empty());
            assert(u.drop_last().filter(f) =~= Seq::<u64>::empty());
            assert(Seq::<u64>::empty().push(fila[0]) =~= u);
        }
        assert(Seq::<u64>::empty() + r.filter(f) =~= r.filter(f));
    } else {
        reveal(Seq::filter);
        assert(fila.filter(f) =~= Seq::<u64>::empty());
    }
}

/// A new task finds a slot of the inventory unless every one holds a live task.
pub proof fn lei_ha_vaga_no_inventario(s: Seq<Option<Inscricao>>, i: int)
    requires
        0 <= i < s.len(),
        s[i] is None || !s[i]->0.viva,
    ensures
        exists|k: int| #[trigger] vaga_para(s, k),
{
    if exists|j: int| 0 <= j < s.len() && (#[trigger] s[j]) is None {
        let j = choose|j: int| 0 <= j < s.len() && (#[trigger] s[j]) is None;
        let k = lemma_primeiro_lugar(s, j, |e: Option<Inscricao>| e is None);
        assert(vaga_para(s, k));
    } else {
        let k = lemma_primeiro_lugar(s, i, |e: Option<Inscricao>| !(e->0).viva);
        assert(vaga_para(s, k));
    }
}

proof fn lemma_primeiro_lugar(
    s: Seq<Option<Inscricao>>,
    j: int,
    f: spec_fn(Option<Inscricao>) -> bool,
) -> (k: int)
    requires
        0 <= j < s.len(),
        f(s[j]),
    ensures
        0 <= k <= j,
        f(s[k]),
        forall|i: int| 0 <= i < k ==> !f(#[trigger] s[i]),
    decreases j,
{
    if exists|i: int| 0 <= i < j && f(#[trigger] s[i]) {
        let i = choose|i: int| 0 <= i < j && f(#[trigger] s[i]);
        lemma_primeiro_lugar(s, i, f)
    } else {
        j
    }
}

} // verus!
