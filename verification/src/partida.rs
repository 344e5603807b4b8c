//! The order in which the kernel starts, and what happens where something that
//! everything else needs is missing.
use vstd::prelude::*;

use crate::machine::{com_regioes, estatisticas, Maquina, Regiao, TipoRegiao};
use crate::texto::acrescentar_decimal;

verus! {

/// What is done next.
#[derive(Clone, Copy, Debug, PartialEq, Eq, Structural)]
pub enum Etapa {
    /// Say what is starting, and on which processor.
    Apresentar,
    /// Exceptions: from here on a failure is told.
    Excecoes,
    /// Interrupts: from here on there is time.
    Interrupcoes,
    /// Say how much memory there is.
    Memoria,
    /// The allocator of frames.
    Frames,
    /// The translation of addresses.
    Paginacao,
    /// The heap.
    Heap,
    /// The screen that the firmware left, if it left one.
    Tela,
    /// The calls of processes.
    Usuario,
    /// The timer of each processor.
    Timer,
    /// Threads.
    Fios,
    /// Where the bus is.
    AcharBarramento,
    /// What is on the bus.
    VarrerBarramento,
    /// A screen on the bus.
    ProcurarTela,
    /// The disk.
    Disco,
    /// The network.
    Rede,
    /// The interrupt of the agent's port.
    InterrupcaoSerial,
    /// Run the tasks: the agent's channel is one of them.
    Atender,
    /// Only answer the channel, directly.
    Servir,
    /// Stop.
    Parar,
}

/// What is known when a stage is over.
#[derive(Clone, Copy, Debug, PartialEq, Eq, Structural)]
pub struct Situacao {
    /// There is a port for the agent's channel.
    pub canal: bool,
    /// The stage did what it is for.
    pub pronto: bool,
    /// There is a screen.
    pub tela: bool,
}

/// The stage after another. Without frames, and without a heap, nothing that
/// comes later can work: the kernel stops there, and goes on answering through
/// the path that needs neither. A screen on the bus is looked for only where
/// the firmware left none.
pub open spec fn seguinte_spec(e: Etapa, s: Situacao) -> Etapa {
    match e {
        Etapa::Apresentar => Etapa::Excecoes,
        Etapa::Excecoes => Etapa::Interrupcoes,
        Etapa::Interrupcoes => Etapa::Memoria,
        Etapa::Memoria => Etapa::Frames,
        Etapa::Frames => if s.pronto {
            Etapa::Paginacao
        } else {
            sem_base(s)
        },
        Etapa::Paginacao => Etapa::Heap,
        Etapa::Heap => if s.pronto {
            Etapa::Tela
        } else {
            sem_base(s)
        },
        Etapa::Tela => Etapa::Usuario,
        Etapa::Usuario => Etapa::Timer,
        Etapa::Timer => Etapa::Fios,
        Etapa::Fios => Etapa::AcharBarramento,
        Etapa::AcharBarramento => Etapa::VarrerBarramento,
        Etapa::VarrerBarramento => if s.tela {
            Etapa::Disco
        } else {
            Etapa::ProcurarTela
        },
        Etapa::ProcurarTela => Etapa::Disco,
        Etapa::Disco => Etapa::Rede,
        Etapa::Rede => if s.canal {
            Etapa::InterrupcaoSerial
        } else {
            Etapa::Parar
        },
        Etapa::InterrupcaoSerial => Etapa::Atender,
        Etapa::Atender => Etapa::Atender,
        Etapa::Servir => Etapa::Servir,
        Etapa::Parar => Etapa::Parar,
    }
}

/// What is left to do without frames or without a heap.
pub open spec fn sem_base(s: Situacao) -> Etapa {
    if s.canal {
        Etapa::Servir
    } else {
        Etapa::Parar
    }
}

/// What is left to do without frames or without a heap.
pub fn parar_sem_base(s: Situacao) -> (r: Etapa)
    ensures
        r == sem_base(s),
{
    if s.canal {
        Etapa::Servir
    } else {
        Etapa::Parar
    }
}

/// The stage after another.
pub fn inicio_comum(e: Etapa, s: Situacao) -> (r: Etapa)
    ensures
        r == seguinte_spec(e, s),
{
    match e {
        Etapa::Apresentar => Etapa::Excecoes,
        Etapa::Excecoes => Etapa::Interrupcoes,
        Etapa::Interrupcoes => Etapa::Memoria,
        Etapa::Memoria => Etapa::Frames,
        Etapa::Frames => if s.pronto {
            Etapa::Paginacao
        } else {
            parar_sem_base(s)
        },
        Etapa::Paginacao => Etapa::Heap,
        Etapa::Heap => if s.pronto {
            Etapa::Tela
        } else {
            parar_sem_base(s)
        },
        Etapa::Tela => Etapa::Usuario,
        Etapa::Usuario => Etapa::Timer,
        Etapa::Timer => Etapa::Fios,
        Etapa::Fios => Etapa::AcharBarramento,
        Etapa::AcharBarramento => Etapa::VarrerBarramento,
        Etapa::VarrerBarramento => if s.tela {
            Etapa::Disco
        } else {
            Etapa::ProcurarTela
        },
        Etapa::ProcurarTela => Etapa::Disco,
        Etapa::Disco => Etapa::Rede,
        Etapa::Rede => if s.canal {
            Etapa::InterrupcaoSerial
        } else {
            Etapa::Parar
        },
        Etapa::InterrupcaoSerial => Etapa::Atender,
        Etapa::Atender => Etapa::Atender,
        Etapa::Servir => Etapa::Servir,
        Etapa::Parar => Etapa::Parar,
    }
}

/// The place of a stage in the order.
pub open spec fn ordem(e: Etapa) -> int {
    match e {
        Etapa::Apresentar => 0,
        Etapa::Excecoes => 1,
        Etapa::Interrupcoes => 2,
        Etapa::Memoria => 3,
        Etapa::Frames => 4,
        Etapa::Paginacao => 5,
        Etapa::Heap => 6,
        Etapa::Tela => 7,
        Etapa::Usuario => 8,
        Etapa::Timer => 9,
        Etapa::Fios => 10,
        Etapa::AcharBarramento => 11,
        Etapa::VarrerBarramento => 12,
        Etapa::ProcurarTela => 13,
        Etapa::Disco => 14,
        Etapa::Rede => 15,
        Etapa::InterrupcaoSerial => 16,
        Etapa::Atender => 17,
        Etapa::Servir => 18,
        Etapa::Parar => 19,
    }
}

/// The stage is one that nothing follows.
pub open spec fn ultima(e: Etapa) -> bool {
    e == Etapa::Atender || e == Etapa::Servir || e == Etapa::Parar
}

/// The stages that are gone through, given what is known at the end of each.
pub open spec fn percurso(e: Etapa, s: spec_fn(Etapa) -> Situacao) -> Seq<Etapa>
    decreases 20 - ordem(e),
{
    if ultima(e) {
        seq![e]
    } else {
        seq![e] + percurso(seguinte_spec(e, s(e)), s)
    }
}

/// Starting comes to an end: no stage is gone through twice, and the last one is
/// one of the three that nothing follows.
pub proof fn lei_partida_termina(e: Etapa, s: spec_fn(Etapa) -> Situacao)
    ensures
        percurso(e, s).len() > 0,
        percurso(e, s)[0] == e,
        ultima(percurso(e, s).last()),
        forall|i: int, j: int|
            0 <= i < j < percurso(e, s).len() ==> ordem(#[trigger] percurso(e, s)[i]) < ordem(
                #[trigger] percurso(e, s)[j],
            ),
    decreases 20 - ordem(e),
{
    if !ultima(e) {
        let p = seguinte_spec(e, s(e));
        lei_partida_termina(p, s);
        let resto = percurso(p, s);
        let tudo = percurso(e, s);
        assert(tudo == seq![e] + resto);
        assert(tudo.last() == resto.last());
        assert forall|i: int, j: int| 0 <= i < j < tudo.len() implies ordem(#[trigger] tudo[i])
            < ordem(#[trigger] tudo[j]) by {
            assert(tudo[j] == resto[j - 1]);
            if i > 0 {
                assert(tudo[i] == resto[i - 1]);
            } else if j > 1 {
                assert(ordem(resto[0]) < ordem(resto[j - 1]));
            }
        }
    }
}

/// Nothing that needs memory is started without it: where there are no frames,
/// or no heap, the stages past it are not gone through, and the channel is
/// answered all the same where there is one.
pub proof fn lei_sem_base_nao_continua(s: spec_fn(Etapa) -> Situacao)
    ensures
        !s(Etapa::Frames).pronto ==> percurso(Etapa::Frames, s) == seq![
            Etapa::Frames,
            sem_base(s(Etapa::Frames)),
        ],
        !s(Etapa::Heap).pronto ==> percurso(Etapa::Heap, s) == seq![
            Etapa::Heap,
            sem_base(s(Etapa::Heap)),
        ],
{
    reveal_with_fuel(percurso, 3);
    assert(!s(Etapa::Frames).pronto ==> percurso(Etapa::Frames, s) =~= seq![
        Etapa::Frames,
        sem_base(s(Etapa::Frames)),
    ]);
    assert(!s(Etapa::Heap).pronto ==> percurso(Etapa::Heap, s) =~= seq![
        Etapa::Heap,
        sem_base(s(Etapa::Heap)),
    ]);
}

/// How much memory there is.
#[derive(Clone, Copy, Debug, PartialEq, Eq, Structural)]
pub struct Memoria {
    pub regioes: usize,
    /// Bytes that can be used.
    pub utilizavel: u64,
    /// Bytes that the bootloader keeps.
    pub bootloader: u64,
    /// Bytes that the map describes.
    pub descrito: u64,
}

/// The bytes of the regions that the bootloader keeps.
pub open spec fn retido(s: Seq<Regiao>) -> int
    decreases s.len(),
{
    if s.len() == 0 {
        0
    } else {
        retido(s.drop_last()) + if s.last().tipo == TipoRegiao::Bootloader {
            s.last().fim - s.last().inicio
        } else {
            0
        }
    }
}

proof fn lemma_retido(s: Seq<Regiao>, n: int)
    requires
        0 <= n <= s.len(),
        forall|i: int| 0 <= i < s.len() ==> (#[trigger] s[i]).valida(),
    ensures
        0 <= retido(s.take(n)) <= crate::machine::soma_de(s, false),
    decreases s.len(),
{
    if s.len() > 0 {
        let t = s.drop_last();
        assert forall|i: int| 0 <= i < t.len() implies (#[trigger] t[i]).valida() by {
            assert(t[i] == s[i]);
        }
        assert(s.last().valida());
        if n < s.len() {
            lemma_retido(t, n);
            assert(t.take(n) =~= s.take(n));
        } else {
            lemma_retido(t, n - 1);
            assert(t.take(n - 1) =~= t);
            assert(s.take(n) =~= s);
        }
    }
}

/// Measures memory.
pub fn medir(m: &Maquina) -> (r: Memoria)
    requires
        m.wf(),
        crate::machine::soma_de(m.regioes(), false) <= u64::MAX,
    ensures
        r.regioes == m.regioes().len(),
        r.utilizavel == crate::machine::soma_de(m.regioes(), true),
        r.bootloader == retido(m.regioes()),
        r.descrito == crate::machine::soma_de(m.regioes(), false),
{
    let (utilizavel, descrito, regioes) = estatisticas(m);
    let lista = com_regioes(m);
    let ghost s = m.regioes();
    let mut bootloader: u64 = 0;
    let mut i: usize = 0;
    while i < lista.len()
        invariant
            m.wf(),
            s == m.regioes(),
            lista@ == s,
            crate::machine::soma_de(s, false) <= u64::MAX,
            i <= lista@.len(),
            bootloader == retido(s.take(i as int)),
        decreases lista@.len() - i,
    {
        proof {
            assert(s[i as int].valida());
            lemma_retido(s, i + 1);
            assert(s.take(i + 1).drop_last() =~= s.take(i as int));
            assert(s.take(i + 1).last() == s[i as int]);
        }
        if lista[i].tipo == TipoRegiao::Bootloader {
            bootloader = bootloader + lista[i].tamanho();
        }
        i = i + 1;
    }
    proof {
        assert(s.take(i as int) =~= s);
    }
    Memoria { regioes, utilizavel, bootloader, descrito }
}

/// The text of the line that reports memory.
pub open spec fn linha_da_memoria(m: Memoria) -> Seq<char> {
    crate::texto::decimal(m.regioes as nat) + " regioes: "@ + crate::texto::decimal(
        (m.utilizavel / 0x10_0000) as nat,
    ) + " MiB utilizaveis, "@ + crate::texto::decimal((m.bootloader / 0x10_0000) as nat)
        + " MiB retidos pelo bootloader, "@ + crate::texto::decimal(
        (m.descrito / 0x10_0000) as nat,
    ) + " MiB de espaco descrito"@
}

/// The line that reports memory.
pub fn relatar_memoria(m: &Memoria) -> (r: String)
    ensures
        r@ == linha_da_memoria(*m),
{
    let mut t = String::new();
    acrescentar_decimal(&mut t, m.regioes as u64);
    t.append(" regioes: ");
    acrescentar_decimal(&mut t, m.utilizavel / 0x10_0000);
    t.append(" MiB utilizaveis, ");
    acrescentar_decimal(&mut t, m.bootloader / 0x10_0000);
    t.append(" MiB retidos pelo bootloader, ");
    acrescentar_decimal(&mut t, m.descrito / 0x10_0000);
    t.append(" MiB de espaco descrito");
    proof {
        assert(t@ =~= linha_da_memoria(*m));
    }
    t
}

/// The bytes that the bootloader keeps are those of the regions of that kind.
pub proof fn lei_retido(s: Seq<Regiao>, t: Seq<Regiao>, r: Regiao)
    ensures
        retido(s + t) == retido(s) + retido(t),
        retido(seq![r]) == if r.tipo is Bootloader {
            r.fim - r.inicio
        } else {
            0
        },
        retido(Seq::empty()) == 0,
    decreases t.len(),
{
    assert(seq![r].drop_last() =~= Seq::<Regiao>::empty());
    reveal_with_fuel(retido, 2);
    if t.len() == 0 {
        assert(s + t =~= s);
    } else {
        assert((s + t).drop_last() =~= s + t.drop_last());
        lei_retido(s, t.drop_last(), r);
    }
}

/// Where everything works, the kernel goes through every stage in order, and looks
/// for a screen on the bus exactly where the firmware left none.
pub proof fn lei_partida_inteira(s: spec_fn(Etapa) -> Situacao)
    requires
        forall|e: Etapa| (#[trigger] s(e)).pronto && s(e).canal,
    ensures
        percurso(Etapa::Apresentar, s) == seq![
            Etapa::Apresentar,
            Etapa::Excecoes,
            Etapa::Interrupcoes,
            Etapa::Memoria,
            Etapa::Frames,
            Etapa::Paginacao,
            Etapa::Heap,
            Etapa::Tela,
            Etapa::Usuario,
            Etapa::Timer,
            Etapa::Fios,
            Etapa::AcharBarramento,
            Etapa::VarrerBarramento,
        ] + (if s(Etapa::VarrerBarramento).tela {
            Seq::empty()
        } else {
            seq![Etapa::ProcurarTela]
        }) + seq![Etapa::Disco, Etapa::Rede, Etapa::InterrupcaoSerial, Etapa::Atender],
{
    reveal_with_fuel(percurso, 19);
    assert(s(Etapa::Frames).pronto && s(Etapa::Heap).pronto && s(Etapa::Rede).canal);
    assert(percurso(Etapa::Apresentar, s) =~= seq![
        Etapa::Apresentar,
        Etapa::Excecoes,
        Etapa::Interrupcoes,
        Etapa::Memoria,
        Etapa::Frames,
        Etapa::Paginacao,
        Etapa::Heap,
        Etapa::Tela,
        Etapa::Usuario,
        Etapa::Timer,
        Etapa::Fios,
        Etapa::AcharBarramento,
        Etapa::VarrerBarramento,
    ] + (if s(Etapa::VarrerBarramento).tela {
        Seq::empty()
    } else {
        seq![Etapa::ProcurarTela]
    }) + seq![Etapa::Disco, Etapa::Rede, Etapa::InterrupcaoSerial, Etapa::Atender]);
}

/// The line that reports memory starts with the number of regions and has the
/// mebibytes after it: the usable ones, those that the bootloader keeps, and all
/// that is described, each before its own words.
pub proof fn lei_linha_da_memoria(m: Memoria)
    ensures
        ({
            let l = linha_da_memoria(m);
            let a = crate::texto::decimal(m.regioes as nat);
            let b = crate::texto::decimal((m.utilizavel / 1048576) as nat);
            let c = crate::texto::decimal((m.bootloader / 1048576) as nat);
            let d = crate::texto::decimal((m.descrito / 1048576) as nat);
            let i = a.len() + " regioes: "@.len();
            let j = i + b.len() + " MiB utilizaveis, "@.len();
            let k = j + c.len() + " MiB retidos pelo bootloader, "@.len();
            &&& l.subrange(0, a.len() as int) == a
            &&& l.subrange(a.len() as int, i as int) == " regioes: "@
            &&& l.subrange(i as int, (i + b.len()) as int) == b
            &&& l.subrange((i + b.len()) as int, j as int) == " MiB utilizaveis, "@
            &&& l.subrange(j as int, (j + c.len()) as int) == c
            &&& l.subrange((j + c.len()) as int, k as int) == " MiB retidos pelo bootloader, "@
            &&& l.subrange(k as int, (k + d.len()) as int) == d
            &&& l.subrange((k + d.len()) as int, l.len() as int) == " MiB de espaco descrito"@
        }),
{
    let l = linha_da_memoria(m);
    let a = crate::texto::decimal(m.regioes as nat);
    let b = crate::texto::decimal((m.utilizavel / 1048576) as nat);
    let c = crate::texto::decimal((m.bootloader / 1048576) as nat);
    let d = crate::texto::decimal((m.descrito / 1048576) as nat);
    let i = a.len() + " regioes: "@.len();
    let j = i + b.len() + " MiB utilizaveis, "@.len();
    let k = j + c.len() + " MiB retidos pelo bootloader, "@.len();
    assert(l.subrange(0, a.len() as int) =~= a);
    assert(l.subrange(a.len() as int, i as int) =~= " regioes: "@);
    assert(l.subrange(i as int, (i + b.len()) as int) =~= b);
    assert(l.subrange((i + b.len()) as int, j as int) =~= " MiB utilizaveis, "@);
    assert(l.subrange(j as int, (j + c.len()) as int) =~= c);
    assert(l.subrange((j + c.len()) as int, k as int) =~= " MiB retidos pelo bootloader, "@);
    assert(l.subrange(k as int, (k + d.len()) as int) =~= d);
    assert(l.subrange((k + d.len()) as int, l.len() as int) =~= " MiB de espaco descrito"@);
}

} // verus!
