//! The bytes of the agent's channel, between the interrupt that brings them
//! and the task that reads them.
use vstd::prelude::*;

use crate::tarefas::fila::Fila;

verus! {

/// How many bytes wait for the reader at most.
pub const CAPACIDADE: usize = 4096;

/// The byte that ends a frame.
pub const NOVA_LINHA: u8 = 10;

/// The waiting bytes and who to wake when one arrives.
pub struct Entrada {
    bytes: Fila<u8, CAPACIDADE>,
    /// The task that waits for a byte.
    despertador: Option<u64>,
    perdidos: u64,
    descartados_no_boot: u64,
}

/// Whether a byte was there, and the byte.
#[derive(Clone, Copy, Debug, PartialEq, Eq, Structural)]
pub struct ProximoByte {
    /// The task on whose behalf the byte is read.
    pub tarefa: u64,
}

/// Is there room for a byte? The last place is kept for the end of a frame:
/// ordinary bytes never take it.
pub open spec fn tem_vaga(fila: Seq<u8>, byte: u8) -> bool {
    if byte == NOVA_LINHA {
        fila.len() < CAPACIDADE
    } else {
        fila.len() < CAPACIDADE - 1
    }
}

/// The queue after the bytes of `chegados`: each is kept where there is room
/// for it and lost where there is none.
pub open spec fn apos(fila: Seq<u8>, chegados: Seq<u8>) -> Seq<u8>
    decreases chegados.len(),
{
    if chegados.len() == 0 {
        fila
    } else {
        let antes = apos(fila, chegados.drop_last());
        if tem_vaga(antes, chegados.last()) {
            antes.push(chegados.last())
        } else {
            antes
        }
    }
}

/// The counter after `n` more events, modulo its width.
pub open spec fn somado(contador: u64, n: int) -> int {
    (contador + n) % 0x1_0000_0000_0000_0000
}

/// How many bytes up to and with the first line feed; all of them where there
/// is none.
pub open spec fn ate_nova_linha(s: Seq<u8>) -> int
    decreases s.len(),
{
    if s.len() == 0 {
        0
    } else if s[0] == NOVA_LINHA {
        1
    } else {
        1 + ate_nova_linha(s.drop_first())
    }
}

impl Entrada {
    /// The waiting bytes, oldest first.
    pub closed spec fn pendentes(&self) -> Seq<u8> {
        self.bytes@
    }

    /// The task that waits for a byte.
    pub closed spec fn espera(&self) -> Option<u64> {
        self.despertador
    }

    /// How many bytes found no room.
    pub closed spec fn perdidos_spec(&self) -> u64 {
        self.perdidos
    }

    pub closed spec fn no_boot(&self) -> u64 {
        self.descartados_no_boot
    }

    /// The last place of the queue holds the end of a frame, or nothing.
    pub closed spec fn wf(&self) -> bool {
        &&& self.bytes.wf()
        &&& self.bytes@.len() <= CAPACIDADE
        &&& self.bytes@.len() == CAPACIDADE ==> self.bytes@.last() == NOVA_LINHA
    }

    pub fn nova() -> (r: Entrada)
        ensures
            r.wf(),
            r.pendentes() == Seq::<u8>::empty(),
            r.espera() is None,
            r.perdidos_spec() == 0,
            r.no_boot() == 0,
    {
        Entrada { bytes: Fila::nova(), despertador: None, perdidos: 0, descartados_no_boot: 0 }
    }
}

/// Queues a byte where there is room for it; counts it as lost where there is
/// none.
fn guardar(e: &mut Entrada, byte: u8) -> (r: bool)
    requires
        old(e).wf(),
    ensures
        final(e).wf(),
        final(e).espera() == old(e).espera(),
        final(e).no_boot() == old(e).no_boot(),
        r == tem_vaga(old(e).pendentes(), byte),
        if r {
            final(e).pendentes() == old(e).pendentes().push(byte) && final(e).perdidos_spec()
                == old(e).perdidos_spec()
        } else {
            final(e).pendentes() == old(e).pendentes() && final(e).perdidos_spec()
                == old(e).perdidos_spec().wrapping_add(1)
        },
{
    let limite: usize = if byte == NOVA_LINHA {
        CAPACIDADE
    } else {
        CAPACIDADE - 1
    };
    if e.bytes.ocupacao() < limite {
        let r = e.bytes.enfileirar(byte);
        true
    } else {
        e.perdidos = e.perdidos.wrapping_add(1);
        false
    }
}

/// Queues what the port delivered, at most [`CAPACIDADE`] bytes of it, and
/// says who to wake. Bytes that find no room are counted and lost.
pub fn coletar(e: &mut Entrada, recebidos: &[u8]) -> (r: Option<u64>)
    requires
        old(e).wf(),
    ensures
        final(e).wf(),
        final(e).espera() == old(e).espera(),
        final(e).no_boot() == old(e).no_boot(),
        r == if recebidos@.len() > 0 {
            old(e).espera()
        } else {
            None
        },
        ({
            let lidos = if recebidos@.len() <= CAPACIDADE {
                recebidos@
            } else {
                recebidos@.take(CAPACIDADE as int)
            };
            let depois = apos(old(e).pendentes(), lidos);
            &&& final(e).pendentes() == depois
            &&& final(e).perdidos_spec() == somado(
                old(e).perdidos_spec(),
                old(e).pendentes().len() + lidos.len() - depois.len(),
            )
        }),
{
    let n: usize = if recebidos.len() < CAPACIDADE {
        recebidos.len()
    } else {
        CAPACIDADE
    };
    let ghost antes = *e;
    proof {
        assert(recebidos@.take(0) =~= Seq::<u8>::empty());
    }
    let mut i: usize = 0;
    while i < n
        invariant
            e.wf(),
            n <= recebidos@.len(),
            i <= n,
            e.espera() == antes.espera(),
            e.no_boot() == antes.no_boot(),
            e.pendentes() == apos(antes.pendentes(), recebidos@.take(i as int)),
            e.perdidos_spec() == somado(
                antes.perdidos_spec(),
                antes.pendentes().len() + i - e.pendentes().len(),
            ),
            0 <= antes.pendentes().len() + i - e.pendentes().len() <= i,
        decreases n - i,
    {
        proof {
            assert(recebidos@.take(i + 1).drop_last() =~= recebidos@.take(i as int));
        }
        guardar(e, recebidos[i]);
        i = i + 1;
    }
    proof {
        assert(recebidos@.len() <= CAPACIDADE ==> recebidos@.take(n as int) =~= recebidos@);
    }
    if n > 0 {
        e.despertador
    } else {
        None
    }
}

/// Counts what was thrown away before the channel opened: at most
/// [`CAPACIDADE`] of the `lidos` bytes the port still held.
pub fn descartar_pendentes(e: &mut Entrada, lidos: usize) -> (r: usize)
    requires
        old(e).wf(),
    ensures
        final(e).wf(),
        r == if lidos < CAPACIDADE {
            lidos as int
        } else {
            CAPACIDADE as int
        },
        final(e).pendentes() == old(e).pendentes(),
        final(e).espera() == old(e).espera(),
        final(e).perdidos_spec() == old(e).perdidos_spec(),
        final(e).no_boot() == somado(old(e).no_boot(), r as int),
{
    let n: usize = if lidos < CAPACIDADE {
        lidos
    } else {
        CAPACIDADE
    };
    e.descartados_no_boot = e.descartados_no_boot.wrapping_add(n as u64);
    n
}

/// How many bytes were thrown away before the channel opened.
pub fn descartados_no_boot(e: &Entrada) -> (r: u64)
    ensures
        r == e.no_boot(),
{
    e.descartados_no_boot
}

/// Takes the oldest byte out.
pub fn retirar(e: &mut Entrada) -> (r: Option<u8>)
    requires
        old(e).wf(),
    ensures
        final(e).wf(),
        final(e).espera() == old(e).espera(),
        final(e).perdidos_spec() == old(e).perdidos_spec(),
        final(e).no_boot() == old(e).no_boot(),
        match r {
            Some(b) => {
                &&& old(e).pendentes().len() > 0
                &&& b == old(e).pendentes()[0]
                &&& final(e).pendentes() == old(e).pendentes().drop_first()
            },
            None => old(e).pendentes().len() == 0 && final(e).pendentes()
                == old(e).pendentes(),
        },
{
    e.bytes.desenfileirar()
}

/// Queues one byte as if the port had delivered it, and says who to wake.
pub fn injetar(e: &mut Entrada, byte: u8) -> (r: Result<Option<u64>, u8>)
    requires
        old(e).wf(),
    ensures
        final(e).wf(),
        final(e).espera() == old(e).espera(),
        final(e).no_boot() == old(e).no_boot(),
        match r {
            Ok(quem) => {
                &&& tem_vaga(old(e).pendentes(), byte)
                &&& quem == old(e).espera()
                &&& final(e).pendentes() == old(e).pendentes().push(byte)
                &&& final(e).perdidos_spec() == old(e).perdidos_spec()
            },
            Err(b) => {
                &&& !tem_vaga(old(e).pendentes(), byte)
                &&& b == byte
                &&& final(e).pendentes() == old(e).pendentes()
                &&& final(e).perdidos_spec() == old(e).perdidos_spec().wrapping_add(1)
            },
        },
{
    if guardar(e, byte) {
        Ok(e.despertador)
    } else {
        Err(byte)
    }
}

/// Waiting bytes, capacity, lost bytes.
pub fn estatisticas(e: &Entrada) -> (r: (usize, usize, u64))
    ensures
        r.0 == e.pendentes().len(),
        r.1 == CAPACIDADE,
        r.2 == e.perdidos_spec(),
{
    (e.bytes.ocupacao(), e.bytes.capacidade(), e.perdidos)
}

/// How many bytes found no room since the start.
pub fn perdidos(e: &Entrada) -> (r: u64)
    ensures
        r == e.perdidos_spec(),
{
    e.perdidos
}

/// Throws away the waiting bytes up to and with the first line feed.
/// Returns whether there was one.
pub fn descartar_ate_nova_linha(e: &mut Entrada) -> (r: bool)
    requires
        old(e).wf(),
    ensures
        final(e).wf(),
        final(e).espera() == old(e).espera(),
        final(e).perdidos_spec() == old(e).perdidos_spec(),
        final(e).no_boot() == old(e).no_boot(),
        r == old(e).pendentes().contains(NOVA_LINHA),
        final(e).pendentes() == old(e).pendentes().skip(
            ate_nova_linha(old(e).pendentes()),
        ),
{
    let ghost antes = *e;
    let ghost mut n: int = 0;
    proof {
        assert(antes.bytes@.skip(0) =~= antes.bytes@);
    }
    loop
        invariant
            e.wf(),
            0 <= n <= antes.bytes@.len(),
            e.despertador == antes.despertador,
            e.descartados_no_boot == antes.descartados_no_boot,
            e.perdidos == antes.perdidos,
            e.bytes@ == antes.bytes@.skip(n),
            ate_nova_linha(antes.bytes@) == n + ate_nova_linha(antes.bytes@.skip(n)),
            forall|j: int| 0 <= j < n ==> antes.bytes@[j] != NOVA_LINHA,
            antes == *old(e),
        decreases e.bytes@.len(),
    {
        match e.bytes.desenfileirar() {
            None => {
                return false;
            },
            Some(b) => {
                proof {
                    let s = antes.bytes@;
                    assert(s.skip(n).drop_first() =~= s.skip(n + 1));
                    assert(s.skip(n)[0] == s[n]);
                    if b == NOVA_LINHA {
                        assert(s.contains(s[n]));
                    }
                    n = n + 1;
                }
                if b == NOVA_LINHA {
                    return true;
                }
            },
        }
    }
}

/// A reader of one byte on behalf of a task.
pub fn proximo_byte(tarefa: u64) -> (r: ProximoByte)
    ensures
        r.tarefa == tarefa,
{
    ProximoByte { tarefa }
}

impl ProximoByte {
    /// Takes the oldest byte out, or leaves the task registered to be woken.
    pub fn poll(&self, e: &mut Entrada) -> (r: Option<u8>)
        requires
            old(e).wf(),
        ensures
            final(e).wf(),
            final(e).perdidos_spec() == old(e).perdidos_spec(),
            final(e).no_boot() == old(e).no_boot(),
            match r {
                Some(b) => {
                    &&& old(e).pendentes().len() > 0
                    &&& b == old(e).pendentes()[0]
                    &&& final(e).pendentes() == old(e).pendentes().drop_first()
                    &&& final(e).espera() == old(e).espera()
                },
                None => {
                    &&& old(e).pendentes().len() == 0
                    &&& final(e).pendentes() == old(e).pendentes()
                    &&& final(e).espera() == Some(self.tarefa)
                },
            },
    {
        match e.bytes.desenfileirar() {
            Some(b) => Some(b),
            None => {
                e.despertador = Some(self.tarefa);
                None
            },
        }
    }
}

/// The end of a frame of which anything was kept is kept too: a frame that
/// lost bytes ends where it ended, and the next one is not glued to it.
pub proof fn lei_fim_do_quadro_fica(fila: Seq<u8>, quadro: Seq<u8>)
    requires
        fila.len() <= CAPACIDADE,
        forall|i: int| 0 <= i < quadro.len() ==> #[trigger] quadro[i] != NOVA_LINHA,
        apos(fila, quadro).len() > fila.len(),
    ensures
        apos(fila, quadro.push(NOVA_LINHA)) == apos(fila, quadro).push(NOVA_LINHA),
{
    lemma_sem_fim(fila, quadro);
    assert(quadro.push(NOVA_LINHA).drop_last() =~= quadro);
}

proof fn lemma_sem_fim(fila: Seq<u8>, quadro: Seq<u8>)
    requires
        forall|i: int| 0 <= i < quadro.len() ==> #[trigger] quadro[i] != NOVA_LINHA,
    ensures
        apos(fila, quadro).len() == fila.len() || apos(fila, quadro).len() < CAPACIDADE,
    decreases quadro.len(),
{
    if quadro.len() > 0 {
        assert forall|i: int| 0 <= i < quadro.drop_last().len() implies #[trigger] quadro.drop_last()[i]
            != NOVA_LINHA by {
            assert(quadro.drop_last()[i] == quadro[i]);
        }
        lemma_sem_fim(fila, quadro.drop_last());
    }
}

/// One more byte that comes is queued last, as long as fewer than 4095 wait; the
/// end of a line still finds the last place. What finds none is dropped.
pub proof fn lei_byte_na_fila(fila: Seq<u8>, chegados: Seq<u8>, byte: u8)
    ensures
        ({
            let antes = apos(fila, chegados);
            let depois = apos(fila, chegados.push(byte));
            &&& antes.len() < 4095 || (antes.len() == 4095 && byte == 10) ==> depois == antes.push(byte)
            &&& antes.len() >= 4096 || (antes.len() == 4095 && byte != 10) ==> depois == antes
            &&& apos(fila, Seq::empty()) == fila
        }),
{
    assert(chegados.push(byte).drop_last() =~= chegados);
}

/// While there is room for all, nothing that comes is lost and all is in order.
pub proof fn lei_nada_se_perde(fila: Seq<u8>, chegados: Seq<u8>)
    requires
        fila.len() + chegados.len() < 4096,
    ensures
        apos(fila, chegados) == fila + chegados,
    decreases chegados.len(),
{
    if chegados.len() > 0 {
        let r = chegados.drop_last();
        lei_nada_se_perde(fila, r);
        assert(apos(fila, chegados) =~= fila + chegados);
    } else {
        assert(fila + chegados =~= fila);
    }
}

/// A line is thrown away up to its end and with it, or whole where it has none.
pub proof fn lei_ate_o_fim_da_linha(s: Seq<u8>, i: int)
    ensures
        0 <= ate_nova_linha(s) <= s.len(),
        0 <= i < ate_nova_linha(s) - 1 ==> s[i] != 10,
        s.contains(10u8) ==> ate_nova_linha(s) > 0 && s[ate_nova_linha(s) - 1] == 10,
        !s.contains(10u8) ==> ate_nova_linha(s) == s.len(),
    decreases s.len(),
{
    if s.len() > 0 {
        let t = s.drop_first();
        lei_ate_o_fim_da_linha(t, i - 1);
        if s[0] != 10 {
            assert(s.contains(10u8) == t.contains(10u8)) by {
                if s.contains(10u8) {
                    let k = s.index_of(10u8);
                    assert(t[k - 1] == 10);
                }
                if t.contains(10u8) {
                    let k = t.index_of(10u8);
                    assert(s[k + 1] == 10);
                }
            }
            if 0 < i < ate_nova_linha(s) - 1 {
                assert(t[i - 1] == s[i]);
            }
        } else {
            assert(s.contains(s[0]));
        }
    }
}

/// A counter goes on by what it counts, and around at 64 bits.
pub proof fn lei_contador(contador: u64, n: int)
    requires
        0 <= n <= u64::MAX,
    ensures
        contador + n <= u64::MAX ==> somado(contador, n) == contador + n,
        contador + n > u64::MAX ==> somado(contador, n) == contador + n - u64::MAX - 1,
{
}

} // verus!
