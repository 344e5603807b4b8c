//! Allocator of physical memory frames.
//!
//! One bit per frame, set while the frame is free. The bitmap has a fixed
//! size, so the lowest layer of the memory system never needs memory of its
//! own. Three things are never handed out: what the firmware kept, the ranges
//! the architecture reserves, and the frame at address zero. A second bitmap
//! remembers which frames are in circulation, so that giving back a frame that
//! was never handed out cannot bring it in.
use vstd::prelude::*;

use crate::machine::{Maquina, Regiao, TipoRegiao};

verus! {

broadcast use crate::bits::group_bits;

/// Size of a frame: 4 KiB, the native granule of both architectures.
pub const TAMANHO_FRAME: u64 = 4096;

/// How many frames the bitmap tracks: 1 GiB.
pub const MAX_FRAMES: usize = 262144;

/// How many 64-bit words the bitmap takes.
const PALAVRAS: usize = 4096;

/// The frames under management and which of them are free.
pub struct Alocador {
    /// Bit set = free frame. The index is relative to `base`.
    bitmap: Vec<u64>,
    /// Bit set = frame in circulation, free or handed out.
    circulantes: Vec<u64>,
    /// Physical address of bit 0.
    base: u64,
    /// How many frames are under management.
    rastreados: usize,
    livres: usize,
    /// The word where the next search starts.
    dica: usize,
    inicializado: bool,
}

/// What [`init`] found.
#[derive(Clone, Copy, Debug, PartialEq, Eq, Structural)]
pub enum Montagem {
    /// No usable region: the allocator stays as it was.
    SemRegioes,
    /// The bitmap was built; the usable memory spans this many frames, of
    /// which at most [`MAX_FRAMES`] are tracked.
    Montado { necessarios: u64 },
}

/// How many of the flags are set.
pub open spec fn contar(s: Seq<bool>) -> nat
    decreases s.len(),
{
    if s.len() == 0 {
        0
    } else {
        contar(s.drop_last()) + if s.last() {
            1nat
        } else {
            0nat
        }
    }
}

/// `i` is the first set flag at or after `de`.
pub open spec fn primeiro_a_partir(s: Seq<bool>, de: int, i: int) -> bool {
    &&& de <= i < s.len()
    &&& s[i]
    &&& forall|j: int| de <= j < i ==> !s[j]
}

/// `i` is the flag a search that starts at `de` and wraps around finds.
pub open spec fn primeiro_em_volta(s: Seq<bool>, de: int, i: int) -> bool {
    ||| primeiro_a_partir(s, de, i)
    ||| {
        &&& forall|j: int| de <= j < s.len() ==> !s[j]
        &&& primeiro_a_partir(s, 0, i)
    }
}

/// The smallest start of a usable region, or `u64::MAX` where there is none.
pub open spec fn menor_inicio(s: Seq<Regiao>) -> u64
    decreases s.len(),
{
    if s.len() == 0 {
        u64::MAX
    } else {
        let resto = menor_inicio(s.drop_last());
        if s.last().tipo == TipoRegiao::Utilizavel && s.last().inicio < resto {
            s.last().inicio
        } else {
            resto
        }
    }
}

/// The largest end of a usable region, or zero where there is none.
pub open spec fn maior_fim(s: Seq<Regiao>) -> u64
    decreases s.len(),
{
    if s.len() == 0 {
        0
    } else {
        let resto = maior_fim(s.drop_last());
        if s.last().tipo == TipoRegiao::Utilizavel && s.last().fim > resto {
            s.last().fim
        } else {
            resto
        }
    }
}

/// The frame that starts at `inicio` lies wholly inside a usable region.
pub open spec fn coberto(s: Seq<Regiao>, inicio: int) -> bool {
    exists|k: int|
        0 <= k < s.len() && (#[trigger] s[k]).tipo == TipoRegiao::Utilizavel && s[k].inicio <= inicio
            && inicio + TAMANHO_FRAME <= s[k].fim
}

/// The frame that starts at `inicio` shares a byte with the range `[de, ate)`.
pub open spec fn toca(inicio: int, de: int, ate: int) -> bool {
    de < ate && inicio < ate && de < inicio + TAMANHO_FRAME
}

/// The frame that starts at `inicio` shares a byte with one of the ranges.
pub open spec fn tocado(faixas: Seq<(u64, u64)>, inicio: int) -> bool {
    exists|k: int| 0 <= k < faixas.len() && toca(inicio, (#[trigger] faixas[k]).0 as int, faixas[k].1 as int)
}

proof fn lemma_contar_update(s: Seq<bool>, i: int, b: bool)
    requires
        0 <= i < s.len(),
    ensures
        contar(s.update(i, b)) == contar(s) - (if s[i] { 1int } else { 0 }) + (if b { 1int } else { 0 }),
    decreases s.len(),
{
    if i == s.len() - 1 {
        assert(s.update(i, b).drop_last() =~= s.drop_last());
    } else {
        assert(s.update(i, b).drop_last() =~= s.drop_last().update(i, b));
        lemma_contar_update(s.drop_last(), i, b);
    }
}

/// The count is positive exactly where some flag is set, and never exceeds
/// the number of flags.
pub proof fn lemma_contar(s: Seq<bool>)
    ensures
        contar(s) <= s.len(),
        contar(s) > 0 <==> exists|i: int| 0 <= i < s.len() && s[i],
    decreases s.len(),
{
    if s.len() > 0 {
        lemma_contar(s.drop_last());
        let d = s.drop_last();
        if contar(d) > 0 {
            let i = choose|i: int| 0 <= i < d.len() && d[i];
            assert(s[i]);
        }
        if s.last() {
            assert(s[s.len() - 1]);
        }
        if exists|i: int| 0 <= i < s.len() && s[i] {
            let i = choose|i: int| 0 <= i < s.len() && s[i];
            if i < s.len() - 1 {
                assert(d[i]);
            }
        }
    }
}

proof fn lemma_contar_falso(s: Seq<bool>)
    requires
        forall|i: int| 0 <= i < s.len() ==> !s[i],
    ensures
        contar(s) == 0,
{
    lemma_contar(s);
}

impl Alocador {
    /// Physical address of the first tracked frame.
    pub closed spec fn base(&self) -> u64 {
        self.base
    }

    /// Which of the tracked frames are free.
    pub closed spec fn livre(&self) -> Seq<bool> {
        Seq::new(self.rastreados as nat, |i: int| crate::bits::bit64(self.bitmap@[i / 64], (i % 64) as u64))
    }

    /// Which of the tracked frames are in circulation: free, or handed out.
    /// The others are kept out for good.
    pub closed spec fn circulacao(&self) -> Seq<bool> {
        Seq::new(
            self.rastreados as nat,
            |i: int| crate::bits::bit64(self.circulantes@[i / 64], (i % 64) as u64),
        )
    }

    /// The frame where the next search starts.
    pub closed spec fn dica(&self) -> int {
        self.dica * 64
    }

    pub closed spec fn inicializado(&self) -> bool {
        self.inicializado
    }

    /// The free count matches the bitmap, every tracked frame has an address,
    /// and what is free is in circulation.
    pub closed spec fn wf(&self) -> bool {
        &&& self.bitmap@.len() == PALAVRAS
        &&& self.circulantes@.len() == PALAVRAS
        &&& forall|i: int| 0 <= i < self.rastreados && self.livre()[i] ==> #[trigger] self.circulacao()[i]
        &&& self.rastreados <= MAX_FRAMES
        &&& self.base % TAMANHO_FRAME == 0
        &&& self.base + self.rastreados * TAMANHO_FRAME <= u64::MAX
        &&& self.livres == contar(self.livre())
        &&& self.dica * 64 <= self.rastreados
        &&& self.inicializado || self.rastreados == 0
        &&& forall|i: int|
            self.rastreados <= i < MAX_FRAMES ==> !(#[trigger] crate::bits::bit64(
                self.bitmap@[i / 64],
                (i % 64) as u64,
            ))
    }

    /// The tracked frame that holds an address.
    pub open spec fn indice(&self, endereco: u64) -> Option<int> {
        let i = (endereco - self.base()) / TAMANHO_FRAME as int;
        if endereco >= self.base() && i < self.livre().len() {
            Some(i)
        } else {
            None
        }
    }

    /// The frame that holds `endereco` is free.
    pub open spec fn livre_em(&self, endereco: u64) -> bool {
        match self.indice(endereco) {
            Some(i) => self.livre()[i],
            None => false,
        }
    }

    /// The frame that holds `endereco` is in circulation.
    pub open spec fn circula(&self, endereco: u64) -> bool {
        match self.indice(endereco) {
            Some(i) => self.circulacao()[i],
            None => false,
        }
    }

    /// The frame that holds `endereco` was handed out and not given back.
    pub open spec fn entregue_em(&self, endereco: u64) -> bool {
        self.circula(endereco) && !self.livre_em(endereco)
    }

    /// Address of tracked frame `i`.
    pub open spec fn endereco(&self, i: int) -> int {
        self.base() + i * TAMANHO_FRAME
    }

    /// Same frames tracked, whatever their state.
    pub open spec fn mesma_faixa(&self, outro: &Alocador) -> bool {
        &&& self.base() == outro.base()
        &&& self.livre().len() == outro.livre().len()
        &&& self.inicializado() == outro.inicializado()
    }

    /// Same frames tracked and in circulation, whoever has them.
    pub open spec fn mesma_janela(&self, outro: &Alocador) -> bool {
        &&& self.mesma_faixa(outro)
        &&& self.circulacao() == outro.circulacao()
    }

    /// An allocator that manages nothing yet.
    pub fn novo() -> (r: Alocador)
        ensures
            r.wf(),
            !r.inicializado(),
            r.livre() == Seq::<bool>::empty(),
            r.circulacao() == Seq::<bool>::empty(),
            r.base() == 0,
    {
        let r = Alocador {
            bitmap: vec![0u64; PALAVRAS],
            circulantes: vec![0u64; PALAVRAS],
            base: 0,
            rastreados: 0,
            livres: 0,
            dica: 0,
            inicializado: false,
        };
        proof {
            assert(r.livre() =~= Seq::<bool>::empty());
            assert(r.circulacao() =~= Seq::<bool>::empty());
        }
        r
    }

    /// Brings a frame into circulation, if it is tracked, and marks it free.
    fn por_em_circulacao(&mut self, indice: usize)
        requires
            old(self).wf(),
        ensures
            final(self).wf(),
            final(self).mesma_faixa(old(self)),
            final(self).dica() == old(self).dica(),
            final(self).livre() == if indice < old(self).livre().len() {
                old(self).livre().update(indice as int, true)
            } else {
                old(self).livre()
            },
            final(self).circulacao() == if indice < old(self).livre().len() {
                old(self).circulacao().update(indice as int, true)
            } else {
                old(self).circulacao()
            },
    {
        if indice >= self.rastreados {
            return;
        }
        let palavra: usize = indice / 64;
        let bit: u64 = 1u64 << ((indice % 64) as u64);
        let ghost antes = *self;
        let nova: u64 = self.circulantes[palavra] | bit;
        self.circulantes.set(palavra, nova);
        proof {
            assert(self.livre() =~= antes.livre());
            assert(self.circulacao() =~= antes.circulacao().update(indice as int, true));
        }
        self.liberar_indice(indice);
    }

    /// Takes a frame out of circulation, if it is tracked, for good.
    fn tirar_de_circulacao(&mut self, indice: usize)
        requires
            old(self).wf(),
        ensures
            final(self).wf(),
            final(self).mesma_faixa(old(self)),
            final(self).dica() == old(self).dica(),
            final(self).livre() == if indice < old(self).livre().len() {
                old(self).livre().update(indice as int, false)
            } else {
                old(self).livre()
            },
            final(self).circulacao() == if indice < old(self).livre().len() {
                old(self).circulacao().update(indice as int, false)
            } else {
                old(self).circulacao()
            },
    {
        if indice >= self.rastreados {
            return;
        }
        self.ocupar_indice(indice);
        let palavra: usize = indice / 64;
        let bit: u64 = 1u64 << ((indice % 64) as u64);
        let ghost antes = *self;
        let nova: u64 = self.circulantes[palavra] & !bit;
        self.circulantes.set(palavra, nova);
        proof {
            assert(self.livre() =~= antes.livre());
            assert(self.circulacao() =~= antes.circulacao().update(indice as int, false));
        }
    }

    /// Is tracked frame `indice` handed out?
    fn foi_entregue(&self, indice: usize) -> (r: bool)
        requires
            self.wf(),
            indice < self.livre().len(),
        ensures
            r == (self.circulacao()[indice as int] && !self.livre()[indice as int]),
    {
        let bit: u64 = 1u64 << ((indice % 64) as u64);
        self.circulantes[indice / 64] & bit != 0 && self.bitmap[indice / 64] & bit == 0
    }

    /// Marks a frame in circulation free, if it is tracked.
    fn liberar_indice(&mut self, indice: usize)
        requires
            old(self).wf(),
            indice < old(self).livre().len() ==> old(self).circulacao()[indice as int],
        ensures
            final(self).wf(),
            final(self).mesma_janela(old(self)),
            final(self).dica() == old(self).dica(),
            final(self).livre() == if indice < old(self).livre().len() {
                old(self).livre().update(indice as int, true)
            } else {
                old(self).livre()
            },
    {
        if indice >= self.rastreados {
            return;
        }
        let palavra: usize = indice / 64;
        let bit: u64 = 1u64 << ((indice % 64) as u64);
        if self.bitmap[palavra] & bit == 0 {
            let ghost antes = *self;
            proof {
                lemma_contar_update(self.livre(), indice as int, true);
                lemma_contar(self.livre().update(indice as int, true));
            }
            let nova: u64 = self.bitmap[palavra] | bit;
            self.bitmap.set(palavra, nova);
            self.livres = self.livres + 1;
            proof {
                assert(self.circulacao() =~= antes.circulacao());
                assert(self.livre() =~= antes.livre().update(indice as int, true));
            }
        } else {
            proof {
                assert(self.livre()[indice as int]);
                assert(self.livre() =~= self.livre().update(indice as int, true));
            }
        }
    }

    /// Marks a frame taken, if it is tracked.
    fn ocupar_indice(&mut self, indice: usize)
        requires
            old(self).wf(),
        ensures
            final(self).wf(),
            final(self).mesma_janela(old(self)),
            final(self).dica() == old(self).dica(),
            final(self).livre() == if indice < old(self).livre().len() {
                old(self).livre().update(indice as int, false)
            } else {
                old(self).livre()
            },
    {
        if indice >= self.rastreados {
            return;
        }
        let palavra: usize = indice / 64;
        let bit: u64 = 1u64 << ((indice % 64) as u64);
        if self.bitmap[palavra] & bit != 0 {
            let ghost antes = *self;
            proof {
                lemma_contar_update(self.livre(), indice as int, false);
            }
            let nova: u64 = self.bitmap[palavra] & !bit;
            self.bitmap.set(palavra, nova);
            self.livres = self.livres - 1;
            proof {
                assert(self.circulacao() =~= antes.circulacao());
                assert(self.livre() =~= antes.livre().update(indice as int, false));
            }
        } else {
            proof {
                assert(!self.livre()[indice as int]);
                assert(self.livre() =~= self.livre().update(indice as int, false));
            }
        }
    }

    /// The tracked frame that holds an address.
    fn indice_de(&self, endereco: u64) -> (r: Option<usize>)
        requires
            self.wf(),
        ensures
            match r {
                Some(i) => self.indice(endereco) == Some(i as int),
                None => self.indice(endereco) is None,
            },
    {
        if endereco < self.base {
            return None;
        }
        let indice: u64 = (endereco - self.base) / TAMANHO_FRAME;
        if indice < self.rastreados as u64 {
            Some(indice as usize)
        } else {
            None
        }
    }

    /// The first free frame among the words `[de, ate)`.
    fn buscar(&self, de: usize, ate: usize) -> (r: Option<usize>)
        requires
            self.wf(),
            ate <= PALAVRAS,
        ensures
            match r {
                Some(i) => primeiro_a_partir(self.livre(), de * 64, i as int) && i < ate * 64,
                None => forall|j: int|
                    de * 64 <= j < ate * 64 && j < self.livre().len() ==> !self.livre()[j],
            },
    {
        let mut palavra: usize = de;
        while palavra < ate
            invariant
                self.wf(),
                ate <= PALAVRAS,
                de <= palavra,
                forall|j: int|
                    de * 64 <= j < palavra * 64 && j < self.livre().len() ==> !self.livre()[j],
            decreases ate - palavra,
        {
            let valor: u64 = self.bitmap[palavra];
            if valor != 0 {
                let bit: usize = valor.trailing_zeros() as usize;
                proof {
                    vstd::std_specs::bits::axiom_u64_trailing_zeros(valor);
                }
                let indice: usize = palavra * 64 + bit;
                proof {
                    assert(indice / 64 == palavra && indice % 64 == bit);
                    assert(crate::bits::bit64(self.bitmap@[indice as int / 64], (indice as int % 64) as u64));
                    assert(indice < self.rastreados);
                    assert(self.livre()[indice as int]);
                    assert forall|j: int| de * 64 <= j < indice implies !self.livre()[j] by {
                        if j >= palavra * 64 {
                            let k = (j % 64) as u64;
                            assert(j / 64 == palavra);
                            assert((valor >> k) & 1u64 == 0u64);
                        }
                    }
                }
                return Some(indice);
            }
            palavra = palavra + 1;
        }
        None
    }
}

/// Brings into circulation every tracked frame whose number lies in
/// `[primeiro, ultimo)`.
fn liberar_faixa(a: &mut Alocador, primeiro: u64, ultimo: u64)
    requires
        old(a).wf(),
        ultimo * TAMANHO_FRAME <= u64::MAX,
    ensures
        final(a).wf(),
        final(a).mesma_faixa(old(a)),
        final(a).dica() == old(a).dica(),
        forall|i: int|
            #![trigger final(a).livre()[i]]
            0 <= i < old(a).livre().len() ==> final(a).livre()[i] == (old(a).livre()[i] || primeiro
                <= old(a).endereco(i) / TAMANHO_FRAME as int && old(a).endereco(i)
                / TAMANHO_FRAME as int <= ultimo - 1),
        old(a).circulacao() == old(a).livre() ==> final(a).circulacao() == final(a).livre(),
{
    let mut frame: u64 = primeiro;
    while frame < ultimo
        invariant
            old(a).wf(),
            a.wf(),
            ultimo * TAMANHO_FRAME <= u64::MAX,
            primeiro <= frame,
            frame == primeiro || frame <= ultimo,
            a.mesma_faixa(old(a)),
            a.dica() == old(a).dica(),
            forall|i: int|
                #![trigger a.livre()[i]]
                0 <= i < old(a).livre().len() ==> a.livre()[i] == (old(a).livre()[i] || primeiro
                    <= old(a).endereco(i) / TAMANHO_FRAME as int && old(a).endereco(i)
                    / TAMANHO_FRAME as int <= frame - 1),
            old(a).circulacao() == old(a).livre() ==> a.circulacao() == a.livre(),
        decreases ultimo - frame,
    {
        let endereco: u64 = frame * TAMANHO_FRAME;
        if let Some(indice) = a.indice_de(endereco) {
            a.por_em_circulacao(indice);
        }
        frame = frame + 1;
    }
}

/// Takes out of circulation every tracked frame whose number lies in
/// `[primeiro, ultimo)`.
fn ocupar_faixa(a: &mut Alocador, primeiro: u64, ultimo: u64)
    requires
        old(a).wf(),
        (ultimo - 1) * TAMANHO_FRAME <= u64::MAX,
    ensures
        final(a).wf(),
        final(a).mesma_faixa(old(a)),
        final(a).dica() == old(a).dica(),
        forall|i: int|
            #![trigger final(a).livre()[i]]
            0 <= i < old(a).livre().len() ==> final(a).livre()[i] == (old(a).livre()[i] && !(primeiro
                <= old(a).endereco(i) / TAMANHO_FRAME as int && old(a).endereco(i)
                / TAMANHO_FRAME as int <= ultimo - 1)),
        forall|i: int|
            #![trigger final(a).circulacao()[i]]
            0 <= i < old(a).livre().len() ==> final(a).circulacao()[i] == (old(a).circulacao()[i]
                && !(primeiro <= old(a).endereco(i) / TAMANHO_FRAME as int && old(a).endereco(i)
                / TAMANHO_FRAME as int <= ultimo - 1)),
{
    let mut frame: u64 = primeiro;
    while frame < ultimo
        invariant
            old(a).wf(),
            a.wf(),
            (ultimo - 1) * TAMANHO_FRAME <= u64::MAX,
            primeiro <= frame,
            frame == primeiro || frame <= ultimo,
            a.mesma_faixa(old(a)),
            a.dica() == old(a).dica(),
            forall|i: int|
                #![trigger a.livre()[i]]
                0 <= i < old(a).livre().len() ==> a.livre()[i] == (old(a).livre()[i] && !(primeiro
                    <= old(a).endereco(i) / TAMANHO_FRAME as int && old(a).endereco(i)
                    / TAMANHO_FRAME as int <= frame - 1)),
            forall|i: int|
                #![trigger a.circulacao()[i]]
                0 <= i < old(a).livre().len() ==> a.circulacao()[i] == (old(a).circulacao()[i]
                    && !(primeiro <= old(a).endereco(i) / TAMANHO_FRAME as int && old(a).endereco(i)
                    / TAMANHO_FRAME as int <= frame - 1)),
        decreases ultimo - frame,
    {
        let endereco: u64 = frame * TAMANHO_FRAME;
        if let Some(indice) = a.indice_de(endereco) {
            a.tirar_de_circulacao(indice);
        }
        frame = frame + 1;
    }
}

/// Finds the available memory and builds the bitmap.
///
/// A frame is free afterwards if and only if it lies wholly inside a usable
/// region, none of the `reservas` (start, exclusive end) touches it, and it is
/// not the frame at address zero. No other frame is in circulation.
pub fn init(a: &mut Alocador, m: &Maquina, reservas: &[(u64, u64)]) -> (r: Montagem)
    requires
        old(a).wf(),
        m.wf(),
    ensures
        final(a).wf(),
        match r {
            Montagem::SemRegioes => {
                &&& forall|k: int|
                    0 <= k < m.regioes().len() ==> (#[trigger] m.regioes()[k]).tipo
                        != TipoRegiao::Utilizavel
                &&& *final(a) == *old(a)
            },
            Montagem::Montado { necessarios } => {
                let menor = menor_inicio(m.regioes()) as int;
                &&& exists|k: int|
                    0 <= k < m.regioes().len() && (#[trigger] m.regioes()[k]).tipo
                        == TipoRegiao::Utilizavel
                &&& final(a).inicializado()
                &&& final(a).base() == menor - menor % TAMANHO_FRAME as int
                &&& necessarios == (maior_fim(m.regioes()) - final(a).base()) / TAMANHO_FRAME as int
                &&& final(a).livre().len() == if necessarios > MAX_FRAMES {
                    MAX_FRAMES as int
                } else {
                    necessarios as int
                }
                &&& final(a).dica() == 0
                &&& final(a).circulacao() == final(a).livre()
                &&& forall|i: int|
                    #![trigger final(a).livre()[i]]
                    0 <= i < final(a).livre().len() ==> final(a).livre()[i] == (coberto(
                        m.regioes(),
                        final(a).endereco(i),
                    ) && !tocado(reservas@, final(a).endereco(i)) && final(a).endereco(i) != 0)
            },
        },
{
    let regioes = crate::machine::com_regioes(m);
    let mut menor: u64 = u64::MAX;
    let mut maior: u64 = 0;
    let mut k: usize = 0;
    while k < regioes.len()
        invariant
            m.wf(),
            regioes@ == m.regioes(),
            0 <= k <= regioes@.len(),
            menor == menor_inicio(regioes@.take(k as int)),
            maior == maior_fim(regioes@.take(k as int)),
            menor == u64::MAX <==> forall|j: int|
                0 <= j < k ==> (#[trigger] regioes@[j]).tipo != TipoRegiao::Utilizavel,
            menor != u64::MAX ==> menor < maior,
        decreases regioes@.len() - k,
    {
        let regiao: Regiao = regioes[k];
        proof {
            assert(m.regioes()[k as int].valida());
            assert(regioes@.take(k + 1).drop_last() =~= regioes@.take(k as int));
            assert(regioes@.take(k + 1).last() == regioes@[k as int]);
        }
        if regiao.tipo == TipoRegiao::Utilizavel {
            if regiao.inicio < menor {
                menor = regiao.inicio;
            }
            if regiao.fim > maior {
                maior = regiao.fim;
            }
        }
        k = k + 1;
    }
    proof {
        assert(regioes@.take(k as int) =~= regioes@);
    }
    if menor == u64::MAX {
        return Montagem::SemRegioes;
    }
    let base: u64 = menor - menor % TAMANHO_FRAME;
    let necessarios: u64 = (maior - base) / TAMANHO_FRAME;
    let rastreados: usize = if necessarios > MAX_FRAMES as u64 {
        MAX_FRAMES
    } else {
        necessarios as usize
    };
    a.base = base;
    a.rastreados = rastreados;
    a.livres = 0;
    a.dica = 0;
    a.bitmap = vec![0u64; PALAVRAS];
    a.circulantes = vec![0u64; PALAVRAS];
    a.inicializado = true;
    proof {
        lemma_contar_falso(a.livre());
        assert(a.circulacao() =~= a.livre());
    }
    let ghost inicial = *a;
    let mut j: usize = 0;
    while j < regioes.len()
        invariant
            m.wf(),
            regioes@ == m.regioes(),
            0 <= j <= regioes@.len(),
            a.wf(),
            a.mesma_faixa(&inicial),
            a.dica() == 0,
            a.circulacao() == a.livre(),
            forall|i: int|
                #![trigger a.livre()[i]]
                0 <= i < a.livre().len() ==> a.livre()[i] == coberto(
                    regioes@.take(j as int),
                    a.endereco(i),
                ),
        decreases regioes@.len() - j,
    {
        let regiao: Regiao = regioes[j];
        let ghost antes = *a;
        let ghost tomadas = regioes@.take(j as int);
        let ghost seguintes = regioes@.take(j + 1);
        if regiao.tipo == TipoRegiao::Utilizavel {
            let resto: u64 = regiao.inicio % TAMANHO_FRAME;
            let primeiro: u64 = regiao.inicio / TAMANHO_FRAME + if resto == 0 {
                0
            } else {
                1
            };
            let ultimo: u64 = regiao.fim / TAMANHO_FRAME;
            liberar_faixa(a, primeiro, ultimo);
        }
        proof {
            assert forall|i: int|
                #![trigger a.livre()[i]]
                0 <= i < a.livre().len() implies a.livre()[i] == coberto(
                seguintes,
                a.endereco(i),
            ) by {
                let e = a.endereco(i);
                let antigo = antes.livre()[i];
                assert(antigo == coberto(tomadas, e));
                if coberto(tomadas, e) {
                    let q = choose|q: int|
                        0 <= q < tomadas.len() && (#[trigger] tomadas[q]).tipo
                            == TipoRegiao::Utilizavel && tomadas[q].inicio <= e && e + TAMANHO_FRAME
                            <= tomadas[q].fim;
                    assert(seguintes[q] == tomadas[q]);
                }
                if coberto(seguintes, e) {
                    let q = choose|q: int|
                        0 <= q < seguintes.len() && (#[trigger] seguintes[q]).tipo
                            == TipoRegiao::Utilizavel && seguintes[q].inicio <= e && e
                            + TAMANHO_FRAME <= seguintes[q].fim;
                    if q < j {
                        assert(seguintes[q] == tomadas[q]);
                    }
                }
                assert(seguintes[j as int] == regiao);
            }
        }
        j = j + 1;
    }
    proof {
        assert(regioes@.take(j as int) =~= regioes@);
    }
    let mut n: usize = 0;
    while n < reservas.len()
        invariant
            m.wf(),
            regioes@ == m.regioes(),
            0 <= n <= reservas@.len(),
            a.wf(),
            a.mesma_faixa(&inicial),
            a.dica() == 0,
            a.circulacao() == a.livre(),
            forall|i: int|
                #![trigger a.livre()[i]]
                0 <= i < a.livre().len() ==> a.livre()[i] == (coberto(regioes@, a.endereco(i))
                    && !tocado(reservas@.take(n as int), a.endereco(i))),
        decreases reservas@.len() - n,
    {
        let faixa: (u64, u64) = reservas[n];
        let ghost antes = *a;
        let ghost tomadas = reservas@.take(n as int);
        let ghost seguintes = reservas@.take(n + 1);
        reservar(a, faixa.0, faixa.1);
        proof {
            assert forall|i: int|
                #![trigger a.livre()[i]]
                0 <= i < a.livre().len() implies a.livre()[i] == (coberto(regioes@, a.endereco(i))
                && !tocado(seguintes, a.endereco(i))) by {
                let e = a.endereco(i);
                let antigo = antes.livre()[i];
                assert(antes.endereco(i) == e);
                assert(seguintes[n as int] == faixa);
                if tocado(tomadas, e) {
                    let q = choose|q: int|
                        0 <= q < tomadas.len() && toca(e, (#[trigger] tomadas[q]).0 as int, tomadas[q].1 as int);
                    assert(seguintes[q] == tomadas[q]);
                }
                if tocado(seguintes, e) {
                    let q = choose|q: int|
                        0 <= q < seguintes.len() && toca(e, (#[trigger] seguintes[q]).0 as int, seguintes[q].1 as int);
                    if q < n {
                        assert(seguintes[q] == tomadas[q]);
                    }
                }
            }
            lemma_reserva_iguais(&antes, a, faixa.0 as int, faixa.1 as int);
        }
        n = n + 1;
    }
    proof {
        assert(reservas@.take(n as int) =~= reservas@);
    }
    let ghost antes = *a;
    reservar(a, 0, TAMANHO_FRAME);
    proof {
        lemma_reserva_iguais(&antes, a, 0, TAMANHO_FRAME as int);
    }
    Montagem::Montado { necessarios }
}

/// What [`reservar`] of the range `[inicio, fim)` leaves of a flag of each frame.
pub open spec fn reservado(a: &Alocador, s: Seq<bool>, t: Seq<bool>, inicio: int, fim: int) -> bool {
    &&& t.len() == s.len()
    &&& forall|i: int|
        #![trigger t[i]]
        0 <= i < s.len() ==> t[i] == (s[i] && !toca(a.endereco(i), inicio, fim))
}

proof fn lemma_reserva_iguais(antes: &Alocador, depois: &Alocador, inicio: int, fim: int)
    requires
        antes.circulacao() == antes.livre(),
        reservado(antes, antes.livre(), depois.livre(), inicio, fim),
        reservado(antes, antes.circulacao(), depois.circulacao(), inicio, fim),
    ensures
        depois.circulacao() == depois.livre(),
{
    let (s, t) = (depois.livre(), depois.circulacao());
    assert forall|i: int| 0 <= i < s.len() implies s[i] == t[i] by {}
    assert(s =~= t);
}

/// Takes out of circulation, for good, every frame that shares a byte with
/// `[inicio, fim)`.
pub fn reservar(a: &mut Alocador, inicio: u64, fim: u64)
    requires
        old(a).wf(),
    ensures
        final(a).wf(),
        final(a).mesma_faixa(old(a)),
        final(a).dica() == old(a).dica(),
        reservado(old(a), old(a).livre(), final(a).livre(), inicio as int, fim as int),
        reservado(old(a), old(a).circulacao(), final(a).circulacao(), inicio as int, fim as int),
{
    if fim <= inicio {
        return;
    }
    let primeiro: u64 = inicio / TAMANHO_FRAME;
    let ultimo: u64 = fim / TAMANHO_FRAME + if fim % TAMANHO_FRAME == 0 {
        0
    } else {
        1
    };
    ocupar_faixa(a, primeiro, ultimo);
}

/// What [`alocar`] does: from `antes` it goes to `depois` and returns `r`.
pub open spec fn alocou(antes: &Alocador, depois: &Alocador, r: Option<u64>) -> bool {
    &&& depois.mesma_janela(antes)
    &&& match r {
        Some(e) => exists|i: int|
            {
                &&& #[trigger] primeiro_em_volta(antes.livre(), antes.dica(), i)
                &&& 0 <= i < antes.livre().len()
                &&& e == antes.endereco(i)
                &&& depois.livre() == antes.livre().update(i, false)
                &&& depois.dica() == i - i % 64
            },
        None => *depois == *antes && contar(antes.livre()) == 0,
    }
}

/// What [`liberar`] of an address does: from `antes` it goes to `depois`. Only
/// a frame that was handed out comes back; for any other nothing changes.
pub open spec fn liberou(antes: &Alocador, depois: &Alocador, endereco: u64) -> bool {
    &&& depois.mesma_janela(antes)
    &&& if antes.entregue_em(endereco) {
        let i = antes.indice(endereco)->0;
        &&& depois.livre() == antes.livre().update(i, true)
        &&& depois.dica() == i - i % 64
    } else {
        *depois == *antes
    }
}

/// A frame that is handed out was free, is taken afterwards, and is aligned;
/// every other frame keeps its state and one fewer is free.
pub proof fn lei_alocar_entrega_livre(antes: &Alocador, depois: &Alocador, e: u64)
    requires
        antes.wf(),
        alocou(antes, depois, Some(e)),
    ensures
        antes.livre_em(e),
        depois.entregue_em(e),
        e % TAMANHO_FRAME == 0,
        contar(depois.livre()) == contar(antes.livre()) - 1,
        forall|o: u64| antes.indice(o) != antes.indice(e) ==> depois.livre_em(o) == antes.livre_em(o),
{
    let i = choose|i: int|
        {
            &&& #[trigger] primeiro_em_volta(antes.livre(), antes.dica(), i)
            &&& 0 <= i < antes.livre().len()
            &&& e == antes.endereco(i)
            &&& depois.livre() == antes.livre().update(i, false)
            &&& depois.dica() == i - i % 64
        };
    lemma_contar_update(antes.livre(), i, false);
    assert(antes.indice(e) == Some(i));
}

/// Two allocations in a row never hand out the same frame.
pub proof fn lei_alocacoes_distintas(a: &Alocador, b: &Alocador, c: &Alocador, e: u64, f: u64)
    requires
        a.wf(),
        b.wf(),
        alocou(a, b, Some(e)),
        alocou(b, c, Some(f)),
    ensures
        e != f,
{
    lei_alocar_entrega_livre(a, b, e);
    lei_alocar_entrega_livre(b, c, f);
}

/// Freeing what was just handed out puts every frame back as it was.
pub proof fn lei_liberar_desfaz_alocar(a: &Alocador, b: &Alocador, c: &Alocador, e: u64)
    requires
        a.wf(),
        alocou(a, b, Some(e)),
        liberou(b, c, e),
    ensures
        c.mesma_janela(a),
        c.livre() == a.livre(),
{
    lei_alocar_entrega_livre(a, b, e);
    let i = a.indice(e).unwrap();
    assert(c.livre() =~= a.livre());
}

/// Freeing the same frame twice is the same as freeing it once.
pub proof fn lei_liberar_duas_vezes(a: &Alocador, b: &Alocador, c: &Alocador, e: u64)
    requires
        a.wf(),
        liberou(a, b, e),
        liberou(b, c, e),
    ensures
        *c == *b,
{
}

/// What was kept out stays out: no allocation hands out a frame that is not in
/// circulation, and giving it back does not free it.
pub proof fn lei_fora_de_circulacao_fica(
    antes: &Alocador,
    depois: &Alocador,
    e: u64,
    r: Option<u64>,
    devolvido: u64,
)
    requires
        antes.wf(),
        !antes.circula(e),
        alocou(antes, depois, r) || liberou(antes, depois, devolvido),
    ensures
        !depois.circula(e),
        !depois.livre_em(e),
        alocou(antes, depois, r) ==> r != Some(e),
{
    if alocou(antes, depois, r) {
        if let Some(f) = r {
            lei_alocar_entrega_livre(antes, depois, f);
        }
    }
}

/// A frame that [`reservar`] touched is out of circulation.
pub proof fn lei_reservado_nao_circula(
    antes: &Alocador,
    depois: &Alocador,
    inicio: u64,
    fim: u64,
    e: u64,
)
    requires
        antes.wf(),
        depois.mesma_faixa(antes),
        reservado(antes, antes.circulacao(), depois.circulacao(), inicio as int, fim as int),
        e % TAMANHO_FRAME == 0,
        toca(e as int, inicio as int, fim as int),
    ensures
        !depois.circula(e),
{
    if let Some(i) = antes.indice(e) {
        assert(antes.endereco(i) == e);
    }
}

/// What is free is in circulation.
pub proof fn lemma_livre_circula(a: &Alocador, e: u64)
    requires
        a.wf(),
        a.livre_em(e),
    ensures
        a.circula(e),
{
}

/// After an allocation, what is free was free, and is not the frame handed out.
pub proof fn lemma_alocou(antes: &Alocador, depois: &Alocador, e: u64)
    requires
        antes.wf(),
        alocou(antes, depois, Some(e)),
    ensures
        e % TAMANHO_FRAME == 0,
        antes.livre_em(e),
        depois.entregue_em(e),
        contar(depois.livre()) == contar(antes.livre()) - 1,
        forall|o: u64| #[trigger] depois.livre_em(o) ==> antes.livre_em(o) && o != e,
        forall|o: u64|
            o % TAMANHO_FRAME == 0 && o != e && #[trigger] antes.livre_em(o) ==> depois.livre_em(o),
{
    lei_alocar_entrega_livre(antes, depois, e);
}

/// After a frame is given back, what is free was free or is that frame.
pub proof fn lemma_liberou(antes: &Alocador, depois: &Alocador, e: u64)
    requires
        antes.wf(),
        e % TAMANHO_FRAME == 0,
        liberou(antes, depois, e),
    ensures
        forall|o: u64|
            o % TAMANHO_FRAME == 0 && #[trigger] depois.livre_em(o) ==> antes.livre_em(o) || o == e,
        forall|o: u64| #[trigger] antes.livre_em(o) ==> depois.livre_em(o),
        antes.circula(e) ==> depois.livre_em(e),
        contar(depois.livre()) >= contar(antes.livre()),
{
    if antes.entregue_em(e) {
        lemma_contar_update(antes.livre(), antes.indice(e)->0, true);
    }
}

proof fn lemma_contar_cresce(s: Seq<bool>, t: Seq<bool>)
    requires
        s.len() == t.len(),
        forall|i: int| 0 <= i < s.len() && s[i] ==> #[trigger] t[i],
    ensures
        contar(s) <= contar(t),
    decreases s.len(),
{
    if s.len() > 0 {
        assert(s.last() ==> t[t.len() - 1]);
        assert forall|i: int| 0 <= i < s.drop_last().len() && s.drop_last()[i] implies #[trigger] t.drop_last()[i] by {
            assert(t[i]);
        }
        lemma_contar_cresce(s.drop_last(), t.drop_last());
    }
}

/// Where every free frame stays free, there are no fewer of them.
pub proof fn lemma_sem_perdas(antes: &Alocador, depois: &Alocador)
    requires
        antes.wf(),
        depois.mesma_janela(antes),
        forall|e: u64|
            e % TAMANHO_FRAME == 0 && #[trigger] antes.livre_em(e) ==> depois.livre_em(e),
    ensures
        contar(antes.livre()) <= contar(depois.livre()),
{
    let (s, t) = (antes.livre(), depois.livre());
    assert forall|i: int| 0 <= i < s.len() && s[i] implies #[trigger] t[i] by {
        let e = antes.endereco(i) as u64;
        assert(antes.indice(e) == Some(i));
        assert(antes.livre_em(e));
        assert(depois.livre_em(e));
    }
    lemma_contar_cresce(s, t);
}

/// Memory runs out only where no frame is free.
pub proof fn lei_alocar_falha_so_sem_livres(antes: &Alocador, depois: &Alocador)
    requires
        antes.wf(),
        alocou(antes, depois, None),
    ensures
        forall|e: u64| !antes.livre_em(e),
{
    lemma_contar(antes.livre());
}

/// Hands out a free frame, or `None` where the memory ran out.
///
/// The address is physical and aligned; the frame was free and is not
/// anymore. The search starts at the hint and wraps around once.
pub fn alocar(a: &mut Alocador) -> (r: Option<u64>)
    requires
        old(a).wf(),
    ensures
        final(a).wf(),
        alocou(old(a), final(a), r),
{
    proof {
        lemma_contar(a.livre());
    }
    if !a.inicializado || a.livres == 0 {
        return None;
    }
    let palavras: usize = a.rastreados / 64 + if a.rastreados % 64 == 0 {
        0
    } else {
        1
    };
    let mut achado: Option<usize> = a.buscar(a.dica, palavras);
    if achado.is_none() {
        let ate: usize = if a.dica < palavras {
            a.dica
        } else {
            palavras
        };
        achado = a.buscar(0, ate);
    }
    match achado {
        Some(indice) => {
            let ghost antes = *a;
            a.ocupar_indice(indice);
            a.dica = indice / 64;
            proof {
                assert(a.livre() =~= antes.livre().update(indice as int, false));
                assert(a.circulacao() =~= antes.circulacao());
                assert(primeiro_em_volta(antes.livre(), antes.dica(), indice as int));
            }
            Some(a.base + indice as u64 * TAMANHO_FRAME)
        },
        None => None,
    }
}

/// Gives a frame back.
///
/// Freeing what was not handed out changes nothing: an address outside the
/// tracked window, a frame that is already free, or one that is kept out of
/// circulation.
pub fn liberar(a: &mut Alocador, endereco: u64)
    requires
        old(a).wf(),
    ensures
        final(a).wf(),
        liberou(old(a), final(a), endereco),
{
    if let Some(indice) = a.indice_de(endereco) {
        if a.foi_entregue(indice) {
            a.liberar_indice(indice);
            let ghost antes = *a;
            a.dica = indice / 64;
            proof {
                assert(a.livre() =~= antes.livre());
                assert(a.circulacao() =~= antes.circulacao());
            }
        }
    }
}

/// Free frames and tracked frames.
pub fn estatisticas(a: &Alocador) -> (r: (usize, usize))
    requires
        a.wf(),
    ensures
        r.0 == contar(a.livre()),
        r.1 == a.livre().len(),
        r.0 <= r.1 <= MAX_FRAMES,
{
    proof {
        lemma_contar(a.livre());
    }
    (a.livres, a.rastreados)
}

/// Physical address of the first tracked frame.
pub fn base(a: &Alocador) -> (r: u64)
    ensures
        r == a.base(),
{
    a.base
}

/// Is the frame that holds this address free?
pub fn esta_livre(a: &Alocador, endereco: u64) -> (r: bool)
    requires
        a.wf(),
    ensures
        r == a.livre_em(endereco),
{
    match a.indice_de(endereco) {
        Some(indice) => {
            let bit: u64 = 1u64 << ((indice % 64) as u64);
            a.bitmap[indice / 64] & bit != 0
        },
        None => false,
    }
}

/// The count is how many flags are set: of two sequences, the sum, and of one flag,
/// one where it is set.
pub proof fn lei_contagem(s: Seq<bool>, t: Seq<bool>)
    ensures
        contar(s + t) == contar(s) + contar(t),
        contar(seq![true]) == 1,
        contar(seq![false]) == 0,
        contar(s) == s.filter(|b: bool| b).len(),
    decreases s.len() + t.len(),
{
    reveal(Seq::filter);
    assert(seq![true].drop_last() =~= Seq::<bool>::empty());
    assert(seq![false].drop_last() =~= Seq::<bool>::empty());
    reveal_with_fuel(contar, 2);
    if t.len() == 0 {
        assert(s + t =~= s);
        if s.len() > 0 {
            lei_contagem(s.drop_last(), t);
        }
    } else {
        assert((s + t).drop_last() =~= s + t.drop_last());
        lei_contagem(s, t.drop_last());
    }
}

/// The usable memory starts where its first region does and ends where its last
/// one does; without any, there is neither.
pub proof fn lei_extremos(s: Seq<Regiao>)
    ensures
        forall|k: int|
            0 <= k < s.len() && (#[trigger] s[k]).tipo is Utilizavel ==> menor_inicio(s) <= s[k].inicio
                && s[k].fim <= maior_fim(s),
        menor_inicio(s) == u64::MAX || exists|k: int|
            0 <= k < s.len() && (#[trigger] s[k]).tipo is Utilizavel && s[k].inicio == menor_inicio(s),
        maior_fim(s) == 0 || exists|k: int|
            0 <= k < s.len() && (#[trigger] s[k]).tipo is Utilizavel && s[k].fim == maior_fim(s),
    decreases s.len(),
{
    if s.len() > 0 {
        let d = s.drop_last();
        lei_extremos(d);
        assert forall|k: int| 0 <= k < s.len() && (#[trigger] s[k]).tipo is Utilizavel implies menor_inicio(
            s,
        ) <= s[k].inicio && s[k].fim <= maior_fim(s) by {
            if k < d.len() {
                assert(d[k] == s[k]);
            }
        }
        if menor_inicio(s) == menor_inicio(d) {
            if menor_inicio(s) != u64::MAX {
                let k = choose|k: int|
                    0 <= k < d.len() && (#[trigger] d[k]).tipo is Utilizavel && d[k].inicio
                        == menor_inicio(d);
                assert(s[k] == d[k]);
            }
        } else {
            assert(s[s.len() - 1].inicio == menor_inicio(s));
        }
        if maior_fim(s) == maior_fim(d) {
            if maior_fim(s) != 0 {
                let k = choose|k: int|
                    0 <= k < d.len() && (#[trigger] d[k]).tipo is Utilizavel && d[k].fim == maior_fim(
                        d,
                    );
                assert(s[k] == d[k]);
            }
        } else {
            assert(s[s.len() - 1].fim == maior_fim(s));
        }
    }
}

/// What there is to hand out never exceeds what is tracked, and what is tracked has
/// addresses.
pub proof fn lei_livres_sao_rastreados(a: &Alocador)
    requires
        a.wf(),
    ensures
        contar(a.livre()) <= a.livre().len(),
        a.base() + a.livre().len() * 4096 <= u64::MAX,
{
    lemma_contar(a.livre());
}

/// A frame is covered where one usable region has its first byte and its last; then
/// that region has every byte of it.
pub proof fn lei_coberto(s: Seq<Regiao>, inicio: int, k: int, b: int)
    requires
        0 <= k < s.len(),
    ensures
        s[k].tipo is Utilizavel && s[k].inicio <= inicio && inicio + 4095 < s[k].fim ==> coberto(
            s,
            inicio,
        ),
        coberto(s, inicio) && inicio <= b < inicio + 4096 ==> exists|j: int|
            0 <= j < s.len() && (#[trigger] s[j]).tipo is Utilizavel && s[j].inicio <= b < s[j].fim,
{
    if coberto(s, inicio) && inicio <= b < inicio + 4096 {
        let j = choose|j: int|
            0 <= j < s.len() && (#[trigger] s[j]).tipo == TipoRegiao::Utilizavel && s[j].inicio
                <= inicio && inicio + 4096 <= s[j].fim;
        assert(s[j].inicio <= b < s[j].fim);
    }
}

/// A range touches a frame exactly where some byte is in both.
pub proof fn lei_tocado(faixas: Seq<(u64, u64)>, k: int, inicio: int, b: int)
    ensures
        0 <= k < faixas.len() && inicio <= b < inicio + 4096 && faixas[k].0 <= b < faixas[k].1
            ==> tocado(faixas, inicio),
        tocado(faixas, inicio) ==> exists|j: int|
            {
                let de = if inicio < faixas[j].0 {
                    faixas[j].0 as int
                } else {
                    inicio
                };
                &&& 0 <= j < faixas.len()
                &&& (#[trigger] faixas[j]).0 <= de < faixas[j].1
                &&& inicio <= de < inicio + 4096
            },
{
    if 0 <= k < faixas.len() && inicio <= b < inicio + 4096 && faixas[k].0 <= b < faixas[k].1 {
        assert(toca(inicio, faixas[k].0 as int, faixas[k].1 as int));
    }
    if tocado(faixas, inicio) {
        let j = choose|j: int|
            0 <= j < faixas.len() && toca(
                inicio,
                (#[trigger] faixas[j]).0 as int,
                faixas[j].1 as int,
            );
        assert(faixas[j].0 < faixas[j].1);
    }
}

/// The steps from `de` to `i`, going up and around.
pub open spec fn passos(n: int, de: int, i: int) -> int {
    if i >= de {
        i - de
    } else {
        i - de + n
    }
}

/// The search stops at a set flag, and at the first that it comes to, going up from
/// where it starts and around.
pub proof fn lei_busca_acha_o_primeiro(s: Seq<bool>, de: int, i: int, j: int)
    requires
        0 <= de <= s.len(),
        primeiro_em_volta(s, de, i),
        0 <= j < s.len(),
        s[j],
    ensures
        0 <= i < s.len(),
        s[i],
        passos(s.len() as int, de, i) <= passos(s.len() as int, de, j),
{
}

/// The frame of an address is the one that starts at or before it and ends after
/// it.
pub proof fn lei_quadro_do_endereco(a: &Alocador, e: u64, i: int)
    requires
        a.wf(),
    ensures
        a.indice(e) == Some(i) <==> 0 <= i < a.livre().len() && a.base() + 4096 * i <= e < a.base()
            + 4096 * (i + 1),
        a.endereco(i) == a.base() + 4096 * i,
{
}

/// After a range is reserved, no frame with a byte of it is free, and every other
/// frame is as it was.
pub proof fn lei_reserva(a: &Alocador, s: Seq<bool>, t: Seq<bool>, inicio: int, fim: int, i: int, b: int)
    requires
        reservado(a, s, t, inicio, fim),
        0 <= i < s.len(),
    ensures
        t.len() == s.len(),
        t[i] ==> s[i],
        inicio <= b < fim && a.base() + 4096 * i <= b < a.base() + 4096 * (i + 1) ==> !t[i],
        fim <= a.base() + 4096 * i || a.base() + 4096 * (i + 1) <= inicio ==> t[i] == s[i],
{
}

/// Whoever allocates or gives back, the same frames are tracked.
pub proof fn lei_mesmos_quadros(a: &Alocador, b: &Alocador, r: Option<u64>, e: u64)
    requires
        alocou(a, b, r) || liberou(a, b, e),
    ensures
        b.base() == a.base(),
        b.livre().len() == a.livre().len(),
        b.circulacao() == a.circulacao(),
{
}

/// Where a flag is set, the search finds one.
pub proof fn lei_busca_acha(s: Seq<bool>, de: int, j: int)
    requires
        0 <= de <= s.len(),
        0 <= j < s.len(),
        s[j],
    ensures
        exists|i: int| #[trigger] primeiro_em_volta(s, de, i),
{
    if exists|i: int| de <= i < s.len() && s[i] {
        let i = choose|i: int| de <= i < s.len() && s[i];
        let k = lemma_primeiro(s, de, i);
        assert(primeiro_em_volta(s, de, k));
    } else {
        let k = lemma_primeiro(s, 0, j);
        assert(primeiro_em_volta(s, de, k));
    }
}

proof fn lemma_primeiro(s: Seq<bool>, de: int, j: int) -> (i: int)
    requires
        0 <= de <= j < s.len(),
        s[j],
    ensures
        primeiro_a_partir(s, de, i),
    decreases j - de,
{
    if s[de] {
        de
    } else {
        let i = lemma_primeiro(s, de + 1, j);
        assert forall|k: int| de <= k < i implies !s[k] by {}
        i
    }
}

} // verus!
