//! Physical memory, as the page tables see it: frames of 512 words.
use vstd::prelude::*;

verus! {

/// Words in a frame.
pub const ENTRADAS: usize = 512;

/// A contiguous range of physical memory that starts at a frame.
pub struct Memoria {
    base: u64,
    palavras: Vec<u64>,
}

/// A frame of zeros.
pub open spec fn zerado() -> Seq<u64> {
    Seq::new(ENTRADAS as nat, |i: int| 0u64)
}

impl Memoria {
    /// First address.
    pub closed spec fn base(&self) -> int {
        self.base as int
    }

    /// How many frames there are.
    pub closed spec fn quadros(&self) -> int {
        self.palavras@.len() as int / ENTRADAS as int
    }

    /// The words of the frame at an address.
    pub closed spec fn quadro(&self, endereco: int) -> Seq<u64> {
        let i = (endereco - self.base) / 8;
        self.palavras@.subrange(i, i + ENTRADAS)
    }

    /// A frame of this memory starts at the address.
    pub open spec fn contem(&self, endereco: int) -> bool {
        &&& endereco % 4096 == 0
        &&& self.base() <= endereco
        &&& endereco + 4096 <= self.base() + self.quadros() * 4096
    }

    pub closed spec fn wf(&self) -> bool {
        &&& self.base % 4096 == 0
        &&& self.palavras@.len() % ENTRADAS as nat == 0
        &&& self.base + self.palavras@.len() * 8 <= u64::MAX
    }

    /// Same addresses.
    pub open spec fn mesma_faixa(&self, outra: &Memoria) -> bool {
        self.base() == outra.base() && self.quadros() == outra.quadros()
    }

    /// Memory that starts at `base`, with these words. A range that does not
    /// hold whole frames, or that runs past the last address, is refused.
    pub fn sobre(base: u64, palavras: Vec<u64>) -> (r: Option<Memoria>)
        ensures
            match r {
                Some(m) => {
                    &&& m.wf()
                    &&& m.base() == base
                    &&& m.quadros() * ENTRADAS == palavras@.len()
                    &&& base % 4096 == 0
                    &&& forall|k: int|
                        0 <= k < m.quadros() ==> #[trigger] m.quadro(base + k * 4096)
                            == palavras@.subrange(k * ENTRADAS, k * ENTRADAS + ENTRADAS)
                },
                None => base % 4096 != 0 || palavras@.len() % ENTRADAS as nat != 0 || base
                    + palavras@.len() * 8 > u64::MAX,
            },
    {
        if base % 4096 != 0 || palavras.len() % ENTRADAS != 0 {
            return None;
        }
        if palavras.len() as u64 > (u64::MAX - base) / 8 {
            return None;
        }
        let m = Memoria { base, palavras };
        Some(m)
    }

    /// Word `i` of a frame.
    pub fn ler(&self, endereco: u64, i: usize) -> (r: u64)
        requires
            self.wf(),
            self.contem(endereco as int),
            i < ENTRADAS,
        ensures
            r == self.quadro(endereco as int)[i as int],
    {
        let n: usize = self.palavras.len();
        assert((endereco - self.base) / 8 + ENTRADAS <= n);
        let k: usize = ((endereco - self.base) / 8) as usize;
        self.palavras[k + i]
    }

    /// Writes word `i` of a frame. Every other frame stays as it was.
    pub fn escrever(&mut self, endereco: u64, i: usize, valor: u64)
        requires
            old(self).wf(),
            old(self).contem(endereco as int),
            i < ENTRADAS,
        ensures
            final(self).wf(),
            final(self).mesma_faixa(old(self)),
            final(self).quadro(endereco as int) == old(self).quadro(endereco as int).update(
                i as int,
                valor,
            ),
            forall|o: int|
                o != endereco && old(self).contem(o) ==> #[trigger] final(self).quadro(o)
                    == old(self).quadro(o),
    {
        let ghost antes = *self;
        let n: usize = self.palavras.len();
        assert((endereco - self.base) / 8 + ENTRADAS <= n);
        let k: usize = ((endereco - self.base) / 8) as usize;
        self.palavras.set(k + i, valor);
        proof {
            assert(self.quadro(endereco as int) =~= antes.quadro(endereco as int).update(
                i as int,
                valor,
            ));
            assert forall|o: int| o != endereco && antes.contem(o) implies #[trigger] self.quadro(o)
                == antes.quadro(o) by {
                assert(self.quadro(o) =~= antes.quadro(o));
            }
        }
    }

    /// Clears a frame. Every other frame stays as it was.
    pub fn zerar(&mut self, endereco: u64)
        requires
            old(self).wf(),
            old(self).contem(endereco as int),
        ensures
            final(self).wf(),
            final(self).mesma_faixa(old(self)),
            final(self).quadro(endereco as int) == zerado(),
            forall|o: int|
                o != endereco && old(self).contem(o) ==> #[trigger] final(self).quadro(o)
                    == old(self).quadro(o),
    {
        let mut i: usize = 0;
        while i < ENTRADAS
            invariant
                self.wf(),
                self.mesma_faixa(old(self)),
                old(self).contem(endereco as int),
                i <= ENTRADAS,
                self.quadro(endereco as int).len() == ENTRADAS,
                forall|j: int| 0 <= j < i ==> #[trigger] self.quadro(endereco as int)[j] == 0,
                forall|o: int|
                    o != endereco && old(self).contem(o) ==> #[trigger] self.quadro(o) == old(
                        self,
                    ).quadro(o),
            decreases ENTRADAS - i,
        {
            self.escrever(endereco, i, 0);
            i = i + 1;
        }
        proof {
            assert(self.quadro(endereco as int) =~= zerado());
        }
    }

    /// Every frame holds [`ENTRADAS`] words.
    pub proof fn lemma_quadro(&self, endereco: int)
        requires
            self.wf(),
            self.contem(endereco),
        ensures
            self.quadro(endereco).len() == ENTRADAS,
    {
    }
}

} // verus!
