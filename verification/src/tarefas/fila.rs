//! A bounded first-in first-out queue, and the count of what did not fit.
use vstd::prelude::*;

verus! {

/// Slot of the `i`-th item of a ring of `n` slots that starts at `inicio`.
pub open spec fn no_anel(inicio: int, i: int, n: int) -> int {
    if inicio + i < n {
        inicio + i
    } else {
        inicio + i - n
    }
}

/// A ring of `N` slots.
pub struct Fila<T: Copy, const N: usize> {
    itens: Vec<Option<T>>,
    inicio: usize,
    tam: usize,
    descartados: u64,
}

impl<T: Copy, const N: usize> Fila<T, N> {
    /// The items in the queue, oldest first.
    pub closed spec fn view(&self) -> Seq<T> {
        Seq::new(
            self.tam as nat,
            |i: int| self.itens@[no_anel(self.inicio as int, i, N as int)]->0,
        )
    }

    /// How many items were turned away, modulo the counter's width.
    pub closed spec fn recusados(&self) -> u64 {
        self.descartados
    }

    /// Exactly the slots between the first and the last item are taken.
    pub closed spec fn wf(&self) -> bool {
        &&& N > 0
        &&& self.itens@.len() == N
        &&& self.inicio < N
        &&& self.tam <= N
        &&& forall|i: int|
            0 <= i < self.tam ==> #[trigger] self.itens@[no_anel(self.inicio as int, i, N as int)] is Some
    }

    /// A queue never holds more than its capacity.
    pub proof fn lei_capacidade(&self)
        requires
            self.wf(),
        ensures
            self@.len() <= N,
    {
    }

    /// An empty queue.
    pub fn nova() -> (r: Self)
        requires
            N > 0,
        ensures
            r.wf(),
            r@ == Seq::<T>::empty(),
            r.recusados() == 0,
    {
        let mut itens: Vec<Option<T>> = Vec::new();
        let mut i: usize = 0;
        while i < N
            invariant
                i <= N,
                itens@.len() == i,
            decreases N - i,
        {
            itens.push(None);
            i = i + 1;
        }
        let r = Fila { itens, inicio: 0, tam: 0, descartados: 0 };
        proof {
            assert(r@ =~= Seq::<T>::empty());
        }
        r
    }

    /// Adds an item at the end, or hands it back where the queue is full.
    pub fn enfileirar(&mut self, item: T) -> (r: Result<(), T>)
        requires
            old(self).wf(),
        ensures
            final(self).wf(),
            match r {
                Ok(_) => {
                    &&& old(self)@.len() < N
                    &&& final(self)@ == old(self)@.push(item)
                    &&& final(self).recusados() == old(self).recusados()
                },
                Err(devolvido) => {
                    &&& old(self)@.len() == N
                    &&& devolvido == item
                    &&& final(self)@ == old(self)@
                    &&& final(self).recusados() == old(self).recusados().wrapping_add(1)
                },
            },
    {
        if self.tam == N {
            self.descartados = self.descartados.wrapping_add(1);
            return Err(item);
        }
        let ghost antes = *self;
        let posicao: usize = if self.tam < N - self.inicio {
            self.inicio + self.tam
        } else {
            self.tam - (N - self.inicio)
        };
        self.itens.set(posicao, Some(item));
        self.tam = self.tam + 1;
        proof {
            assert(self@ =~= antes@.push(item));
        }
        Ok(())
    }

    /// Takes the oldest item out.
    pub fn desenfileirar(&mut self) -> (r: Option<T>)
        requires
            old(self).wf(),
        ensures
            final(self).wf(),
            final(self).recusados() == old(self).recusados(),
            match r {
                Some(item) => {
                    &&& old(self)@.len() > 0
                    &&& item == old(self)@[0]
                    &&& final(self)@ == old(self)@.drop_first()
                },
                None => old(self)@.len() == 0 && final(self)@ == old(self)@,
            },
    {
        if self.tam == 0 {
            return None;
        }
        let ghost antes = *self;
        let inicio: usize = self.inicio;
        let item: Option<T> = self.itens[inicio];
        self.itens.set(inicio, None);
        self.inicio = if inicio + 1 == N {
            0
        } else {
            inicio + 1
        };
        self.tam = self.tam - 1;
        proof {
            assert forall|i: int| 0 <= i < self.tam implies #[trigger] no_anel(self.inicio as int, i, N as int)
                == no_anel(inicio as int, i + 1, N as int) by {}
            assert forall|i: int| 0 <= i < self.tam implies #[trigger] self.itens@[no_anel(
                self.inicio as int,
                i,
                N as int,
            )] is Some by {
                assert(antes.itens@[no_anel(inicio as int, i + 1, N as int)] is Some);
            }
            assert(self@ =~= antes@.drop_first());
            assert(antes.itens@[no_anel(inicio as int, 0, N as int)] is Some);
        }
        item
    }

    pub fn vazia(&self) -> (r: bool)
        ensures
            r == (self@.len() == 0),
    {
        self.tam == 0
    }

    /// How many items are in the queue.
    pub fn ocupacao(&self) -> (r: usize)
        ensures
            r == self@.len(),
    {
        self.tam
    }

    pub fn capacidade(&self) -> (r: usize)
        ensures
            r == N,
    {
        N
    }

    /// How many items were turned away.
    pub fn descartados(&self) -> (r: u64)
        ensures
            r == self.recusados(),
    {
        self.descartados
    }
}

} // verus!
