//! How the kernel reaches the memory of a device.
//!
//! A device's registers have a physical address; the kernel needs a virtual
//! one. Ranges of virtual space are handed out in order, out of one entry of
//! the top table, and never come back.
use vstd::prelude::*;

use crate::arch::{Permissoes, TAMANHO_PAGINA};
use crate::frames::Alocador;
use crate::paginacao::{Tradutor, TABELAS_NO_CAMINHO};

verus! {

/// The range of virtual space for devices, and how much of it is handed out.
pub struct Faixa {
    base: u64,
    fim: u64,
    proximo: u64,
}

impl Faixa {
    /// Where the range starts.
    pub closed spec fn base(&self) -> u64 {
        self.base
    }

    /// Where it ends.
    pub closed spec fn fim(&self) -> u64 {
        self.fim
    }

    /// The first address not handed out yet.
    pub closed spec fn proximo(&self) -> u64 {
        self.proximo
    }

    pub open spec fn wf(&self) -> bool {
        &&& self.base() <= self.proximo() <= self.fim()
        &&& self.base() % 4096 == 0
        &&& self.proximo() % 4096 == 0
    }

    /// The range that starts at `base` and is `cobertura` long, all free.
    pub fn nova(base: u64, cobertura: u64) -> (r: Faixa)
        requires
            base % 4096 == 0,
            base + cobertura <= u64::MAX,
        ensures
            r.wf(),
            r.base() == base,
            r.proximo() == base,
            r.fim() == base + cobertura,
    {
        Faixa { base, fim: base + cobertura, proximo: base }
    }
}

/// Takes `bytes` of the range.
fn reservar(faixa: &mut Faixa, bytes: u64) -> (r: Result<u64, &'static str>)
    requires
        old(faixa).wf(),
        bytes % 4096 == 0,
    ensures
        final(faixa).wf(),
        final(faixa).base() == old(faixa).base(),
        final(faixa).fim() == old(faixa).fim(),
        match r {
            Ok(v) => {
                &&& v == old(faixa).proximo()
                &&& v + bytes <= old(faixa).fim()
                &&& final(faixa).proximo() == v + bytes
            },
            Err(motivo) => {
                &&& old(faixa).proximo() + bytes > old(faixa).fim()
                &&& *final(faixa) == *old(faixa)
                &&& motivo == "a faixa de MMIO do kernel acabou"
            },
        },
{
    match faixa.proximo.checked_add(bytes) {
        None => Err("a faixa de MMIO do kernel acabou"),
        Some(fim) => {
            if fim <= faixa.fim {
                let atual: u64 = faixa.proximo;
                faixa.proximo = fim;
                Ok(atual)
            } else {
                Err("a faixa de MMIO do kernel acabou")
            }
        },
    }
}

/// How much of the range is handed out, in bytes.
pub fn reservado(faixa: &Faixa) -> (r: u64)
    requires
        faixa.wf(),
    ensures
        r == faixa.proximo() - faixa.base(),
{
    faixa.proximo - faixa.base
}

/// Bytes of virtual space that a region of a device takes: whole pages.
pub open spec fn ocupa(fisico: u64, tamanho: u64) -> int {
    (fisico % 4096 + tamanho + 4095) / 4096 * 4096
}

/// The first `n` pages of a run are those of a device that starts at `pagina`.
pub open spec fn do_dispositivo<T: Tradutor>(
    t0: &T,
    t: &T,
    base: u64,
    pagina: u64,
    n: int,
) -> bool {
    &&& forall|w: u64|
        base <= w < base + n * 4096 ==> #[trigger] t.pagina_de(w) == Some(
            ((pagina + (w - base) / 4096 * 4096) as u64, Permissoes::de_dispositivo_spec()),
        )
    &&& forall|w: u64|
        !(base <= w < base + n * 4096) ==> #[trigger] t.pagina_de(w) == t0.pagina_de(w)
    &&& forall|w: u64| base <= w < base + n * 4096 ==> (#[trigger] t0.pagina_de(w)) is None
    &&& forall|w: u64| !(base <= w < base + n * 4096) && t0.vago(w) ==> #[trigger] t.vago(w)
}

/// Every frame in use but not by the tables is still in use, and holds what it
/// held.
pub open spec fn resto_intacto<T: Tradutor>(t0: &T, a0: &Alocador, t: &T, a: &Alocador) -> bool {
    &&& a.mesma_janela(a0)
    &&& forall|f: u64| #[trigger]
        t0.disponivel(f) && !a0.livre_em(f) ==> t.disponivel(f) && !a.livre_em(f) && t.conteudo(f)
            == t0.conteudo(f)
}

/// No more frames were taken than the tables of `n` pages take.
pub open spec fn gastou(a0: &Alocador, a: &Alocador, n: int) -> bool {
    crate::frames::contar(a0.livre()) <= crate::frames::contar(a.livre()) + n * TABELAS_NO_CAMINHO
}

/// Mapping stopped at page `n`: its physical address does not exist, or the
/// tables refused it for `motivo`.
pub open spec fn parou<T: Tradutor>(
    t0: &T,
    a0: &Alocador,
    base: u64,
    pagina: u64,
    n: int,
    motivo: &'static str,
) -> bool {
    exists|t: T, a: Alocador| #[trigger]
        t.wf(&a) && do_dispositivo(t0, &t, base, pagina, n) && gastou(a0, &a, n) && if pagina + n * 4096 > u64::MAX {
            motivo == "regiao de MMIO alem do fim do espaco fisico"
        } else {
            t.recusa_mapear(&a, (base + n * 4096) as u64, (pagina + n * 4096) as u64) == Some(motivo)
        }
}

/// Why a region was not mapped.
pub open spec fn recusado<T: Tradutor>(
    faixa: &Faixa,
    t: &T,
    a: &Alocador,
    fisico: u64,
    tamanho: u64,
    motivo: &'static str,
) -> bool {
    if tamanho == 0 {
        motivo == "regiao de MMIO de tamanho zero"
    } else if ocupa(fisico, tamanho) > u64::MAX {
        motivo == "regiao de MMIO alem do fim do espaco fisico"
    } else if faixa.proximo() + ocupa(fisico, tamanho) > faixa.fim() {
        motivo == "a faixa de MMIO do kernel acabou"
    } else {
        exists|n: int|
            0 <= n < ocupa(fisico, tamanho) / 4096 && #[trigger] parou(
                t,
                a,
                faixa.proximo(),
                (fisico - fisico % 4096) as u64,
                n,
                motivo,
            )
    }
}

/// A region of a device on its way into the tables: where it goes, and how many
/// of its pages are in.
#[derive(Clone, Copy, Debug, PartialEq, Eq)]
pub struct Janela {
    /// The first virtual page, and the first physical one.
    pub base: u64,
    pub pagina: u64,
    pub paginas: u64,
    /// Where in the first page the region starts.
    pub dentro: u64,
    /// The pages that were mapped, and those of them that were taken out again.
    pub feitas: u64,
    pub desfeitas: u64,
    /// Why the region will not be mapped after all.
    pub motivo: Option<&'static str>,
}

impl Janela {
    pub open spec fn wf(&self) -> bool {
        &&& self.base % 4096 == 0
        &&& self.pagina % 4096 == 0
        &&& self.dentro < 4096
        &&& 0 < self.paginas
        &&& self.base + self.paginas * 4096 <= u64::MAX
        &&& self.feitas <= self.paginas
        &&& self.desfeitas <= self.feitas
        &&& self.motivo is None ==> self.desfeitas == 0
    }
}

/// Takes the virtual space for a region of a device.
pub fn abrir(faixa: &mut Faixa, fisico: u64, tamanho: u64) -> (r: Result<Janela, &'static str>)
    requires
        old(faixa).wf(),
    ensures
        final(faixa).wf(),
        final(faixa).base() == old(faixa).base(),
        final(faixa).fim() == old(faixa).fim(),
        match r {
            Ok(j) => {
                &&& tamanho > 0
                &&& old(faixa).proximo() + ocupa(fisico, tamanho) <= old(faixa).fim()
                &&& final(faixa).proximo() == old(faixa).proximo() + ocupa(fisico, tamanho)
                &&& j.wf()
                &&& j.base == old(faixa).proximo()
                &&& j.pagina == fisico - fisico % 4096
                &&& j.paginas * 4096 == ocupa(fisico, tamanho)
                &&& j.dentro == fisico % 4096
                &&& j.feitas == 0
                &&& j.motivo is None
            },
            Err(motivo) => {
                &&& *final(faixa) == *old(faixa)
                &&& if tamanho == 0 {
                    motivo == "regiao de MMIO de tamanho zero"
                } else if ocupa(fisico, tamanho) > u64::MAX {
                    motivo == "regiao de MMIO alem do fim do espaco fisico"
                } else {
                    &&& old(faixa).proximo() + ocupa(fisico, tamanho) > old(faixa).fim()
                    &&& motivo == "a faixa de MMIO do kernel acabou"
                }
            },
        },
{
    if tamanho == 0 {
        return Err("regiao de MMIO de tamanho zero");
    }
    let dentro: u64 = fisico % TAMANHO_PAGINA;
    let pagina: u64 = fisico - dentro;
    let bytes: u64 = match dentro.checked_add(tamanho) {
        None => {
            return Err("regiao de MMIO alem do fim do espaco fisico");
        },
        Some(b) => b,
    };
    let paginas: u64 = if bytes % TAMANHO_PAGINA == 0 {
        bytes / TAMANHO_PAGINA
    } else {
        bytes / TAMANHO_PAGINA + 1
    };
    assert(paginas * 4096 == ocupa(fisico, tamanho));
    let total: u64 = match paginas.checked_mul(TAMANHO_PAGINA) {
        None => {
            return Err("regiao de MMIO alem do fim do espaco fisico");
        },
        Some(b) => b,
    };
    match reservar(faixa, total) {
        Err(motivo) => Err(motivo),
        Ok(base) => Ok(
            Janela { base, pagina, paginas, dentro, feitas: 0, desfeitas: 0, motivo: None },
        ),
    }
}

/// What tables that the library does not hold are asked for next.
#[derive(Clone, Copy, Debug, PartialEq, Eq)]
pub enum Passo {
    /// Map a page, as memory of a device.
    Mapear { virtual_: u64, fisico: u64 },
    /// Take a page out again.
    Desmapear(u64),
    /// The region can be reached here.
    Pronta(u64),
    Recusada(&'static str),
}

/// Why a region is given up, once `resposta` came to its last request.
pub open spec fn desistencia(j: Janela, resposta: Option<Result<(), &'static str>>) -> Option<
    &'static str,
> {
    match (j.motivo, resposta) {
        (Some(m), _) => Some(m),
        (None, Some(Err(m))) => Some(m),
        (None, _) => {
            let n = avancadas(j, resposta);
            if n < j.paginas && j.pagina + n * 4096 > u64::MAX {
                Some("regiao de MMIO alem do fim do espaco fisico")
            } else {
                None
            }
        },
    }
}

/// How many pages are mapped, once `resposta` came.
pub open spec fn avancadas(j: Janela, resposta: Option<Result<(), &'static str>>) -> int {
    if j.motivo is None && resposta matches Some(Ok(_)) {
        j.feitas + 1
    } else {
        j.feitas as int
    }
}

impl Janela {
    /// Goes on with a region, whose pages are mapped in order; where one
    /// cannot be, those before it are taken out again. `resposta` is what
    /// became of the page asked for last, if one was.
    pub fn passo(&mut self, resposta: Option<Result<(), &'static str>>) -> (r: Passo)
        requires
            old(self).wf(),
            old(self).motivo is None && resposta is Some ==> old(self).feitas < old(self).paginas,
        ensures
            final(self).wf(),
            ({
                let n = avancadas(*old(self), resposta);
                let motivo = desistencia(*old(self), resposta);
                match motivo {
                    None => {
                        &&& *final(self) == (Janela { feitas: n as u64, ..*old(self) })
                        &&& r == if n == old(self).paginas {
                            Passo::Pronta((old(self).base + old(self).dentro) as u64)
                        } else {
                            Passo::Mapear {
                                virtual_: (old(self).base + n * 4096) as u64,
                                fisico: (old(self).pagina + n * 4096) as u64,
                            }
                        }
                    },
                    Some(m) => if old(self).desfeitas < n {
                        &&& *final(self) == (Janela {
                            feitas: n as u64,
                            desfeitas: (old(self).desfeitas + 1) as u64,
                            motivo,
                            ..*old(self)
                        })
                        &&& r == Passo::Desmapear(
                            (old(self).base + old(self).desfeitas * 4096) as u64,
                        )
                    } else {
                        &&& *final(self) == (Janela { feitas: n as u64, motivo, ..*old(self) })
                        &&& r == Passo::Recusada(m)
                    },
                }
            }),
    {
        if self.motivo.is_none() {
            match resposta {
                Some(Ok(_)) => {
                    self.feitas = self.feitas + 1;
                },
                Some(Err(m)) => {
                    self.motivo = Some(m);
                },
                None => {},
            }
        }
        if self.motivo.is_none() {
            if self.feitas == self.paginas {
                return Passo::Pronta(self.base + self.dentro);
            }
            let deslocamento: u64 = self.feitas * TAMANHO_PAGINA;
            match self.pagina.checked_add(deslocamento) {
                Some(fisico) => {
                    return Passo::Mapear { virtual_: self.base + deslocamento, fisico };
                },
                None => {
                    self.motivo = Some("regiao de MMIO alem do fim do espaco fisico");
                },
            }
        }
        if self.desfeitas < self.feitas {
            let virtual_: u64 = self.base + self.desfeitas * TAMANHO_PAGINA;
            self.desfeitas = self.desfeitas + 1;
            return Passo::Desmapear(virtual_);
        }
        match self.motivo {
            Some(m) => Passo::Recusada(m),
            None => Passo::Pronta(self.base + self.dentro),
        }
    }
}

/// Returns a virtual address through which `fisico` can be reached.
///
/// The offset within the page is kept: asking for an address that ends in
/// `004` returns one that ends in `004`.
pub fn mapear<T: Tradutor>(
    faixa: &mut Faixa,
    t: &mut T,
    a: &mut Alocador,
    fisico: u64,
    tamanho: u64,
) -> (r: Result<u64, &'static str>)
    requires
        old(faixa).wf(),
        old(t).wf(old(a)),
    ensures
        final(faixa).wf(),
        final(faixa).base() == old(faixa).base(),
        final(faixa).fim() == old(faixa).fim(),
        final(t).wf(final(a)),
        resto_intacto(old(t), old(a), final(t), final(a)),
        match r {
            Ok(v) => {
                &&& tamanho > 0
                &&& fisico - fisico % 4096 + ocupa(fisico, tamanho) - 4096 <= u64::MAX
                &&& final(faixa).proximo() == old(faixa).proximo() + ocupa(fisico, tamanho)
                &&& v == old(faixa).proximo() + fisico % 4096
                &&& do_dispositivo(
                    old(t),
                    final(t),
                    old(faixa).proximo(),
                    (fisico - fisico % 4096) as u64,
                    ocupa(fisico, tamanho) / 4096,
                )
            },
            Err(motivo) => {
                &&& recusado(old(faixa), old(t), old(a), fisico, tamanho, motivo)
                &&& crate::paginacao::mesmas_paginas(final(t), old(t))
                &&& final(faixa).proximo() == if tamanho == 0 || ocupa(fisico, tamanho) > u64::MAX
                    || old(faixa).proximo() + ocupa(fisico, tamanho) > old(faixa).fim() {
                    old(faixa).proximo() as int
                } else {
                    old(faixa).proximo() + ocupa(fisico, tamanho)
                }
            },
        },
{
    let ghost t0 = *t;
    let ghost a0 = *a;
    let ghost f0 = *faixa;
    let j: Janela = match abrir(faixa, fisico, tamanho) {
        Err(motivo) => {
            return Err(motivo);
        },
        Ok(j) => j,
    };
    let dentro: u64 = j.dentro;
    let pagina: u64 = j.pagina;
    let paginas: u64 = j.paginas;
    let total: u64 = paginas * TAMANHO_PAGINA;
    let base: u64 = j.base;
    let mut indice: u64 = 0;
    while indice < paginas
        invariant
            indice <= paginas,
            paginas * 4096 == total,
            paginas * 4096 == ocupa(fisico, tamanho),
            base + total <= u64::MAX,
            base % 4096 == 0,
            base == f0.proximo(),
            f0 == *old(faixa),
            t0 == *old(t),
            a0 == *old(a),
            tamanho > 0,
            pagina == fisico - fisico % 4096,
            pagina % 4096 == 0,
            f0.proximo() + ocupa(fisico, tamanho) <= f0.fim(),
            faixa.wf(),
            faixa.base() == f0.base(),
            faixa.fim() == f0.fim(),
            faixa.proximo() == f0.proximo() + ocupa(fisico, tamanho),
            t.wf(a),
            do_dispositivo(&t0, t, base, pagina, indice as int),
            gastou(&a0, a, indice as int),
            resto_intacto(&t0, &a0, t, a),
            indice > 0 ==> pagina + (indice - 1) * 4096 <= u64::MAX,
        decreases paginas - indice,
    {
        let deslocamento: u64 = indice * TAMANHO_PAGINA;
        let ghost t1 = *t;
        let ghost a1 = *a;
        let r: Result<(), &'static str> = match pagina.checked_add(deslocamento) {
            None => Err("regiao de MMIO alem do fim do espaco fisico"),
            Some(destino) => t.mapear_frame(
                a,
                base + deslocamento,
                destino,
                Permissoes::de_dispositivo(),
            ),
        };
        match r {
            Err(motivo) => {
                proof {
                    lemma_resto(&t0, &a0, &t1, &a1, t, a);
                    assert(t1.wf(&a1) && do_dispositivo(&t0, &t1, base, pagina, indice as int));
                    assert(parou(&t0, &a0, base, pagina, indice as int, motivo));
                    assert(ocupa(fisico, tamanho) / 4096 == paginas);
                    assert(pagina == (fisico - fisico % 4096) as u64);
                    assert(recusado(&f0, &t0, &a0, fisico, tamanho, motivo));
                }
                let ghost t2 = *t;
                let ghost a2 = *a;
                desfazer(t, a, base, indice);
                proof {
                    lemma_resto(&t0, &a0, &t2, &a2, t, a);
                }
                return Err(motivo);
            },
            Ok(_) => {
                proof {
                    lemma_resto(&t0, &a0, &t1, &a1, t, a);
                    lemma_mais_uma(&t0, &t1, t, base, pagina, indice as int);
                }
            },
        }
        indice = indice + 1;
    }
    Ok(base + dentro)
}

proof fn lemma_mais_uma<T: Tradutor>(t0: &T, t1: &T, t: &T, base: u64, pagina: u64, n: int)
    requires
        do_dispositivo(t0, t1, base, pagina, n),
        0 <= n,
        base % 4096 == 0,
        base + (n + 1) * 4096 <= u64::MAX,
        pagina + n * 4096 <= u64::MAX,
        ({
            let v = (base + n * 4096) as u64;
            &&& forall|w: u64| w / 4096 == v / 4096 ==> (#[trigger] t1.pagina_de(w)) is None
            &&& forall|w: u64| t1.vago(w) && w / 4096 != v / 4096 ==> #[trigger] t.vago(w)
            &&& forall|w: u64| #[trigger]
                t.pagina_de(w) == if w / 4096 == v / 4096 {
                    Some(((pagina + n * 4096) as u64, Permissoes::de_dispositivo_spec()))
                } else {
                    t1.pagina_de(w)
                }
        }),
    ensures
        do_dispositivo(t0, t, base, pagina, n + 1),
{
    let v = (base + n * 4096) as u64;
    assert forall|w: u64| base <= w < base + (n + 1) * 4096 implies #[trigger] t.pagina_de(w) == Some(
        ((pagina + (w - base) / 4096 * 4096) as u64, Permissoes::de_dispositivo_spec()),
    ) by {
        if w >= v {
            assert((w - base) / 4096 == n);
        } else {
            assert(t1.pagina_de(w) == Some(
                ((pagina + (w - base) / 4096 * 4096) as u64, Permissoes::de_dispositivo_spec()),
            ));
        }
    }
    assert forall|w: u64| base <= w < base + (n + 1) * 4096 implies (#[trigger] t0.pagina_de(w)) is None by {
        if w >= v {
            assert(t1.pagina_de(w) is None);
        }
    }
    assert forall|w: u64| !(base <= w < base + (n + 1) * 4096) implies #[trigger] t.pagina_de(w)
        == t0.pagina_de(w) by {
        assert(t1.pagina_de(w) == t0.pagina_de(w));
    }
}

proof fn lemma_resto<T: Tradutor>(
    t0: &T,
    a0: &Alocador,
    t1: &T,
    a1: &Alocador,
    t: &T,
    a: &Alocador,
)
    requires
        resto_intacto(t0, a0, t1, a1),
        a.mesma_janela(a1),
        forall|f: u64| #[trigger]
            t1.disponivel(f) && !a1.livre_em(f) ==> t.disponivel(f) && t.conteudo(f) == t1.conteudo(f),
        forall|e: u64|
            e % 4096 == 0 && #[trigger] a.livre_em(e) ==> a1.livre_em(e) || !t1.disponivel(e),
    ensures
        resto_intacto(t0, a0, t, a),
{
    assert forall|f: u64| #[trigger] t0.disponivel(f) && !a0.livre_em(f) implies t.disponivel(f)
        && !a.livre_em(f) && t.conteudo(f) == t0.conteudo(f) by {
        assert(t1.disponivel(f));
        t0.lemma_alinhado(f);
    }
}

/// Takes the first `n` pages of a region out of the tables.
fn desfazer<T: Tradutor>(t: &mut T, a: &mut Alocador, base: u64, n: u64)
    requires
        old(t).wf(old(a)),
        base % 4096 == 0,
        base + n * 4096 <= u64::MAX,
        forall|w: u64| base <= w < base + n * 4096 ==> (#[trigger] old(t).pagina_de(w)) is Some,
    ensures
        final(t).wf(final(a)),
        resto_intacto(old(t), old(a), final(t), final(a)),
        forall|w: u64| #[trigger]
            final(t).pagina_de(w) == if base <= w < base + n * 4096 {
                None
            } else {
                old(t).pagina_de(w)
            },
{
    let ghost t0 = *t;
    let ghost a0 = *a;
    let mut i: u64 = 0;
    while i < n
        invariant
            i <= n,
            a0 == *old(a),
            resto_intacto(&t0, &a0, t, a),
            base % 4096 == 0,
            base + n * 4096 <= u64::MAX,
            t0 == *old(t),
            t.wf(a),
            forall|w: u64| base <= w < base + n * 4096 ==> (#[trigger] t0.pagina_de(w)) is Some,
            forall|w: u64| #[trigger]
                t.pagina_de(w) == if base <= w < base + i * 4096 {
                    None
                } else {
                    t0.pagina_de(w)
                },
        decreases n - i,
    {
        let v: u64 = base + i * TAMANHO_PAGINA;
        let ghost t1 = *t;
        let ghost a1 = *a;
        proof {
            assert(t0.pagina_de(v) is Some);
            assert(t1.pagina_de(v) is Some);
            t1.lemma_desmapear(a, v);
        }
        let r = t.desmapear(a, v);
        proof {
            lemma_resto(&t0, &a0, &t1, &a1, t, a);
            assert forall|w: u64| #[trigger] t.pagina_de(w) == if base <= w < base + (i + 1) * 4096 {
                None
            } else {
                t0.pagina_de(w)
            } by {
                assert(w / 4096 == v / 4096 <==> v <= w < v + 4096);
                assert(t1.pagina_de(w) == if base <= w < base + i * 4096 {
                    None
                } else {
                    t0.pagina_de(w)
                });
            }
        }
        i = i + 1;
    }
}

/// A region is mapped where the range has room for it, the tables have room
/// for its pages, and there is memory for the tables.
pub proof fn lei_com_espaco_mapeia<T: Tradutor>(
    faixa: &Faixa,
    t: &T,
    a: &Alocador,
    fisico: u64,
    tamanho: u64,
    motivo: &'static str,
)
    requires
        faixa.wf(),
        tamanho > 0,
        faixa.proximo() + ocupa(fisico, tamanho) <= faixa.fim(),
        fisico - fisico % 4096 + ocupa(fisico, tamanho) - 4096 <= u64::MAX,
        forall|n: int|
            0 <= n < ocupa(fisico, tamanho) / 4096 ==> #[trigger] t.vago(
                (faixa.proximo() + n * 4096) as u64,
            ) && T::nomeavel((fisico - fisico % 4096 + n * 4096) as u64),
        crate::frames::contar(a.livre()) >= ocupa(fisico, tamanho) / 4096 * TABELAS_NO_CAMINHO,
    ensures
        !recusado(faixa, t, a, fisico, tamanho, motivo),
{
    let base = faixa.proximo();
    let pagina = (fisico - fisico % 4096) as u64;
    let paginas = ocupa(fisico, tamanho) / 4096;
    assert forall|n: int| 0 <= n < paginas implies !#[trigger] parou(t, a, base, pagina, n, motivo) by {
        if parou(t, a, base, pagina, n, motivo) {
            let (t1, a1) = choose|t1: T, a1: Alocador| #[trigger]
                t1.wf(&a1) && do_dispositivo(t, &t1, base, pagina, n) && gastou(a, &a1, n) && if pagina
                    + n * 4096 > u64::MAX {
                    motivo == "regiao de MMIO alem do fim do espaco fisico"
                } else {
                    t1.recusa_mapear(&a1, (base + n * 4096) as u64, (pagina + n * 4096) as u64)
                        == Some(motivo)
                };
            let v = (base + n * 4096) as u64;
            assert(t.vago(v));
            assert(t1.vago(v));
            t1.lemma_aceita(&a1, v, (pagina + n * 4096) as u64);
        }
    }
}

/// Two regions that were mapped one after the other share no address.
pub proof fn lei_regioes_disjuntas(
    faixa: &Faixa,
    depois: &Faixa,
    fisico1: u64,
    tamanho1: u64,
    fisico2: u64,
    tamanho2: u64,
    v1: u64,
    v2: u64,
)
    requires
        faixa.wf(),
        depois.wf(),
        tamanho1 > 0,
        tamanho2 > 0,
        depois.proximo() == faixa.proximo() + ocupa(fisico1, tamanho1),
        v1 == faixa.proximo() + fisico1 % 4096,
        v2 == depois.proximo() + fisico2 % 4096,
    ensures
        v1 + tamanho1 <= v2,
{
}

/// A mapped region reaches, byte for byte, the physical addresses it is for.
pub proof fn lei_desloca_junto<T: Tradutor>(
    t0: &T,
    t: &T,
    faixa: &Faixa,
    fisico: u64,
    tamanho: u64,
    k: u64,
)
    requires
        faixa.wf(),
        do_dispositivo(
            t0,
            t,
            faixa.proximo(),
            (fisico - fisico % 4096) as u64,
            ocupa(fisico, tamanho) / 4096,
        ),
        k < tamanho,
        fisico - fisico % 4096 + ocupa(fisico, tamanho) - 4096 <= u64::MAX,
        faixa.proximo() + ocupa(fisico, tamanho) <= u64::MAX,
    ensures
        ({
            let v = (faixa.proximo() + fisico % 4096 + k) as u64;
            &&& t.pagina_de(v) is Some
            &&& (t.pagina_de(v)->0).0 + v % 4096 == fisico + k
        }),
{
    let v = (faixa.proximo() + fisico % 4096 + k) as u64;
    assert(ocupa(fisico, tamanho) / 4096 * 4096 == ocupa(fisico, tamanho));
    assert(faixa.proximo() <= v < faixa.proximo() + ocupa(fisico, tamanho));
    assert(t.pagina_de(v) is Some);
}

/// A region of a device takes whole pages, as many as it touches and no more.
pub proof fn lei_ocupa(fisico: u64, tamanho: u64)
    ensures
        ocupa(fisico, tamanho) % 4096 == 0,
        fisico % 4096 + tamanho <= ocupa(fisico, tamanho) < fisico % 4096 + tamanho + 4096,
{
}

/// An address in the mapped pages of a device is the same distance into the device
/// as into the range.
pub proof fn lei_mesma_distancia<T: Tradutor>(t0: &T, t: &T, base: u64, pagina: u64, n: int, w: u64)
    requires
        do_dispositivo(t0, t, base, pagina, n),
        base % 4096 == 0,
        pagina + n * 4096 <= u64::MAX,
        base <= w < base + n * 4096,
    ensures
        t.pagina_de(w) is Some,
        (t.pagina_de(w)->0).0 + w % 4096 == pagina + (w - base),
        (t.pagina_de(w)->0).1.dispositivo,
        (t.pagina_de(w)->0).1.escrita,
        !(t.pagina_de(w)->0).1.executavel,
        !(t.pagina_de(w)->0).1.usuario,
{
}

/// Mapping goes on by one page for each that is mapped, and is given up at the
/// first refusal, for its reason.
pub proof fn lei_janela(j: Janela, motivo: &'static str)
    requires
        j.motivo is None,
    ensures
        avancadas(j, Some(Ok(()))) == j.feitas + 1,
        avancadas(j, Some(Err(motivo))) == j.feitas,
        avancadas(j, None) == j.feitas,
        desistencia(j, Some(Err(motivo))) == Some(motivo),
        j.pagina + j.paginas * 4096 <= u64::MAX && j.feitas < j.paginas ==> desistencia(j, Some(Ok(())))
            is None,
{
}

} // verus!
