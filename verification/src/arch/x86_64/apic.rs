//! The timer of each processor: how it is measured against the timer of the
//! board, and how it is checked.
use vstd::prelude::*;

verus! {

/// The vector of the timer, past the sixteen of the board's controllers.
pub const VETOR_TIMER: u8 = 48;

/// The vector of interrupts that belong to nobody.
pub const VETOR_ESPURIO: u8 = 255;

/// In the register of the spurious vector: the controller is on.
pub const SVR_HABILITADO: u32 = 0x100;

/// In the register of the timer: it starts again by itself.
pub const TIMER_PERIODICO: u32 = 0x2_0000;

/// In the register of the timer: it does not interrupt.
pub const TIMER_MASCARADO: u32 = 0x1_0000;

/// By how much the rate of the bus is divided.
pub const DIVISOR: u64 = 16;

/// The divisor, as its register writes it.
pub const DIVISOR_CODIFICADO: u32 = 3;

/// In the register of the address: the controller is on.
pub const MSR_HABILITADO: u64 = 0x800;

/// In the register of the address: the address.
pub const MSR_ENDERECO: u64 = 0x0000_000F_FFFF_F000;

/// In what the processor says of itself: it has a controller.
pub const CPUID_APIC: u32 = 0x200;

/// How many shots of the board's timer a measurement takes.
pub const TIQUES_DO_PIT: u64 = 5;

/// How many shots of the board's timer a check takes.
pub const DISPAROS_DO_PIT: u64 = 20;

/// How far from what is expected a check lets the timer be, in percent.
pub const TOLERANCIA: u64 = 25;

/// How many looks each shot of the board's timer may take.
pub const VOLTAS_POR_DISPARO: u64 = 100_000_000;

/// The controller of a processor: where it is mapped, and the rate of its
/// counter.
#[derive(Clone, Copy, Debug, PartialEq, Eq, Structural)]
pub struct Apic {
    /// Zero where there is none.
    pub base: u64,
    /// Zero where it was not measured.
    pub frequencia: u32,
}

impl Apic {
    /// Nothing is known.
    pub open spec fn desconhecido_spec() -> Apic {
        Apic { base: 0, frequencia: 0 }
    }

    /// Nothing is known.
    pub fn desconhecido() -> (r: Apic)
        ensures
            r == Apic::desconhecido_spec(),
    {
        Apic { base: 0, frequencia: 0 }
    }
}

/// Whether the processor has a controller, given what it says of itself.
pub fn existe(edx: u32) -> (r: bool)
    ensures
        r == (edx & CPUID_APIC != 0),
{
    edx & CPUID_APIC != 0
}

/// Where the controller is, given what the processor says of itself and its
/// register of the address: nowhere, where there is none or it is off.
pub open spec fn endereco_spec(edx: u32, msr: u64) -> Option<u64> {
    if edx & CPUID_APIC != 0 && msr & MSR_HABILITADO != 0 {
        Some(msr & MSR_ENDERECO)
    } else {
        None
    }
}

/// Where the controller is, given what the processor says of itself and its
/// register of the address.
pub fn endereco(edx: u32, msr: u64) -> (r: Option<u64>)
    ensures
        r == endereco_spec(edx, msr),
{
    if !existe(edx) {
        return None;
    }
    if msr & MSR_HABILITADO == 0 {
        return None;
    }
    Some(msr & MSR_ENDERECO)
}

/// A wait for shots of the board's timer.
#[derive(Clone, Copy, Debug, PartialEq, Eq, Structural)]
pub struct Espera {
    /// The count when the wait began.
    pub de: u64,
    /// How many shots are waited for.
    pub quantos: u64,
    /// How many looks are left.
    pub voltas: u64,
}

/// What came of a look.
#[derive(Clone, Copy, Debug, PartialEq, Eq, Structural)]
pub enum Olhada {
    /// So many shots happened.
    Chegou(u64),
    /// Look again.
    Esperar,
    /// The timer of the board is not firing.
    Desistir,
}

/// A wait for shots that begins. It has an end even where none comes.
pub open spec fn espera_nova(de: u64, quantos: u64) -> Espera {
    Espera {
        de,
        quantos,
        voltas: if VOLTAS_POR_DISPARO * quantos <= u64::MAX {
            (VOLTAS_POR_DISPARO * quantos) as u64
        } else {
            u64::MAX
        },
    }
}

/// Begins to wait for shots.
pub fn esperar_disparos(de: u64, quantos: u64) -> (r: Espera)
    ensures
        r == espera_nova(de, quantos),
{
    let voltas: u64 = match VOLTAS_POR_DISPARO.checked_mul(quantos) {
        Some(v) => v,
        None => u64::MAX,
    };
    Espera { de, quantos, voltas }
}

impl Espera {
    /// A look at the count. Each one that does not end the wait leaves one
    /// fewer.
    pub open spec fn olhada(self, contagem: u64) -> (Espera, Olhada) {
        let agora = contagem.wrapping_sub(self.de);
        if self.voltas == 0 {
            (self, Olhada::Desistir)
        } else if agora >= self.quantos {
            (self, Olhada::Chegou(agora))
        } else {
            (Espera { voltas: (self.voltas - 1) as u64, ..self }, Olhada::Esperar)
        }
    }

    /// Looks at the count.
    pub fn olhar(&mut self, contagem: u64) -> (r: Olhada)
        ensures
            (*final(self), r) == old(self).olhada(contagem),
    {
        if self.voltas == 0 {
            return Olhada::Desistir;
        }
        let agora: u64 = contagem.wrapping_sub(self.de);
        if agora >= self.quantos {
            return Olhada::Chegou(agora);
        }
        self.voltas = self.voltas - 1;
        Olhada::Esperar
    }
}

/// The rate of the counter, given what was left of it after `tiques` shots of
/// a timer of `hz_do_pit` shots per second; it started at its greatest value.
pub open spec fn frequencia_medida(restante: u32, hz_do_pit: u32, tiques: u64) -> Option<u32> {
    let andou = u32::MAX - restante;
    if hz_do_pit == 0 || andou == 0 || tiques == 0 {
        None
    } else {
        let por_segundo = andou * hz_do_pit / tiques as int;
        if por_segundo <= u32::MAX {
            Some(por_segundo as u32)
        } else {
            None
        }
    }
}

/// The rate of the counter, out of a measurement. The shots that were seen
/// count, not those that were asked for. A counter that did not move gives
/// nothing.
pub fn calibrar(restante: u32, hz_do_pit: u32, tiques: u64) -> (r: Option<u32>)
    ensures
        r == frequencia_medida(restante, hz_do_pit, tiques),
{
    if hz_do_pit == 0 {
        return None;
    }
    let andou: u64 = (u32::MAX - restante) as u64;
    if andou == 0 {
        return None;
    }
    if tiques == 0 {
        return None;
    }
    proof {
        assert(andou * hz_do_pit <= 0xFFFF_FFFF * 0xFFFF_FFFF) by (nonlinear_arith)
            requires
                andou <= 0xFFFF_FFFF,
                hz_do_pit <= 0xFFFF_FFFF,
        ;
    }
    let por_segundo: u64 = andou * (hz_do_pit as u64) / tiques;
    if por_segundo > u32::MAX as u64 {
        None
    } else {
        Some(por_segundo as u32)
    }
}

/// How the timer is set.
#[derive(Clone, Copy, Debug, PartialEq, Eq, Structural)]
pub struct Programa {
    /// Counts between two interrupts.
    pub contagem: u32,
    /// Interrupts per second that come out of it.
    pub hz: u32,
}

/// How to set the timer for a rate, given the rate of its counter.
pub open spec fn programa_de(frequencia: u32, hz: u32) -> Programa {
    let pedido: u32 = if hz == 0 {
        1
    } else {
        hz
    };
    let contagem: u32 = if frequencia / pedido == 0 {
        1
    } else {
        frequencia / pedido
    };
    Programa { contagem, hz: frequencia / contagem }
}

/// How to set the timer for a rate, given the rate of its counter.
pub fn programar(frequencia: u32, hz: u32) -> (r: Programa)
    ensures
        r == programa_de(frequencia, hz),
{
    let pedido: u32 = if hz == 0 {
        1
    } else {
        hz
    };
    let c: u32 = frequencia / pedido;
    let contagem: u32 = if c == 0 {
        1
    } else {
        c
    };
    Programa { contagem, hz: frequencia / contagem }
}

/// How many shots are expected of a timer while the board's makes `do_pit`.
pub open spec fn esperados(hz_pedido: u32, hz_do_pit: u32, do_pit: u64) -> int {
    hz_pedido * do_pit / hz_do_pit as int
}

/// How far two counts are from each other.
pub open spec fn distancia(a: int, b: int) -> int {
    if a < b {
        b - a
    } else {
        a - b
    }
}

/// The timer fires at the rate that was asked for, within the tolerance.
pub open spec fn confere(hz_pedido: u32, hz_do_pit: u32, do_pit: u64, do_apic: u64) -> bool {
    hz_do_pit != 0 && hz_pedido != 0 && {
        let e = esperados(hz_pedido, hz_do_pit, do_pit);
        e != 0 && distancia(do_apic as int, e) * 100 / e <= TOLERANCIA
    }
}

/// Checks the timer against the board's. This is the only moment with two
/// independent clocks.
pub fn conferir_contra_o_pit(hz_pedido: u32, hz_do_pit: u32, do_pit: u64, do_apic: u64) -> (r: bool)
    ensures
        r == confere(hz_pedido, hz_do_pit, do_pit, do_apic),
{
    if hz_do_pit == 0 || hz_pedido == 0 {
        return false;
    }
    proof {
        assert(0 <= hz_pedido * do_pit <= 0xFFFF_FFFF * 0xFFFF_FFFF_FFFF_FFFF) by (nonlinear_arith)
            requires
                0 <= hz_pedido <= 0xFFFF_FFFF,
                0 <= do_pit <= 0xFFFF_FFFF_FFFF_FFFF,
        ;
    }
    let e: u128 = hz_pedido as u128 * do_pit as u128 / (hz_do_pit as u128);
    if e == 0 {
        return false;
    }
    proof {
        vstd::arithmetic::div_mod::lemma_div_is_ordered_by_denominator(
            hz_pedido * do_pit,
            1,
            hz_do_pit as int,
        );
    }
    let visto: u128 = do_apic as u128;
    let d: u128 = if visto < e {
        e - visto
    } else {
        visto - e
    };
    d * 100 / e <= TOLERANCIA as u128
}

/// A timer sixteen times too slow, which is what mixing the rate of the bus
/// with that of the counter gives, does not pass the check.
pub proof fn lei_erro_de_unidade_nao_passa(hz_pedido: u32, hz_do_pit: u32, do_pit: u64, do_apic: u64)
    requires
        hz_do_pit != 0,
        esperados(hz_pedido, hz_do_pit, do_pit) != 0,
        do_apic * DIVISOR <= esperados(hz_pedido, hz_do_pit, do_pit),
    ensures
        ({
            let e = esperados(hz_pedido, hz_do_pit, do_pit);
            distancia(do_apic as int, e) * 100 / e > TOLERANCIA
        }),
{
    let e = esperados(hz_pedido, hz_do_pit, do_pit);
    assert(0 <= hz_pedido * do_pit) by (nonlinear_arith)
        requires
            0 <= hz_pedido,
            0 <= do_pit,
    ;
    vstd::arithmetic::div_mod::lemma_div_pos_is_pos(hz_pedido * do_pit, hz_do_pit as int);
    let d = distancia(do_apic as int, e);
    assert(d * 100 >= 93 * e);
    vstd::arithmetic::div_mod::lemma_div_is_ordered(93 * e, d * 100, e);
    vstd::arithmetic::div_mod::lemma_div_multiples_vanish(93, e);
    vstd::arithmetic::mul::lemma_mul_is_commutative(93, e);
}

/// Whether there is a controller to be told that an interrupt was handled.
pub fn fim_de_interrupcao(a: &Apic) -> (r: bool)
    ensures
        r == (a.base != 0),
{
    a.base != 0
}

/// How many times per second the counter of the timer counts.
pub fn frequencia_do_contador(a: &Apic) -> (r: u32)
    ensures
        r == a.frequencia,
{
    a.frequencia
}

/// The rate of the bus that feeds the timer.
pub fn frequencia_do_barramento(a: &Apic) -> (r: u64)
    ensures
        r == a.frequencia * DIVISOR,
{
    a.frequencia as u64 * DIVISOR
}

/// The number of this processor, given the register that holds it, if there is
/// a controller.
pub fn id_do_nucleo(a: &Apic, registro: u32) -> (r: Option<u32>)
    ensures
        r == if a.base != 0 {
            Some(registro >> 24)
        } else {
            None
        },
{
    if a.base != 0 {
        Some(registro >> 24)
    } else {
        None
    }
}

/// A register that the start of the timer writes.
#[derive(Clone, Copy, Debug, PartialEq, Eq, Structural)]
pub enum Registro {
    VetorEspurio,
    Prioridade,
    Divisor,
    Timer,
    ContagemInicial,
}

/// Why the timer of the board stays.
#[derive(Clone, Copy, Debug, PartialEq, Eq, Structural)]
pub enum Motivo {
    /// The processor has no controller, or it is off.
    SemControlador,
    /// Its registers could not be mapped.
    SemMapa,
    /// The timer of the board has no rate to measure against.
    SemReferencia,
    /// The timer of the board is not firing.
    PitParado,
    /// The measurement gave no rate.
    SemFrequencia,
    /// The timer does not fire at the rate that was asked for.
    ForaDaTaxa,
}

/// What the start of the timer asks of the machine.
#[derive(Clone, Copy, Debug, PartialEq, Eq, Structural)]
pub enum Acao {
    /// Ask the processor what it has.
    PerguntarAoProcessador,
    /// Read the register of the address.
    LerEndereco,
    /// Map the registers at this physical address.
    Mapear(u64),
    /// Write a register.
    Escrever(Registro, u32),
    /// Read what is left of the counter.
    LerContador,
    /// Look at the counts of the board's timer and of this one.
    Contar,
    /// The timer takes over, at this rate: the board's line is masked.
    Assumir(u32),
    /// The timer of the board stays.
    Desistir(Motivo),
}

/// What the machine answers.
#[derive(Clone, Copy, Debug, PartialEq, Eq, Structural)]
pub enum Evento {
    /// Nothing was asked yet.
    Comeco,
    Processador(u32),
    Endereco(u64),
    Mapeado(u64),
    NaoMapeado,
    Escrito,
    Contador(u32),
    Contagens { pit: u64, apic: u64 },
}

/// The event answers the action.
pub open spec fn responde(a: Acao, ev: Evento) -> bool {
    match a {
        Acao::PerguntarAoProcessador => ev is Processador,
        Acao::LerEndereco => ev is Endereco,
        Acao::Mapear(_) => ev is Mapeado || ev is NaoMapeado,
        Acao::Escrever(_, _) => ev is Escrito,
        Acao::LerContador => ev is Contador,
        Acao::Contar => ev is Contagens,
        Acao::Assumir(_) => false,
        Acao::Desistir(_) => false,
    }
}

/// How far the start has come.
#[derive(Clone, Copy, Debug, PartialEq, Eq, Structural)]
pub enum Fase {
    Parada,
    Processador,
    Endereco(u32),
    Mapa,
    Ligado,
    Aberto,
    Dividido,
    Mascarado,
    /// Waiting for a count to begin with.
    AntesDaBorda,
    /// Waiting for a shot of the board's timer, to measure from its edge.
    Borda(Espera),
    NaBorda,
    /// The counter was started, from this count of the board's timer on.
    Solto(u64),
    Medindo(Espera),
    Medido(u64),
    /// What was left of the counter after so many shots; the counter stops.
    Lido(u32, u64),
    /// The timer is set: divisor, mode, count.
    Programando(Programa),
    Periodico(Programa),
    Armado(Programa),
    AntesDaConta(Programa),
    Conferindo(Programa, Espera, u64),
    /// The timer did not pass: it is masked, then stopped.
    Recusado,
    /// The counter is stopped before giving up.
    Desarmado(Motivo),
    Fim,
}

/// The start of the timer of a processor, which runs beside the board's until
/// it has proved itself.
#[derive(Clone, Copy, Debug, PartialEq, Eq, Structural)]
pub struct Partida {
    pub fase: Fase,
    /// What was asked last.
    pub pedido: Acao,
    /// The rate that is wanted, and that of the board's timer.
    pub hz: u32,
    pub hz_do_pit: u32,
    /// What is known of the controller.
    pub apic: Apic,
}

impl Partida {
    /// Before anything was asked.
    pub open spec fn nova_spec(hz: u32, hz_do_pit: u32) -> Partida {
        Partida {
            fase: Fase::Parada,
            pedido: Acao::PerguntarAoProcessador,
            hz,
            hz_do_pit,
            apic: Apic::desconhecido_spec(),
        }
    }

    /// Before anything was asked.
    pub fn nova(hz: u32, hz_do_pit: u32) -> (r: Partida)
        ensures
            r == Partida::nova_spec(hz, hz_do_pit),
    {
        Partida {
            fase: Fase::Parada,
            pedido: Acao::PerguntarAoProcessador,
            hz,
            hz_do_pit,
            apic: Apic::desconhecido(),
        }
    }

    /// The next phase, and what it asks for.
    pub open spec fn indo(self, fase: Fase, pedido: Acao) -> Partida {
        Partida { fase, pedido, ..self }
    }

    fn ir(&mut self, fase: Fase, pedido: Acao) -> (r: Acao)
        ensures
            *final(self) == old(self).indo(fase, pedido),
            r == pedido,
    {
        self.fase = fase;
        self.pedido = pedido;
        pedido
    }

    /// What comes of an answer. One that does not answer what was asked
    /// changes nothing: the same is asked again.
    pub open spec fn seguinte(self, ev: Evento) -> Partida {
        match (self.fase, ev) {
            (Fase::Parada, _) => self.indo(Fase::Processador, Acao::PerguntarAoProcessador),
            (Fase::Processador, Evento::Processador(edx)) => if edx & CPUID_APIC != 0 {
                self.indo(Fase::Endereco(edx), Acao::LerEndereco)
            } else {
                self.indo(Fase::Fim, Acao::Desistir(Motivo::SemControlador))
            },
            (Fase::Endereco(edx), Evento::Endereco(msr)) => match endereco_spec(edx, msr) {
                Some(fisico) => self.indo(Fase::Mapa, Acao::Mapear(fisico)),
                None => self.indo(Fase::Fim, Acao::Desistir(Motivo::SemControlador)),
            },
            (Fase::Mapa, Evento::Mapeado(base)) => Partida {
                apic: Apic { base, ..self.apic },
                ..self.indo(
                    Fase::Ligado,
                    Acao::Escrever(Registro::VetorEspurio, SVR_HABILITADO | VETOR_ESPURIO as u32),
                )
            },
            (Fase::Mapa, Evento::NaoMapeado) => self.indo(
                Fase::Fim,
                Acao::Desistir(Motivo::SemMapa),
            ),
            (Fase::Ligado, Evento::Escrito) => self.indo(
                Fase::Aberto,
                Acao::Escrever(Registro::Prioridade, 0),
            ),
            (Fase::Aberto, Evento::Escrito) => if self.hz_do_pit == 0 {
                self.indo(Fase::Fim, Acao::Desistir(Motivo::SemReferencia))
            } else {
                self.indo(Fase::Dividido, Acao::Escrever(Registro::Divisor, DIVISOR_CODIFICADO))
            },
            (Fase::Dividido, Evento::Escrito) => self.indo(
                Fase::Mascarado,
                Acao::Escrever(Registro::Timer, TIMER_MASCARADO),
            ),
            (Fase::Mascarado, Evento::Escrito) => self.indo(Fase::AntesDaBorda, Acao::Contar),
            (Fase::AntesDaBorda, Evento::Contagens { pit, apic }) => self.indo(
                Fase::Borda(espera_nova(pit, 1)),
                Acao::Contar,
            ),
            (Fase::Borda(e), Evento::Contagens { pit, apic }) => match e.olhada(pit) {
                (_, Olhada::Chegou(_)) => self.indo(Fase::NaBorda, Acao::Contar),
                (e, Olhada::Esperar) => self.indo(Fase::Borda(e), Acao::Contar),
                (_, Olhada::Desistir) => self.indo(Fase::Fim, Acao::Desistir(Motivo::PitParado)),
            },
            (Fase::NaBorda, Evento::Contagens { pit, apic }) => self.indo(
                Fase::Solto(pit),
                Acao::Escrever(Registro::ContagemInicial, u32::MAX),
            ),
            (Fase::Solto(de), Evento::Escrito) => self.indo(
                Fase::Medindo(espera_nova(de, TIQUES_DO_PIT)),
                Acao::Contar,
            ),
            (Fase::Medindo(e), Evento::Contagens { pit, apic }) => match e.olhada(pit) {
                (_, Olhada::Chegou(tiques)) => self.indo(Fase::Medido(tiques), Acao::LerContador),
                (e, Olhada::Esperar) => self.indo(Fase::Medindo(e), Acao::Contar),
                (_, Olhada::Desistir) => self.indo(
                    Fase::Desarmado(Motivo::PitParado),
                    Acao::Escrever(Registro::ContagemInicial, 0),
                ),
            },
            (Fase::Medido(tiques), Evento::Contador(restante)) => self.indo(
                Fase::Lido(restante, tiques),
                Acao::Escrever(Registro::ContagemInicial, 0),
            ),
            (Fase::Lido(restante, tiques), Evento::Escrito) => match frequencia_medida(
                restante,
                self.hz_do_pit,
                tiques,
            ) {
                Some(f) => Partida {
                    apic: Apic { frequencia: f, ..self.apic },
                    ..self.indo(
                        Fase::Programando(programa_de(f, self.hz)),
                        Acao::Escrever(Registro::Divisor, DIVISOR_CODIFICADO),
                    )
                },
                None => self.indo(Fase::Fim, Acao::Desistir(Motivo::SemFrequencia)),
            },
            (Fase::Programando(p), Evento::Escrito) => self.indo(
                Fase::Periodico(p),
                Acao::Escrever(Registro::Timer, TIMER_PERIODICO | VETOR_TIMER as u32),
            ),
            (Fase::Periodico(p), Evento::Escrito) => self.indo(
                Fase::Armado(p),
                Acao::Escrever(Registro::ContagemInicial, p.contagem),
            ),
            (Fase::Armado(p), Evento::Escrito) => if p.hz == 0 {
                self.indo(Fase::Recusado, Acao::Escrever(Registro::Timer, TIMER_MASCARADO))
            } else {
                self.indo(Fase::AntesDaConta(p), Acao::Contar)
            },
            (Fase::AntesDaConta(p), Evento::Contagens { pit, apic }) => self.indo(
                Fase::Conferindo(p, espera_nova(pit, DISPAROS_DO_PIT), apic),
                Acao::Contar,
            ),
            (Fase::Conferindo(p, e, antes), Evento::Contagens { pit, apic }) => match e.olhada(pit) {
                (_, Olhada::Chegou(do_pit)) => if confere(
                    p.hz,
                    self.hz_do_pit,
                    do_pit,
                    apic.wrapping_sub(antes),
                ) {
                    self.indo(Fase::Fim, Acao::Assumir(p.hz))
                } else {
                    self.indo(Fase::Recusado, Acao::Escrever(Registro::Timer, TIMER_MASCARADO))
                },
                (e, Olhada::Esperar) => self.indo(Fase::Conferindo(p, e, antes), Acao::Contar),
                (_, Olhada::Desistir) => self.indo(
                    Fase::Recusado,
                    Acao::Escrever(Registro::Timer, TIMER_MASCARADO),
                ),
            },
            (Fase::Recusado, Evento::Escrito) => self.indo(
                Fase::Desarmado(Motivo::ForaDaTaxa),
                Acao::Escrever(Registro::ContagemInicial, 0),
            ),
            (Fase::Desarmado(motivo), Evento::Escrito) => self.indo(
                Fase::Fim,
                Acao::Desistir(motivo),
            ),
            _ => self,
        }
    }

    /// Goes on with the start: takes what the machine answered and says what is
    /// asked of it next.
    pub fn passo(&mut self, ev: Evento) -> (r: Acao)
        ensures
            *final(self) == old(self).seguinte(ev),
            r == old(self).seguinte(ev).pedido,
    {
        match (self.fase, ev) {
            (Fase::Parada, _) => self.ir(Fase::Processador, Acao::PerguntarAoProcessador),
            (Fase::Processador, Evento::Processador(edx)) => if existe(edx) {
                self.ir(Fase::Endereco(edx), Acao::LerEndereco)
            } else {
                self.ir(Fase::Fim, Acao::Desistir(Motivo::SemControlador))
            },
            (Fase::Endereco(edx), Evento::Endereco(msr)) => match endereco(edx, msr) {
                Some(fisico) => self.ir(Fase::Mapa, Acao::Mapear(fisico)),
                None => self.ir(Fase::Fim, Acao::Desistir(Motivo::SemControlador)),
            },
            (Fase::Mapa, Evento::Mapeado(base)) => {
                self.apic.base = base;
                self.ir(
                    Fase::Ligado,
                    Acao::Escrever(Registro::VetorEspurio, SVR_HABILITADO | VETOR_ESPURIO as u32),
                )
            },
            (Fase::Mapa, Evento::NaoMapeado) => self.ir(
                Fase::Fim,
                Acao::Desistir(Motivo::SemMapa),
            ),
            (Fase::Ligado, Evento::Escrito) => self.ir(
                Fase::Aberto,
                Acao::Escrever(Registro::Prioridade, 0),
            ),
            (Fase::Aberto, Evento::Escrito) => if self.hz_do_pit == 0 {
                self.ir(Fase::Fim, Acao::Desistir(Motivo::SemReferencia))
            } else {
                self.ir(Fase::Dividido, Acao::Escrever(Registro::Divisor, DIVISOR_CODIFICADO))
            },
            (Fase::Dividido, Evento::Escrito) => self.ir(
                Fase::Mascarado,
                Acao::Escrever(Registro::Timer, TIMER_MASCARADO),
            ),
            (Fase::Mascarado, Evento::Escrito) => self.ir(Fase::AntesDaBorda, Acao::Contar),
            (Fase::AntesDaBorda, Evento::Contagens { pit, apic }) => self.ir(
                Fase::Borda(esperar_disparos(pit, 1)),
                Acao::Contar,
            ),
            (Fase::Borda(espera), Evento::Contagens { pit, apic }) => {
                let mut espera = espera;
                match espera.olhar(pit) {
                    Olhada::Chegou(_) => self.ir(Fase::NaBorda, Acao::Contar),
                    Olhada::Esperar => self.ir(Fase::Borda(espera), Acao::Contar),
                    Olhada::Desistir => self.ir(Fase::Fim, Acao::Desistir(Motivo::PitParado)),
                }
            },
            (Fase::NaBorda, Evento::Contagens { pit, apic }) => self.ir(
                Fase::Solto(pit),
                Acao::Escrever(Registro::ContagemInicial, u32::MAX),
            ),
            (Fase::Solto(de), Evento::Escrito) => self.ir(
                Fase::Medindo(esperar_disparos(de, TIQUES_DO_PIT)),
                Acao::Contar,
            ),
            (Fase::Medindo(espera), Evento::Contagens { pit, apic }) => {
                let mut espera = espera;
                match espera.olhar(pit) {
                    Olhada::Chegou(tiques) => self.ir(Fase::Medido(tiques), Acao::LerContador),
                    Olhada::Esperar => self.ir(Fase::Medindo(espera), Acao::Contar),
                    Olhada::Desistir => self.ir(
                        Fase::Desarmado(Motivo::PitParado),
                        Acao::Escrever(Registro::ContagemInicial, 0),
                    ),
                }
            },
            (Fase::Medido(tiques), Evento::Contador(restante)) => self.ir(
                Fase::Lido(restante, tiques),
                Acao::Escrever(Registro::ContagemInicial, 0),
            ),
            (Fase::Lido(restante, tiques), Evento::Escrito) => match calibrar(
                restante,
                self.hz_do_pit,
                tiques,
            ) {
                Some(f) => {
                    self.apic.frequencia = f;
                    let programa = programar(f, self.hz);
                    self.ir(
                        Fase::Programando(programa),
                        Acao::Escrever(Registro::Divisor, DIVISOR_CODIFICADO),
                    )
                },
                None => self.ir(Fase::Fim, Acao::Desistir(Motivo::SemFrequencia)),
            },
            (Fase::Programando(p), Evento::Escrito) => self.ir(
                Fase::Periodico(p),
                Acao::Escrever(Registro::Timer, TIMER_PERIODICO | VETOR_TIMER as u32),
            ),
            (Fase::Periodico(p), Evento::Escrito) => self.ir(
                Fase::Armado(p),
                Acao::Escrever(Registro::ContagemInicial, p.contagem),
            ),
            (Fase::Armado(p), Evento::Escrito) => if p.hz == 0 {
                self.ir(Fase::Recusado, Acao::Escrever(Registro::Timer, TIMER_MASCARADO))
            } else {
                self.ir(Fase::AntesDaConta(p), Acao::Contar)
            },
            (Fase::AntesDaConta(p), Evento::Contagens { pit, apic }) => self.ir(
                Fase::Conferindo(p, esperar_disparos(pit, DISPAROS_DO_PIT), apic),
                Acao::Contar,
            ),
            (Fase::Conferindo(p, espera, antes), Evento::Contagens { pit, apic }) => {
                let mut espera = espera;
                match espera.olhar(pit) {
                    Olhada::Chegou(do_pit) => if conferir_contra_o_pit(
                        p.hz,
                        self.hz_do_pit,
                        do_pit,
                        apic.wrapping_sub(antes),
                    ) {
                        self.ir(Fase::Fim, Acao::Assumir(p.hz))
                    } else {
                        self.ir(Fase::Recusado, Acao::Escrever(Registro::Timer, TIMER_MASCARADO))
                    },
                    Olhada::Esperar => self.ir(Fase::Conferindo(p, espera, antes), Acao::Contar),
                    Olhada::Desistir => self.ir(
                        Fase::Recusado,
                        Acao::Escrever(Registro::Timer, TIMER_MASCARADO),
                    ),
                }
            },
            (Fase::Recusado, Evento::Escrito) => self.ir(
                Fase::Desarmado(Motivo::ForaDaTaxa),
                Acao::Escrever(Registro::ContagemInicial, 0),
            ),
            (Fase::Desarmado(motivo), Evento::Escrito) => self.ir(
                Fase::Fim,
                Acao::Desistir(motivo),
            ),
            _ => self.pedido,
        }
    }

    /// What was asked last is what the phase waits for.
    pub open spec fn wf(&self) -> bool {
        match self.fase {
            Fase::Parada => true,
            Fase::Processador => self.pedido is PerguntarAoProcessador,
            Fase::Endereco(_) => self.pedido is LerEndereco,
            Fase::Mapa => self.pedido is Mapear,
            Fase::AntesDaBorda => self.pedido is Contar,
            Fase::Borda(_) => self.pedido is Contar,
            Fase::NaBorda => self.pedido is Contar,
            Fase::Medindo(_) => self.pedido is Contar,
            Fase::Medido(_) => self.pedido is LerContador,
            Fase::AntesDaConta(_) => self.pedido is Contar,
            Fase::Conferindo(_, _, _) => self.pedido is Contar,
            Fase::Fim => self.pedido is Assumir || self.pedido is Desistir,
            Fase::Ligado => self.pedido is Escrever && !self.escreve_contagem(),
            Fase::Aberto => self.pedido is Escrever && !self.escreve_contagem(),
            Fase::Dividido => self.pedido is Escrever && !self.escreve_contagem(),
            Fase::Mascarado => self.pedido is Escrever && !self.escreve_contagem(),
            Fase::Programando(p) => p.contagem != 0 && self.pedido is Escrever
                && !self.escreve_contagem(),
            Fase::Periodico(p) => p.contagem != 0 && self.pedido is Escrever
                && !self.escreve_contagem(),
            Fase::Recusado => self.pedido is Escrever && !self.escreve_contagem(),
            Fase::Solto(_) => self.pedido == Acao::Escrever(Registro::ContagemInicial, u32::MAX),
            Fase::Lido(_, _) => self.pedido == Acao::Escrever(Registro::ContagemInicial, 0),
            Fase::Armado(p) => p.contagem != 0 && self.pedido == Acao::Escrever(
                Registro::ContagemInicial,
                p.contagem,
            ),
            Fase::Desarmado(_) => self.pedido == Acao::Escrever(Registro::ContagemInicial, 0),
        }
    }

    /// What was asked last is to set the counter.
    pub open spec fn escreve_contagem(&self) -> bool {
        match self.pedido {
            Acao::Escrever(r, _) => r is ContagemInicial,
            _ => false,
        }
    }

    /// The counter runs once what was asked last is done.
    pub open spec fn correndo(&self) -> bool {
        match self.fase {
            Fase::Solto(_) => true,
            Fase::Medindo(_) => true,
            Fase::Medido(_) => true,
            Fase::Armado(_) => true,
            Fase::AntesDaConta(_) => true,
            Fase::Conferindo(_, _, _) => true,
            Fase::Recusado => true,
            Fase::Fim => self.pedido is Assumir,
            _ => false,
        }
    }
}

/// The start never stalls: the phase always waits for what was asked last, and
/// an answer to that is taken.
pub proof fn lei_partida_pede_o_que_espera(p: Partida, ev: Evento)
    requires
        p.wf(),
    ensures
        p.seguinte(ev).wf(),
        p.fase != Fase::Parada && !responde(p.pedido, ev) ==> p.seguinte(ev) == p,
        p.fase is Fim ==> p.seguinte(ev) == p,
{
}

/// The counter starts and stops only by what is written to it, and the board's
/// timer stays only once it is stopped: whatever fails, the timer is disarmed
/// first.
pub proof fn lei_desarma_antes_de_desistir(p: Partida, ev: Evento)
    requires
        p.wf(),
    ensures
        ({
            let q = p.seguinte(ev);
            &&& q.pedido is Desistir ==> !q.correndo()
            &&& q.correndo() != p.correndo() ==> q.escreve_contagem()
            &&& q.escreve_contagem() ==> q.correndo() == (q.pedido->Escrever_1 != 0)
        }),
{
}

/// The counter is measured from the edge of a shot: it starts only right after
/// the board's timer was seen to fire, and it is read only after so many shots
/// more.
pub proof fn lei_mede_a_partir_da_borda(p: Partida, ev: Evento)
    requires
        p.wf(),
    ensures
        ({
            let q = p.seguinte(ev);
            &&& q.fase is Solto && q != p ==> p.fase is NaBorda
            &&& q.fase is NaBorda && q != p ==> p.fase is Borda && ev is Contagens
                && (p.fase->Borda_0).olhada(ev->pit).1 is Chegou
            &&& q.fase is Borda && !(p.fase is Borda) ==> p.fase is AntesDaBorda && q.fase
                == Fase::Borda(espera_nova(ev->pit, 1))
            &&& q.fase is Medindo && !(p.fase is Medindo) ==> p.fase is Solto && q.fase
                == Fase::Medindo(espera_nova(p.fase->Solto_0, TIQUES_DO_PIT))
            &&& q.fase is Medido && q != p ==> p.fase is Medindo && ev is Contagens
                && (p.fase->Medindo_0).olhada(ev->pit).1 == Olhada::Chegou(q.fase->Medido_0)
        }),
{
}

/// The timer takes over, and the board's line is masked, only once it was
/// checked against the board's timer and passed.
pub proof fn lei_so_assume_conferido(p: Partida, ev: Evento)
    requires
        p.wf(),
        p.seguinte(ev).pedido is Assumir,
        !(p.fase is Fim),
    ensures
        p.fase is Conferindo,
        ev is Contagens,
        ({
            let (programa, e, antes) = (p.fase->Conferindo_0, p.fase->Conferindo_1, p.fase->Conferindo_2);
            let visto = e.olhada(ev->pit).1;
            &&& p.seguinte(ev).pedido == Acao::Assumir(programa.hz)
            &&& visto is Chegou
            &&& confere(programa.hz, p.hz_do_pit, visto->Chegou_0, ev->apic.wrapping_sub(antes))
        }),
{
}

/// The controller is where its register says, a page, where the processor has one
/// and it is on.
pub proof fn lei_endereco_do_controlador(edx: u32, msr: u64)
    ensures
        endereco_spec(edx, msr) is Some <==> edx & 0x200 != 0 && msr & 0x800 != 0,
        endereco_spec(edx, msr) is Some ==> endereco_spec(edx, msr)->0 == msr & 0xF_FFFF_F000,
{
}

/// The measured rate is what the counter went in a second, rounded down: what it
/// went in the ticks of the measure is that rate, or less than one more, for as long.
pub proof fn lei_frequencia_medida(restante: u32, hz_do_pit: u32, tiques: u64)
    ensures
        frequencia_medida(restante, hz_do_pit, tiques) is Some ==> ({
            let f = frequencia_medida(restante, hz_do_pit, tiques)->0;
            let andou = 0xFFFF_FFFF - restante;
            &&& f * tiques <= andou * hz_do_pit
            &&& andou * hz_do_pit < (f + 1) * tiques
        }),
        hz_do_pit == 0 || restante == 0xFFFF_FFFF || tiques == 0 ==> frequencia_medida(
            restante,
            hz_do_pit,
            tiques,
        ) is None,
        tiques > 0 && hz_do_pit > 0 && restante < 0xFFFF_FFFF && (0xFFFF_FFFF - restante) * hz_do_pit
            <= 0xFFFF_FFFF * tiques ==> frequencia_medida(restante, hz_do_pit, tiques) is Some,
{
    let andou = 0xFFFF_FFFF - restante;
    let x = andou * hz_do_pit;
    if tiques > 0 {
        let t = tiques as int;
        let q = x / t;
        vstd::arithmetic::div_mod::lemma_fundamental_div_mod(x, t);
        vstd::arithmetic::div_mod::lemma_mod_bound(x, t);
        assert(q * t <= x && x < (q + 1) * t) by (nonlinear_arith)
            requires
                x == t * q + x % t,
                0 <= x % t < t,
        ;
        assert(x >= 0) by (nonlinear_arith)
            requires
                x == andou * hz_do_pit,
                andou >= 0,
        ;
        vstd::arithmetic::div_mod::lemma_div_pos_is_pos(x, t);
        if x <= 0xFFFF_FFFF * t {
            vstd::arithmetic::div_mod::lemma_div_is_ordered(x, 0xFFFF_FFFF * t, t);
            vstd::arithmetic::mul::lemma_mul_is_commutative(0xFFFF_FFFF, t);
            vstd::arithmetic::div_mod::lemma_div_multiples_vanish(0xFFFF_FFFF, t);
        }
    }
}

/// The timer is set for the largest count that fires at least as often as was asked,
/// and for one where none does; what is reported is the rate that this count gives,
/// rounded down.
pub proof fn lei_programa(frequencia: u32, hz: u32)
    ensures
        ({
            let p = programa_de(frequencia, hz);
            let pedido: int = if hz == 0 {
                1
            } else {
                hz as int
            };
            &&& p.contagem >= 1
            &&& p.contagem > 1 ==> p.contagem * pedido <= frequencia
            &&& frequencia < (p.contagem + 1) * pedido || p.contagem == 1
            &&& pedido <= frequencia ==> frequencia < (p.contagem + 1) * pedido
            &&& p.hz * p.contagem <= frequencia
            &&& frequencia < (p.hz + 1) * p.contagem
        }),
{
    let pedido: u32 = if hz == 0 {
        1
    } else {
        hz
    };
    let f = frequencia as int;
    let n = pedido as int;
    let q = f / n;
    vstd::arithmetic::div_mod::lemma_fundamental_div_mod(f, n);
    vstd::arithmetic::div_mod::lemma_mod_bound(f, n);
    assert(q * n <= f && f < (q + 1) * n) by (nonlinear_arith)
        requires
            f == n * q + f % n,
            0 <= f % n < n,
    ;
    let p = programa_de(frequencia, hz);
    let k = p.contagem as int;
    let h = f / k;
    vstd::arithmetic::div_mod::lemma_fundamental_div_mod(f, k);
    vstd::arithmetic::div_mod::lemma_mod_bound(f, k);
    assert(h * k <= f && f < (h + 1) * k) by (nonlinear_arith)
        requires
            f == k * h + f % k,
            0 <= f % k < k,
    ;
    if q == 0 {
        assert(f < n) by (nonlinear_arith)
            requires
                f < (q + 1) * n,
                q == 0,
        ;
    }
}

/// A wait is over where the count went as far as was asked, and goes on otherwise,
/// until its looks are used up.
pub proof fn lei_olhada(e: Espera, contagem: u64)
    requires
        contagem >= e.de,
    ensures
        e.voltas > 0 && contagem - e.de >= e.quantos ==> e.olhada(contagem).1 == Olhada::Chegou(
            (contagem - e.de) as u64,
        ),
        e.voltas > 0 && contagem - e.de < e.quantos ==> e.olhada(contagem).1 is Esperar && e.olhada(
            contagem,
        ).0.voltas == e.voltas - 1 && e.olhada(contagem).0.de == e.de && e.olhada(contagem).0.quantos
            == e.quantos,
        e.voltas == 0 ==> e.olhada(contagem).1 is Desistir,
{
}

/// A timer is believed where the shots that came are within a quarter of those that
/// were due, and no further than a hundredth more.
pub proof fn lei_confere(hz_pedido: u32, hz_do_pit: u32, do_pit: u64, do_apic: u64)
    requires
        hz_do_pit > 0,
    ensures
        ({
            let e = esperados(hz_pedido, hz_do_pit, do_pit);
            let d = if do_apic < e {
                e - do_apic
            } else {
                do_apic - e
            };
            &&& e * hz_do_pit <= hz_pedido * do_pit
            &&& hz_pedido * do_pit < (e + 1) * hz_do_pit
            &&& confere(hz_pedido, hz_do_pit, do_pit, do_apic) ==> e > 0 && d * 100 < 26 * e
            &&& hz_pedido > 0 && e > 0 && d * 100 <= 25 * e ==> confere(
                hz_pedido,
                hz_do_pit,
                do_pit,
                do_apic,
            )
        }),
{
    let x = hz_pedido * do_pit;
    let h = hz_do_pit as int;
    let e = esperados(hz_pedido, hz_do_pit, do_pit);
    assert(x >= 0) by (nonlinear_arith)
        requires
            x == hz_pedido * do_pit,
    ;
    vstd::arithmetic::div_mod::lemma_fundamental_div_mod(x, h);
    vstd::arithmetic::div_mod::lemma_mod_bound(x, h);
    vstd::arithmetic::div_mod::lemma_div_pos_is_pos(x, h);
    assert(e * h <= x && x < (e + 1) * h) by (nonlinear_arith)
        requires
            x == h * e + x % h,
            0 <= x % h < h,
    ;
    if e > 0 {
        let d = distancia(do_apic as int, e);
        let y = d * 100;
        let q = y / e;
        vstd::arithmetic::div_mod::lemma_fundamental_div_mod(y, e);
        vstd::arithmetic::div_mod::lemma_mod_bound(y, e);
        if q <= 25 {
            assert(y < 26 * e) by (nonlinear_arith)
                requires
                    y == e * q + y % e,
                    0 <= y % e < e,
                    q <= 25,
                    e > 0,
            ;
        } else {
            assert(y > 25 * e) by (nonlinear_arith)
                requires
                    y == e * q + y % e,
                    0 <= y % e < e,
                    q >= 26,
                    e > 0,
            ;
        }
    }
}

/// What is written in the controller: the vector 255 with the bit that turns it on,
/// the lowest priority, the divisor 16 in its code, the timer masked while it is
/// measured, the counter from its greatest value, and then the timer on vector 48 at
/// the count that was worked out.
pub proof fn lei_escritas_do_controlador(p: Partida, base: u64)
    ensures
        p.fase is Mapa ==> p.seguinte(Evento::Mapeado(base)).pedido == Acao::Escrever(
            Registro::VetorEspurio,
            0x100u32 | 255u32,
        ) && p.seguinte(Evento::Mapeado(base)).apic.base == base,
        p.fase is Ligado ==> p.seguinte(Evento::Escrito).pedido == Acao::Escrever(
            Registro::Prioridade,
            0,
        ),
        p.fase is Aberto && p.hz_do_pit != 0 ==> p.seguinte(Evento::Escrito).pedido == Acao::Escrever(
            Registro::Divisor,
            3,
        ),
        p.fase is Aberto && p.hz_do_pit == 0 ==> p.seguinte(Evento::Escrito).pedido == Acao::Desistir(
            Motivo::SemReferencia,
        ),
        p.fase is Dividido ==> p.seguinte(Evento::Escrito).pedido == Acao::Escrever(
            Registro::Timer,
            0x1_0000,
        ),
        forall|pit: u64, apic: u64|
            p.fase is NaBorda ==> (#[trigger] p.seguinte(Evento::Contagens { pit, apic })).pedido
                == Acao::Escrever(Registro::ContagemInicial, 0xFFFF_FFFF),
        p.fase is Programando ==> p.seguinte(Evento::Escrito).pedido == Acao::Escrever(
            Registro::Timer,
            0x2_0000u32 | 48u32,
        ),
        p.fase is Periodico ==> p.seguinte(Evento::Escrito).pedido == Acao::Escrever(
            Registro::ContagemInicial,
            p.fase->Periodico_0.contagem,
        ),
        p.fase is Recusado ==> p.seguinte(Evento::Escrito).pedido == Acao::Escrever(
            Registro::ContagemInicial,
            0,
        ),
{
}

/// Why the controller is given up: there is none, or its registers are not to be had,
/// or the board's timer stands still, or the measurement gave no rate, or the timer
/// does not fire at the rate that was asked for.
pub proof fn lei_motivos(p: Partida, edx: u32, msr: u64, pit: u64, apic: u64)
    ensures
        p.fase is Processador && edx & 0x200 == 0 ==> p.seguinte(Evento::Processador(edx)).pedido
            == Acao::Desistir(Motivo::SemControlador),
        p.fase is Processador && edx & 0x200 != 0 ==> p.seguinte(Evento::Processador(edx)).pedido
            is LerEndereco,
        p.fase == Fase::Endereco(edx) && edx & 0x200 != 0 && msr & 0x800 != 0 ==> p.seguinte(
            Evento::Endereco(msr),
        ).pedido == Acao::Mapear(msr & 0xF_FFFF_F000),
        p.fase == Fase::Endereco(edx) && msr & 0x800 == 0 ==> p.seguinte(
            Evento::Endereco(msr),
        ).pedido == Acao::Desistir(Motivo::SemControlador),
        p.fase is Mapa ==> p.seguinte(Evento::NaoMapeado).pedido == Acao::Desistir(Motivo::SemMapa),
        p.fase is Borda && p.fase->Borda_0.voltas == 0 ==> p.seguinte(
            Evento::Contagens { pit, apic },
        ).pedido == Acao::Desistir(Motivo::PitParado),
        p.fase is Lido && frequencia_medida(p.fase->Lido_0, p.hz_do_pit, p.fase->Lido_1) is None
            ==> p.seguinte(Evento::Escrito).pedido == Acao::Desistir(Motivo::SemFrequencia),
        p.fase is Lido && frequencia_medida(p.fase->Lido_0, p.hz_do_pit, p.fase->Lido_1) is Some
            ==> p.seguinte(Evento::Escrito).fase == Fase::Programando(
            programa_de(
                frequencia_medida(p.fase->Lido_0, p.hz_do_pit, p.fase->Lido_1)->0,
                p.hz,
            ),
        ),
        p.fase is Desarmado ==> p.seguinte(Evento::Escrito).pedido == Acao::Desistir(
            p.fase->Desarmado_0,
        ),
        p.fase is Recusado ==> p.seguinte(Evento::Escrito).fase == Fase::Desarmado(Motivo::ForaDaTaxa),
{
}

/// Before anything is asked, nothing is known of the controller, and the first
/// question is to the processor.
pub proof fn lei_comeco(hz: u32, hz_do_pit: u32)
    ensures
        ({
            let p = Partida::nova_spec(hz, hz_do_pit);
            &&& p.apic.base == 0 && p.apic.frequencia == 0
            &&& p.hz == hz && p.hz_do_pit == hz_do_pit
            &&& p.pedido is PerguntarAoProcessador
        }),
{
}

} // verus!
