//! The commands of the agent's channel: what each of them answers.
//!
//! A command reads a picture of the system and writes one document. What it
//! does to the system, where it does anything, is done before the picture is
//! taken: [`preparo`] says what that is.
use vstd::prelude::*;

use crate::agent::json::{Campos, JsonWriter, Valor};
use crate::agent::leitura::Json;
use crate::agent::registry::{comandos, Handler, ParamSpec};
use crate::fios::{Inscricao as FioInscrito, MAX_FIOS, QUANTUM_EM_TIQUES};
use crate::frames::{Alocador, TAMANHO_FRAME};
use crate::irq::{Contagem, Linhas};
use crate::log::{Anel, Level, Record};
use crate::machine::{Maquina, Regiao, TipoRegiao};
use crate::tarefas::entrada::Entrada;
use crate::tarefas::executor::{Executor, Inscricao as TarefaInscrita};
use crate::texto::mesmo_texto;

verus! {

broadcast use {crate::agent::json::group_documento, crate::agent::json::group_niveis};

/// The screen.
#[derive(Clone, Copy, Debug)]
pub struct Video {
    pub largura: u64,
    pub altura: u64,
    pub stride: u64,
    pub bytes_por_pixel: u64,
    pub formato: &'static str,
}

/// An exception that was recorded.
#[derive(Clone, Copy, Debug)]
pub struct Falha {
    pub seq: u64,
    pub nome: &'static str,
    pub pc: u64,
    pub endereco: Option<u64>,
    pub codigo: u64,
}

/// How many exceptions of a type there were.
#[derive(Clone, Copy, Debug)]
pub struct PorTipo {
    pub nome: &'static str,
    pub total: u64,
}

/// What is known of the processes.
#[derive(Clone, Copy, Debug)]
pub struct Usuario {
    pub chamadas: u64,
    pub recusadas: u64,
    pub bytes: u64,
    pub ultima_saida: Option<i64>,
    pub base: u64,
    pub teto: u64,
    pub codigo_do_exemplo: u64,
}

/// A picture of the system: all that the commands report.
pub struct Instantaneo<'a> {
    pub arch: &'a str,
    pub kernel: &'a str,
    pub versao: &'a str,
    pub cpu: &'a str,
    /// The fault that a stack overflow raises.
    pub falha_de_pilha: &'a str,
    pub video: Option<Video>,
    pub ticks: u64,
    pub uptime_ms: u64,
    pub timer_hz: u32,
    pub saida: crate::serial::Saida,
    pub log: &'a Anel,
    pub maquina: &'a Maquina,
    pub frames: &'a Alocador,
    pub heap: crate::heap::Estatisticas,
    pub linhas: &'a Linhas,
    pub executor: &'a Executor,
    pub entrada: &'a Entrada,
    /// Threads that are not over, switches, and quanta that ran out.
    pub fios: (usize, u64, u64),
    pub inscricoes: &'a [FioInscrito],
    pub falhas_total: u64,
    /// Exceptions of which only the count is known.
    pub falhas_perdidas: u64,
    pub falhas_por_tipo: &'a [PorTipo],
    pub ultima_falha: Option<Falha>,
    pub usuario: Usuario,
    /// Where the address that was asked for is translated to.
    pub traducao: Option<u64>,
    /// How many exceptions there were before the one that was asked for.
    pub falhas_antes: u64,
    /// The thread of the program that was asked for, or why there is none.
    pub lancamento: Result<u64, &'static str>,
}

impl<'a> Instantaneo<'a> {
    /// Every part of the picture is sound.
    pub open spec fn wf(&self) -> bool {
        &&& self.log.wf()
        &&& self.maquina.wf()
        &&& crate::machine::soma_de(self.maquina.regioes(), false) <= u64::MAX
        &&& self.frames.wf()
        &&& self.linhas.wf()
        &&& self.executor.wf()
        &&& self.entrada.wf()
    }
}

/// The number that a field of the parameters holds.
pub open spec fn inteiro(params: Seq<u8>, nome: &str) -> Option<u64> {
    match crate::agent::protocol::membro(params, nome) {
        Some(v) => crate::agent::registry::inteiro_do_valor(v),
        None => None,
    }
}

/// The text that a field of the parameters holds.
pub open spec fn texto(params: Seq<u8>, nome: &str) -> Option<Seq<char>> {
    match crate::agent::protocol::membro(params, nome) {
        Some(v) => crate::agent::protocol::texto_do_valor(v),
        None => None,
    }
}

/// The truth value that a field of the parameters holds.
pub open spec fn logico(params: Seq<u8>, nome: &str) -> Option<bool> {
    match crate::agent::protocol::membro(params, nome) {
        Some(v) => crate::agent::registry::logico_do_valor(v),
        None => None,
    }
}

fn ler_inteiro(params: Json<'_>, nome: &str) -> (r: Option<u64>)
    ensures
        r == inteiro(params.0@, nome),
{
    match params.member(nome) {
        Some(v) => v.as_u64(),
        None => None,
    }
}

fn ler_texto<'a>(params: Json<'a>, nome: &str) -> (r: Option<&'a str>)
    ensures
        match r {
            Some(s) => texto(params.0@, nome) == Some(s@),
            None => texto(params.0@, nome) is None,
        },
{
    match params.member(nome) {
        Some(v) => v.as_str(),
        None => None,
    }
}

fn ler_logico(params: Json<'_>, nome: &str) -> (r: Option<bool>)
    ensures
        r == logico(params.0@, nome),
{
    match params.member(nome) {
        Some(v) => v.as_bool(),
        None => None,
    }
}

/// What `agent.ping` answers.
pub open spec fn doc_ping(s: &Instantaneo) -> Valor {
    Campos::nenhum().logico("pong"@, true).texto("arch"@, s.arch@).numero(
        "log_seq"@,
        s.log.total() as int,
    ).objeto()
}

fn ping(w: &mut JsonWriter, s: &Instantaneo<'_>)
    requires
        old(w)@.nivel <= u32::MAX - 6,
        s.wf(),
    ensures
        final(w)@ == crate::agent::json::percorrida(old(w)@, doc_ping(s)),
{
    w.begin_object();
    w.field_bool("pong", true);
    w.field_str("arch", s.arch);
    w.field_u64("log_seq", crate::log::total_emitidos(s.log));
    w.end_object();
}

/// A parameter, as `agent.describe` shows it.
pub open spec fn doc_param(p: ParamSpec) -> Valor {
    Campos::nenhum().texto("name"@, p.nome@).texto("type"@, p.tipo.nome_spec()@).logico(
        "required"@,
        p.obrigatorio,
    ).texto("description"@, p.descricao@).objeto()
}

/// The parameters of a command.
pub open spec fn doc_params(h: Handler) -> Seq<Valor> {
    h.params_spec().map_values(|p: ParamSpec| doc_param(p))
}

/// A command, as `agent.describe` shows it.
pub open spec fn doc_comando(h: Handler) -> Valor {
    Campos::nenhum().texto("name"@, h.nome_spec()@).texto("summary"@, h.resumo_spec()@).mais(
        "params"@,
        Valor::Lista(doc_params(h)),
    ).objeto()
}

/// Every command.
pub open spec fn doc_comandos() -> Seq<Valor> {
    crate::agent::registry::todos().map_values(|h: Handler| doc_comando(h))
}

/// What `agent.describe` answers.
pub open spec fn doc_describe(s: &Instantaneo) -> Valor {
    Campos::nenhum().texto("protocol"@, "jsonrpc-2.0"@).texto("transport"@, "serial-ndjson"@).texto(
        "kernel"@,
        s.kernel@,
    ).texto("version"@, s.versao@).texto("arch"@, s.arch@).mais(
        "commands"@,
        Valor::Lista(doc_comandos()),
    ).objeto()
}

fn descrever_param(w: &mut JsonWriter, p: &ParamSpec)
    requires
        old(w)@.nivel <= u32::MAX - 2,
    ensures
        final(w)@ == crate::agent::json::percorrida(old(w)@, doc_param(*p)),
        final(w)@.nivel == old(w)@.nivel,
{
    w.begin_object();
    w.field_str("name", p.nome);
    w.field_str("type", p.tipo.nome());
    w.field_bool("required", p.obrigatorio);
    w.field_str("description", p.descricao);
    w.end_object();
}

fn descrever_comando(w: &mut JsonWriter, h: Handler)
    requires
        old(w)@.nivel <= u32::MAX - 4,
    ensures
        final(w)@ == crate::agent::json::percorrida(old(w)@, doc_comando(h)),
        final(w)@.nivel == old(w)@.nivel,
{
    let ghost antes = w@;
    w.begin_object();
    w.field_str("name", h.nome());
    w.field_str("summary", h.resumo());
    w.key("params");
    w.begin_array();
    let params = h.params();
    let ghost lista = doc_params(h);
    let ghost e = w@;
    let mut i: usize = 0;
    while i < params.len()
        invariant
            i <= params@.len(),
            params@ == h.params_spec(),
            lista == doc_params(h),
            e.nivel <= u32::MAX - 2,
            w@.nivel == e.nivel,
            w@ == crate::agent::json::itens_percorridos(e, lista, i as nat),
        decreases params@.len() - i,
    {
        descrever_param(w, &params[i]);
        i = i + 1;
    }
    w.end_array();
    w.end_object();
}

fn describe(w: &mut JsonWriter, s: &Instantaneo<'_>)
    requires
        old(w)@.nivel <= u32::MAX - 6,
        s.wf(),
    ensures
        final(w)@ == crate::agent::json::percorrida(old(w)@, doc_describe(s)),
{
    w.begin_object();
    w.field_str("protocol", "jsonrpc-2.0");
    w.field_str("transport", "serial-ndjson");
    w.field_str("kernel", s.kernel);
    w.field_str("version", s.versao);
    w.field_str("arch", s.arch);
    w.key("commands");
    w.begin_array();
    let tabela = comandos();
    let ghost lista = doc_comandos();
    let ghost e = w@;
    let mut i: usize = 0;
    while i < tabela.len()
        invariant
            i <= tabela@.len(),
            tabela@ == crate::agent::registry::todos(),
            lista == doc_comandos(),
            e.nivel <= u32::MAX - 4,
            w@.nivel == e.nivel,
            w@ == crate::agent::json::itens_percorridos(e, lista, i as nat),
        decreases tabela@.len() - i,
    {
        descrever_comando(w, tabela[i]);
        i = i + 1;
    }
    w.end_array();
    w.end_object();
}

/// The screen, or `null`.
pub open spec fn doc_video(v: Option<Video>) -> Valor {
    match v {
        Some(v) => Campos::nenhum().numero("width"@, v.largura as int).numero(
            "height"@,
            v.altura as int,
        ).numero("stride"@, v.stride as int).numero(
            "bytes_per_pixel"@,
            v.bytes_por_pixel as int,
        ).texto("pixel_format"@, v.formato@).objeto(),
        None => Valor::Cru("null"@),
    }
}

fn escrever_video(w: &mut JsonWriter, v: Option<Video>)
    requires
        old(w)@.nivel <= u32::MAX - 2,
    ensures
        final(w)@ == crate::agent::json::percorrida(old(w)@, doc_video(v)),
        final(w)@.nivel == old(w)@.nivel,
{
    match v {
        Some(v) => {
            w.begin_object();
            w.field_u64("width", v.largura);
            w.field_u64("height", v.altura);
            w.field_u64("stride", v.stride);
            w.field_u64("bytes_per_pixel", v.bytes_por_pixel);
            w.field_str("pixel_format", v.formato);
            w.end_object();
        },
        None => w.null_value(),
    }
}

/// How a stack overflow shows.
pub open spec fn doc_guarda(falha: Seq<char>) -> Valor {
    Campos::nenhum().texto("mechanism"@, "guard-page"@).texto("fault"@, falha).objeto()
}

/// What `system.info` answers.
pub open spec fn doc_system_info(s: &Instantaneo) -> Valor {
    Campos::nenhum().texto("arch"@, s.arch@).texto("kernel"@, s.kernel@).texto(
        "version"@,
        s.versao@,
    ).texto("phase"@, "0"@).texto("cpu_vendor"@, s.cpu@).mais(
        "framebuffer"@,
        doc_video(s.video),
    ).numero("uptime_ms"@, s.uptime_ms as int).numero("log_records"@, s.log.total() as int).numero(
        "output_bytes_lost"@,
        s.saida.perdidos as int,
    ).mais(
        "stack_guard"@,
        doc_guarda(s.falha_de_pilha@),
    ).objeto()
}

fn system_info(w: &mut JsonWriter, s: &Instantaneo<'_>)
    requires
        old(w)@.nivel <= u32::MAX - 6,
        s.wf(),
    ensures
        final(w)@ == crate::agent::json::percorrida(old(w)@, doc_system_info(s)),
{
    w.begin_object();
    w.field_str("arch", s.arch);
    w.field_str("kernel", s.kernel);
    w.field_str("version", s.versao);
    w.field_str("phase", "0");
    w.field_str("cpu_vendor", s.cpu);
    w.key("framebuffer");
    escrever_video(w, s.video);
    w.field_u64("uptime_ms", s.uptime_ms);
    w.field_u64("log_records", crate::log::total_emitidos(s.log));
    w.field_u64("output_bytes_lost", crate::serial::bytes_de_saida_perdidos(&s.saida));
    w.key("stack_guard");
    w.begin_object();
    w.field_str("mechanism", "guard-page");
    w.field_str("fault", s.falha_de_pilha);
    w.end_object();
    w.end_object();
}

/// What `system.uptime` answers.
pub open spec fn doc_system_uptime(s: &Instantaneo) -> Valor {
    Campos::nenhum().numero("ticks"@, s.ticks as int).numero("uptime_ms"@, s.uptime_ms as int).numero(
        "timer_hz"@,
        s.timer_hz as int,
    ).logico("timer_active"@, s.timer_hz > 0).objeto()
}

fn system_uptime(w: &mut JsonWriter, s: &Instantaneo<'_>)
    requires
        old(w)@.nivel <= u32::MAX - 6,
        s.wf(),
    ensures
        final(w)@ == crate::agent::json::percorrida(old(w)@, doc_system_uptime(s)),
{
    w.begin_object();
    w.field_u64("ticks", s.ticks);
    w.field_u64("uptime_ms", s.uptime_ms);
    w.field_u64("timer_hz", s.timer_hz as u64);
    w.field_bool("timer_active", s.timer_hz > 0);
    w.end_object();
}

/// What `memory.frames` answers.
pub open spec fn doc_memory_frames(s: &Instantaneo) -> Valor {
    let livres = crate::frames::contar(s.frames.livre()) as int;
    let rastreados = s.frames.livre().len() as int;
    Campos::nenhum().numero("frame_size"@, TAMANHO_FRAME as int).numero(
        "base"@,
        s.frames.base() as int,
    ).numero("tracked"@, rastreados).numero("free"@, livres).numero("used"@, rastreados - livres).numero(
        "free_bytes"@,
        livres * TAMANHO_FRAME,
    ).objeto()
}

fn memory_frames(w: &mut JsonWriter, s: &Instantaneo<'_>)
    requires
        old(w)@.nivel <= u32::MAX - 6,
        s.wf(),
    ensures
        final(w)@ == crate::agent::json::percorrida(old(w)@, doc_memory_frames(s)),
{
    let (livres, rastreados) = crate::frames::estatisticas(s.frames);
    w.begin_object();
    w.field_u64("frame_size", TAMANHO_FRAME);
    w.field_u64("base", crate::frames::base(s.frames));
    w.field_u64("tracked", rastreados as u64);
    w.field_u64("free", livres as u64);
    w.field_u64("used", (rastreados - livres) as u64);
    w.field_u64("free_bytes", livres as u64 * TAMANHO_FRAME);
    w.end_object();
}

/// What `heap.stats` answers.
pub open spec fn doc_heap_stats(s: &Instantaneo) -> Valor {
    let e = s.heap;
    Campos::nenhum().numero("total_bytes"@, e.total as int).numero(
        "allocated_bytes"@,
        e.alocado as int,
    ).numero("free_bytes"@, e.livre as int).numero("free_blocks"@, e.blocos_livres as int).numero(
        "largest_free_block"@,
        e.maior_bloco as int,
    ).numero("allocations"@, e.alocacoes as int).numero("deallocations"@, e.liberacoes as int).numero(
        "failures"@,
        e.falhas as int,
    ).objeto()
}

fn heap_stats(w: &mut JsonWriter, s: &Instantaneo<'_>)
    requires
        old(w)@.nivel <= u32::MAX - 6,
        s.wf(),
    ensures
        final(w)@ == crate::agent::json::percorrida(old(w)@, doc_heap_stats(s)),
{
    let e = &s.heap;
    w.begin_object();
    w.field_u64("total_bytes", e.total as u64);
    w.field_u64("allocated_bytes", e.alocado as u64);
    w.field_u64("free_bytes", e.livre as u64);
    w.field_u64("free_blocks", e.blocos_livres as u64);
    w.field_u64("largest_free_block", e.maior_bloco as u64);
    w.field_u64("allocations", e.alocacoes);
    w.field_u64("deallocations", e.liberacoes);
    w.field_u64("failures", e.falhas);
    w.end_object();
}

/// The address that `paging.translate` is asked about.
pub open spec fn endereco_pedido(params: Seq<u8>) -> u64 {
    match inteiro(params, "address") {
        Some(v) => v,
        None => 0,
    }
}

fn ler_endereco(params: Json<'_>) -> (r: u64)
    ensures
        r == endereco_pedido(params.0@),
{
    match ler_inteiro(params, "address") {
        Some(v) => v,
        None => 0,
    }
}

/// What `paging.translate` answers.
pub open spec fn doc_paging_translate(s: &Instantaneo, params: Seq<u8>) -> Valor {
    let base = Campos::nenhum().numero("virtual"@, endereco_pedido(params) as int);
    match s.traducao {
        Some(fisico) => base.logico("mapped"@, true).numero("physical"@, fisico as int).objeto(),
        None => base.logico("mapped"@, false).nulo("physical"@).objeto(),
    }
}

fn paging_translate(w: &mut JsonWriter, s: &Instantaneo<'_>, params: Json<'_>)
    requires
        old(w)@.nivel <= u32::MAX - 6,
        s.wf(),
    ensures
        final(w)@ == crate::agent::json::percorrida(old(w)@, doc_paging_translate(s, params.0@)),
{
    let virtual_: u64 = ler_endereco(params);
    w.begin_object();
    w.field_u64("virtual", virtual_);
    match s.traducao {
        Some(fisico) => {
            w.field_bool("mapped", true);
            w.field_u64("physical", fisico);
        },
        None => {
            w.field_bool("mapped", false);
            w.key("physical");
            w.null_value();
        },
    }
    w.end_object();
}

/// A line of interrupts.
pub open spec fn doc_linha(x: Contagem) -> Valor {
    Campos::nenhum().numero("line"@, x.linha as int).texto("name"@, x.nome@).numero(
        "count"@,
        x.total as int,
    ).objeto()
}

fn escrever_linha(w: &mut JsonWriter, x: &Contagem)
    requires
        old(w)@.nivel <= u32::MAX - 2,
    ensures
        final(w)@ == crate::agent::json::percorrida(old(w)@, doc_linha(*x)),
        final(w)@.nivel == old(w)@.nivel,
{
    w.begin_object();
    w.field_u64("line", x.linha as u64);
    w.field_str("name", x.nome);
    w.field_u64("count", x.total);
    w.end_object();
}

/// The lines of interrupts that fired.
pub open spec fn disparadas(s: &Instantaneo) -> Seq<Contagem> {
    crate::irq::disparadas(s.linhas.contadores(), s.linhas.nomes(), crate::irq::MAX_LINHAS as int)
}

/// What `irq.stats` answers.
pub open spec fn doc_irq_stats(s: &Instantaneo) -> Valor {
    Campos::nenhum().numero("total"@, s.linhas.total_spec() as int).mais(
        "lines"@,
        Valor::Lista(disparadas(s).map_values(|x| doc_linha(x))),
    ).numero("above_limit"@, s.linhas.fora() as int).objeto()
}

fn irq_stats(w: &mut JsonWriter, s: &Instantaneo<'_>)
    requires
        old(w)@.nivel <= u32::MAX - 6,
        s.wf(),
    ensures
        final(w)@ == crate::agent::json::percorrida(old(w)@, doc_irq_stats(s)),
{
    w.begin_object();
    w.field_u64("total", crate::irq::total(s.linhas));
    w.key("lines");
    let contagens = crate::irq::com_contadores(s.linhas);
    w.begin_array();
    let ghost lista = disparadas(s).map_values(|x| doc_linha(x));
    let ghost e = w@;
    let mut i: usize = 0;
    while i < contagens.len()
        invariant
            i <= contagens@.len(),
            lista == contagens@.map_values(|x| doc_linha(x)),
            e.nivel <= u32::MAX - 4,
            w@.nivel == e.nivel,
            w@ == crate::agent::json::itens_percorridos(e, lista, i as nat),
        decreases contagens@.len() - i,
    {
        escrever_linha(w, &contagens[i]);
        i = i + 1;
    }
    w.end_array();
    w.field_u64("above_limit", crate::irq::fora_do_teto(s.linhas));
    w.end_object();
}

/// The queue of the channel.
pub open spec fn doc_entrada(e: &Entrada) -> Valor {
    Campos::nenhum().numero("queued"@, e.pendentes().len() as int).numero(
        "capacity"@,
        crate::tarefas::entrada::CAPACIDADE as int,
    ).numero("dropped"@, e.perdidos_spec() as int).numero(
        "dropped_at_boot"@,
        e.no_boot() as int,
    ).objeto()
}

/// How many tasks are alive: those that started and did not finish.
pub open spec fn vivas(s: &Instantaneo) -> int {
    let c = s.executor.contadores();
    if c.lancadas >= c.concluidas {
        c.lancadas - c.concluidas
    } else {
        0
    }
}

/// What `tasks.stats` answers.
pub open spec fn doc_tasks_stats(s: &Instantaneo) -> Valor {
    let c = s.executor.contadores();
    Campos::nenhum().numero("spawned"@, c.lancadas as int).numero(
        "completed"@,
        c.concluidas as int,
    ).numero("alive"@, vivas(s)).numero("polls"@, c.avancos as int).numero(
        "wakes"@,
        c.despertares as int,
    ).numero("never_scheduled"@, c.nunca_agendadas as int).mais("input"@, doc_entrada(s.entrada)).objeto()
}

fn tasks_stats(w: &mut JsonWriter, s: &Instantaneo<'_>)
    requires
        old(w)@.nivel <= u32::MAX - 6,
        s.wf(),
    ensures
        final(w)@ == crate::agent::json::percorrida(old(w)@, doc_tasks_stats(s)),
{
    let c = crate::tarefas::executor::estatisticas(s.executor);
    let (ocupacao, capacidade, descartados) = crate::tarefas::entrada::estatisticas(s.entrada);
    w.begin_object();
    w.field_u64("spawned", c.lancadas);
    w.field_u64("completed", c.concluidas);
    w.field_u64("alive", c.lancadas.saturating_sub(c.concluidas));
    w.field_u64("polls", c.avancos);
    w.field_u64("wakes", c.despertares);
    w.field_u64("never_scheduled", c.nunca_agendadas);
    w.key("input");
    w.begin_object();
    w.field_u64("queued", ocupacao as u64);
    w.field_u64("capacity", capacidade as u64);
    w.field_u64("dropped", descartados);
    w.field_u64("dropped_at_boot", crate::tarefas::entrada::descartados_no_boot(s.entrada));
    w.end_object();
    w.end_object();
}

/// A task.
pub open spec fn doc_tarefa(x: TarefaInscrita) -> Valor {
    Campos::nenhum().numero("id"@, x.id as int).texto("name"@, x.nome@).logico(
        "alive"@,
        x.viva,
    ).objeto()
}

fn escrever_tarefa(w: &mut JsonWriter, x: &TarefaInscrita)
    requires
        old(w)@.nivel <= u32::MAX - 2,
    ensures
        final(w)@ == crate::agent::json::percorrida(old(w)@, doc_tarefa(*x)),
        final(w)@.nivel == old(w)@.nivel,
{
    w.begin_object();
    w.field_u64("id", x.id);
    w.field_str("name", x.nome);
    w.field_bool("alive", x.viva);
    w.end_object();
}

/// The tasks of the inventory.
pub open spec fn inventario(s: &Instantaneo) -> Seq<TarefaInscrita> {
    crate::tarefas::executor::linhas(
        s.executor.inventario(),
        crate::tarefas::executor::MAX_INVENTARIO as int,
    )
}

/// What `tasks.list` answers: the rows of the inventory, how many it holds at most, and how many
/// tasks came after it was full and are missing from the rows.
pub open spec fn doc_tasks_list(s: &Instantaneo) -> Valor {
    Campos::nenhum().mais(
        "tasks"@,
        Valor::Lista(inventario(s).map_values(|x| doc_tarefa(x))),
    ).numero("capacity"@, crate::tarefas::executor::MAX_INVENTARIO as int).numero(
        "unlisted"@,
        s.executor.contadores().fora_do_inventario as int,
    ).objeto()
}

fn tasks_list(w: &mut JsonWriter, s: &Instantaneo<'_>)
    requires
        old(w)@.nivel <= u32::MAX - 6,
        s.wf(),
    ensures
        final(w)@ == crate::agent::json::percorrida(old(w)@, doc_tasks_list(s)),
{
    w.begin_object();
    w.key("tasks");
    let tarefas = crate::tarefas::executor::com_inventario(s.executor);
    w.begin_array();
    let ghost lista = inventario(s).map_values(|x| doc_tarefa(x));
    let ghost e = w@;
    let mut i: usize = 0;
    while i < tarefas.len()
        invariant
            i <= tarefas@.len(),
            lista == tarefas@.map_values(|x| doc_tarefa(x)),
            e.nivel <= u32::MAX - 4,
            w@.nivel == e.nivel,
            w@ == crate::agent::json::itens_percorridos(e, lista, i as nat),
        decreases tarefas@.len() - i,
    {
        escrever_tarefa(w, &tarefas[i]);
        i = i + 1;
    }
    w.end_array();
    w.field_u64("capacity", crate::tarefas::executor::capacidade_do_inventario() as u64);
    w.field_u64(
        "unlisted",
        crate::tarefas::executor::estatisticas(s.executor).fora_do_inventario,
    );
    w.end_object();
}

/// What `user.run` answers.
pub open spec fn doc_user_run(s: &Instantaneo) -> Valor {
    match s.lancamento {
        Ok(id) => Campos::nenhum().logico("launched"@, true).numero("thread_id"@, id as int).objeto(),
        Err(motivo) => Campos::nenhum().logico("launched"@, false).texto("error"@, motivo@).objeto(),
    }
}

fn user_run(w: &mut JsonWriter, s: &Instantaneo<'_>)
    requires
        old(w)@.nivel <= u32::MAX - 6,
        s.wf(),
    ensures
        final(w)@ == crate::agent::json::percorrida(old(w)@, doc_user_run(s)),
{
    w.begin_object();
    match s.lancamento {
        Ok(id) => {
            w.field_bool("launched", true);
            w.field_u64("thread_id", id);
        },
        Err(motivo) => {
            w.field_bool("launched", false);
            w.field_str("error", motivo);
        },
    }
    w.end_object();
}

/// The code of the last process that ended, or `null`.
pub open spec fn doc_saida(v: Option<i64>) -> Valor {
    Valor::Cru(
        match v {
            Some(codigo) => crate::texto::decimal_com_sinal(codigo as int),
            None => "null"@,
        },
    )
}

/// What `user.stats` answers.
pub open spec fn doc_user_stats(s: &Instantaneo) -> Valor {
    let u = s.usuario;
    Campos::nenhum().numero("syscalls"@, u.chamadas as int).numero("rejected"@, u.recusadas as int).numero(
        "bytes_written"@,
        u.bytes as int,
    ).mais("last_exit"@, doc_saida(u.ultima_saida)).numero("user_base"@, u.base as int).numero(
        "user_top"@,
        u.teto as int,
    ).numero("example_exit_code"@, u.codigo_do_exemplo as int).objeto()
}

fn user_stats(w: &mut JsonWriter, s: &Instantaneo<'_>)
    requires
        old(w)@.nivel <= u32::MAX - 6,
        s.wf(),
    ensures
        final(w)@ == crate::agent::json::percorrida(old(w)@, doc_user_stats(s)),
{
    let u = &s.usuario;
    w.begin_object();
    w.field_u64("syscalls", u.chamadas);
    w.field_u64("rejected", u.recusadas);
    w.field_u64("bytes_written", u.bytes);
    w.key("last_exit");
    match u.ultima_saida {
        Some(codigo) => w.i64_value(codigo),
        None => w.null_value(),
    }
    w.field_u64("user_base", u.base);
    w.field_u64("user_top", u.teto);
    w.field_u64("example_exit_code", u.codigo_do_exemplo);
    w.end_object();
}

/// What `threads.stats` answers.
pub open spec fn doc_threads_stats(s: &Instantaneo) -> Valor {
    Campos::nenhum().numero("alive"@, s.fios.0 as int).numero(
        "context_switches"@,
        s.fios.1 as int,
    ).numero("quantum_expirations"@, s.fios.2 as int).numero(
        "quantum_ticks"@,
        QUANTUM_EM_TIQUES as int,
    ).numero("max_threads"@, MAX_FIOS as int).objeto()
}

fn threads_stats(w: &mut JsonWriter, s: &Instantaneo<'_>)
    requires
        old(w)@.nivel <= u32::MAX - 6,
        s.wf(),
    ensures
        final(w)@ == crate::agent::json::percorrida(old(w)@, doc_threads_stats(s)),
{
    w.begin_object();
    w.field_u64("alive", s.fios.0 as u64);
    w.field_u64("context_switches", s.fios.1);
    w.field_u64("quantum_expirations", s.fios.2);
    w.field_u64("quantum_ticks", QUANTUM_EM_TIQUES as u64);
    w.field_u64("max_threads", MAX_FIOS as u64);
    w.end_object();
}

/// A thread.
pub open spec fn doc_fio(x: FioInscrito) -> Valor {
    Campos::nenhum().numero("id"@, x.id as int).texto("name"@, x.nome@).texto(
        "state"@,
        x.estado@,
    ).numero("scheduled"@, x.escalonamentos as int).objeto()
}

fn escrever_fio(w: &mut JsonWriter, x: &FioInscrito)
    requires
        old(w)@.nivel <= u32::MAX - 2,
    ensures
        final(w)@ == crate::agent::json::percorrida(old(w)@, doc_fio(*x)),
        final(w)@.nivel == old(w)@.nivel,
{
    w.begin_object();
    w.field_u64("id", x.id);
    w.field_str("name", x.nome);
    w.field_str("state", x.estado);
    w.field_u64("scheduled", x.escalonamentos);
    w.end_object();
}

/// What `threads.list` answers.
pub open spec fn doc_threads_list(s: &Instantaneo) -> Valor {
    Campos::nenhum().mais(
        "threads"@,
        Valor::Lista(s.inscricoes@.map_values(|x| doc_fio(x))),
    ).objeto()
}

fn threads_list(w: &mut JsonWriter, s: &Instantaneo<'_>)
    requires
        old(w)@.nivel <= u32::MAX - 6,
        s.wf(),
    ensures
        final(w)@ == crate::agent::json::percorrida(old(w)@, doc_threads_list(s)),
{
    w.begin_object();
    w.key("threads");
    let inscricoes = s.inscricoes;
    w.begin_array();
    let ghost lista = s.inscricoes@.map_values(|x| doc_fio(x));
    let ghost e = w@;
    let mut i: usize = 0;
    while i < inscricoes.len()
        invariant
            i <= inscricoes@.len(),
            lista == inscricoes@.map_values(|x| doc_fio(x)),
            e.nivel <= u32::MAX - 4,
            w@.nivel == e.nivel,
            w@ == crate::agent::json::itens_percorridos(e, lista, i as nat),
        decreases inscricoes@.len() - i,
    {
        escrever_fio(w, &inscricoes[i]);
        i = i + 1;
    }
    w.end_array();
    w.end_object();
}

/// What `memory.stats` answers.
pub open spec fn doc_memory_stats(s: &Instantaneo) -> Valor {
    let m = s.maquina;
    Campos::nenhum().numero(
        "usable_bytes"@,
        crate::machine::soma_de(m.regioes(), true),
    ).numero("total_bytes"@, crate::machine::soma_de(m.regioes(), false)).numero(
        "region_count"@,
        m.regioes().len() as int,
    ).numero("dropped_regions"@, m.descartadas() as int).objeto()
}

fn memory_stats(w: &mut JsonWriter, s: &Instantaneo<'_>)
    requires
        old(w)@.nivel <= u32::MAX - 6,
        s.wf(),
    ensures
        final(w)@ == crate::agent::json::percorrida(old(w)@, doc_memory_stats(s)),
{
    let (utilizavel, total, regioes) = crate::machine::estatisticas(s.maquina);
    w.begin_object();
    w.field_u64("usable_bytes", utilizavel);
    w.field_u64("total_bytes", total);
    w.field_u64("region_count", regioes as u64);
    w.field_u64("dropped_regions", crate::machine::regioes_descartadas(s.maquina) as u64);
    w.end_object();
}

/// A region of memory.
pub open spec fn doc_regiao(r: Regiao) -> Valor {
    Campos::nenhum().numero("start"@, r.inicio as int).numero("end"@, r.fim as int).numero(
        "size"@,
        r.fim - r.inicio,
    ).texto("kind"@, r.tipo.nome_spec()).objeto()
}

fn escrever_regiao(w: &mut JsonWriter, r: &Regiao)
    requires
        old(w)@.nivel <= u32::MAX - 2,
        r.valida(),
    ensures
        final(w)@ == crate::agent::json::percorrida(old(w)@, doc_regiao(*r)),
        final(w)@.nivel == old(w)@.nivel,
{
    w.begin_object();
    w.field_u64("start", r.inicio);
    w.field_u64("end", r.fim);
    w.field_u64("size", r.tamanho());
    w.field_str("kind", r.tipo.nome());
    w.end_object();
}

/// The regions that are asked for: all of them, or the usable ones.
pub open spec fn escolhidas(s: Seq<Regiao>, so_utilizaveis: bool) -> Seq<Regiao>
    decreases s.len(),
{
    if s.len() == 0 {
        Seq::empty()
    } else if so_utilizaveis && s.last().tipo != TipoRegiao::Utilizavel {
        escolhidas(s.drop_last(), so_utilizaveis)
    } else {
        escolhidas(s.drop_last(), so_utilizaveis).push(s.last())
    }
}

/// At most `limite` of them.
pub open spec fn ate<T>(s: Seq<T>, limite: u64) -> Seq<T> {
    if s.len() <= limite {
        s
    } else {
        s.take(limite as int)
    }
}

/// The regions that `memory.regions` lists.
pub open spec fn listadas(s: Seq<Regiao>, params: Seq<u8>) -> Seq<Regiao> {
    ate(
        escolhidas(
            s,
            match logico(params, "usable_only") {
                Some(b) => b,
                None => false,
            },
        ),
        match inteiro(params, "limit") {
            Some(n) => n,
            None => u64::MAX,
        },
    )
}

/// What `memory.regions` answers.
pub open spec fn doc_memory_regions(s: &Instantaneo, params: Seq<u8>) -> Valor {
    let regioes = listadas(s.maquina.regioes(), params);
    Campos::nenhum().mais(
        "regions"@,
        Valor::Lista(regioes.map_values(|r: Regiao| doc_regiao(r))),
    ).numero("count"@, regioes.len() as int).objeto()
}

/// Collects the regions that are asked for, in order.
fn escolher(regioes: &[Regiao], so_utilizaveis: bool, limite: u64) -> (r: Vec<Regiao>)
    requires
        forall|i: int| 0 <= i < regioes@.len() ==> (#[trigger] regioes@[i]).valida(),
    ensures
        r@ == ate(escolhidas(regioes@, so_utilizaveis), limite),
        forall|i: int| 0 <= i < r@.len() ==> (#[trigger] r@[i]).valida(),
{
    let mut saida: Vec<Regiao> = Vec::new();
    let mut i: usize = 0;
    while i < regioes.len()
        invariant
            i <= regioes@.len(),
            forall|j: int| 0 <= j < regioes@.len() ==> (#[trigger] regioes@[j]).valida(),
            forall|j: int| 0 <= j < saida@.len() ==> (#[trigger] saida@[j]).valida(),
            saida@ == ate(escolhidas(regioes@.take(i as int), so_utilizaveis), limite),
        decreases regioes@.len() - i,
    {
        proof {
            assert(regioes@.take(i + 1).drop_last() =~= regioes@.take(i as int));
        }
        let ghost antes = saida@;
        let ghost todas = escolhidas(regioes@.take(i as int), so_utilizaveis);
        if (saida.len() as u64) < limite && !(so_utilizaveis && regioes[i].tipo
            != TipoRegiao::Utilizavel) {
            saida.push(regioes[i]);
        }
        proof {
            let mais = escolhidas(regioes@.take(i + 1), so_utilizaveis);
            assert(saida@ =~= ate(mais, limite));
        }
        i = i + 1;
    }
    proof {
        assert(regioes@.take(regioes@.len() as int) =~= regioes@);
    }
    saida
}

fn memory_regions(w: &mut JsonWriter, s: &Instantaneo<'_>, params: Json<'_>)
    requires
        old(w)@.nivel <= u32::MAX - 6,
        s.wf(),
    ensures
        final(w)@ == crate::agent::json::percorrida(old(w)@, doc_memory_regions(s, params.0@)),
{
    let limite: u64 = match ler_inteiro(params, "limit") {
        Some(n) => n,
        None => u64::MAX,
    };
    let so_utilizaveis: bool = match ler_logico(params, "usable_only") {
        Some(b) => b,
        None => false,
    };
    let regioes = escolher(crate::machine::com_regioes(s.maquina), so_utilizaveis, limite);
    w.begin_object();
    w.key("regions");
    w.begin_array();
    let ghost lista = listadas(s.maquina.regioes(), params.0@).map_values(|r: Regiao| doc_regiao(r));
    let ghost e = w@;
    let mut i: usize = 0;
    while i < regioes.len()
        invariant
            i <= regioes@.len(),
            forall|j: int| 0 <= j < regioes@.len() ==> (#[trigger] regioes@[j]).valida(),
            lista == regioes@.map_values(|r: Regiao| doc_regiao(r)),
            e.nivel <= u32::MAX - 4,
            w@.nivel == e.nivel,
            w@ == crate::agent::json::itens_percorridos(e, lista, i as nat),
        decreases regioes@.len() - i,
    {
        escrever_regiao(w, &regioes[i]);
        i = i + 1;
    }
    w.end_array();
    w.field_u64("count", regioes.len() as u64);
    w.end_object();
}

/// How many exceptions of a type there were.
pub open spec fn doc_tipo(x: PorTipo) -> Valor {
    Campos::nenhum().texto("name"@, x.nome@).numero("count"@, x.total as int).objeto()
}

fn escrever_tipo(w: &mut JsonWriter, x: &PorTipo)
    requires
        old(w)@.nivel <= u32::MAX - 2,
    ensures
        final(w)@ == crate::agent::json::percorrida(old(w)@, doc_tipo(*x)),
        final(w)@.nivel == old(w)@.nivel,
{
    w.begin_object();
    w.field_str("name", x.nome);
    w.field_u64("count", x.total);
    w.end_object();
}

/// An address, or `null`.
pub open spec fn doc_endereco(v: Option<u64>) -> Valor {
    Valor::Cru(
        match v {
            Some(e) => crate::texto::decimal(e as nat),
            None => "null"@,
        },
    )
}

/// The last exception, or `null`.
pub open spec fn doc_falha(f: Option<Falha>) -> Valor {
    match f {
        Some(f) => Campos::nenhum().numero("seq"@, f.seq as int).texto("name"@, f.nome@).numero(
            "pc"@,
            f.pc as int,
        ).mais("address"@, doc_endereco(f.endereco)).numero("raw_code"@, f.codigo as int).objeto(),
        None => Valor::Cru("null"@),
    }
}

fn escrever_falha(w: &mut JsonWriter, f: Option<Falha>)
    requires
        old(w)@.nivel <= u32::MAX - 2,
    ensures
        final(w)@ == crate::agent::json::percorrida(old(w)@, doc_falha(f)),
        final(w)@.nivel == old(w)@.nivel,
{
    match f {
        Some(f) => {
            w.begin_object();
            w.field_u64("seq", f.seq);
            w.field_str("name", f.nome);
            w.field_u64("pc", f.pc);
            w.key("address");
            match f.endereco {
                Some(endereco) => w.u64_value(endereco),
                None => w.null_value(),
            }
            w.field_u64("raw_code", f.codigo);
            w.end_object();
        },
        None => w.null_value(),
    }
}

/// What `traps.stats` answers.
pub open spec fn doc_traps_stats(s: &Instantaneo) -> Valor {
    Campos::nenhum().numero("total"@, s.falhas_total as int).numero(
        "details_lost"@,
        s.falhas_perdidas as int,
    ).mais(
        "by_type"@,
        Valor::Lista(s.falhas_por_tipo@.map_values(|x: PorTipo| doc_tipo(x))),
    ).mais("last"@, doc_falha(s.ultima_falha)).objeto()
}

fn traps_stats(w: &mut JsonWriter, s: &Instantaneo<'_>)
    requires
        old(w)@.nivel <= u32::MAX - 6,
        s.wf(),
    ensures
        final(w)@ == crate::agent::json::percorrida(old(w)@, doc_traps_stats(s)),
{
    w.begin_object();
    w.field_u64("total", s.falhas_total);
    w.field_u64("details_lost", s.falhas_perdidas);
    w.key("by_type");
    w.begin_array();
    let tipos = s.falhas_por_tipo;
    let ghost lista = s.falhas_por_tipo@.map_values(|x: PorTipo| doc_tipo(x));
    let ghost e = w@;
    let mut i: usize = 0;
    while i < tipos.len()
        invariant
            i <= tipos@.len(),
            lista == tipos@.map_values(|x: PorTipo| doc_tipo(x)),
            e.nivel <= u32::MAX - 4,
            w@.nivel == e.nivel,
            w@ == crate::agent::json::itens_percorridos(e, lista, i as nat),
        decreases tipos@.len() - i,
    {
        escrever_tipo(w, &tipos[i]);
        i = i + 1;
    }
    w.end_array();
    w.key("last");
    escrever_falha(w, s.ultima_falha);
    w.end_object();
}

/// What `debug.trigger` is asked for.
#[derive(Clone, Copy, Debug, PartialEq, Eq, Structural)]
pub enum Gatilho {
    Breakpoint,
    Fatal,
    Outro,
}

/// The kind that the parameters ask for.
pub open spec fn tipo_pedido(params: Seq<u8>) -> Seq<char> {
    match texto(params, "kind") {
        Some(t) => t,
        None => ""@,
    }
}

/// What the parameters of `debug.trigger` ask for.
pub open spec fn gatilho(params: Seq<u8>) -> Gatilho {
    if tipo_pedido(params) == "breakpoint"@ {
        Gatilho::Breakpoint
    } else if tipo_pedido(params) == "fatal"@ {
        Gatilho::Fatal
    } else {
        Gatilho::Outro
    }
}

/// What `debug.trigger` answers.
pub open spec fn doc_debug_trigger(s: &Instantaneo, params: Seq<u8>) -> Valor {
    match gatilho(params) {
        Gatilho::Breakpoint => Campos::nenhum().texto("triggered"@, "breakpoint"@).logico(
            "survived"@,
            true,
        ).numero("traps_before"@, s.falhas_antes as int).numero(
            "traps_after"@,
            s.falhas_total as int,
        ).objeto(),
        Gatilho::Fatal => Campos::nenhum().texto("scheduled"@, "fatal"@).logico(
            "survived"@,
            false,
        ).texto(
            "warning"@,
            "o kernel falha logo apos esta resposta e entra em modo post-mortem"@,
        ).objeto(),
        Gatilho::Outro => Campos::nenhum().logico("survived"@, true).texto(
            "error"@,
            "tipo de excecao nao suportado"@,
        ).texto("requested"@, tipo_pedido(params)).texto("supported"@, "breakpoint, fatal"@).objeto(),
    }
}

fn ler_gatilho<'a>(params: Json<'a>) -> (r: (Gatilho, &'a str))
    ensures
        r.0 == gatilho(params.0@),
        r.1@ == tipo_pedido(params.0@),
{
    let tipo: &'a str = match ler_texto(params, "kind") {
        Some(t) => t,
        None => "",
    };
    if mesmo_texto(tipo, "breakpoint") {
        (Gatilho::Breakpoint, tipo)
    } else if mesmo_texto(tipo, "fatal") {
        (Gatilho::Fatal, tipo)
    } else {
        (Gatilho::Outro, tipo)
    }
}

fn debug_trigger(w: &mut JsonWriter, s: &Instantaneo<'_>, params: Json<'_>)
    requires
        old(w)@.nivel <= u32::MAX - 6,
        s.wf(),
    ensures
        final(w)@ == crate::agent::json::percorrida(old(w)@, doc_debug_trigger(s, params.0@)),
{
    let (pedido, tipo) = ler_gatilho(params);
    w.begin_object();
    match pedido {
        Gatilho::Breakpoint => {
            w.field_str("triggered", "breakpoint");
            w.field_bool("survived", true);
            w.field_u64("traps_before", s.falhas_antes);
            w.field_u64("traps_after", s.falhas_total);
        },
        Gatilho::Fatal => {
            w.field_str("scheduled", "fatal");
            w.field_bool("survived", false);
            w.field_str(
                "warning",
                "o kernel falha logo apos esta resposta e entra em modo post-mortem",
            );
        },
        Gatilho::Outro => {
            w.field_bool("survived", true);
            w.field_str("error", "tipo de excecao nao suportado");
            w.field_str("requested", tipo);
            w.field_str("supported", "breakpoint, fatal");
        },
    }
    w.end_object();
}

/// A record of the log.
pub open spec fn doc_registro(r: crate::log::Registro) -> Valor {
    Campos::nenhum().numero("seq"@, r.seq as int).numero("uptime_ms"@, r.uptime_ms as int).texto(
        "level"@,
        r.level.nome_spec(),
    ).texto("subsystem"@, r.subsistema).texto("message"@, r.mensagem).objeto()
}

fn escrever_registro(w: &mut JsonWriter, r: &Record)
    requires
        old(w)@.nivel <= u32::MAX - 2,
    ensures
        final(w)@ == crate::agent::json::percorrida(old(w)@, doc_registro(r@)),
        final(w)@.nivel == old(w)@.nivel,
{
    w.begin_object();
    w.field_u64("seq", r.seq);
    w.field_u64("uptime_ms", r.uptime_ms);
    w.field_str("level", r.level.nome());
    w.field_str("subsystem", r.subsistema);
    w.field_str("message", r.mensagem());
    w.end_object();
}

/// How many records `log.tail` looks at.
pub open spec fn quantos(params: Seq<u8>) -> int {
    match inteiro(params, "count") {
        Some(n) => if n <= u32::MAX {
            n as int
        } else {
            u32::MAX as int
        },
        None => 32,
    }
}

/// The least severe level that `log.tail` shows.
pub open spec fn minimo(params: Seq<u8>) -> Level {
    match texto(params, "min_level") {
        Some(t) => match Level::de_nome_spec(t) {
            Some(l) => l,
            None => Level::Trace,
        },
        None => Level::Trace,
    }
}

/// The records that `log.tail` shows.
pub open spec fn registros(s: &Instantaneo, params: Seq<u8>) -> Seq<crate::log::Registro> {
    crate::log::graves(crate::log::cauda(s.log.guardados(), quantos(params)), minimo(params))
}

/// What `log.tail` answers.
pub open spec fn doc_log_tail(s: &Instantaneo, params: Seq<u8>) -> Valor {
    Campos::nenhum().mais(
        "records"@,
        Valor::Lista(registros(s, params).map_values(|r: crate::log::Registro| doc_registro(r))),
    ).numero("total_emitted"@, s.log.total() as int).objeto()
}

fn log_tail(w: &mut JsonWriter, s: &Instantaneo<'_>, params: Json<'_>)
    requires
        old(w)@.nivel <= u32::MAX - 6,
        s.wf(),
    ensures
        final(w)@ == crate::agent::json::percorrida(old(w)@, doc_log_tail(s, params.0@)),
{
    let pedidos: u64 = match ler_inteiro(params, "count") {
        Some(n) => n,
        None => 32,
    };
    let quantidade: usize = if pedidos <= u32::MAX as u64 {
        pedidos as usize
    } else {
        u32::MAX as usize
    };
    let nivel_minimo: Level = match ler_texto(params, "min_level") {
        Some(t) => match Level::de_nome(t) {
            Some(l) => l,
            None => Level::Trace,
        },
        None => Level::Trace,
    };
    w.begin_object();
    w.key("records");
    w.begin_array();
    let ultimos = crate::log::ultimos(s.log, quantidade, nivel_minimo);
    let ghost lista = registros(s, params.0@).map_values(
        |r: crate::log::Registro| doc_registro(r),
    );
    let ghost e = w@;
    let mut i: usize = 0;
    while i < ultimos.len()
        invariant
            i <= ultimos@.len(),
            lista == crate::log::vistas(ultimos@).map_values(
                |r: crate::log::Registro| doc_registro(r),
            ),
            e.nivel <= u32::MAX - 4,
            w@.nivel == e.nivel,
            w@ == crate::agent::json::itens_percorridos(e, lista, i as nat),
        decreases ultimos@.len() - i,
    {
        escrever_registro(w, ultimos[i]);
        i = i + 1;
    }
    w.end_array();
    w.field_u64("total_emitted", crate::log::total_emitidos(s.log));
    w.end_object();
}

/// What is done to the system before a command answers.
#[derive(Clone, Copy, Debug, PartialEq, Eq, Structural)]
pub enum Preparo {
    Nada,
    /// Raise a breakpoint, noting how many exceptions there were before it.
    Breakpoint,
    /// Start the example program in a thread of its own.
    Lancar,
    /// Translate an address.
    Traduzir(u64),
}

/// What has to be done before a command answers.
pub open spec fn preparo_de(h: Handler, params: Seq<u8>) -> Preparo {
    match h {
        Handler::DebugTrigger => if gatilho(params) == Gatilho::Breakpoint {
            Preparo::Breakpoint
        } else {
            Preparo::Nada
        },
        Handler::UserRun => Preparo::Lancar,
        Handler::PagingTranslate => Preparo::Traduzir(endereco_pedido(params)),
        _ => Preparo::Nada,
    }
}

/// What has to be done before a command answers.
pub fn preparo(h: Handler, params: Json<'_>) -> (r: Preparo)
    ensures
        r == preparo_de(h, params.0@),
{
    match h {
        Handler::DebugTrigger => {
            let (pedido, _tipo) = ler_gatilho(params);
            if pedido == Gatilho::Breakpoint {
                Preparo::Breakpoint
            } else {
                Preparo::Nada
            }
        },
        Handler::UserRun => Preparo::Lancar,
        Handler::PagingTranslate => Preparo::Traduzir(ler_endereco(params)),
        _ => Preparo::Nada,
    }
}

/// The command asks the kernel to fail once its answer is out.
pub open spec fn falha_depois(h: Handler, params: Seq<u8>) -> bool {
    h == Handler::DebugTrigger && gatilho(params) == Gatilho::Fatal
}

/// The document that a command answers with.
pub open spec fn documento(h: Handler, s: &Instantaneo, params: Seq<u8>) -> Valor {
    match h {
        Handler::AgentPing => doc_ping(s),
        Handler::AgentDescribe => doc_describe(s),
        Handler::SystemInfo => doc_system_info(s),
        Handler::MemoryStats => doc_memory_stats(s),
        Handler::MemoryRegions => doc_memory_regions(s, params),
        Handler::MemoryFrames => doc_memory_frames(s),
        Handler::HeapStats => doc_heap_stats(s),
        Handler::PagingTranslate => doc_paging_translate(s, params),
        Handler::SystemUptime => doc_system_uptime(s),
        Handler::TasksStats => doc_tasks_stats(s),
        Handler::TasksList => doc_tasks_list(s),
        Handler::ThreadsStats => doc_threads_stats(s),
        Handler::ThreadsList => doc_threads_list(s),
        Handler::UserRun => doc_user_run(s),
        Handler::UserStats => doc_user_stats(s),
        Handler::IrqStats => doc_irq_stats(s),
        Handler::TrapsStats => doc_traps_stats(s),
        Handler::DebugTrigger => doc_debug_trigger(s, params),
        Handler::LogTail => doc_log_tail(s, params),
    }
}

/// Does the command ask the kernel to fail once its answer is out?
pub fn pede_falha(h: Handler, params: Json<'_>) -> (r: bool)
    ensures
        r == falha_depois(h, params.0@),
{
    match h {
        Handler::DebugTrigger => {
            let (pedido, _tipo) = ler_gatilho(params);
            pedido == Gatilho::Fatal
        },
        _ => false,
    }
}

/// Writes what a command answers.
pub fn executar(w: &mut JsonWriter, h: Handler, s: &Instantaneo<'_>, params: Json<'_>)
    requires
        old(w)@.nivel <= u32::MAX - 6,
        s.wf(),
    ensures
        final(w)@ == crate::agent::json::percorrida(old(w)@, documento(h, s, params.0@)),
{
    match h {
        Handler::AgentPing => ping(w, s),
        Handler::AgentDescribe => describe(w, s),
        Handler::SystemInfo => system_info(w, s),
        Handler::MemoryStats => memory_stats(w, s),
        Handler::MemoryRegions => memory_regions(w, s, params),
        Handler::MemoryFrames => memory_frames(w, s),
        Handler::HeapStats => heap_stats(w, s),
        Handler::PagingTranslate => paging_translate(w, s, params),
        Handler::SystemUptime => system_uptime(w, s),
        Handler::TasksStats => tasks_stats(w, s),
        Handler::TasksList => tasks_list(w, s),
        Handler::ThreadsStats => threads_stats(w, s),
        Handler::ThreadsList => threads_list(w, s),
        Handler::UserRun => user_run(w, s),
        Handler::UserStats => user_stats(w, s),
        Handler::IrqStats => irq_stats(w, s),
        Handler::TrapsStats => traps_stats(w, s),
        Handler::DebugTrigger => debug_trigger(w, s, params),
        Handler::LogTail => log_tail(w, s, params),
    }
}

/// Every document fits in an answer: with the envelope around it, it nests
/// seven levels at most.
pub proof fn lei_documentos_cabem(h: Handler, s: &Instantaneo, params: Seq<u8>)
    ensures
        crate::agent::json::cabe(documento(h, s, params), 6),
{
    broadcast use crate::agent::json::group_cabe;

    match h {
        Handler::AgentDescribe => {
            assert forall|h: Handler| #[trigger] crate::agent::json::cabe(doc_comando(h), 4) by {}
        },
        _ => {},
    }
}

} // verus!
