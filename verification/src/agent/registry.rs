//! The register of commands.
//!
//! What describes a command to the agent is what its calls are checked
//! against: the description cannot drift from the code.
use vstd::prelude::*;

use crate::agent::leitura::Json;
use crate::texto::mesmo_texto;

verus! {

/// Type of a parameter.
#[derive(Clone, Copy, Debug, PartialEq, Eq, Structural)]
pub enum TipoParam {
    Inteiro,
    Texto,
    Booleano,
}

impl TipoParam {
    /// The name of the type on the channel.
    pub open spec fn nome_spec(self) -> &'static str {
        match self {
            TipoParam::Inteiro => "integer",
            TipoParam::Texto => "string",
            TipoParam::Booleano => "boolean",
        }
    }

    /// The name of the type on the channel.
    pub fn nome(self) -> (r: &'static str)
        ensures
            r == self.nome_spec(),
    {
        match self {
            TipoParam::Inteiro => "integer",
            TipoParam::Texto => "string",
            TipoParam::Booleano => "boolean",
        }
    }

    /// A value is of this type.
    pub open spec fn aceita(self, v: Seq<u8>) -> bool {
        match self {
            TipoParam::Inteiro => inteiro_do_valor(v) is Some,
            TipoParam::Texto => crate::agent::protocol::texto_do_valor(v) is Some,
            TipoParam::Booleano => logico_do_valor(v) is Some,
        }
    }
}

/// The unsigned number that a value is.
pub open spec fn inteiro_do_valor(v: Seq<u8>) -> Option<u64> {
    if vstd::utf8::valid_utf8(v) {
        crate::texto::numero_de(crate::texto::aparado(vstd::utf8::decode_utf8(v)))
    } else {
        None
    }
}

/// The truth value that a value is.
pub open spec fn logico_do_valor(v: Seq<u8>) -> Option<bool> {
    if v == seq![116u8, 114, 117, 101] {
        Some(true)
    } else if v == seq![102u8, 97, 108, 115, 101] {
        Some(false)
    } else {
        None
    }
}

/// A parameter of a command.
#[derive(Clone, Copy, Debug)]
pub struct ParamSpec {
    pub nome: &'static str,
    pub tipo: TipoParam,
    pub obrigatorio: bool,
    pub descricao: &'static str,
}

/// What a command does.
#[derive(Clone, Copy, Debug, PartialEq, Eq, Structural)]
pub enum Handler {
    AgentPing,
    AgentDescribe,
    SystemInfo,
    MemoryStats,
    MemoryRegions,
    MemoryFrames,
    HeapStats,
    PagingTranslate,
    SystemUptime,
    TasksStats,
    TasksList,
    ThreadsStats,
    ThreadsList,
    UserRun,
    UserStats,
    IrqStats,
    TrapsStats,
    DebugTrigger,
    LogTail,
}

impl Handler {
    /// The name of the command.
    pub open spec fn nome_spec(self) -> &'static str {
        match self {
            Handler::AgentPing => "agent.ping",
            Handler::AgentDescribe => "agent.describe",
            Handler::SystemInfo => "system.info",
            Handler::MemoryStats => "memory.stats",
            Handler::MemoryRegions => "memory.regions",
            Handler::MemoryFrames => "memory.frames",
            Handler::HeapStats => "heap.stats",
            Handler::PagingTranslate => "paging.translate",
            Handler::SystemUptime => "system.uptime",
            Handler::TasksStats => "tasks.stats",
            Handler::TasksList => "tasks.list",
            Handler::ThreadsStats => "threads.stats",
            Handler::ThreadsList => "threads.list",
            Handler::UserRun => "user.run",
            Handler::UserStats => "user.stats",
            Handler::IrqStats => "irq.stats",
            Handler::TrapsStats => "traps.stats",
            Handler::DebugTrigger => "debug.trigger",
            Handler::LogTail => "log.tail",
        }
    }

    /// The name of the command.
    pub fn nome(self) -> (r: &'static str)
        ensures
            r == self.nome_spec(),
    {
        match self {
            Handler::AgentPing => "agent.ping",
            Handler::AgentDescribe => "agent.describe",
            Handler::SystemInfo => "system.info",
            Handler::MemoryStats => "memory.stats",
            Handler::MemoryRegions => "memory.regions",
            Handler::MemoryFrames => "memory.frames",
            Handler::HeapStats => "heap.stats",
            Handler::PagingTranslate => "paging.translate",
            Handler::SystemUptime => "system.uptime",
            Handler::TasksStats => "tasks.stats",
            Handler::TasksList => "tasks.list",
            Handler::ThreadsStats => "threads.stats",
            Handler::ThreadsList => "threads.list",
            Handler::UserRun => "user.run",
            Handler::UserStats => "user.stats",
            Handler::IrqStats => "irq.stats",
            Handler::TrapsStats => "traps.stats",
            Handler::DebugTrigger => "debug.trigger",
            Handler::LogTail => "log.tail",
        }
    }

    /// What the command is for, in one line.
    pub open spec fn resumo_spec(self) -> &'static str {
        match self {
            Handler::AgentPing => "Verifica se o canal do agente esta vivo e responsivo.",
            Handler::AgentDescribe => "Lista todos os comandos disponiveis com seus parametros. Chame isto primeiro para descobrir a superficie do sistema.",
            Handler::SystemInfo => "Identificacao do kernel, arquitetura, CPU e video.",
            Handler::MemoryStats => "Totais agregados de memoria fisica.",
            Handler::MemoryRegions => "Lista as regioes do mapa de memoria fisica da maquina.",
            Handler::MemoryFrames => "Estado do alocador de frames de memoria fisica.",
            Handler::HeapStats => "Estado do heap do kernel, incluindo fragmentacao.",
            Handler::PagingTranslate => "Resolve um endereco virtual para fisico usando as tabelas de pagina ativas.",
            Handler::SystemUptime => "Tempo desde o boot, em ticks do timer e em milissegundos.",
            Handler::TasksStats => "Estado do escalonador cooperativo e da fila de entrada.",
            Handler::TasksList => "Tarefas ja lancadas, com id, nome e se ainda estao vivas.",
            Handler::ThreadsStats => "Estado do escalonador preemptivo: fios vivos, trocas de contexto e preempcoes.",
            Handler::ThreadsList => "Fios de execucao do kernel, com id, nome, estado e quantas vezes rodaram.",
            Handler::UserRun => "Lanca o programa de exemplo no anel sem privilegio, num fio proprio. Nao espera o fim: consulte `user.stats` depois.",
            Handler::UserStats => "Chamadas de sistema atendidas, recusadas e o ultimo codigo de saida.",
            Handler::IrqStats => "Contadores de interrupcoes de hardware por linha.",
            Handler::TrapsStats => "Contadores de excecoes por tipo e detalhes da ultima falha.",
            Handler::DebugTrigger => "Dispara uma excecao de proposito, para autoteste. `kind`: \"breakpoint\" e recuperavel; \"fatal\" mata o kernel e o deixa em modo post-mortem.",
            Handler::LogTail => "Retorna os registros de log mais recentes, de forma estruturada.",
        }
    }

    /// What the command is for, in one line.
    pub fn resumo(self) -> (r: &'static str)
        ensures
            r == self.resumo_spec(),
    {
        match self {
            Handler::AgentPing => "Verifica se o canal do agente esta vivo e responsivo.",
            Handler::AgentDescribe => "Lista todos os comandos disponiveis com seus parametros. Chame isto primeiro para descobrir a superficie do sistema.",
            Handler::SystemInfo => "Identificacao do kernel, arquitetura, CPU e video.",
            Handler::MemoryStats => "Totais agregados de memoria fisica.",
            Handler::MemoryRegions => "Lista as regioes do mapa de memoria fisica da maquina.",
            Handler::MemoryFrames => "Estado do alocador de frames de memoria fisica.",
            Handler::HeapStats => "Estado do heap do kernel, incluindo fragmentacao.",
            Handler::PagingTranslate => "Resolve um endereco virtual para fisico usando as tabelas de pagina ativas.",
            Handler::SystemUptime => "Tempo desde o boot, em ticks do timer e em milissegundos.",
            Handler::TasksStats => "Estado do escalonador cooperativo e da fila de entrada.",
            Handler::TasksList => "Tarefas ja lancadas, com id, nome e se ainda estao vivas.",
            Handler::ThreadsStats => "Estado do escalonador preemptivo: fios vivos, trocas de contexto e preempcoes.",
            Handler::ThreadsList => "Fios de execucao do kernel, com id, nome, estado e quantas vezes rodaram.",
            Handler::UserRun => "Lanca o programa de exemplo no anel sem privilegio, num fio proprio. Nao espera o fim: consulte `user.stats` depois.",
            Handler::UserStats => "Chamadas de sistema atendidas, recusadas e o ultimo codigo de saida.",
            Handler::IrqStats => "Contadores de interrupcoes de hardware por linha.",
            Handler::TrapsStats => "Contadores de excecoes por tipo e detalhes da ultima falha.",
            Handler::DebugTrigger => "Dispara uma excecao de proposito, para autoteste. `kind`: \"breakpoint\" e recuperavel; \"fatal\" mata o kernel e o deixa em modo post-mortem.",
            Handler::LogTail => "Retorna os registros de log mais recentes, de forma estruturada.",
        }
    }

    /// The parameters of the command.
    pub open spec fn params_spec(self) -> Seq<ParamSpec> {
        match self {
            Handler::MemoryRegions => seq![
                ParamSpec {
                    nome: "limit",
                    tipo: TipoParam::Inteiro,
                    obrigatorio: false,
                    descricao: "Numero maximo de regioes a retornar (padrao: todas).",
                },
                ParamSpec {
                    nome: "usable_only",
                    tipo: TipoParam::Booleano,
                    obrigatorio: false,
                    descricao: "Se verdadeiro, retorna apenas regioes utilizaveis.",
                },
            ],
            Handler::PagingTranslate => seq![
                ParamSpec {
                    nome: "address",
                    tipo: TipoParam::Inteiro,
                    obrigatorio: true,
                    descricao: "Endereco virtual a traduzir, em decimal.",
                },
            ],
            Handler::DebugTrigger => seq![
                ParamSpec {
                    nome: "kind",
                    tipo: TipoParam::Texto,
                    obrigatorio: true,
                    descricao: "`breakpoint`: recuperavel, o kernel segue vivo. `fatal`: provoca uma falha irrecuperavel de proposito; o kernel entra em modo post-mortem e passa a responder apenas o relatorio da falha.",
                },
            ],
            Handler::LogTail => seq![
                ParamSpec {
                    nome: "count",
                    tipo: TipoParam::Inteiro,
                    obrigatorio: false,
                    descricao: "Quantos registros examinar, do mais recente para tras (padrao: 32).",
                },
                ParamSpec {
                    nome: "min_level",
                    tipo: TipoParam::Texto,
                    obrigatorio: false,
                    descricao: "Severidade minima: error, warn, info, debug ou trace (padrao: trace).",
                },
            ],
            _ => Seq::empty(),
        }
    }

    /// The parameters of the command.
    pub fn params(self) -> (r: Vec<ParamSpec>)
        ensures
            r@ == self.params_spec(),
    {
        match self {
            Handler::MemoryRegions => vec![
                ParamSpec {
                    nome: "limit",
                    tipo: TipoParam::Inteiro,
                    obrigatorio: false,
                    descricao: "Numero maximo de regioes a retornar (padrao: todas).",
                },
                ParamSpec {
                    nome: "usable_only",
                    tipo: TipoParam::Booleano,
                    obrigatorio: false,
                    descricao: "Se verdadeiro, retorna apenas regioes utilizaveis.",
                },
            ],
            Handler::PagingTranslate => vec![
                ParamSpec {
                    nome: "address",
                    tipo: TipoParam::Inteiro,
                    obrigatorio: true,
                    descricao: "Endereco virtual a traduzir, em decimal.",
                },
            ],
            Handler::DebugTrigger => vec![
                ParamSpec {
                    nome: "kind",
                    tipo: TipoParam::Texto,
                    obrigatorio: true,
                    descricao: "`breakpoint`: recuperavel, o kernel segue vivo. `fatal`: provoca uma falha irrecuperavel de proposito; o kernel entra em modo post-mortem e passa a responder apenas o relatorio da falha.",
                },
            ],
            Handler::LogTail => vec![
                ParamSpec {
                    nome: "count",
                    tipo: TipoParam::Inteiro,
                    obrigatorio: false,
                    descricao: "Quantos registros examinar, do mais recente para tras (padrao: 32).",
                },
                ParamSpec {
                    nome: "min_level",
                    tipo: TipoParam::Texto,
                    obrigatorio: false,
                    descricao: "Severidade minima: error, warn, info, debug ou trace (padrao: trace).",
                },
            ],
            _ => Vec::new(),
        }
    }
}

/// A command, as the agent sees it.
#[derive(Debug)]
pub struct Command {
    pub nome: &'static str,
    pub resumo: &'static str,
    pub params: Vec<ParamSpec>,
    pub handler: Handler,
}

impl Command {
    /// The entry of the table for `h`.
    pub open spec fn e_de(&self, h: Handler) -> bool {
        &&& self.handler == h
        &&& self.nome == h.nome_spec()
        &&& self.resumo == h.resumo_spec()
        &&& self.params@ == h.params_spec()
    }

    /// The entry of the table for `h`.
    pub fn de(h: Handler) -> (r: Command)
        ensures
            r.e_de(h),
    {
        Command { nome: h.nome(), resumo: h.resumo(), params: h.params(), handler: h }
    }
}

/// Every command, in the order of the table.
pub open spec fn todos() -> Seq<Handler> {
    seq![
        Handler::AgentPing,
        Handler::AgentDescribe,
        Handler::SystemInfo,
        Handler::MemoryStats,
        Handler::MemoryRegions,
        Handler::MemoryFrames,
        Handler::HeapStats,
        Handler::PagingTranslate,
        Handler::SystemUptime,
        Handler::TasksStats,
        Handler::TasksList,
        Handler::ThreadsStats,
        Handler::ThreadsList,
        Handler::UserRun,
        Handler::UserStats,
        Handler::IrqStats,
        Handler::TrapsStats,
        Handler::DebugTrigger,
        Handler::LogTail,
    ]
}

/// Every command is in the table.
pub proof fn lei_todos_registrados(h: Handler)
    ensures
        todos().contains(h),
{
    match h {
        Handler::AgentPing => assert(todos()[0] == h),
        Handler::AgentDescribe => assert(todos()[1] == h),
        Handler::SystemInfo => assert(todos()[2] == h),
        Handler::MemoryStats => assert(todos()[3] == h),
        Handler::MemoryRegions => assert(todos()[4] == h),
        Handler::MemoryFrames => assert(todos()[5] == h),
        Handler::HeapStats => assert(todos()[6] == h),
        Handler::PagingTranslate => assert(todos()[7] == h),
        Handler::SystemUptime => assert(todos()[8] == h),
        Handler::TasksStats => assert(todos()[9] == h),
        Handler::TasksList => assert(todos()[10] == h),
        Handler::ThreadsStats => assert(todos()[11] == h),
        Handler::ThreadsList => assert(todos()[12] == h),
        Handler::UserRun => assert(todos()[13] == h),
        Handler::UserStats => assert(todos()[14] == h),
        Handler::IrqStats => assert(todos()[15] == h),
        Handler::TrapsStats => assert(todos()[16] == h),
        Handler::DebugTrigger => assert(todos()[17] == h),
        Handler::LogTail => assert(todos()[18] == h),
    }
}

/// No two commands have the same name.
pub proof fn lei_nomes_distintos(a: Handler, b: Handler)
    requires
        a.nome_spec()@ == b.nome_spec()@,
    ensures
        a == b,
{
    reveal_strlit("agent.ping");
    reveal_strlit("agent.describe");
    reveal_strlit("system.info");
    reveal_strlit("memory.stats");
    reveal_strlit("memory.regions");
    reveal_strlit("memory.frames");
    reveal_strlit("heap.stats");
    reveal_strlit("paging.translate");
    reveal_strlit("system.uptime");
    reveal_strlit("tasks.stats");
    reveal_strlit("tasks.list");
    reveal_strlit("threads.stats");
    reveal_strlit("threads.list");
    reveal_strlit("user.run");
    reveal_strlit("user.stats");
    reveal_strlit("irq.stats");
    reveal_strlit("traps.stats");
    reveal_strlit("debug.trigger");
    reveal_strlit("log.tail");
    let s = a.nome_spec()@;
    let t = b.nome_spec()@;
    assert(s.len() == t.len());
    assert(s[0] == t[0] && s[1] == t[1] && s[6] == t[6] && s[7] == t[7] && s[8] == t[8]);
}

/// The table of commands.
pub fn comandos() -> (r: Vec<Handler>)
    ensures
        r@ == todos(),
{
    vec![
        Handler::AgentPing,
        Handler::AgentDescribe,
        Handler::SystemInfo,
        Handler::MemoryStats,
        Handler::MemoryRegions,
        Handler::MemoryFrames,
        Handler::HeapStats,
        Handler::PagingTranslate,
        Handler::SystemUptime,
        Handler::TasksStats,
        Handler::TasksList,
        Handler::ThreadsStats,
        Handler::ThreadsList,
        Handler::UserRun,
        Handler::UserStats,
        Handler::IrqStats,
        Handler::TrapsStats,
        Handler::DebugTrigger,
        Handler::LogTail,
    ]
}

/// Finds a command by its name.
pub fn encontrar(nome: &str) -> (r: Option<Command>)
    ensures
        match r {
            Some(c) => c.e_de(c.handler) && c.nome@ == nome@,
            None => forall|h: Handler| (#[trigger] h.nome_spec())@ != nome@,
        },
{
    let tabela = comandos();
    let mut i: usize = 0;
    while i < tabela.len()
        invariant
            i <= tabela@.len(),
            tabela@ == todos(),
            forall|j: int| 0 <= j < i ==> (#[trigger] tabela@[j]).nome_spec()@ != nome@,
        decreases tabela@.len() - i,
    {
        let h = tabela[i];
        if mesmo_texto(h.nome(), nome) {
            return Some(Command::de(h));
        }
        i = i + 1;
    }
    proof {
        assert forall|h: Handler| (#[trigger] h.nome_spec())@ != nome@ by {
            lei_todos_registrados(h);
            let j = choose|j: int| 0 <= j < todos().len() && todos()[j] == h;
            assert(tabela@[j] == h);
        }
    }
    None
}

/// A parameter is as it should be: of its type where it is given, and given
/// where it is required.
pub open spec fn confere(spec_: ParamSpec, params: Seq<u8>) -> bool {
    match crate::agent::protocol::membro(params, spec_.nome) {
        None => !spec_.obrigatorio,
        Some(v) => spec_.tipo.aceita(v),
    }
}

/// The first parameter that is not as it should be.
pub open spec fn primeiro_errado(specs: Seq<ParamSpec>, params: Seq<u8>) -> Option<&'static str>
    decreases specs.len(),
{
    if specs.len() == 0 {
        None
    } else {
        match primeiro_errado(specs.drop_last(), params) {
            Some(n) => Some(n),
            None => if confere(specs.last(), params) {
                None
            } else {
                Some(specs.last().nome)
            },
        }
    }
}

/// Checks the parameters of a call against the description of the command.
/// The error is the name of the first one that is missing or of the wrong
/// type.
pub fn validar(cmd: &Command, params: Json<'_>) -> (r: Result<(), &'static str>)
    ensures
        match r {
            Ok(_) => primeiro_errado(cmd.params@, params.0@) is None,
            Err(nome) => primeiro_errado(cmd.params@, params.0@) == Some(nome),
        },
{
    let ghost specs = cmd.params@;
    let mut i: usize = 0;
    while i < cmd.params.len()
        invariant
            i <= specs.len(),
            specs == cmd.params@,
            primeiro_errado(specs.take(i as int), params.0@) is None,
        decreases specs.len() - i,
    {
        let spec_ = &cmd.params[i];
        proof {
            assert(specs.take(i + 1).drop_last() =~= specs.take(i as int));
        }
        let confere_ = match params.member(spec_.nome) {
            None => !spec_.obrigatorio,
            Some(valor) => match spec_.tipo {
                TipoParam::Inteiro => valor.as_u64().is_some(),
                TipoParam::Texto => valor.as_str().is_some(),
                TipoParam::Booleano => valor.as_bool().is_some(),
            },
        };
        if !confere_ {
            proof {
                lemma_errado_fica(specs, params.0@, i + 1);
            }
            return Err(spec_.nome);
        }
        i = i + 1;
    }
    proof {
        assert(specs.take(specs.len() as int) =~= specs);
    }
    Ok(())
}

proof fn lemma_errado_fica(specs: Seq<ParamSpec>, params: Seq<u8>, n: int)
    requires
        0 <= n <= specs.len(),
        primeiro_errado(specs.take(n), params) is Some,
    ensures
        primeiro_errado(specs, params) == primeiro_errado(specs.take(n), params),
    decreases specs.len(),
{
    if n == specs.len() {
        assert(specs.take(n) =~= specs);
    } else {
        assert(specs.drop_last().take(n) =~= specs.take(n));
        lemma_errado_fica(specs.drop_last(), params, n);
    }
}

/// A call is accepted exactly where every parameter is as it should be: there where
/// it is required, and of its type where it is there. The one that is named in a
/// refusal is the first that is not.
pub proof fn lei_primeiro_errado(specs: Seq<ParamSpec>, params: Seq<u8>)
    ensures
        primeiro_errado(specs, params) is None <==> forall|k: int|
            0 <= k < specs.len() ==> confere(#[trigger] specs[k], params),
        primeiro_errado(specs, params) is Some ==> exists|k: int|
            {
                &&& 0 <= k < specs.len()
                &&& !confere(#[trigger] specs[k], params)
                &&& primeiro_errado(specs, params) == Some(specs[k].nome)
                &&& forall|j: int| 0 <= j < k ==> confere(#[trigger] specs[j], params)
            },
    decreases specs.len(),
{
    if specs.len() > 0 {
        let d = specs.drop_last();
        lei_primeiro_errado(d, params);
        if primeiro_errado(d, params) is Some {
            let k = choose|k: int|
                {
                    &&& 0 <= k < d.len()
                    &&& !confere(#[trigger] d[k], params)
                    &&& primeiro_errado(d, params) == Some(d[k].nome)
                    &&& forall|j: int| 0 <= j < k ==> confere(#[trigger] d[j], params)
                };
            assert(specs[k] == d[k]);
            assert(!confere(specs[k], params));
            assert forall|j: int| 0 <= j < k implies confere(#[trigger] specs[j], params) by {
                assert(d[j] == specs[j]);
            }
        } else {
            assert forall|j: int| 0 <= j < d.len() implies confere(#[trigger] specs[j], params) by {
                assert(d[j] == specs[j]);
            }
            assert(specs[specs.len() - 1] == specs.last());
        }
    }
}

/// When a parameter is as it should be.
pub proof fn lei_confere(p: ParamSpec, params: Seq<u8>, v: Seq<u8>)
    ensures
        crate::agent::protocol::membro(params, p.nome) is None ==> confere(p, params)
            == !p.obrigatorio,
        crate::agent::protocol::membro(params, p.nome) == Some(v) ==> confere(p, params) == (match p.tipo {
            TipoParam::Inteiro => inteiro_do_valor(v) is Some,
            TipoParam::Texto => crate::agent::protocol::texto_do_valor(v) is Some,
            TipoParam::Booleano => logico_do_valor(v) is Some,
        }),
{
}

/// What the commands ask for: `paging.translate` an `address` that is a number,
/// `debug.trigger` a `kind` that is a string; `memory.regions` takes a number and a
/// truth value, and `log.tail` a number and a string, or nothing; the others take
/// whatever comes.
pub proof fn lei_parametros_dos_comandos(params: Seq<u8>, h: Handler)
    ensures
        primeiro_errado(Handler::PagingTranslate.params_spec(), params) is None
            <==> crate::agent::protocol::membro(params, "address") is Some && inteiro_do_valor(
            crate::agent::protocol::membro(params, "address")->0,
        ) is Some,
        primeiro_errado(Handler::DebugTrigger.params_spec(), params) is None
            <==> crate::agent::protocol::membro(params, "kind") is Some
            && crate::agent::protocol::texto_do_valor(
            crate::agent::protocol::membro(params, "kind")->0,
        ) is Some,
        primeiro_errado(Handler::MemoryRegions.params_spec(), params) is None <==> (
        crate::agent::protocol::membro(params, "limit") is Some ==> inteiro_do_valor(
            crate::agent::protocol::membro(params, "limit")->0,
        ) is Some) && (crate::agent::protocol::membro(params, "usable_only") is Some
            ==> logico_do_valor(crate::agent::protocol::membro(params, "usable_only")->0) is Some),
        primeiro_errado(Handler::LogTail.params_spec(), params) is None <==> (
        crate::agent::protocol::membro(params, "count") is Some ==> inteiro_do_valor(
            crate::agent::protocol::membro(params, "count")->0,
        ) is Some) && (crate::agent::protocol::membro(params, "min_level") is Some
            ==> crate::agent::protocol::texto_do_valor(
            crate::agent::protocol::membro(params, "min_level")->0,
        ) is Some),
        !(h is PagingTranslate) && !(h is DebugTrigger) && !(h is MemoryRegions) && !(h is LogTail)
            ==> primeiro_errado(h.params_spec(), params) is None,
{
    let a = Handler::PagingTranslate.params_spec();
    lei_primeiro_errado(a, params);
    assert(a[0].nome == "address");
    let b = Handler::DebugTrigger.params_spec();
    lei_primeiro_errado(b, params);
    assert(b[0].nome == "kind");
    let c = Handler::MemoryRegions.params_spec();
    lei_primeiro_errado(c, params);
    assert(c[0].nome == "limit" && c[1].nome == "usable_only");
    let d = Handler::LogTail.params_spec();
    lei_primeiro_errado(d, params);
    assert(d[0].nome == "count" && d[1].nome == "min_level");
}

} // verus!
