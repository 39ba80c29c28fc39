//! The agent loop as a state machine. The host performs what a step asks for — a
//! decision from the predictor, a sandboxed tool call — and hands the result back;
//! the machine registers tools, numbers calls, truncates and renders tool results,
//! and stops at a final answer or after `max_steps` decisions.

use vstd::prelude::*;

use crate::agent::{truncate, truncated, AgentResult, Decision, DecisionModel, ToolHandle, ToolResult, TOOL_RESULT_LIMIT};
use crate::decimal::{decimal, decimal_chars};
use crate::plugin::{PluginError, PluginInfo, ToolParameter, ToolSchema};
use crate::text::{chars_eq, chars_of, extend_chars, extend_str, string_of};

verus! {

/// A plugin found in the plugin directory: its file name, metadata and tools.
#[derive(Debug, Clone)]
pub struct DiscoveredPlugin {
    pub file: String,
    pub info: PluginInfo,
    pub schemas: Vec<ToolSchema>,
}

/// What the host is asked to do next.
#[derive(Debug)]
pub enum AgentStep {
    /// Ask the predictor for a decision (on `history()` and `tools()`).
    Decide,
    /// Run tool `tool` of the plugin in `file` with `args`, in the sandbox.
    Invoke { file: String, tool: String, args: String },
    /// The loop is over.
    Done(AgentResult),
}

/// What the host's sandboxed tool call gave.
#[derive(Debug)]
pub enum InvokeOutcome {
    /// The plugin returned: its output, or its declared failure.
    Returned(Result<String, PluginError>),
    /// The sandbox cut the call off (trap, resource limit, load failure); the error text.
    CutOff(String),
}

/// A tool result as plain values.
pub struct ToolResultModel {
    pub plugin: Seq<char>,
    pub tool: Seq<char>,
    pub call_id: Seq<char>,
    pub args: Seq<char>,
    pub output: Seq<char>,
    pub rendered: Seq<char>,
    pub ok: bool,
}

impl View for ToolResult {
    type V = ToolResultModel;

    open spec fn view(&self) -> ToolResultModel {
        ToolResultModel {
            plugin: self.plugin@,
            tool: self.tool@,
            call_id: self.call_id@,
            args: self.args@,
            output: self.output@,
            rendered: self.rendered@,
            ok: self.ok,
        }
    }
}

/// A tool handle as plain values: name, plugin, description, parameters.
pub type HandleModel = (Seq<char>, Seq<char>, Seq<char>, Seq<(Seq<char>, Seq<char>, Seq<char>)>);

impl View for ToolHandle {
    type V = HandleModel;

    open spec fn view(&self) -> HandleModel {
        (
            self.name@,
            self.plugin@,
            self.description@,
            self.parameters@.map_values(|p: (String, String, String)| (p.0@, p.1@, p.2@)),
        )
    }
}

/// The views of a sequence of tool results.
pub open spec fn results_view(s: Seq<ToolResult>) -> Seq<ToolResultModel> {
    s.map_values(|r: ToolResult| r@)
}

/// The views of a sequence of tool handles.
pub open spec fn handles_view(s: Seq<ToolHandle>) -> Seq<HandleModel> {
    s.map_values(|h: ToolHandle| h@)
}

/// The handle that the loop offers for tool `s` of plugin `info`.
pub open spec fn handle_of(info: PluginInfo, s: ToolSchema) -> HandleModel {
    (s.name@, info.name@, s.description@, s.parameters@.map_values(|p: ToolParameter| (p.name@, p.parameter_type@, p.description@)))
}

/// Every tool of every discovered plugin, plugin by plugin, in schema order.
pub open spec fn offered_tools(d: Seq<DiscoveredPlugin>) -> Seq<HandleModel>
    decreases d.len(),
{
    if d.len() == 0 {
        Seq::empty()
    } else {
        offered_tools(d.drop_last()) + d.last().schemas@.map_values(|s: ToolSchema| handle_of(d.last().info, s))
    }
}

/// `(tool, file, plugin)` for every tool, in registration order.
pub open spec fn registrations(d: Seq<DiscoveredPlugin>) -> Seq<(Seq<char>, Seq<char>, Seq<char>)>
    decreases d.len(),
{
    if d.len() == 0 {
        Seq::empty()
    } else {
        registrations(d.drop_last()) + d.last().schemas@.map_values(
            |s: ToolSchema| (s.name@, d.last().file@, d.last().info.name@),
        )
    }
}

/// The `(file, plugin)` registered last under `tool`: a later registration wins.
pub open spec fn lookup(reg: Seq<(Seq<char>, Seq<char>, Seq<char>)>, tool: Seq<char>) -> Option<(Seq<char>, Seq<char>)>
    decreases reg.len(),
{
    if reg.len() == 0 {
        None
    } else if reg.last().0 == tool {
        Some((reg.last().1, reg.last().2))
    } else {
        lookup(reg.drop_last(), tool)
    }
}

/// The id of the `n`-th call.
pub open spec fn call_id_text(n: nat) -> Seq<char> {
    "call_"@ + decimal(n)
}

/// The answer when no tool was found.
pub open spec fn no_tools_answer() -> Seq<char> {
    "未发现任何工具：plugins/ 下没有满足契约的组件"@
}

/// The answer when the step limit is reached.
pub open spec fn limit_answer(max_steps: nat) -> Seq<char> {
    "达到迭代上限（"@ + decimal(max_steps) + " 步）"@
}

/// The result recorded for a call of an unregistered tool.
pub open spec fn unregistered_result(tool: Seq<char>, call_id: Seq<char>, args: Seq<char>) -> ToolResultModel {
    ToolResultModel {
        plugin: Seq::empty(),
        tool,
        call_id,
        args,
        output: Seq::empty(),
        rendered: "工具 "@ + tool + " 未注册"@,
        ok: false,
    }
}

/// The result recorded for a call that the host ran: truncated output on success, the
/// declared failure's code and message, or the sandbox's error text.
pub open spec fn invoked_result(plugin: Seq<char>, tool: Seq<char>, call_id: Seq<char>, args: Seq<char>, o: InvokeOutcome) -> ToolResultModel {
    match o {
        InvokeOutcome::Returned(Ok(out)) => {
            let output = truncated(out@, TOOL_RESULT_LIMIT as nat);
            ToolResultModel { plugin, tool, call_id, args, output, rendered: "工具 "@ + tool + " 返回: "@ + output, ok: true }
        },
        InvokeOutcome::Returned(Err(e)) => ToolResultModel {
            plugin,
            tool,
            call_id,
            args,
            output: Seq::empty(),
            rendered: "工具 "@ + tool + " 失败 ["@ + e.code@ + "]: "@ + e.message@,
            ok: false,
        },
        InvokeOutcome::CutOff(detail) => ToolResultModel {
            plugin,
            tool,
            call_id,
            args,
            output: Seq::empty(),
            rendered: "工具 "@ + tool + " 被沙箱切断: "@ + detail@,
            ok: false,
        },
    }
}

struct Registration {
    tool: String,
    file: String,
    plugin: String,
}

struct PendingCall {
    plugin: String,
    tool: String,
    args: String,
    call_id: String,
}

/// One run of the agent loop.
pub struct AgentRun {
    registry: Vec<Registration>,
    tools: Vec<ToolHandle>,
    history: Vec<ToolResult>,
    max_steps: usize,
    pending: Option<PendingCall>,
    finished: bool,
}

impl AgentRun {
    /// The tools offered to the predictor.
    pub closed spec fn offered(&self) -> Seq<HandleModel> {
        handles_view(self.tools@)
    }

    /// `(tool, file, plugin)` registrations, in order.
    pub closed spec fn registered(&self) -> Seq<(Seq<char>, Seq<char>, Seq<char>)> {
        self.registry@.map_values(|r: Registration| (r.tool@, r.file@, r.plugin@))
    }

    /// The calls made so far.
    pub closed spec fn calls(&self) -> Seq<ToolResultModel> {
        results_view(self.history@)
    }

    /// The step limit.
    pub closed spec fn limit(&self) -> nat {
        self.max_steps as nat
    }

    /// The call the host is running: plugin, tool, args, call id.
    pub closed spec fn running(&self) -> Option<(Seq<char>, Seq<char>, Seq<char>, Seq<char>)> {
        match self.pending {
            Some(p) => Some((p.plugin@, p.tool@, p.args@, p.call_id@)),
            None => None,
        }
    }

    /// The loop is over.
    pub closed spec fn is_finished(&self) -> bool {
        self.finished
    }

    /// The run waits for a decision.
    pub open spec fn awaits_decision(&self) -> bool {
        !self.is_finished() && self.running() is None
    }

    /// The run waits for the outcome of a tool call.
    pub open spec fn awaits_outcome(&self) -> bool {
        !self.is_finished() && self.running() is Some
    }

    /// The run's bookkeeping holds: at most `limit` calls, numbered from 1, and a
    /// decision or a call is pending only below the limit.
    pub closed spec fn wf(&self) -> bool {
        &&& self.history@.len() <= self.max_steps
        &&& (!self.finished ==> self.history@.len() < self.max_steps)
        &&& (self.finished ==> self.pending is None)
        &&& forall|i: int| 0 <= i < self.history@.len() ==> #[trigger] self.history@[i].call_id@ == call_id_text((i + 1) as nat)
        &&& match self.pending {
            Some(p) => p.call_id@ == call_id_text((self.history@.len() + 1) as nat),
            None => true,
        }
    }

    /// The calls so far, for the predictor.
    pub fn history(&self) -> (h: &[ToolResult])
        ensures
            results_view(h@) == self.calls(),
    {
        self.history.as_slice()
    }

    /// The tools, for the predictor.
    pub fn tools(&self) -> (t: &[ToolHandle])
        ensures
            handles_view(t@) == self.offered(),
    {
        self.tools.as_slice()
    }
}

/// After a call is recorded: below the limit the run waits for the next decision;
/// at the limit it is over and answers with the limit message.
pub open spec fn after_record(run: AgentRun, step: AgentStep) -> bool {
    &&& run.calls().len() < run.limit() ==> run.awaits_decision() && step is Decide
    &&& run.calls().len() >= run.limit() ==> run.is_finished() && (step matches AgentStep::Done(r)
        && r.answer@ == limit_answer(run.limit()) && results_view(r.calls@) == run.calls())
}

/// Mapping then pushing is pushing then mapping.
pub proof fn lemma_map_push<A, B>(s: Seq<A>, x: A, f: spec_fn(A) -> B)
    ensures
        s.push(x).map_values(f) == s.map_values(f).push(f(x)),
{
    assert(s.push(x).map_values(f) =~= s.map_values(f).push(f(x)));
}

fn clone_string(s: &String) -> (c: String)
    ensures
        c@ == s@,
{
    s.clone()
}

fn clone_result(r: &ToolResult) -> (c: ToolResult)
    ensures
        c@ == r@,
{
    ToolResult {
        plugin: clone_string(&r.plugin),
        tool: clone_string(&r.tool),
        call_id: clone_string(&r.call_id),
        args: clone_string(&r.args),
        output: clone_string(&r.output),
        rendered: clone_string(&r.rendered),
        ok: r.ok,
    }
}

fn clone_results(v: &Vec<ToolResult>) -> (c: Vec<ToolResult>)
    ensures
        results_view(c@) == results_view(v@),
{
    let mut c: Vec<ToolResult> = Vec::new();
    let mut i: usize = 0;
    while i < v.len()
        invariant
            i <= v@.len(),
            results_view(c@) == results_view(v@.take(i as int)),
        decreases v@.len() - i,
    {
        let ghost c0 = c@;
        c.push(clone_result(&v[i]));
        proof {
            assert(v@.take(i + 1) =~= v@.take(i as int).push(v@[i as int]));
            lemma_map_push(c0, c@.last(), |r: ToolResult| r@);
            assert(c@ == c0.push(c@.last()));
            lemma_map_push(v@.take(i as int), v@[i as int], |r: ToolResult| r@);
        }
        i = i + 1;
    }
    assert(v@.take(v@.len() as int) =~= v@);
    c
}

fn handle_for(info: &PluginInfo, s: &ToolSchema) -> (h: ToolHandle)
    ensures
        h@ == handle_of(*info, *s),
{
    let mut params: Vec<(String, String, String)> = Vec::new();
    let mut k: usize = 0;
    while k < s.parameters.len()
        invariant
            k <= s.parameters@.len(),
            params@.map_values(|p: (String, String, String)| (p.0@, p.1@, p.2@))
                == s.parameters@.take(k as int).map_values(|p: ToolParameter| (p.name@, p.parameter_type@, p.description@)),
        decreases s.parameters@.len() - k,
    {
        let p = &s.parameters[k];
        let ghost p0 = params@;
        let t = (clone_string(&p.name), clone_string(&p.parameter_type), clone_string(&p.description));
        params.push(t);
        proof {
            assert(s.parameters@.take(k + 1) =~= s.parameters@.take(k as int).push(s.parameters@[k as int]));
            lemma_map_push(p0, t, |p: (String, String, String)| (p.0@, p.1@, p.2@));
            lemma_map_push(s.parameters@.take(k as int), s.parameters@[k as int], |p: ToolParameter| (p.name@, p.parameter_type@, p.description@));
        }
        k = k + 1;
    }
    assert(s.parameters@.take(s.parameters@.len() as int) =~= s.parameters@);
    ToolHandle {
        name: clone_string(&s.name),
        plugin: clone_string(&info.name),
        description: clone_string(&s.description),
        parameters: params,
    }
}

fn call_id_for(n: usize) -> (s: String)
    ensures
        s@ == call_id_text(n as nat),
{
    let mut v: Vec<char> = Vec::new();
    extend_str(&mut v, "call_");
    let d = decimal_chars(n as u64);
    extend_chars(&mut v, d.as_slice());
    string_of(v.as_slice())
}

fn limit_text(n: usize) -> (s: String)
    ensures
        s@ == limit_answer(n as nat),
{
    let mut v: Vec<char> = Vec::new();
    extend_str(&mut v, "达到迭代上限（");
    let d = decimal_chars(n as u64);
    extend_chars(&mut v, d.as_slice());
    extend_str(&mut v, " 步）");
    string_of(v.as_slice())
}

impl AgentRun {
    /// Registers the tools of the discovered plugins (a later registration of a tool
    /// name wins) and starts the loop: with no tools it is over at once, with a limit of
    /// 0 it is over at the limit, otherwise it waits for the first decision.
    pub fn start(discovered: &[DiscoveredPlugin], max_steps: usize) -> (res: (AgentRun, AgentStep))
        ensures
            res.0.wf(),
            res.0.offered() == offered_tools(discovered@),
            res.0.registered() == registrations(discovered@),
            res.0.calls() == Seq::<ToolResultModel>::empty(),
            res.0.limit() == max_steps,
            offered_tools(discovered@).len() == 0 ==> res.0.is_finished() && (res.1 matches AgentStep::Done(r)
                && r.answer@ == no_tools_answer() && r.calls@.len() == 0),
            offered_tools(discovered@).len() > 0 && max_steps == 0 ==> res.0.is_finished()
                && (res.1 matches AgentStep::Done(r) && r.answer@ == limit_answer(0) && r.calls@.len() == 0),
            offered_tools(discovered@).len() > 0 && max_steps > 0 ==> res.0.awaits_decision() && res.1 is Decide,
    {
        let mut tools: Vec<ToolHandle> = Vec::new();
        let mut registry: Vec<Registration> = Vec::new();
        let mut i: usize = 0;
        while i < discovered.len()
            invariant
                i <= discovered@.len(),
                handles_view(tools@) == offered_tools(discovered@.take(i as int)),
                registry@.map_values(|r: Registration| (r.tool@, r.file@, r.plugin@)) == registrations(discovered@.take(i as int)),
            decreases discovered@.len() - i,
        {
            let d = &discovered[i];
            let ghost base_t = handles_view(tools@);
            let ghost base_r = registry@.map_values(|r: Registration| (r.tool@, r.file@, r.plugin@));
            let mut j: usize = 0;
            while j < d.schemas.len()
                invariant
                    i < discovered@.len(),
                    *d == discovered@[i as int],
                    j <= d.schemas@.len(),
                    handles_view(tools@) == base_t + d.schemas@.take(j as int).map_values(|s: ToolSchema| handle_of(d.info, s)),
                    registry@.map_values(|r: Registration| (r.tool@, r.file@, r.plugin@))
                        == base_r + d.schemas@.take(j as int).map_values(|s: ToolSchema| (s.name@, d.file@, d.info.name@)),
                decreases d.schemas@.len() - j,
            {
                let s = &d.schemas[j];
                let ghost t0 = tools@;
                let ghost r0 = registry@;
                let h = handle_for(&d.info, s);
                tools.push(h);
                let g = Registration {
                    tool: clone_string(&s.name),
                    file: clone_string(&d.file),
                    plugin: clone_string(&d.info.name),
                };
                registry.push(g);
                proof {
                    let sc = d.schemas@;
                    assert(sc.take(j + 1) =~= sc.take(j as int).push(sc[j as int]));
                    lemma_map_push(t0, h, |h: ToolHandle| h@);
                    lemma_map_push(sc.take(j as int), sc[j as int], |s: ToolSchema| handle_of(d.info, s));
                    lemma_map_push(r0, g, |r: Registration| (r.tool@, r.file@, r.plugin@));
                    lemma_map_push(sc.take(j as int), sc[j as int], |s: ToolSchema| (s.name@, d.file@, d.info.name@));
                    assert(handles_view(tools@) =~= base_t + sc.take(j + 1).map_values(|s: ToolSchema| handle_of(d.info, s)));
                    assert(registry@.map_values(|r: Registration| (r.tool@, r.file@, r.plugin@))
                        =~= base_r + sc.take(j + 1).map_values(|s: ToolSchema| (s.name@, d.file@, d.info.name@)));
                }
                j = j + 1;
            }
            proof {
                assert(d.schemas@.take(d.schemas@.len() as int) =~= d.schemas@);
                assert(discovered@.take(i + 1).drop_last() =~= discovered@.take(i as int));
                assert(discovered@.take(i + 1).last() == discovered@[i as int]);
            }
            i = i + 1;
        }
        assert(discovered@.take(discovered@.len() as int) =~= discovered@);
        let history: Vec<ToolResult> = Vec::new();
        assert(results_view(history@) =~= Seq::<ToolResultModel>::empty());
        if tools.len() == 0 {
            let run = AgentRun { registry, tools, history, max_steps, pending: None, finished: true };
            let answer = string_of(chars_of("未发现任何工具：plugins/ 下没有满足契约的组件").as_slice());
            return (run, AgentStep::Done(AgentResult { answer, calls: Vec::new() }));
        }
        if max_steps == 0 {
            let run = AgentRun { registry, tools, history, max_steps, pending: None, finished: true };
            return (run, AgentStep::Done(AgentResult { answer: limit_text(0), calls: Vec::new() }));
        }
        let run = AgentRun { registry, tools, history, max_steps, pending: None, finished: false };
        (run, AgentStep::Decide)
    }

    fn find_tool(&self, tool: &[char]) -> (r: Option<usize>)
        ensures
            match r {
                Some(i) => i < self.registry@.len() && lookup(self.registered(), tool@)
                    == Some((self.registry@[i as int].file@, self.registry@[i as int].plugin@)),
                None => lookup(self.registered(), tool@) is None,
            },
    {
        let mut i: usize = self.registry.len();
        assert(self.registered().take(i as int) =~= self.registered());
        while i > 0
            invariant
                i <= self.registry@.len(),
                lookup(self.registered(), tool@) == lookup(self.registered().take(i as int), tool@),
            decreases i,
        {
            let name = chars_of(self.registry[i - 1].tool.as_str());
            proof {
                assert(self.registered().take(i as int).drop_last() =~= self.registered().take(i - 1));
            }
            if chars_eq(name.as_slice(), tool) {
                return Some(i - 1);
            }
            i = i - 1;
        }
        proof {
            assert(self.registered().take(0) =~= Seq::<(Seq<char>, Seq<char>, Seq<char>)>::empty());
        }
        None
    }

    /// Records a finished call and says what comes next.
    fn record(&mut self, r: ToolResult) -> (step: AgentStep)
        requires
            old(self).history@.len() < old(self).max_steps,
            !old(self).finished,
            old(self).pending is None,
            r.call_id@ == call_id_text((old(self).history@.len() + 1) as nat),
            old(self).history@.len() <= old(self).max_steps,
            forall|i: int| 0 <= i < old(self).history@.len() ==> #[trigger] old(self).history@[i].call_id@ == call_id_text((i + 1) as nat),
        ensures
            final(self).wf(),
            final(self).calls() == old(self).calls().push(r@),
            final(self).running() is None,
            final(self).registered() == old(self).registered(),
            final(self).offered() == old(self).offered(),
            final(self).limit() == old(self).limit(),
            after_record(*final(self), step),
    {
        self.history.push(r);
        proof {
            assert(results_view(self.history@) =~= results_view(old(self).history@).push(r@));
        }
        if self.history.len() < self.max_steps {
            AgentStep::Decide
        } else {
            self.finished = true;
            let calls = clone_results(&self.history);
            AgentStep::Done(AgentResult { answer: limit_text(self.max_steps), calls })
        }
    }

    /// Takes the predictor's decision: a final answer ends the loop; a call of an
    /// unregistered tool is recorded as failed; a call of a registered tool is handed to
    /// the host, with the next call id.
    pub fn on_decision(&mut self, d: Decision) -> (step: AgentStep)
        requires
            old(self).wf(),
            old(self).awaits_decision(),
        ensures
            final(self).wf(),
            final(self).registered() == old(self).registered(),
            final(self).offered() == old(self).offered(),
            final(self).limit() == old(self).limit(),
            match d@ {
                DecisionModel::Final(text) => final(self).is_finished() && final(self).calls() == old(self).calls()
                    && (step matches AgentStep::Done(r) && r.answer@ == text && results_view(r.calls@) == old(self).calls()),
                DecisionModel::Call(tool, args) => {
                    let id = call_id_text((old(self).calls().len() + 1) as nat);
                    match lookup(old(self).registered(), tool) {
                        None => final(self).calls() == old(self).calls().push(unregistered_result(tool, id, args))
                            && final(self).running() is None && after_record(*final(self), step),
                        Some((file, plugin)) => final(self).calls() == old(self).calls()
                            && final(self).running() == Some((plugin, tool, args, id)) && !final(self).is_finished()
                            && (step matches AgentStep::Invoke { file: f, tool: t, args: a }
                            && f@ == file && t@ == tool && a@ == args),
                    }
                },
            },
    {
        match d {
            Decision::Final(text) => {
                self.finished = true;
                let calls = clone_results(&self.history);
                AgentStep::Done(AgentResult { answer: text, calls })
            },
            Decision::Call { tool, args } => {
                let call_id = call_id_for(self.history.len() + 1);
                let tc = chars_of(tool.as_str());
                match self.find_tool(tc.as_slice()) {
                    None => {
                        let mut m: Vec<char> = Vec::new();
                        extend_str(&mut m, "工具 ");
                        extend_str(&mut m, tool.as_str());
                        extend_str(&mut m, " 未注册");
                        let r = ToolResult {
                            plugin: String::new(),
                            tool,
                            call_id,
                            args,
                            output: String::new(),
                            rendered: string_of(m.as_slice()),
                            ok: false,
                        };
                        self.record(r)
                    },
                    Some(i) => {
                        let file = clone_string(&self.registry[i].file);
                        let plugin = clone_string(&self.registry[i].plugin);
                        let step = AgentStep::Invoke { file, tool: clone_string(&tool), args: clone_string(&args) };
                        self.pending = Some(PendingCall { plugin, tool, args, call_id });
                        step
                    },
                }
            },
        }
    }

    /// Takes the outcome of the running call, records its result and says what comes
    /// next.
    pub fn on_outcome(&mut self, o: InvokeOutcome) -> (step: AgentStep)
        requires
            old(self).wf(),
            old(self).awaits_outcome(),
        ensures
            final(self).wf(),
            final(self).registered() == old(self).registered(),
            final(self).offered() == old(self).offered(),
            final(self).limit() == old(self).limit(),
            final(self).running() is None,
            ({
                let (plugin, tool, args, id) = old(self).running()->0;
                final(self).calls() == old(self).calls().push(invoked_result(plugin, tool, id, args, o))
            }),
            after_record(*final(self), step),
    {
        let mut taken: Option<PendingCall> = None;
        std::mem::swap(&mut taken, &mut self.pending);
        let p = match taken {
            Some(p) => p,
            None => {
                proof {
                    assert(false);
                }
                return AgentStep::Decide;
            },
        };
        let r = match o {
            InvokeOutcome::Returned(Ok(out)) => {
                let output = truncate(out.as_str(), TOOL_RESULT_LIMIT);
                let mut m: Vec<char> = Vec::new();
                extend_str(&mut m, "工具 ");
                extend_str(&mut m, p.tool.as_str());
                extend_str(&mut m, " 返回: ");
                extend_str(&mut m, output.as_str());
                ToolResult {
                    plugin: p.plugin,
                    tool: p.tool,
                    call_id: p.call_id,
                    args: p.args,
                    rendered: string_of(m.as_slice()),
                    output,
                    ok: true,
                }
            },
            InvokeOutcome::Returned(Err(e)) => {
                let mut m: Vec<char> = Vec::new();
                extend_str(&mut m, "工具 ");
                extend_str(&mut m, p.tool.as_str());
                extend_str(&mut m, " 失败 [");
                extend_str(&mut m, e.code.as_str());
                extend_str(&mut m, "]: ");
                extend_str(&mut m, e.message.as_str());
                ToolResult {
                    plugin: p.plugin,
                    tool: p.tool,
                    call_id: p.call_id,
                    args: p.args,
                    output: String::new(),
                    rendered: string_of(m.as_slice()),
                    ok: false,
                }
            },
            InvokeOutcome::CutOff(detail) => {
                let mut m: Vec<char> = Vec::new();
                extend_str(&mut m, "工具 ");
                extend_str(&mut m, p.tool.as_str());
                extend_str(&mut m, " 被沙箱切断: ");
                extend_str(&mut m, detail.as_str());
                ToolResult {
                    plugin: p.plugin,
                    tool: p.tool,
                    call_id: p.call_id,
                    args: p.args,
                    output: String::new(),
                    rendered: string_of(m.as_slice()),
                    ok: false,
                }
            },
        };
        self.record(r)
    }
}


/// The loop is bounded: a run never holds more calls than its limit, and while it is
/// not over it is below the limit, so every decision or outcome it takes brings it one
/// call closer to the end.
pub proof fn law_run_is_bounded(run: AgentRun)
    requires
        run.wf(),
    ensures
        run.calls().len() <= run.limit(),
        !run.is_finished() ==> run.calls().len() < run.limit(),
{
}

/// Calls are numbered in order: the `i`-th recorded call (from 0) has id `call_<i+1>`.
pub proof fn law_call_ids_count_up(run: AgentRun, i: int)
    requires
        run.wf(),
        0 <= i < run.calls().len(),
    ensures
        run.calls()[i].call_id == call_id_text((i + 1) as nat),
{
}

} // verus!
