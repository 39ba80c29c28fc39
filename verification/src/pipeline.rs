//! Plugins by name, and the plugin pipeline: an input goes through named plugins in
//! turn, each output feeding the next, and the first failure stops it, naming the step.
//!
//! The pipeline is a state machine: the host runs the step it is asked to run (in the
//! sandbox) and hands back what came of it.

use vstd::prelude::*;

use crate::agent_loop::{lemma_map_push, InvokeOutcome};
use crate::plugin::{PluginError, PluginInfo};
use crate::text::{chars_eq, chars_of, extend_str, string_of};

verus! {

/// The index of the first name equal to `name`.
pub open spec fn first_match(names: Seq<Seq<char>>, name: Seq<char>) -> Option<int>
    decreases names.len(),
{
    if names.len() == 0 {
        None
    } else {
        match first_match(names.drop_last(), name) {
            Some(i) => Some(i),
            None => if names.last() == name {
                Some(names.len() - 1)
            } else {
                None
            },
        }
    }
}

/// The registered names of discovered plugins, in discovery order.
pub open spec fn plugin_names(found: Seq<(String, PluginInfo)>) -> Seq<Seq<char>> {
    found.map_values(|p: (String, PluginInfo)| p.1.name@)
}

/// `first_match` finds the first equal name: every name before it differs, and there
/// is none at all when it finds nothing.
pub proof fn lemma_first_match(names: Seq<Seq<char>>, name: Seq<char>)
    ensures
        match first_match(names, name) {
            Some(i) => 0 <= i < names.len() && names[i] == name
                && forall|j: int| 0 <= j < i ==> names[j] != name,
            None => forall|j: int| 0 <= j < names.len() ==> names[j] != name,
        },
    decreases names.len(),
{
    if names.len() > 0 {
        lemma_first_match(names.drop_last(), name);
        match first_match(names.drop_last(), name) {
            Some(i) => {
                assert forall|j: int| 0 <= j < i implies names[j] != name by {
                    assert(names[j] == names.drop_last()[j]);
                }
                assert(names[i] == names.drop_last()[i]);
            },
            None => {
                assert forall|j: int| 0 <= j < names.len() - 1 implies names[j] != name by {
                    assert(names[j] == names.drop_last()[j]);
                }
            },
        }
    }
}

/// The plugin registered as `name` among the discovered ones: the first with that
/// `info().name`.
pub fn resolve(found: &[(String, PluginInfo)], name: &str) -> (r: Option<usize>)
    ensures
        match r {
            Some(i) => first_match(plugin_names(found@), name@) == Some(i as int),
            None => first_match(plugin_names(found@), name@) is None,
        },
{
    let n = chars_of(name);
    let ghost names = plugin_names(found@);
    let mut i: usize = 0;
    assert(names.take(0) =~= Seq::<Seq<char>>::empty());
    while i < found.len()
        invariant
            i <= found@.len(),
            names == plugin_names(found@),
            n@ == name@,
            first_match(names.take(i as int), name@) is None,
        decreases found@.len() - i,
    {
        let c = chars_of(found[i].1.name.as_str());
        assert(names.take(i + 1).drop_last() =~= names.take(i as int));
        assert(names.take(i + 1).last() == found@[i as int].1.name@);
        if chars_eq(c.as_slice(), n.as_slice()) {
            proof {
                lemma_first_match_prefix(names, name@, i + 1);
            }
            return Some(i);
        }
        i = i + 1;
    }
    assert(names.take(found@.len() as int) =~= names);
    None
}

/// A match found in a prefix is the match in the whole sequence.
proof fn lemma_first_match_prefix(names: Seq<Seq<char>>, name: Seq<char>, k: int)
    requires
        0 <= k <= names.len(),
        first_match(names.take(k), name) is Some,
    ensures
        first_match(names, name) == first_match(names.take(k), name),
    decreases names.len() - k,
{
    if k < names.len() {
        assert(names.take(k + 1).drop_last() =~= names.take(k));
        lemma_first_match_prefix(names, name, k + 1);
    } else {
        assert(names.take(k) =~= names);
    }
}

fn copy(s: &String) -> (c: String)
    ensures
        c@ == s@,
{
    s.clone()
}

/// The index of the first of `v` equal to `name`.
fn position(v: &Vec<String>, name: &str) -> (r: Option<usize>)
    ensures
        match r {
            Some(k) => k < v@.len() && first_match(v@.map_values(|s: String| s@), name@) == Some(k as int),
            None => first_match(v@.map_values(|s: String| s@), name@) is None,
        },
{
    let n = chars_of(name);
    let ghost names = v@.map_values(|s: String| s@);
    let mut k: usize = 0;
    assert(names.take(0) =~= Seq::<Seq<char>>::empty());
    while k < v.len()
        invariant
            k <= v@.len(),
            names == v@.map_values(|s: String| s@),
            n@ == name@,
            first_match(names.take(k as int), name@) is None,
        decreases v@.len() - k,
    {
        let c = chars_of(v[k].as_str());
        assert(names.take(k + 1).drop_last() =~= names.take(k as int));
        assert(names.take(k + 1).last() == v@[k as int]@);
        if chars_eq(c.as_slice(), n.as_slice()) {
            proof {
                lemma_first_match_prefix(names, name@, k + 1);
            }
            return Some(k);
        }
        k = k + 1;
    }
    assert(names.take(v@.len() as int) =~= names);
    None
}

/// A file name whose extension is `wasm`: it ends in `.wasm`, and that `.` is not its
/// first character (a name like `.wasm` has no extension).
pub open spec fn is_wasm_file(name: Seq<char>) -> bool {
    name.len() > 5 && name.skip(name.len() - 5) == ".wasm"@
}

/// `a` comes before `b`, or equals it, in lexicographic order of characters (which is
/// the byte order of their UTF-8 encodings).
pub open spec fn name_le(a: Seq<char>, b: Seq<char>) -> bool
    decreases a.len(),
{
    if a.len() == 0 {
        true
    } else if b.len() == 0 {
        false
    } else if a[0] != b[0] {
        a[0] < b[0]
    } else {
        name_le(a.drop_first(), b.drop_first())
    }
}

/// `names` are in ascending order.
pub open spec fn sorted_names(names: Seq<Seq<char>>) -> bool {
    forall|i: int, j: int| 0 <= i < j < names.len() ==> name_le(#[trigger] names[i], #[trigger] names[j])
}

/// Of two names, one comes first.
pub proof fn lemma_name_le_total(a: Seq<char>, b: Seq<char>)
    ensures
        name_le(a, b) || name_le(b, a),
    decreases a.len(),
{
    if a.len() > 0 && b.len() > 0 && a[0] == b[0] {
        lemma_name_le_total(a.drop_first(), b.drop_first());
    }
}

/// The order is transitive.
pub proof fn lemma_name_le_trans(a: Seq<char>, b: Seq<char>, c: Seq<char>)
    requires
        name_le(a, b),
        name_le(b, c),
    ensures
        name_le(a, c),
    decreases a.len(),
{
    if a.len() > 0 && b.len() > 0 && c.len() > 0 && a[0] == b[0] && b[0] == c[0] {
        lemma_name_le_trans(a.drop_first(), b.drop_first(), c.drop_first());
    }
}

fn name_le_chars(a: &[char], b: &[char]) -> (r: bool)
    ensures
        r == name_le(a@, b@),
{
    let mut i: usize = 0;
    assert(a@.skip(0) =~= a@ && b@.skip(0) =~= b@);
    assert(a@.take(0) =~= b@.take(0));
    while i < a.len() && i < b.len()
        invariant
            i <= a@.len(),
            i <= b@.len(),
            a@.take(i as int) == b@.take(i as int),
            name_le(a@, b@) == name_le(a@.skip(i as int), b@.skip(i as int)),
        decreases a@.len() - i,
    {
        if a[i] != b[i] {
            proof {
                assert(a@.skip(i as int)[0] == a@[i as int]);
                assert(b@.skip(i as int)[0] == b@[i as int]);
            }
            return a[i] < b[i];
        }
        proof {
            assert(a@.skip(i as int)[0] == b@.skip(i as int)[0]);
            assert(a@.skip(i as int).drop_first() =~= a@.skip(i + 1));
            assert(b@.skip(i as int).drop_first() =~= b@.skip(i + 1));
            assert(a@.take(i + 1) =~= a@.take(i as int).push(a@[i as int]));
            assert(b@.take(i + 1) =~= b@.take(i as int).push(b@[i as int]));
        }
        i = i + 1;
    }
    i == a.len()
}

fn is_wasm_name(name: &[char]) -> (r: bool)
    ensures
        r == is_wasm_file(name@),
{
    if name.len() <= 5 {
        return false;
    }
    let tail = crate::text::slice_chars(name, name.len() - 5, name.len());
    let ext = chars_of(".wasm");
    assert(tail@ =~= name@.skip(name@.len() - 5));
    chars_eq(tail.as_slice(), ext.as_slice())
}

/// The names among `s` whose extension is `wasm`, in their order.
pub open spec fn wasm_files(s: Seq<Seq<char>>) -> Seq<Seq<char>>
    decreases s.len(),
{
    if s.len() == 0 {
        Seq::empty()
    } else if is_wasm_file(s.last()) {
        wasm_files(s.drop_last()).push(s.last())
    } else {
        wasm_files(s.drop_last())
    }
}

/// The views of some strings.
pub open spec fn views(v: Seq<String>) -> Seq<Seq<char>> {
    v.map_values(|s: String| s@)
}

/// The plugin files among the entries of a plugin directory: the names whose extension
/// is `wasm`, each as often as it occurs, in ascending order.
pub fn plugin_files(names: &[String]) -> (files: Vec<String>)
    ensures
        sorted_names(views(files@)),
        views(files@).to_multiset() == wasm_files(views(names@)).to_multiset(),
{
    let mut out: Vec<String> = Vec::new();
    let mut i: usize = 0;
    assert(views(names@.take(0)) =~= Seq::<Seq<char>>::empty());
    assert(views(out@) =~= Seq::<Seq<char>>::empty());
    while i < names.len()
        invariant
            i <= names@.len(),
            sorted_names(views(out@)),
            views(out@).to_multiset() == wasm_files(views(names@.take(i as int))).to_multiset(),
        decreases names@.len() - i,
    {
        let ghost pre = views(names@.take(i as int));
        let ghost x = names@[i as int]@;
        proof {
            assert(views(names@.take(i + 1)) =~= pre.push(x));
            assert(pre.push(x).drop_last() =~= pre);
        }
        let c = chars_of(names[i].as_str());
        if is_wasm_name(c.as_slice()) {
            let mut k: usize = 0;
            while k < out.len()
                invariant
                    k <= out@.len(),
                    c@ == x,
                    forall|j: int| 0 <= j < k ==> name_le(#[trigger] views(out@)[j], x),
                ensures
                    k <= out@.len(),
                    forall|j: int| 0 <= j < k ==> name_le(#[trigger] views(out@)[j], x),
                    k < out@.len() ==> !name_le(views(out@)[k as int], x),
                decreases out@.len() - k,
            {
                let o = chars_of(out[k].as_str());
                if !name_le_chars(o.as_slice(), c.as_slice()) {
                    break;
                }
                k = k + 1;
            }
            let ghost before = views(out@);
            out.insert(k, names[i].clone());
            proof {
                assert(views(out@) =~= before.insert(k as int, x));
                vstd::seq_lib::to_multiset_insert(before, k as int, x);
                vstd::seq_lib::to_multiset_build(wasm_files(pre), x);
                assert(wasm_files(pre.push(x)) == wasm_files(pre).push(x));
                if k < before.len() {
                    lemma_name_le_total(before[k as int], x);
                }
                assert forall|a: int, b: int| 0 <= a < b < views(out@).len() implies name_le(#[trigger] views(out@)[a], #[trigger] views(out@)[b]) by {
                    let v = views(out@);
                    if b == k {
                        assert(v[a] == before[a]);
                    } else if a == k {
                        assert(v[b] == before[b - 1]);
                        if b - 1 > k {
                            assert(name_le(before[k as int], before[b - 1]));
                            lemma_name_le_trans(x, before[k as int], before[b - 1]);
                        }
                    } else {
                        let a0 = if a < k { a } else { a - 1 };
                        let b0 = if b < k { b } else { b - 1 };
                        assert(v[a] == before[a0] && v[b] == before[b0]);
                        assert(name_le(before[a0], before[b0]));
                    }
                }
            }
        } else {
            proof {
                assert(wasm_files(pre.push(x)) == wasm_files(pre));
            }
        }
        i = i + 1;
    }
    assert(names@.take(names@.len() as int) =~= names@);
    out
}

/// Why a pipeline stopped.
#[derive(Debug)]
pub enum PipeFailure {
    /// The plugin of this step declined its input.
    Declined { step: String, error: PluginError },
    /// This step could not be run: its plugin trapped or was cut off in the sandbox, or
    /// no plugin is registered under its name.
    Trap { step: String, detail: String },
}

/// A failure as plain values.
pub enum FailureModel {
    Declined(Seq<char>, (Seq<char>, Seq<char>)),
    Trap(Seq<char>, Seq<char>),
}

impl View for PipeFailure {
    type V = FailureModel;

    open spec fn view(&self) -> FailureModel {
        match self {
            PipeFailure::Declined { step, error } => FailureModel::Declined(step@, (error.code@, error.message@)),
            PipeFailure::Trap { step, detail } => FailureModel::Trap(step@, detail@),
        }
    }
}

/// What the host is asked to do next.
#[derive(Debug)]
pub enum PipeStep {
    /// Run `transform(input)` of the plugin in `file`, for the step named `step`.
    Run { step: String, file: String, input: String },
    /// The pipeline is over: the last output, or the failure that stopped it.
    Done(Result<String, PipeFailure>),
}

/// A step as plain values.
pub enum StepModel {
    Run(Seq<char>, Seq<char>, Seq<char>),
    Done(Result<Seq<char>, FailureModel>),
}

impl View for PipeStep {
    type V = StepModel;

    open spec fn view(&self) -> StepModel {
        match self {
            PipeStep::Run { step, file, input } => StepModel::Run(step@, file@, input@),
            PipeStep::Done(Ok(out)) => StepModel::Done(Ok(out@)),
            PipeStep::Done(Err(f)) => StepModel::Done(Err(f@)),
        }
    }
}

/// The detail reported for a step whose name no plugin is registered under.
pub open spec fn missing_detail(name: Seq<char>) -> Seq<char> {
    "未找到插件 `"@ + name + "`"@
}

/// What comes after `i` steps succeeded with `current` as the last output: the end
/// when all names are done, else step `i` on `current` (or its failure to resolve).
pub open spec fn next_step(files: Seq<Seq<char>>, registered: Seq<Seq<char>>, names: Seq<Seq<char>>, i: int, current: Seq<char>) -> StepModel {
    if i >= names.len() {
        StepModel::Done(Ok(current))
    } else {
        match first_match(registered, names[i]) {
            None => StepModel::Done(Err(FailureModel::Trap(names[i], missing_detail(names[i])))),
            Some(k) => StepModel::Run(names[i], files[k], current),
        }
    }
}

/// The end that a step's outcome brings, when it brings one: a declined input or a trap
/// stops the pipeline at this step.
pub open spec fn failure_of(step: Seq<char>, o: InvokeOutcome) -> Option<FailureModel> {
    match o {
        InvokeOutcome::Returned(Ok(_)) => None,
        InvokeOutcome::Returned(Err(e)) => Some(FailureModel::Declined(step, (e.code@, e.message@))),
        InvokeOutcome::CutOff(d) => Some(FailureModel::Trap(step, d@)),
    }
}

/// A running pipeline.
pub struct Pipeline {
    files: Vec<String>,
    registered: Vec<String>,
    names: Vec<String>,
    done: usize,
    current: String,
    running: bool,
}

impl Pipeline {
    /// The files of the discovered plugins.
    pub closed spec fn files(&self) -> Seq<Seq<char>> {
        self.files@.map_values(|s: String| s@)
    }

    /// The names the discovered plugins registered.
    pub closed spec fn registered(&self) -> Seq<Seq<char>> {
        self.registered@.map_values(|s: String| s@)
    }

    /// The step names, in order.
    pub closed spec fn names(&self) -> Seq<Seq<char>> {
        self.names@.map_values(|s: String| s@)
    }

    /// Steps that succeeded so far.
    pub closed spec fn done(&self) -> nat {
        self.done as nat
    }

    /// The last output (the input before any step).
    pub closed spec fn current(&self) -> Seq<char> {
        self.current@
    }

    /// Whether a step is running, its outcome awaited.
    pub closed spec fn running(&self) -> bool {
        self.running
    }

    /// Well-formed: one file per registered name, and a running step is one of the
    /// names.
    pub closed spec fn wf(&self) -> bool {
        &&& self.files@.len() == self.registered@.len()
        &&& self.done <= self.names@.len()
        &&& self.running ==> self.done < self.names@.len()
    }

    fn at(v: &Vec<String>, i: usize) -> (s: String)
        requires
            i < v@.len(),
        ensures
            s@ == v@[i as int]@,
    {
        v[i].clone()
    }

    /// Resolves the step after `done` successful ones and says what comes next.
    fn advance(&mut self) -> (step: PipeStep)
        requires
            old(self).wf(),
            !old(self).running,
        ensures
            final(self).wf(),
            final(self).files() == old(self).files(),
            final(self).registered() == old(self).registered(),
            final(self).names() == old(self).names(),
            final(self).done() == old(self).done(),
            final(self).current() == old(self).current(),
            step@ == next_step(old(self).files(), old(self).registered(), old(self).names(), old(self).done() as int, old(self).current()),
            final(self).running() == (step is Run),
    {
        if self.done >= self.names.len() {
            return PipeStep::Done(Ok(self.current.clone()));
        }
        let name = Self::at(&self.names, self.done);
        match position(&self.registered, name.as_str()) {
            Some(k) => {
                let file = Self::at(&self.files, k);
                self.running = true;
                return PipeStep::Run { step: name, file, input: self.current.clone() };
            },
            None => {},
        }
        let mut m: Vec<char> = Vec::new();
        extend_str(&mut m, "未找到插件 `");
        extend_str(&mut m, name.as_str());
        extend_str(&mut m, "`");
        let detail = string_of(m.as_slice());
        PipeStep::Done(Err(PipeFailure::Trap { step: name, detail }))
    }

    /// A pipeline of `names` over the discovered plugins `found`, starting from `input`;
    /// the first step to run, or the end.
    pub fn start(found: &[(String, PluginInfo)], input: &str, names: &[&str]) -> (res: (Pipeline, PipeStep))
        ensures
            res.0.wf(),
            res.0.files() == found@.map_values(|p: (String, PluginInfo)| p.0@),
            res.0.registered() == plugin_names(found@),
            res.0.names() == names@.map_values(|s: &str| s@),
            res.0.done() == 0,
            res.0.current() == input@,
            res.1@ == next_step(res.0.files(), res.0.registered(), res.0.names(), 0, input@),
            res.0.running() == (res.1 is Run),
    {
        let mut files: Vec<String> = Vec::new();
        let mut registered: Vec<String> = Vec::new();
        let mut i: usize = 0;
        while i < found.len()
            invariant
                i <= found@.len(),
                files@.map_values(|s: String| s@) == found@.take(i as int).map_values(|p: (String, PluginInfo)| p.0@),
                registered@.map_values(|s: String| s@) == plugin_names(found@.take(i as int)),
            decreases found@.len() - i,
        {
            let ghost f0 = files@;
            let ghost r0 = registered@;
            let f = copy(&found[i].0);
            let r = copy(&found[i].1.name);
            files.push(f);
            registered.push(r);
            proof {
                let t = found@.take(i as int);
                assert(found@.take(i + 1) =~= t.push(found@[i as int]));
                lemma_map_push(f0, f, |s: String| s@);
                lemma_map_push(r0, r, |s: String| s@);
                lemma_map_push(t, found@[i as int], |p: (String, PluginInfo)| p.0@);
                lemma_map_push(t, found@[i as int], |p: (String, PluginInfo)| p.1.name@);
            }
            i = i + 1;
        }
        assert(found@.take(found@.len() as int) =~= found@);
        let mut steps: Vec<String> = Vec::new();
        let mut j: usize = 0;
        while j < names.len()
            invariant
                j <= names@.len(),
                steps@.map_values(|s: String| s@) == names@.take(j as int).map_values(|s: &str| s@),
            decreases names@.len() - j,
        {
            let ghost s0 = steps@;
            let t = names[j].to_owned();
            steps.push(t);
            proof {
                assert(names@.take(j + 1) =~= names@.take(j as int).push(names@[j as int]));
                lemma_map_push(s0, t, |s: String| s@);
                lemma_map_push(names@.take(j as int), names@[j as int], |s: &str| s@);
            }
            j = j + 1;
        }
        assert(names@.take(names@.len() as int) =~= names@);
        let mut p = Pipeline { files, registered, names: steps, done: 0, current: input.to_owned(), running: false };
        let step = p.advance();
        (p, step)
    }

    /// Takes the outcome of the running step: its output feeds the next step; a
    /// declined input or a trap ends the pipeline, naming the step.
    pub fn on_outcome(&mut self, o: InvokeOutcome) -> (step: PipeStep)
        requires
            old(self).wf(),
            old(self).running(),
        ensures
            final(self).wf(),
            final(self).files() == old(self).files(),
            final(self).registered() == old(self).registered(),
            final(self).names() == old(self).names(),
            match failure_of(old(self).names()[old(self).done() as int], o) {
                Some(f) => step@ == StepModel::Done(Err(f)) && !final(self).running()
                    && final(self).done() == old(self).done(),
                None => {
                    &&& o matches InvokeOutcome::Returned(Ok(out))
                    &&& final(self).done() == old(self).done() + 1
                    &&& final(self).current() == out@
                    &&& step@ == next_step(old(self).files(), old(self).registered(), old(self).names(), final(self).done() as int, out@)
                    &&& final(self).running() == (step is Run)
                },
            },
    {
        let total = self.names.len();
        let name = Self::at(&self.names, self.done);
        assert(self.names()[self.done as int] == name@);
        self.running = false;
        match o {
            InvokeOutcome::Returned(Ok(out)) => {
                self.done = self.done + 1;
                self.current = out;
                self.advance()
            },
            InvokeOutcome::Returned(Err(error)) => PipeStep::Done(Err(PipeFailure::Declined { step: name, error })),
            InvokeOutcome::CutOff(detail) => PipeStep::Done(Err(PipeFailure::Trap { step: name, detail })),
        }
    }
}

/// A pipeline never runs more steps than it has names: while a step runs, fewer than
/// all names are done.
pub proof fn law_pipeline_is_bounded(p: Pipeline)
    requires
        p.wf(),
    ensures
        p.done() <= p.names().len(),
        p.running() ==> p.done() < p.names().len(),
{
}

} // verus!
