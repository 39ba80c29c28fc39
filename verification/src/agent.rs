//! The agent loop's vocabulary: a decision (a final answer or a tool call), the
//! `Predictor` that decides, the tools it sees, the results of executed calls, and the
//! local keyword-based predictor. Tool output is untrusted data: it is truncated before
//! it is fed back.

use vstd::prelude::*;

use crate::json::{json_single_member, single_member_object};
use crate::text::{
    chars_of, contains, find, lemma_contains_suffix, lemma_find_props, occurs_at, contains_chars, extend_chars, extend_str, first_word, first_word_chars,
    fit_count, split_once, split_once_chars, string_of, trim, trim_chars, utf8_len,
};

verus! {

/// One decision of the agent loop.
#[derive(Debug, Clone)]
pub enum Decision {
    /// End the loop with this answer.
    Final(String),
    /// Call the tool named `tool` with `args`, a JSON object text.
    Call { tool: String, args: String },
}

/// A decision as plain values.
pub enum DecisionModel {
    Final(Seq<char>),
    Call(Seq<char>, Seq<char>),
}

impl View for Decision {
    type V = DecisionModel;

    open spec fn view(&self) -> DecisionModel {
        match self {
            Decision::Final(t) => DecisionModel::Final(t@),
            Decision::Call { tool, args } => DecisionModel::Call(tool@, args@),
        }
    }
}

/// A tool as the predictor sees it (from a plugin's `schema()`).
#[derive(Debug, Clone)]
pub struct ToolHandle {
    pub name: String,
    pub plugin: String,
    pub description: String,
    /// `(name, type, description)` of each parameter.
    pub parameters: Vec<(String, String, String)>,
}

/// One executed tool call.
#[derive(Debug, Clone)]
pub struct ToolResult {
    pub plugin: String,
    pub tool: String,
    /// This call's id (`call_<n>`, counting from 1).
    pub call_id: String,
    /// The JSON arguments sent to the plugin.
    pub args: String,
    /// The truncated tool output on success; empty on failure.
    pub output: String,
    /// A human-readable line: success, declared failure, or cut off by the sandbox.
    pub rendered: String,
    pub ok: bool,
}

/// What the agent loop ends with.
#[derive(Debug)]
pub struct AgentResult {
    /// The final answer.
    pub answer: String,
    /// Every tool call made, in order.
    pub calls: Vec<ToolResult>,
}

/// The decision maker of the agent loop: from the prompt, the calls made so far and the
/// available tools, the next step.
pub trait Predictor {
    fn decide(&self, prompt: &str, history: &[ToolResult], tools: &[ToolHandle]) -> Decision;
}

/// Bytes of tool output kept (against output bombs and to shrink the injection surface).
pub const TOOL_RESULT_LIMIT: usize = 4096;

/// Most decisions one run of the loop makes.
pub const MAX_STEPS: usize = 8;

/// The mark appended to truncated output.
pub open spec fn truncation_mark() -> Seq<char> {
    "…[截断]"@
}

/// `s` cut at the last character boundary within `limit` bytes, marked, when longer.
pub open spec fn truncated(s: Seq<char>, limit: nat) -> Seq<char> {
    if utf8_len(s) <= limit {
        s
    } else {
        s.take(fit_count(s, limit) as int) + truncation_mark()
    }
}

/// Cuts `s` to at most `limit` bytes at a character boundary and appends a mark when
/// it was longer.
pub fn truncate(s: &str, limit: usize) -> (t: String)
    ensures
        t@ == truncated(s@, limit as nat),
{
    let v = chars_of(s);
    let k = crate::text::utf8_fit(v.as_slice(), limit);
    if k == v.len() {
        proof {
            assert(v@.take(k as int) =~= v@);
        }
        return s.to_owned();
    }
    let mut out = crate::text::slice_chars(v.as_slice(), 0, k);
    extend_str(&mut out, "…[截断]");
    string_of(out.as_slice())
}

/// The first white-space separated word after the first `marker`; empty when there is
/// none.
pub open spec fn token_after_spec(s: Seq<char>, marker: Seq<char>) -> Seq<char> {
    match split_once(s, marker) {
        Some((_, rest)) => match first_word(rest) {
            Some(w) => w,
            None => Seq::empty(),
        },
        None => Seq::empty(),
    }
}

/// The text between the first `open` and the first `close` after it, trimmed; empty
/// when either is missing.
pub open spec fn between_spec(s: Seq<char>, open: Seq<char>, close: Seq<char>) -> Seq<char> {
    match split_once(s, open) {
        Some((_, rest)) => match split_once(rest, close) {
            Some((mid, _)) => trim(mid),
            None => Seq::empty(),
        },
        None => Seq::empty(),
    }
}

/// The text after the first 然后, or else after the first 再.
pub open spec fn chain_rest(prompt: Seq<char>) -> Option<Seq<char>> {
    match split_once(prompt, "然后"@) {
        Some((_, r)) => Some(r),
        None => match split_once(prompt, "再"@) {
            Some((_, r)) => Some(r),
            None => None,
        },
    }
}

/// The tool of a second step named after 然后/再: 倒序 → reverse, else 大写 → upper.
pub open spec fn second_step_spec(prompt: Seq<char>) -> Option<Seq<char>> {
    match chain_rest(prompt) {
        Some(rest) => if contains(rest, "倒序"@) {
            Some("reverse"@)
        } else if contains(rest, "大写"@) {
            Some("upper"@)
        } else {
            None
        },
        None => None,
    }
}

fn token_after(s: &[char], marker: &str) -> (r: Vec<char>)
    ensures
        r@ == token_after_spec(s@, marker@),
{
    let m = chars_of(marker);
    match split_once_chars(s, m.as_slice()) {
        Some((_, rest)) => match first_word_chars(rest.as_slice()) {
            Some(w) => w,
            None => Vec::new(),
        },
        None => Vec::new(),
    }
}

fn between(s: &[char], open: &str, close: &str) -> (r: Vec<char>)
    ensures
        r@ == between_spec(s@, open@, close@),
{
    let o = chars_of(open);
    let c = chars_of(close);
    match split_once_chars(s, o.as_slice()) {
        Some((_, rest)) => match split_once_chars(rest.as_slice(), c.as_slice()) {
            Some((mid, _)) => trim_chars(mid.as_slice()),
            None => Vec::new(),
        },
        None => Vec::new(),
    }
}

fn second_step_intent(prompt: &[char]) -> (r: Option<&'static str>)
    ensures
        match r {
            Some(t) => second_step_spec(prompt@) == Some(t@),
            None => second_step_spec(prompt@) is None,
        },
{
    let then = chars_of("然后");
    let again = chars_of("再");
    let rest = match split_once_chars(prompt, then.as_slice()) {
        Some((_, r)) => r,
        None => match split_once_chars(prompt, again.as_slice()) {
            Some((_, r)) => r,
            None => {
                return None;
            },
        },
    };
    let rev = chars_of("倒序");
    let up = chars_of("大写");
    if contains_chars(rest.as_slice(), rev.as_slice()) {
        Some("reverse")
    } else if contains_chars(rest.as_slice(), up.as_slice()) {
        Some("upper")
    } else {
        None
    }
}

/// The local, keyword-based predictor: keywords pick the tool, the prompt gives the
/// argument; after one call, a 然后/再 names at most one chained call.
pub struct AlgorithmPredictor;

/// The predictor's answer from the last call: its output, or its rendered line when the
/// output is empty.
pub open spec fn last_answer(last: ToolResult) -> Seq<char> {
    if last.output@.len() == 0 {
        last.rendered@
    } else {
        last.output@
    }
}

/// A call whose arguments are the one-member object `{key: value}`.
pub open spec fn call_with(tool: Seq<char>, key: Seq<char>, value: Seq<char>) -> DecisionModel {
    DecisionModel::Call(tool, json_single_member(key, value))
}

/// The first of `a`, `b`, `c` that is not empty (`c` when all are).
pub open spec fn first_nonempty(a: Seq<char>, b: Seq<char>, c: Seq<char>) -> Seq<char> {
    if a.len() > 0 {
        a
    } else if b.len() > 0 {
        b
    } else {
        c
    }
}

/// What the local predictor decides for a prompt before any call.
pub open spec fn first_decision(p: Seq<char>) -> DecisionModel {
    if contains(p, "身份证"@) {
        call_with("idcard"@, "id"@, token_after_spec(p, "身份证"@))
    } else if contains(p, "银行卡"@) || contains(p, "卡号"@) {
        call_with("luhn"@, "card_number"@, first_nonempty(
            token_after_spec(p, "银行卡号"@),
            token_after_spec(p, "银行卡"@),
            token_after_spec(p, "卡号"@),
        ))
    } else if contains(p, "人民币"@) || contains(p, "金额"@) {
        call_with("rmb"@, "amount"@, first_nonempty(
            between_spec(p, "把"@, "转成"@),
            token_after_spec(p, "人民币"@),
            token_after_spec(p, "金额"@),
        ))
    } else if contains(p, "大写"@) {
        call_with("upper"@, "text"@, between_spec(p, "把"@, "转大写"@))
    } else if contains(p, "倒序"@) {
        call_with("reverse"@, "text"@, between_spec(p, "把"@, "倒序"@))
    } else if contains(p, "attacker"@) {
        let a = token_after_spec(p, "跑"@);
        call_with("attacker"@, "action"@, if a.len() > 0 { a } else { "loop"@ })
    } else {
        DecisionModel::Final("（本地预测：未匹配到工具，直接回答）"@ + p)
    }
}

/// What the local predictor decides.
pub open spec fn local_decision(p: Seq<char>, history: Seq<ToolResult>) -> DecisionModel {
    if history.len() > 0 {
        let last = history.last();
        if last.ok && history.len() == 1 && second_step_spec(p) is Some {
            call_with(second_step_spec(p)->0, "text"@, last.output@)
        } else {
            DecisionModel::Final(last_answer(last))
        }
    } else {
        first_decision(p)
    }
}

fn call_decision(tool: &str, key: &str, value: &[char]) -> (d: Decision)
    ensures
        d@ == call_with(tool@, key@, value@),
{
    let v = string_of(value);
    Decision::Call { tool: tool.to_owned(), args: single_member_object(key, v.as_str()) }
}

fn or_else(a: Vec<char>, b: Vec<char>) -> (r: Vec<char>)
    ensures
        r@ == (if a@.len() > 0 { a@ } else { b@ }),
{
    if a.len() > 0 {
        a
    } else {
        b
    }
}

impl AlgorithmPredictor {
    fn first_step(p: &[char]) -> (d: Decision)
        ensures
            d@ == first_decision(p@),
    {
        if contains_chars(p, chars_of("身份证").as_slice()) {
            return call_decision("idcard", "id", token_after(p, "身份证").as_slice());
        }
        if contains_chars(p, chars_of("银行卡").as_slice()) || contains_chars(p, chars_of("卡号").as_slice()) {
            let n = or_else(token_after(p, "银行卡号"), or_else(token_after(p, "银行卡"), token_after(p, "卡号")));
            return call_decision("luhn", "card_number", n.as_slice());
        }
        if contains_chars(p, chars_of("人民币").as_slice()) || contains_chars(p, chars_of("金额").as_slice()) {
            let n = or_else(between(p, "把", "转成"), or_else(token_after(p, "人民币"), token_after(p, "金额")));
            return call_decision("rmb", "amount", n.as_slice());
        }
        if contains_chars(p, chars_of("大写").as_slice()) {
            return call_decision("upper", "text", between(p, "把", "转大写").as_slice());
        }
        if contains_chars(p, chars_of("倒序").as_slice()) {
            return call_decision("reverse", "text", between(p, "把", "倒序").as_slice());
        }
        if contains_chars(p, chars_of("attacker").as_slice()) {
            let a = or_else(token_after(p, "跑"), chars_of("loop"));
            return call_decision("attacker", "action", a.as_slice());
        }
        let mut m: Vec<char> = Vec::new();
        extend_str(&mut m, "（本地预测：未匹配到工具，直接回答）");
        extend_chars(&mut m, p);
        Decision::Final(string_of(m.as_slice()))
    }
}

impl Predictor for AlgorithmPredictor {
    fn decide(&self, prompt: &str, history: &[ToolResult], _tools: &[ToolHandle]) -> (d: Decision)
        ensures
            d@ == local_decision(prompt@, history@),
            history@.len() == 1 && history@[0].ok && second_step_spec(prompt@) is Some ==> (
                d matches Decision::Call { args, .. }
                    && crate::json::json_str_member(args@, "text"@) == Some(Some(history@[0].output@))
            ),
    {
        let p = chars_of(prompt);
        if history.len() > 0 {
            let last = &history[history.len() - 1];
            if last.ok && history.len() == 1 {
                if let Some(tool) = second_step_intent(p.as_slice()) {
                    return Decision::Call {
                        tool: tool.to_owned(),
                        args: single_member_object("text", last.output.as_str()),
                    };
                }
            }
            let out = chars_of(last.output.as_str());
            let answer = if out.len() == 0 {
                last.rendered.clone()
            } else {
                last.output.clone()
            };
            return Decision::Final(answer);
        }
        Self::first_step(p.as_slice())
    }
}

/// The local predictor chains at most once: once two or more calls were made, it
/// answers.
pub proof fn law_local_predictor_chains_once(p: Seq<char>, history: Seq<ToolResult>)
    requires
        history.len() >= 2,
    ensures
        local_decision(p, history) is Final,
{
}

/// Truncation bounds tool output: what is kept is at most `limit` bytes, plus the mark
/// when something was cut, and output within the limit is kept whole.
pub proof fn law_truncation_bounds_output(s: Seq<char>, limit: nat)
    ensures
        utf8_len(truncated(s, limit)) <= limit + utf8_len(truncation_mark()),
        utf8_len(s) <= limit ==> truncated(s, limit) == s,
        utf8_len(s) > limit ==> truncated(s, limit) == s.take(fit_count(s, limit) as int) + truncation_mark(),
{
    if utf8_len(s) > limit {
        lemma_fit_count_props(s, limit);
        crate::text::lemma_utf8_len_concat(s.take(fit_count(s, limit) as int), truncation_mark());
    }
}

/// `fit_count` keeps a prefix within the limit.
proof fn lemma_fit_count_props(s: Seq<char>, limit: nat)
    ensures
        fit_count(s, limit) <= s.len(),
        utf8_len(s.take(fit_count(s, limit) as int)) <= limit,
    decreases s.len(),
{
    if utf8_len(s) <= limit || s.len() == 0 {
        assert(s.take(s.len() as int) =~= s);
        if s.len() == 0 {
            assert(utf8_len(s) == 0);
        }
    } else {
        lemma_fit_count_props(s.drop_last(), limit);
        let k = fit_count(s.drop_last(), limit);
        assert(s.drop_last().take(k as int) =~= s.take(k as int));
    }
}

/// After one successful call, a prompt without 然后 chains on its first 再: when what
/// follows a 再 names 倒序, the next decision reverses the first call's output; when it
/// names 大写 and the prompt names no 倒序, it upper-cases that output.
pub proof fn law_chains_after_again(p: Seq<char>, history: Seq<ToolResult>, i: int)
    requires
        history.len() == 1,
        history[0].ok,
        !contains(p, "然后"@),
        0 <= i < p.len(),
        p[i] == '再',
    ensures
        contains(p.skip(i + 1), "倒序"@) ==> local_decision(p, history)
            == DecisionModel::Call("reverse"@, json_single_member("text"@, history[0].output@)),
        !contains(p, "倒序"@) && contains(p.skip(i + 1), "大写"@) ==> local_decision(p, history)
            == DecisionModel::Call("upper"@, json_single_member("text"@, history[0].output@)),
{
    reveal_strlit("再");
    assert(p.subrange(i, i + 1) =~= "再"@);
    assert(occurs_at(p, "再"@, i));
    lemma_find_props(p, "再"@);
    let f = find(p, "再"@)->0;
    assert(f <= i);
    let r = p.skip(f + 1);
    assert(split_once(p, "再"@) == Some((p.take(f), r)));
    assert(p.skip(i + 1) =~= r.skip(i - f));
    assert(history.last() == history[0]);
    if contains(p.skip(i + 1), "倒序"@) {
        lemma_contains_suffix(r, i - f, "倒序"@);
    }
    if !contains(p, "倒序"@) && contains(p.skip(i + 1), "大写"@) {
        lemma_contains_suffix(r, i - f, "大写"@);
        if contains(r, "倒序"@) {
            lemma_contains_suffix(p, f + 1, "倒序"@);
        }
    }
}

} // verus!
