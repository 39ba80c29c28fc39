//! The sample plugins: `upper` (upper-cases its input), `reverse` (reverses it) and
//! `attacker` (a malicious example whose CPU and memory bombs the sandbox must cut off).

use vstd::prelude::*;

use crate::plugin::{err, info_of, outcome, single_tool, tool_input, Outcome, PluginError, PluginInfo, ToolSchema};
use crate::text::{chars_of, extend_str, starts_with, string_of};

verus! {

/// Unicode upper-casing as `str::to_uppercase` does it.
pub uninterp spec fn unicode_upper(s: Seq<char>) -> Seq<char>;

/// `str::to_uppercase`. The contract names the result; it states nothing of Unicode's
/// case mappings.
#[verifier::external_body]
fn to_uppercase(s: &str) -> (r: String)
    ensures
        r@ == unicode_upper(s@),
{
    s.to_uppercase()
}

/// The `upper` plugin.
pub struct Upper;

/// The `reverse` plugin.
pub struct Reverse;

/// The `attacker` plugin.
pub struct Attacker;

/// Inputs on which `upper` panics on purpose (the host sees a trap).
pub open spec fn upper_traps(input: Seq<char>) -> bool {
    starts_with(input, "trap"@)
}

/// What `upper`'s `transform` returns.
pub open spec fn upper_result(input: Seq<char>) -> Outcome {
    if starts_with(input, "err"@) {
        Err(("rejected"@, "拒绝处理: "@ + input))
    } else {
        Ok(unicode_upper(input))
    }
}

/// What `reverse`'s `transform` returns.
pub open spec fn reverse_result(input: Seq<char>) -> Outcome {
    Ok(input.reverse())
}

/// Inputs on which `attacker` never returns: a CPU bomb and a memory bomb.
pub open spec fn attacker_bombs(input: Seq<char>) -> bool {
    input == "loop"@ || input == "alloc"@
}

/// The transformation input of a tool call, when the call's arguments are accepted.
pub open spec fn accepted_text(name: Seq<char>, param: Seq<char>, tool: Seq<char>, args: Seq<char>) -> Option<Seq<char>> {
    match tool_input(name, param, tool, args) {
        Ok(text) => Some(text),
        Err(_) => None,
    }
}

/// A tool call's result: the argument check's failure, or `f` of the accepted text.
pub open spec fn call_result(checked: Outcome, f: spec_fn(Seq<char>) -> Outcome) -> Outcome {
    match checked {
        Ok(text) => f(text),
        Err(e) => Err(e),
    }
}

impl Upper {
    /// Plugin metadata.
    pub fn info() -> (i: PluginInfo)
        ensures
            i.name@ == "upper"@,
            i.version@ == crate::plugin::plugin_version(),
            i.description@ == "输入转大写"@,
    {
        info_of("upper", "输入转大写")
    }

    /// Upper-cases the input; input starting with `err` is declined with code `rejected`.
    /// (Input starting with `trap` makes the component panic; it is excluded here.)
    pub fn transform(input: String) -> (r: Result<String, PluginError>)
        requires
            !upper_traps(input@),
        ensures
            outcome(r) == upper_result(input@),
    {
        let v = chars_of(input.as_str());
        let e = chars_of("err");
        if crate::text::starts_with_chars(v.as_slice(), e.as_slice()) {
            let mut m: Vec<char> = Vec::new();
            extend_str(&mut m, "拒绝处理: ");
            extend_str(&mut m, input.as_str());
            return Err(PluginError { code: "rejected".to_owned(), message: string_of(m.as_slice()) });
        }
        Ok(to_uppercase(input.as_str()))
    }

    /// `transform` as the host sees it: `None` where the component panics.
    pub fn try_transform(input: String) -> (r: Option<Result<String, PluginError>>)
        ensures
            match r {
                None => upper_traps(input@),
                Some(res) => !upper_traps(input@) && outcome(res) == upper_result(input@),
            },
    {
        let v = chars_of(input.as_str());
        let t = chars_of("trap");
        if crate::text::starts_with_chars(v.as_slice(), t.as_slice()) {
            None
        } else {
            Some(Self::transform(input))
        }
    }

    /// The tool this plugin exposes to the agent loop.
    pub fn schema() -> (s: Vec<ToolSchema>)
        ensures
            s@.len() == 1,
            s@[0].name@ == "upper"@,
            s@[0].description@ == "把输入文本转成大写"@,
            s@[0].parameters@.len() == 1,
            s@[0].parameters@[0].name@ == "text"@,
            s@[0].parameters@[0].parameter_type@ == "string"@,
            s@[0].parameters@[0].description@ == "要转大写的文本"@,
    {
        single_tool("upper", "把输入文本转成大写", "text", "要转大写的文本")
    }

    /// Tool call: `args` is a JSON object whose `text` member is upper-cased.
    pub fn invoke(tool: String, args: String) -> (r: Result<String, PluginError>)
        requires
            !(accepted_text("upper"@, "text"@, tool@, args@) matches Some(t) && upper_traps(t)),
        ensures
            outcome(r) == call_result(tool_input("upper"@, "text"@, tool@, args@), |t| upper_result(t)),
    {
        match crate::plugin::read_tool_input("upper", "text", tool.as_str(), args.as_str()) {
            Ok(text) => Self::transform(text),
            Err(e) => Err(e),
        }
    }

    /// Tool call as the host sees it: `None` where the component traps, otherwise what
    /// `invoke` returns.
    pub fn try_invoke(tool: String, args: String) -> (r: Option<Result<String, PluginError>>)
        ensures
            match r {
                None => accepted_text("upper"@, "text"@, tool@, args@) matches Some(t) && upper_traps(t),
                Some(res) => !(accepted_text("upper"@, "text"@, tool@, args@) matches Some(t) && upper_traps(t))
                    && outcome(res) == call_result(tool_input("upper"@, "text"@, tool@, args@), |t| upper_result(t)),
            },
    {
        match crate::plugin::read_tool_input("upper", "text", tool.as_str(), args.as_str()) {
            Ok(text) => {
                let v = chars_of(text.as_str());
                let t = chars_of("trap");
                if crate::text::starts_with_chars(v.as_slice(), t.as_slice()) {
                    None
                } else {
                    Some(Self::invoke(tool, args))
                }
            },
            Err(e) => Some(Err(e)),
        }
    }
}

/// The characters of `v` in reverse order.
pub fn reverse_chars(v: &[char]) -> (r: Vec<char>)
    ensures
        r@ == v@.reverse(),
{
    let mut r: Vec<char> = Vec::new();
    let mut i: usize = v.len();
    while i > 0
        invariant
            i <= v@.len(),
            r@ == v@.skip(i as int).reverse(),
        decreases i,
    {
        i = i - 1;
        r.push(v[i]);
        assert(v@.skip(i as int).reverse() =~= v@.skip(i + 1).reverse().push(v@[i as int]));
    }
    assert(v@.skip(0) =~= v@);
    r
}

impl Reverse {
    /// Plugin metadata.
    pub fn info() -> (i: PluginInfo)
        ensures
            i.name@ == "reverse"@,
            i.version@ == crate::plugin::plugin_version(),
            i.description@ == "输入倒序"@,
    {
        info_of("reverse", "输入倒序")
    }

    /// The input's characters in reverse order.
    pub fn transform(input: String) -> (r: Result<String, PluginError>)
        ensures
            outcome(r) == reverse_result(input@),
    {
        let v = chars_of(input.as_str());
        let r = reverse_chars(v.as_slice());
        Ok(string_of(r.as_slice()))
    }

    /// The tool this plugin exposes to the agent loop.
    pub fn schema() -> (s: Vec<ToolSchema>)
        ensures
            s@.len() == 1,
            s@[0].name@ == "reverse"@,
            s@[0].description@ == "把输入文本倒序"@,
            s@[0].parameters@.len() == 1,
            s@[0].parameters@[0].name@ == "text"@,
            s@[0].parameters@[0].parameter_type@ == "string"@,
            s@[0].parameters@[0].description@ == "要倒序的文本"@,
    {
        single_tool("reverse", "把输入文本倒序", "text", "要倒序的文本")
    }

    /// Tool call: `args` is a JSON object whose `text` member is reversed.
    pub fn invoke(tool: String, args: String) -> (r: Result<String, PluginError>)
        ensures
            outcome(r) == call_result(tool_input("reverse"@, "text"@, tool@, args@), |t| reverse_result(t)),
    {
        match crate::plugin::read_tool_input("reverse", "text", tool.as_str(), args.as_str()) {
            Ok(text) => Self::transform(text),
            Err(e) => Err(e),
        }
    }
}

impl Attacker {
    /// Plugin metadata.
    pub fn info() -> (i: PluginInfo)
        ensures
            i.name@ == "attacker"@,
            i.version@ == crate::plugin::plugin_version(),
            i.description@ == "恶意示例：CPU/内存炸弹，安全验证用"@,
    {
        info_of("attacker", "恶意示例：CPU/内存炸弹，安全验证用")
    }

    /// Any input other than the two bombs comes back unchanged. (`loop` spins forever
    /// and `alloc` allocates without bound; both are excluded here.)
    pub fn transform(input: String) -> (r: Result<String, PluginError>)
        requires
            !attacker_bombs(input@),
        ensures
            outcome(r) == Ok::<Seq<char>, (Seq<char>, Seq<char>)>(input@),
    {
        Ok(input)
    }

    /// Whether an input sets off a bomb (the host would see the sandbox cut it off).
    pub fn is_bomb(input: &str) -> (r: bool)
        ensures
            r == attacker_bombs(input@),
    {
        let v = chars_of(input);
        let l = chars_of("loop");
        let a = chars_of("alloc");
        crate::text::chars_eq(v.as_slice(), l.as_slice()) || crate::text::chars_eq(v.as_slice(), a.as_slice())
    }

    /// The tool this plugin exposes to the agent loop.
    pub fn schema() -> (s: Vec<ToolSchema>)
        ensures
            s@.len() == 1,
            s@[0].name@ == "attacker"@,
            s@[0].description@ == "恶意示例：action=loop 触发 CPU 炸弹，action=alloc 触发内存炸弹（沙箱切断验证用）"@,
            s@[0].parameters@.len() == 1,
            s@[0].parameters@[0].name@ == "action"@,
            s@[0].parameters@[0].parameter_type@ == "string"@,
            s@[0].parameters@[0].description@ == "loop 或 alloc"@,
    {
        single_tool(
            "attacker",
            "恶意示例：action=loop 触发 CPU 炸弹，action=alloc 触发内存炸弹（沙箱切断验证用）",
            "action",
            "loop 或 alloc",
        )
    }

    /// Tool call: `args` is a JSON object whose `action` member comes back unchanged
    /// (a bomb never returns and is excluded).
    pub fn invoke(tool: String, args: String) -> (r: Result<String, PluginError>)
        requires
            !(accepted_text("attacker"@, "action"@, tool@, args@) matches Some(t) && attacker_bombs(t)),
        ensures
            outcome(r) == tool_input("attacker"@, "action"@, tool@, args@),
    {
        match crate::plugin::read_tool_input("attacker", "action", tool.as_str(), args.as_str()) {
            Ok(text) => Self::transform(text),
            Err(e) => Err(e),
        }
    }

    /// Tool call as the host sees it: `None` where the component never returns (a
    /// bomb), otherwise the argument check's failure or the `action` text unchanged.
    pub fn try_invoke(tool: String, args: String) -> (r: Option<Result<String, PluginError>>)
        ensures
            match r {
                None => accepted_text("attacker"@, "action"@, tool@, args@) matches Some(t) && attacker_bombs(t),
                Some(res) => !(accepted_text("attacker"@, "action"@, tool@, args@) matches Some(t) && attacker_bombs(t))
                    && outcome(res) == tool_input("attacker"@, "action"@, tool@, args@),
            },
    {
        match crate::plugin::read_tool_input("attacker", "action", tool.as_str(), args.as_str()) {
            Ok(text) => {
                if Self::is_bomb(text.as_str()) {
                    None
                } else {
                    Some(Self::invoke(tool, args))
                }
            },
            Err(e) => Some(Err(e)),
        }
    }
}

} // verus!
