//! The `spark:runtime/plugin` contract's records, as plain library types, and the
//! shared shape of a plugin's tool call (`invoke`).

use vstd::prelude::*;

use crate::json;
use crate::text::{chars_of, extend_str, string_of};

verus! {

/// Plugin metadata (`plugin-info`).
#[derive(Debug, Clone, PartialEq, Eq)]
pub struct PluginInfo {
    pub name: String,
    pub version: String,
    pub description: String,
}

/// A plugin's declared failure (`plugin-error`): a value, not a crash.
#[derive(Debug, Clone, PartialEq, Eq)]
pub struct PluginError {
    pub code: String,
    pub message: String,
}

/// One parameter of a tool (`tool-parameter`).
#[derive(Debug, Clone, PartialEq, Eq)]
pub struct ToolParameter {
    pub name: String,
    pub parameter_type: String,
    pub description: String,
}

/// A tool that a plugin exposes to the agent loop (`tool-schema`).
#[derive(Debug, Clone, PartialEq, Eq)]
pub struct ToolSchema {
    pub name: String,
    pub description: String,
    pub parameters: Vec<ToolParameter>,
}

/// The abstract value of a plugin call's result: the output text, or `(code, message)`.
pub type Outcome = Result<Seq<char>, (Seq<char>, Seq<char>)>;

/// The abstract value of a plugin call's result.
pub open spec fn outcome(r: Result<String, PluginError>) -> Outcome {
    match r {
        Ok(s) => Ok(s@),
        Err(e) => Err((e.code@, e.message@)),
    }
}

/// The version every plugin of this crate reports.
pub open spec fn plugin_version() -> Seq<char> {
    "0.2.0"@
}

/// A declared plugin failure with the given code and message.
pub fn err(code: &str, message: &str) -> (e: PluginError)
    ensures
        e.code@ == code@,
        e.message@ == message@,
{
    PluginError { code: code.to_owned(), message: message.to_owned() }
}

/// Plugin metadata with the crate-wide plugin version.
pub fn info_of(name: &str, description: &str) -> (i: PluginInfo)
    ensures
        i.name@ == name@,
        i.version@ == plugin_version(),
        i.description@ == description@,
{
    PluginInfo { name: name.to_owned(), version: "0.2.0".to_owned(), description: description.to_owned() }
}

/// The single tool of a plugin, with one string parameter.
pub fn single_tool(name: &str, description: &str, param: &str, param_description: &str) -> (s: Vec<ToolSchema>)
    ensures
        s@.len() == 1,
        s@[0].name@ == name@,
        s@[0].description@ == description@,
        s@[0].parameters@.len() == 1,
        s@[0].parameters@[0].name@ == param@,
        s@[0].parameters@[0].parameter_type@ == "string"@,
        s@[0].parameters@[0].description@ == param_description@,
{
    let mut parameters: Vec<ToolParameter> = Vec::new();
    parameters.push(ToolParameter {
        name: param.to_owned(),
        parameter_type: "string".to_owned(),
        description: param_description.to_owned(),
    });
    let mut s: Vec<ToolSchema> = Vec::new();
    s.push(ToolSchema { name: name.to_owned(), description: description.to_owned(), parameters });
    s
}

/// What a plugin's `invoke(tool, args)` does before running its transformation:
/// `Ok(text)` is the transformation's input (the string member `param` of the JSON
/// object `args`); `Err` is the declared failure.
pub open spec fn tool_input(name: Seq<char>, param: Seq<char>, tool: Seq<char>, args: Seq<char>) -> Outcome {
    if tool != name {
        Err(("tool"@, "未知工具: "@ + tool))
    } else {
        match json::json_str_member(args, param) {
            None => Err(("args"@, "参数必须是 JSON 对象"@)),
            Some(None) => Err(("args"@, "缺少 "@ + param + " 参数"@)),
            Some(Some(text)) => Ok(text),
        }
    }
}

/// The argument checks of a plugin's `invoke`: tool name, then JSON arguments.
pub fn read_tool_input(name: &str, param: &str, tool: &str, args: &str) -> (r: Result<String, PluginError>)
    ensures
        outcome(r) == tool_input(name@, param@, tool@, args@),
{
    let n = chars_of(name);
    let t = chars_of(tool);
    if !crate::text::chars_eq(n.as_slice(), t.as_slice()) {
        let mut m: Vec<char> = Vec::new();
        extend_str(&mut m, "未知工具: ");
        extend_str(&mut m, tool);
        return Err(PluginError { code: "tool".to_owned(), message: string_of(m.as_slice()) });
    }
    match json::str_member(args, param) {
        None => Err(err("args", "参数必须是 JSON 对象")),
        Some(None) => {
            let mut m: Vec<char> = Vec::new();
            extend_str(&mut m, "缺少 ");
            extend_str(&mut m, param);
            extend_str(&mut m, " 参数");
            Err(PluginError { code: "args".to_owned(), message: string_of(m.as_slice()) })
        },
        Some(Some(text)) => Ok(text),
    }
}

} // verus!
