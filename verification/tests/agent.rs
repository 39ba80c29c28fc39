use spark_host::agent::{truncate, AgentResult, AlgorithmPredictor, Decision, Predictor, ToolResult, MAX_STEPS, TOOL_RESULT_LIMIT};
use spark_host::agent_loop::{AgentRun, AgentStep, DiscoveredPlugin, InvokeOutcome};
use spark_host::idcard::Idcard;
use spark_host::luhn::Luhn;
use spark_host::plugin::{PluginError, PluginInfo, ToolSchema};
use spark_host::rmb::Rmb;
use spark_host::samples::{Attacker, Reverse, Upper};

fn plugin(file: &str, info: PluginInfo, schemas: Vec<ToolSchema>) -> DiscoveredPlugin {
    DiscoveredPlugin { file: file.into(), info, schemas }
}

/// The six sample plugins, as discovery lists them (by file name).
fn discovered() -> Vec<DiscoveredPlugin> {
    vec![
        plugin("spark_plugin.wasm", Upper::info(), Upper::schema()),
        plugin("spark_plugin_attacker.wasm", Attacker::info(), Attacker::schema()),
        plugin("spark_plugin_idcard.wasm", Idcard::info(), Idcard::schema()),
        plugin("spark_plugin_luhn.wasm", Luhn::info(), Luhn::schema()),
        plugin("spark_plugin_reverse.wasm", Reverse::info(), Reverse::schema()),
        plugin("spark_plugin_rmb.wasm", Rmb::info(), Rmb::schema()),
    ]
}

/// A sandbox stand-in: runs the plugin's tool call; a panic or a bomb is cut off.
fn invoke(file: &str, tool: &str, args: &str) -> InvokeOutcome {
    let (tool, args) = (tool.to_string(), args.to_string());
    let r: Option<Result<String, PluginError>> = match file {
        "spark_plugin.wasm" => Upper::try_invoke(tool, args),
        "spark_plugin_attacker.wasm" => Attacker::try_invoke(tool, args),
        "spark_plugin_idcard.wasm" => Some(Idcard::invoke(tool, args)),
        "spark_plugin_luhn.wasm" => Some(Luhn::invoke(tool, args)),
        "spark_plugin_reverse.wasm" => Some(Reverse::invoke(tool, args)),
        "spark_plugin_rmb.wasm" => Some(Rmb::invoke(tool, args)),
        other => panic!("no plugin {other}"),
    };
    match r {
        Some(r) => InvokeOutcome::Returned(r),
        None => InvokeOutcome::CutOff("wasm trap: interrupt".into()),
    }
}

fn run_agent(plugins: &[DiscoveredPlugin], prompt: &str, predictor: &dyn Predictor, max_steps: usize) -> AgentResult {
    let (mut run, mut step) = AgentRun::start(plugins, max_steps);
    loop {
        step = match step {
            AgentStep::Decide => {
                let d = predictor.decide(prompt, run.history(), run.tools());
                run.on_decision(d)
            }
            AgentStep::Invoke { file, tool, args } => run.on_outcome(invoke(&file, &tool, &args)),
            AgentStep::Done(r) => return r,
        }
    }
}

#[test]
fn upper_via_agent() {
    let r = run_agent(&discovered(), "把 hello 转大写", &AlgorithmPredictor, MAX_STEPS);
    assert_eq!(r.calls.len(), 1);
    assert_eq!(r.calls[0].tool, "upper");
    assert_eq!(r.calls[0].output, "HELLO");
    assert_eq!(r.answer, "HELLO");
}

#[test]
fn idcard_via_agent() {
    let r = run_agent(&discovered(), "校验身份证 110101199001010015", &AlgorithmPredictor, MAX_STEPS);
    assert_eq!(r.calls.len(), 1);
    assert_eq!(r.calls[0].tool, "idcard");
    assert_eq!(r.calls[0].output, "男 · 1990-01-01 · 地区 110101");
    assert_eq!(r.answer, "男 · 1990-01-01 · 地区 110101");
}

#[test]
fn agent_loop_iterates_two_steps() {
    let r = run_agent(&discovered(), "校验身份证 110101199001010023 然后倒序", &AlgorithmPredictor, MAX_STEPS);
    assert_eq!(r.calls.len(), 2);
    assert_eq!(r.calls[0].tool, "idcard");
    assert_eq!(r.calls[1].tool, "reverse");
    assert_eq!(r.calls[1].output.len(), r.calls[0].output.len());
    assert_ne!(r.calls[1].output, r.calls[0].output);
    assert_eq!(r.answer, r.calls[1].output);
}

#[test]
fn agent_chains_upper_then_reverse() {
    let r = run_agent(&discovered(), "把 hello 转大写然后倒序", &AlgorithmPredictor, MAX_STEPS);
    assert_eq!(r.calls.len(), 2);
    assert_eq!(r.calls[0].tool, "upper");
    assert_eq!(r.calls[0].output, "HELLO");
    assert_eq!(r.calls[1].tool, "reverse");
    assert_eq!(r.calls[1].output, "OLLEH");
    assert_eq!(r.answer, "OLLEH");
}

#[test]
fn attacker_still_cut_off_via_agent() {
    let r = run_agent(&discovered(), "让 attacker 跑 loop", &AlgorithmPredictor, MAX_STEPS);
    assert_eq!(r.calls.len(), 1);
    assert_eq!(r.calls[0].tool, "attacker");
    assert!(!r.calls[0].ok);
    assert!(r.calls[0].rendered.contains("被沙箱切断"));
    assert!(r.answer.contains("被沙箱切断"));
}

#[test]
fn rmb_via_agent() {
    let r = run_agent(&discovered(), "把 12345.67 转成人民币大写", &AlgorithmPredictor, MAX_STEPS);
    assert_eq!(r.calls.len(), 1);
    assert_eq!(r.calls[0].tool, "rmb");
    assert_eq!(r.calls[0].output, "壹万贰仟叁佰肆拾伍元陆角柒分");
    assert_eq!(r.answer, "壹万贰仟叁佰肆拾伍元陆角柒分");
}

#[test]
fn tool_result_truncated() {
    let long = "A".repeat(TOOL_RESULT_LIMIT + 100);
    let prompt = format!("把 {long} 转大写");
    let r = run_agent(&discovered(), &prompt, &AlgorithmPredictor, MAX_STEPS);
    assert_eq!(r.calls.len(), 1);
    assert_eq!(r.calls[0].output.len(), TOOL_RESULT_LIMIT + "…[截断]".len());
    assert!(r.calls[0].output.ends_with("…[截断]"));
    assert!(r.calls[0].rendered.starts_with("工具 upper 返回: "));
}

/// A predictor that keeps calling a tool.
struct Stubborn(&'static str);

impl Predictor for Stubborn {
    fn decide(&self, _prompt: &str, _history: &[ToolResult], _tools: &[spark_host::agent::ToolHandle]) -> Decision {
        Decision::Call { tool: self.0.into(), args: "{\"text\":\"x\"}".into() }
    }
}

#[test]
fn runaway_predictor_stops_at_the_limit() {
    let r = run_agent(&discovered(), "p", &Stubborn("upper"), 3);
    assert_eq!(r.calls.len(), 3);
    assert_eq!(r.answer, "达到迭代上限（3 步）");
    let ids: Vec<&str> = r.calls.iter().map(|c| c.call_id.as_str()).collect();
    assert_eq!(ids, ["call_1", "call_2", "call_3"]);
}

#[test]
fn unregistered_tool_is_recorded() {
    let r = run_agent(&discovered(), "p", &Stubborn("nope"), 2);
    assert_eq!(r.calls.len(), 2);
    assert_eq!(r.calls[0].rendered, "工具 nope 未注册");
    assert!(!r.calls[0].ok);
    assert_eq!(r.calls[0].plugin, "");
}

#[test]
fn no_tools_and_zero_steps() {
    let r = run_agent(&[], "p", &AlgorithmPredictor, MAX_STEPS);
    assert_eq!(r.answer, "未发现任何工具：plugins/ 下没有满足契约的组件");
    assert!(r.calls.is_empty());
    let r = run_agent(&discovered(), "p", &AlgorithmPredictor, 0);
    assert_eq!(r.answer, "达到迭代上限（0 步）");
}

#[test]
fn declined_tool_call_is_rendered() {
    let r = run_agent(&discovered(), "查银行卡号 123", &AlgorithmPredictor, MAX_STEPS);
    assert_eq!(r.calls.len(), 1);
    assert_eq!(r.calls[0].tool, "luhn");
    assert_eq!(r.calls[0].rendered, "工具 luhn 失败 [length]: 长度错误：应为 13–19 位");
    assert_eq!(r.answer, r.calls[0].rendered);
}

#[test]
fn later_registration_wins() {
    let mut plugins = discovered();
    plugins.push(plugin("shadow.wasm", Reverse::info(), Upper::schema()));
    let (mut run, step) = AgentRun::start(&plugins, MAX_STEPS);
    assert!(matches!(step, AgentStep::Decide));
    match run.on_decision(Decision::Call { tool: "upper".into(), args: "{}".into() }) {
        AgentStep::Invoke { file, tool, .. } => {
            assert_eq!(file, "shadow.wasm");
            assert_eq!(tool, "upper");
        }
        other => panic!("invoke expected: {other:?}"),
    }
    assert_eq!(run.tools().len(), 7);
}

#[test]
fn predictor_keywords() {
    let p = AlgorithmPredictor;
    let d = |prompt: &str| p.decide(prompt, &[], &[]);
    match d("银行卡号 4242424242424242") {
        Decision::Call { tool, args } => {
            assert_eq!(tool, "luhn");
            assert_eq!(args, "{\"card_number\":\"4242424242424242\"}");
        }
        other => panic!("{other:?}"),
    }
    match d("金额 5") {
        Decision::Call { tool, args } => {
            assert_eq!(tool, "rmb");
            assert_eq!(args, "{\"amount\":\"5\"}");
        }
        other => panic!("{other:?}"),
    }
    match d("attacker") {
        Decision::Call { tool, args } => {
            assert_eq!(tool, "attacker");
            assert_eq!(args, "{\"action\":\"loop\"}");
        }
        other => panic!("{other:?}"),
    }
    match d("你好") {
        Decision::Final(t) => assert_eq!(t, "（本地预测：未匹配到工具，直接回答）你好"),
        other => panic!("{other:?}"),
    }
    match d("把 \"q\" 倒序") {
        Decision::Call { tool, args } => {
            assert_eq!(tool, "reverse");
            assert_eq!(args, "{\"text\":\"\\\"q\\\"\"}");
        }
        other => panic!("{other:?}"),
    }
}

#[test]
fn truncate_keeps_char_boundaries() {
    assert_eq!(truncate("abc", 3), "abc");
    assert_eq!(truncate("abcd", 3), "abc…[截断]");
    assert_eq!(truncate("黑风雷", 4), "黑…[截断]");
    assert_eq!(truncate("黑风雷", 9), "黑风雷");
    assert_eq!(truncate("", 0), "");
}

#[test]
fn chained_call_carries_the_first_output() {
    let first = ToolResult {
        plugin: "upper".into(),
        tool: "upper".into(),
        call_id: "call_1".into(),
        args: "{\"text\":\"a\\\"b\"}".into(),
        output: "A\"B \\ 中".into(),
        rendered: "工具 upper 返回: A\"B \\ 中".into(),
        ok: true,
    };
    match AlgorithmPredictor.decide("把 a\"b 转大写然后倒序", &[first], &[]) {
        Decision::Call { tool, args } => {
            assert_eq!(tool, "reverse");
            let v: serde_json::Value = serde_json::from_str(&args).expect("json");
            assert_eq!(v["text"], "A\"B \\ 中");
        }
        other => panic!("expected a call, got {other:?}"),
    }
}

#[test]
fn call_arguments_are_compact_escaped_json() {
    match AlgorithmPredictor.decide("把 a\u{1}\tb\"\\c/é 转大写", &[], &[]) {
        Decision::Call { tool, args } => {
            assert_eq!(tool, "upper");
            assert_eq!(args, "{\"text\":\"a\\u0001\\tb\\\"\\\\c/é\"}");
        }
        other => panic!("expected a call, got {other:?}"),
    }
}
