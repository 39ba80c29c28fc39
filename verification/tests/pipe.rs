use spark_host::agent_loop::InvokeOutcome;
use spark_host::idcard::Idcard;
use spark_host::luhn::Luhn;
use spark_host::pipeline::{resolve, PipeFailure, PipeStep, Pipeline};
use spark_host::plugin::PluginInfo;
use spark_host::rmb::Rmb;
use spark_host::samples::{Attacker, Reverse, Upper};

/// The plugins of a plugin directory, as discovery lists them (by file name).
fn found() -> Vec<(String, PluginInfo)> {
    vec![
        ("spark_plugin.wasm".to_string(), Upper::info()),
        ("spark_plugin_attacker.wasm".to_string(), Attacker::info()),
        ("spark_plugin_idcard.wasm".to_string(), Idcard::info()),
        ("spark_plugin_luhn.wasm".to_string(), Luhn::info()),
        ("spark_plugin_reverse.wasm".to_string(), Reverse::info()),
        ("spark_plugin_rmb.wasm".to_string(), Rmb::info()),
    ]
}

/// A sandbox stand-in: runs the plugin's `transform`; a panic or a bomb is a trap.
fn run(file: &str, input: &str) -> InvokeOutcome {
    let input = input.to_string();
    let r = match file {
        "spark_plugin.wasm" => Upper::try_transform(input),
        "spark_plugin_attacker.wasm" => {
            if Attacker::is_bomb(&input) {
                None
            } else {
                Some(Attacker::transform(input))
            }
        }
        "spark_plugin_idcard.wasm" => Some(Idcard::transform(input)),
        "spark_plugin_luhn.wasm" => Some(Luhn::transform(input)),
        "spark_plugin_reverse.wasm" => Some(Reverse::transform(input)),
        "spark_plugin_rmb.wasm" => Some(Rmb::transform(input)),
        other => panic!("no plugin {other}"),
    };
    match r {
        Some(r) => InvokeOutcome::Returned(r),
        None => InvokeOutcome::CutOff(format!("error while executing at wasm backtrace:\n    0: {file}!transform")),
    }
}

fn pipe(input: &str, names: &[&str]) -> Result<String, PipeFailure> {
    let found = found();
    let (mut pipeline, mut step) = Pipeline::start(&found, input, names);
    let mut steps = 0;
    loop {
        step = match step {
            PipeStep::Done(result) => {
                assert!(steps <= names.len());
                return result;
            }
            PipeStep::Run { file, input, .. } => {
                steps += 1;
                pipeline.on_outcome(run(&file, &input))
            }
        };
    }
}

#[test]
fn pipe_threads_output_to_next() {
    let out = pipe("hello", &["upper", "reverse"]).unwrap();
    assert_eq!(out, "OLLEH");
}

#[test]
fn pipe_fails_fast_on_declared_error() {
    match pipe("110101199001010015", &["idcard", "luhn"]) {
        Err(PipeFailure::Declined { step, error }) => {
            assert_eq!(step, "luhn");
            assert_eq!(error.code, "length");
        }
        other => panic!("应 fail-fast 于 luhn: 得 {other:?}"),
    }
}

#[test]
fn pipe_fails_fast_on_trap() {
    match pipe("trap-x", &["upper", "reverse"]) {
        Err(PipeFailure::Trap { step, detail }) => {
            assert_eq!(step, "upper");
            assert!(detail.contains("wasm backtrace"), "trap 细节应含 wasm backtrace: {detail}");
        }
        other => panic!("trap 输入应 fail-fast：得 {other:?}"),
    }
}

#[test]
fn discovered_plugin_run_by_name() {
    let found = found();
    let i = resolve(&found, "reverse").unwrap();
    let (file, info) = &found[i];
    assert_eq!(info.name, "reverse");
    match run(file, "hello") {
        InvokeOutcome::Returned(Ok(out)) => assert_eq!(out, "olleh"),
        other => panic!("期望成功，实际 {other:?}"),
    }
}

#[test]
fn empty_pipeline_returns_the_input() {
    assert_eq!(pipe("hello", &[]).unwrap(), "hello");
}

#[test]
fn unknown_step_stops_the_pipeline() {
    match pipe("hello", &["upper", "nope", "reverse"]) {
        Err(PipeFailure::Trap { step, detail }) => {
            assert_eq!(step, "nope");
            assert_eq!(detail, "未找到插件 `nope`");
        }
        other => panic!("应停在 nope: 得 {other:?}"),
    }
    assert_eq!(resolve(&found(), "nope"), None);
    assert_eq!(resolve(&found(), "upper"), Some(0));
}

#[test]
fn rmb_then_reverse() {
    assert_eq!(pipe(" 2003 ", &["rmb", "reverse"]).unwrap(), "整元叁零仟贰");
}
