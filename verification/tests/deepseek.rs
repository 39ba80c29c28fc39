use spark_host::agent::{Decision, ToolHandle, ToolResult};
use spark_host::deepseek::{build_messages, build_tools, model_id, parse_response, ChatMessage, DeepSeekPredictor};

fn result(tool: &str, output: &str) -> ToolResult {
    ToolResult {
        plugin: tool.into(),
        tool: tool.into(),
        call_id: "call_1".into(),
        args: "{\"text\":\"hi\"}".into(),
        output: output.into(),
        rendered: format!("工具 {tool} 返回: {output}"),
        ok: true,
    }
}

#[test]
fn maps_model_kinds() {
    assert_eq!(model_id("flash"), Some("deepseek-v4-flash"));
    assert_eq!(model_id("pro"), Some("deepseek-v4-pro"));
    assert_eq!(model_id("nope"), None);
}

#[test]
fn builds_tool_call_messages() {
    let msgs = build_messages("把 hello 转大写", &[result("upper", "HELLO")]);
    assert_eq!(msgs.len(), 4); // system + user + assistant(tool_calls) + tool
    assert!(matches!(msgs[0], ChatMessage::System(_)));
    match &msgs[1] {
        ChatMessage::User(content) => assert_eq!(content, "把 hello 转大写"),
        other => panic!("user message expected: {other:?}"),
    }
    match &msgs[2] {
        ChatMessage::AssistantCall(call) => {
            assert_eq!(call.name, "upper");
            assert_eq!(call.arguments, "{\"text\":\"hi\"}");
        }
        other => panic!("assistant message expected: {other:?}"),
    }
    match &msgs[3] {
        ChatMessage::Tool { tool_call_id, content } => {
            assert_eq!(tool_call_id, "call_1");
            assert_eq!(content, "HELLO");
        }
        other => panic!("tool message expected: {other:?}"),
    }
}

#[test]
fn builds_openai_tools() {
    let handle = ToolHandle {
        name: "upper".into(),
        plugin: "upper".into(),
        description: "把输入文本转成大写".into(),
        parameters: vec![("text".into(), "string".into(), "要转大写的文本".into())],
    };
    let tools = build_tools(&[handle]);
    assert_eq!(tools[0].name, "upper");
    assert_eq!(tools[0].parameters[0].0, "text");
    assert_eq!(tools[0].parameters[0].1, "string");
    assert_eq!(tools[0].required[0], "text");
}

#[test]
fn parses_tool_call_decision() {
    let body = r#"{"choices":[{"message":{"role":"assistant","content":null,
        "tool_calls":[{"id":"call_1","type":"function",
        "function":{"name":"upper","arguments":"{\"text\":\"hi\"}"}}]}}]}"#;
    match parse_response(body).unwrap() {
        Decision::Call { tool, args } => {
            assert_eq!(tool, "upper");
            assert!(args.contains("hi"));
        }
        _ => panic!("应返回 Call"),
    }
}

#[test]
fn parses_final_decision() {
    let body = r#"{"choices":[{"message":{"role":"assistant","content":"已转大写：HELLO"}}]}"#;
    match parse_response(body).unwrap() {
        Decision::Final(text) => assert_eq!(text, "已转大写：HELLO"),
        _ => panic!("应返回 Final"),
    }
}

#[test]
fn unparsable_body_is_reported() {
    let err = parse_response("not json").unwrap_err();
    assert!(err.starts_with("JSON 解析失败: "));
}

#[test]
fn tool_call_without_name_is_an_error() {
    let body = r#"{"choices":[{"message":{"tool_calls":[{"function":{"arguments":"{}"}}]}}]}"#;
    assert_eq!(parse_response(body).unwrap_err(), "tool_calls 缺 function.name");
    let body = r#"{"choices":[{"message":{"tool_calls":[{"function":{"name":"x"}}]}}]}"#;
    assert_eq!(parse_response(body).unwrap_err(), "tool_calls 缺 function.arguments");
}

#[test]
fn empty_content_gets_a_placeholder() {
    let body = r#"{"choices":[{"message":{"content":"   "}}]}"#;
    match parse_response(body).unwrap() {
        Decision::Final(text) => assert_eq!(text, "（模型未给出答复）"),
        _ => panic!("应返回 Final"),
    }
}

#[test]
fn predictor_endpoint_and_header() {
    let p = DeepSeekPredictor::new("k".into(), "pro", Some("http://127.0.0.1:9//".into())).unwrap();
    assert_eq!(p.model(), "deepseek-v4-pro");
    assert_eq!(p.url(), "http://127.0.0.1:9/chat/completions");
    assert_eq!(p.authorization(), "Bearer k");
    let d = DeepSeekPredictor::new("k".into(), "flash", None).unwrap();
    assert_eq!(d.url(), "https://api.deepseek.com/chat/completions");
    match DeepSeekPredictor::new("k".into(), "max", None) {
        Err(e) => assert_eq!(e, "未知模型 `max`；支持 flash|pro"),
        Ok(_) => panic!("unknown model accepted"),
    }
}
