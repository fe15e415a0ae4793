use dspatch_router::output::{
    output_event_to_json, ActivityOutput, FileChange, FilesOutput, LogOutput, MessageOutput, Output, OutputEvent,
    PromptReceivedOutput, UsageOutput,
};
use serde_json::Value;

fn parse(text: &str) -> Value {
    serde_json::from_str(text).unwrap()
}

fn report(output: Option<Output>) -> Value {
    parse(&output_event_to_json(&OutputEvent { instance_id: "lead-0".into(), output }))
}

#[test]
fn output_event_oneof_variants() {
    let j = report(Some(Output::Message(MessageOutput {
        id: "msg-1".into(),
        role: "assistant".into(),
        content: "Hello".into(),
        is_delta: false,
        model: Some("large-model-v1".into()),
        input_tokens: Some(100),
        output_tokens: Some(50),
        sender_name: None,
    })));
    assert_eq!(j["type"], "agent.output.message");
    assert_eq!(j["instance_id"], "lead-0");
    assert_eq!(j["id"], "msg-1");
    assert_eq!(j["role"], "assistant");
    assert_eq!(j["content"], "Hello");
    assert_eq!(j["is_delta"], false);
    assert_eq!(j["model"], "large-model-v1");
    assert_eq!(j["input_tokens"], 100);
    assert_eq!(j["output_tokens"], 50);
    assert!(j["sender_name"].is_null());
    assert_eq!(j.as_object().unwrap().len(), 10);
}

#[test]
fn activity_report() {
    let j = report(Some(Output::Activity(ActivityOutput {
        id: "a1".into(),
        event_type: "tool_call".into(),
        content: "ls".into(),
        is_delta: true,
        data: None,
    })));
    assert_eq!(j["type"], "agent.output.activity");
    assert_eq!(j["event_type"], "tool_call");
    assert_eq!(j["is_delta"], true);
    assert!(j["data"].is_null());
    assert_eq!(j.as_object().unwrap().len(), 7);
}

#[test]
fn log_report() {
    let j = report(Some(Output::Log(LogOutput { level: "warn".into(), message: "disk low".into() })));
    assert_eq!(j, parse(r#"{"type":"agent.output.log","instance_id":"lead-0","level":"warn","message":"disk low"}"#));
}

#[test]
fn usage_report_keeps_the_cost_number() {
    let j = report(Some(Output::Usage(UsageOutput {
        model: "m".into(),
        input_tokens: 7,
        output_tokens: 9,
        cost_usd: "0.25".into(),
    })));
    assert_eq!(j["type"], "agent.output.usage");
    assert_eq!(j["input_tokens"], 7);
    assert_eq!(j["output_tokens"], 9);
    assert_eq!(j["cost_usd"].as_f64(), Some(0.25));
    let j = report(Some(Output::Usage(UsageOutput {
        model: "m".into(),
        input_tokens: 0,
        output_tokens: 0,
        cost_usd: "not a number".into(),
    })));
    assert!(j["cost_usd"].is_null());
}

#[test]
fn files_report() {
    let j = report(Some(Output::Files(FilesOutput {
        files: vec![
            FileChange { path: "src/a.rs".into(), action: "modified".into() },
            FileChange { path: "b.txt".into(), action: "created".into() },
        ],
    })));
    assert_eq!(j["type"], "agent.output.files");
    assert_eq!(j["files"][0]["path"], "src/a.rs");
    assert_eq!(j["files"][1]["action"], "created");
    assert_eq!(j["files"].as_array().unwrap().len(), 2);
}

#[test]
fn prompt_received_and_unknown_reports() {
    let j = report(Some(Output::PromptReceived(PromptReceivedOutput {
        content: "do x".into(),
        sender_name: Some("lead".into()),
    })));
    assert_eq!(j["type"], "agent.output.prompt_received");
    assert_eq!(j["content"], "do x");
    assert_eq!(j["sender_name"], "lead");
    assert_eq!(report(None), parse(r#"{"type":"unknown","instance_id":"lead-0"}"#));
}

#[test]
fn usage_cost_nested_too_deep_becomes_null() {
    let deep = format!("{}{}", "[".repeat(127), "]".repeat(127));
    let j = report(Some(Output::Usage(UsageOutput {
        model: "m".into(),
        input_tokens: 1,
        output_tokens: 1,
        cost_usd: deep,
    })));
    assert!(j["cost_usd"].is_null());
}
