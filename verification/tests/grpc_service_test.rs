use dspatch_router::config::AgentMeta;
use dspatch_router::feed::{FeedItem, FeedItemKind};
use dspatch_router::grpc_service::{
    feed_item_to_router_event, DspatchRouterService, InquireOutcome, InquireStart, RouterEvent, RouterEventKind,
    TalkToOutcome,
    TalkToStart,
};
use dspatch_router::host_router::HostRouter;
use dspatch_router::output::{LogOutput, MessageOutput, Output, OutputEvent};
use dspatch_router::state_machine::InstanceState;
use dspatch_router::wire::WirePackage;

fn meta(is_root: bool, peers: &[&str]) -> AgentMeta {
    AgentMeta { is_root, peers: peers.iter().map(|p| p.to_string()).collect(), fields: vec![] }
}

fn test_service() -> DspatchRouterService {
    DspatchRouterService::new(HostRouter::new(vec![("lead".into(), meta(true, &[]))]))
}

fn setup() -> DspatchRouterService {
    DspatchRouterService::new(HostRouter::new(vec![
        ("lead".into(), meta(true, &["coder"])),
        ("coder".into(), meta(false, &["lead"])),
    ]))
}

fn parse(text: &str) -> serde_json::Value {
    serde_json::from_str(text).unwrap()
}

fn state_of(svc: &DspatchRouterService, instance_id: &str) -> InstanceState {
    svc.router().get_instance_router(instance_id).unwrap().state_machine().state()
}

fn enter_generating(svc: &mut DspatchRouterService, instance_id: &str) {
    svc.router_mut().get_instance_router_mut(instance_id).unwrap().state_machine_mut().enter_generating().unwrap();
}

#[test]
fn send_output_succeeds() {
    let mut svc = test_service();
    let (tx, mut engine) = tokio::sync::mpsc::channel::<WirePackage>(8);
    svc.router_mut().set_engine_tx(tx);
    svc.router_mut().spawn_instance("lead", "lead-0", vec![]);
    svc.router_mut().get_instance_router_mut("lead-0").unwrap().push_turn(Some("turn-1".into()));

    let event = OutputEvent {
        instance_id: "lead-0".into(),
        output: Some(Output::Log(LogOutput { level: "info".into(), message: "test log".into() })),
    };
    svc.send_output_at(&event, 1_700_000_000_123);
    let j = parse(&engine.try_recv().unwrap().to_json());
    assert_eq!(j["type"], "agent.output.log");
    assert_eq!(j["message"], "test log");
    assert_eq!(j["turn_id"], "turn-1");
    assert_eq!(j["ts"], 1_700_000_000_123i64);
    assert_eq!(j["level"], "info");
    assert_eq!(j["instance_id"], "lead-0");

    // Without a time given, the current time is used.
    svc.send_output(&event);
    let j = parse(&engine.try_recv().unwrap().to_json());
    assert!(j["ts"].as_i64().unwrap() > 1_600_000_000_000);
}

#[test]
fn complete_turn_transitions_to_idle() {
    let mut svc = test_service();
    svc.router_mut().spawn_instance("lead", "lead-0", vec![]);
    enter_generating(&mut svc, "lead-0");

    svc.complete_turn("lead-0", "t1", None);
    assert_eq!(state_of(&svc, "lead-0"), InstanceState::Idle);
}

#[test]
fn full_lifecycle_register_stream_output_complete() {
    let mut svc = setup();
    svc.router_mut().spawn_instance("lead", "lead-0", vec![]);

    let (tx, mut engine) = tokio::sync::mpsc::channel::<WirePackage>(8);
    svc.router_mut().set_engine_tx(tx);
    let msg = OutputEvent {
        instance_id: "lead-0".into(),
        output: Some(Output::Message(MessageOutput {
            id: "msg-1".into(),
            role: "assistant".into(),
            content: "Hello world".into(),
            is_delta: false,
            model: None,
            input_tokens: None,
            output_tokens: None,
            sender_name: None,
        })),
    };
    svc.send_output(&msg);
    let j = parse(&engine.try_recv().unwrap().to_json());
    assert_eq!(j["type"], "agent.output.message");
    assert_eq!(j["content"], "Hello world");

    enter_generating(&mut svc, "lead-0");
    svc.complete_turn("lead-0", "t1", None);
    assert_eq!(state_of(&svc, "lead-0"), InstanceState::Idle);
}

#[test]
fn talk_to_cycle_detection() {
    let mut svc = setup();
    svc.router_mut().spawn_instance("lead", "lead-0", vec![]);
    svc.router_mut().spawn_instance("coder", "coder-0", vec![]);
    svc.router_mut().add_chain_link("req-existing", "lead-0", "coder", vec!["lead".into()]);
    enter_generating(&mut svc, "coder-0");

    match svc.begin_talk_to("coder-0", "lead", "Need help", false) {
        TalkToStart::Replied(TalkToOutcome::Error { reason, .. }) => assert_eq!(reason, "cycle_detected"),
        _ => panic!("Expected Error with cycle_detected"),
    }
    assert_eq!(state_of(&svc, "coder-0"), InstanceState::Generating);
}

#[test]
fn talk_to_from_unknown_instance_is_answered_with_an_error() {
    let mut svc = setup();
    svc.router_mut().spawn_instance("coder", "coder-0", vec![]);
    match svc.begin_talk_to("lead-0", "coder", "hi", false) {
        TalkToStart::Replied(TalkToOutcome::Error { reason, request_id }) => {
            assert_eq!(reason, "caller_not_found");
            assert_eq!(request_id, "");
        }
        _ => panic!("Expected Error with caller_not_found"),
    }
}

#[test]
fn talk_to_needs_a_generating_caller() {
    let mut svc = setup();
    svc.router_mut().spawn_instance("lead", "lead-0", vec![]);
    svc.router_mut().spawn_instance("coder", "coder-0", vec![]);
    match svc.begin_talk_to("lead-0", "coder", "hi", false) {
        TalkToStart::FailedPrecondition(m) => {
            assert_eq!(m, "State error: Invalid transition: idle -> waiting_for_agent")
        }
        _ => panic!("an idle caller cannot wait"),
    }
}

#[test]
fn talk_to_round_trip() {
    let mut svc = setup();
    svc.router_mut().spawn_instance("lead", "lead-0", vec![]);
    svc.router_mut().spawn_instance("coder", "coder-0", vec![]);
    enter_generating(&mut svc, "lead-0");

    let (request_id, mut rx) = match svc.begin_talk_to("lead-0", "coder", "review this", false) {
        TalkToStart::Waiting(id, rx) => (id, rx),
        _ => panic!("expected the request to go out"),
    };
    assert_eq!(state_of(&svc, "lead-0"), InstanceState::WaitingForAgent);

    // The idle coder sees the request on its event stream at once.
    let ev = svc.next_router_event("coder-0").unwrap();
    assert_eq!(ev.instance_id, "coder-0");
    match ev.event {
        RouterEventKind::TalkToRequest { request_id: id, caller_agent, text } => {
            assert_eq!(id, request_id);
            assert_eq!(caller_agent, "lead");
            assert_eq!(text, "review this");
        }
        other => panic!("expected a talk_to request, got {:?}", other),
    }
    assert!(svc.next_router_event("coder-0").is_none());
    enter_generating(&mut svc, "coder-0");

    // The coder finishes its turn with a result for the caller.
    svc.complete_turn("coder-0", &request_id, Some("looks good".into()));
    let reply = rx.try_recv().unwrap();
    assert_eq!(parse(&reply)["response"], "looks good");
    assert_eq!(parse(&reply)["instance_id"], "coder-0");

    match svc.finish_talk_to("lead-0", request_id.clone(), Some(reply)) {
        TalkToOutcome::Success { request_id: id, response, conversation_id } => {
            assert_eq!(id, request_id);
            assert_eq!(response, "looks good");
            assert_eq!(conversation_id, "");
        }
        other => panic!("expected success, got {:?}", other),
    }
    assert_eq!(state_of(&svc, "lead-0"), InstanceState::Generating);
    assert!(!svc.router().has_active_chain("lead-0"));
}

#[test]
fn talk_to_with_closed_channel_resumes_generating() {
    let mut svc = setup();
    svc.router_mut().spawn_instance("lead", "lead-0", vec![]);
    svc.router_mut().spawn_instance("coder", "coder-0", vec![]);
    enter_generating(&mut svc, "lead-0");
    let request_id = match svc.begin_talk_to("lead-0", "coder", "x", false) {
        TalkToStart::Waiting(id, _rx) => id,
        _ => panic!("expected the request to go out"),
    };
    match svc.finish_talk_to("lead-0", request_id, None) {
        TalkToOutcome::Error { reason, .. } => assert_eq!(reason, "channel_closed"),
        other => panic!("expected an error, got {:?}", other),
    }
    assert_eq!(state_of(&svc, "lead-0"), InstanceState::Generating);
}

#[test]
fn resume_of_an_unknown_request_is_refused() {
    let mut svc = setup();
    svc.router_mut().spawn_instance("lead", "lead-0", vec![]);
    match svc.resume_talk_to("lead-0", "nope") {
        Err(TalkToOutcome::Error { reason, .. }) => assert_eq!(reason, "no_pending_request"),
        _ => panic!("expected a refusal"),
    }
}

#[test]
fn inquire_round_trip() {
    let mut svc = setup();
    svc.router_mut().spawn_instance("lead", "lead-0", vec![]);
    svc.router_mut().spawn_instance("coder", "coder-0", vec![]);
    enter_generating(&mut svc, "coder-0");

    let suggestions = vec!["Yes".to_string(), "No".to_string()];
    let (inquiry_id, mut rx) = match svc.begin_inquire("coder-0", "Deploy?", &suggestions, &[], "high") {
        InquireStart::Waiting(id, rx) => (id, rx),
        InquireStart::FailedPrecondition(m) => panic!("unexpected refusal: {}", m),
    };
    assert_eq!(state_of(&svc, "coder-0"), InstanceState::WaitingForInquiry);

    // The supervisor's instance is idle, so the inquiry reaches it at once.
    let ev = svc.next_router_event("lead-0").unwrap();
    match ev.event {
        RouterEventKind::InquiryRequest { inquiry_id: id, from_agent, content_markdown, suggestions, priority } => {
            assert_eq!(id, inquiry_id);
            assert_eq!(from_agent, "coder");
            assert_eq!(content_markdown, "Deploy?");
            assert_eq!(suggestions, vec!["Yes".to_string(), "No".to_string()]);
            assert_eq!(priority, "high");
        }
        other => panic!("expected an inquiry, got {:?}", other),
    }

    assert!(svc.router_mut().resolve_inquiry(&inquiry_id, r#"{"response_text":"Yes","suggestion_index":0}"#.into()));
    let reply = rx.try_recv().unwrap();
    match svc.finish_inquire("coder-0", inquiry_id.clone(), Some(reply)) {
        InquireOutcome::Success { inquiry_id: id, response_text, suggestion_index } => {
            assert_eq!(id, inquiry_id);
            assert_eq!(response_text, Some("Yes".to_string()));
            assert_eq!(suggestion_index, Some(0));
        }
        other => panic!("expected success, got {:?}", other),
    }
    assert_eq!(state_of(&svc, "coder-0"), InstanceState::Generating);
}

#[test]
fn inquire_needs_a_generating_instance() {
    let mut svc = setup();
    svc.router_mut().spawn_instance("coder", "coder-0", vec![]);
    match svc.begin_inquire("coder-0", "?", &[], &[], "normal") {
        InquireStart::FailedPrecondition(m) => {
            assert_eq!(m, "State error: Invalid transition: idle -> waiting_for_inquiry")
        }
        InquireStart::Waiting(..) => panic!("an idle instance cannot wait"),
    }
}

#[test]
fn events_for_the_agent_stream() {
    let ev = feed_item_to_router_event(
        "lead-0",
        FeedItem {
            kind: FeedItemKind::Input,
            event: r#"{"type":"agent.event.user_input","text":"hello","turn_id":"turn-1","history":[{"id":"m1","role":"user","content":"hi"},{"id":"m2"}]}"#.into(),
        },
    );
    assert_eq!(ev.instance_id, "lead-0");
    assert_eq!(ev.turn_id, "turn-1");
    match ev.event {
        RouterEventKind::UserInput { text, history } => {
            assert_eq!(text, "hello");
            assert_eq!(history.len(), 1);
            assert_eq!(history[0].id, "m1");
            assert_eq!(history[0].role, "user");
            assert_eq!(history[0].content, "hi");
        }
        other => panic!("expected user input, got {:?}", other),
    }

    let ev = feed_item_to_router_event(
        "coder-0",
        FeedItem {
            kind: FeedItemKind::Input,
            event: r#"{"type":"agent.event.talk_to.request","request_id":"req-1","caller_agent":"lead","text":"do it"}"#.into(),
        },
    );
    assert_eq!(ev.turn_id, "");
    match ev.event {
        RouterEventKind::TalkToRequest { request_id, caller_agent, text } => {
            assert_eq!(request_id, "req-1");
            assert_eq!(caller_agent, "lead");
            assert_eq!(text, "do it");
        }
        other => panic!("expected a talk_to request, got {:?}", other),
    }

    let ev = feed_item_to_router_event(
        "x",
        FeedItem { kind: FeedItemKind::InquiryInterrupt, event: r#"{"type":"agent.event.inquiry.request"}"#.into() },
    );
    match ev.event {
        RouterEventKind::InquiryRequest { priority, suggestions, .. } => {
            assert_eq!(priority, "normal");
            assert!(suggestions.is_empty());
        }
        other => panic!("expected an inquiry, got {:?}", other),
    }

    for (t, want) in [("agent.signal.drain", 0), ("agent.signal.terminate", 1), ("agent.signal.interrupt", 2)] {
        let ev = feed_item_to_router_event(
            "x",
            FeedItem { kind: FeedItemKind::Input, event: format!(r#"{{"type":"{}"}}"#, t) },
        );
        let got = match ev.event {
            RouterEventKind::Drain => 0,
            RouterEventKind::Terminate => 1,
            RouterEventKind::Interrupt => 2,
            _ => 9,
        };
        assert_eq!(got, want);
    }

    let raw = r#"{"type":"agent.event.talk_to.response","response":"ok"}"#;
    let ev = feed_item_to_router_event("x", FeedItem { kind: FeedItemKind::Response, event: raw.into() });
    match ev.event {
        RouterEventKind::UserInput { text, history } => {
            assert_eq!(text, r#"{"response":"ok","type":"agent.event.talk_to.response"}"#);
            assert!(history.is_empty());
        }
        other => panic!("expected the raw event as text, got {:?}", other),
    }
}

#[test]
fn next_router_event_for_unknown_instance_is_none() {
    let mut svc = test_service();
    assert!(svc.next_router_event("nobody").is_none());
}

#[test]
fn router_event_oneof_variants() {
    let event = RouterEvent {
        instance_id: "lead-0".into(),
        turn_id: "turn-1".into(),
        event: RouterEventKind::UserInput { text: "hello".into(), history: vec![] },
    };
    assert!(matches!(event.event, RouterEventKind::UserInput { .. }));
}

#[test]
fn talk_to_response_oneof_variants() {
    let resp = TalkToOutcome::Success {
        request_id: "req-1".into(),
        response: "done".into(),
        conversation_id: "conv-1".into(),
    };
    assert!(matches!(resp, TalkToOutcome::Success { .. }));

    let interrupt_resp = TalkToOutcome::Interrupt {
        inquiry_id: "inq-1".into(),
        from_agent: "coder".into(),
        content_markdown: "Need help".into(),
        suggestions: vec!["Yes".into(), "No".into()],
        priority: "normal".into(),
    };
    assert!(matches!(interrupt_resp, TalkToOutcome::Interrupt { .. }));
}
