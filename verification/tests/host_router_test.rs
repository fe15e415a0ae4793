use dspatch_router::agent_host::AgentHostRouter;
use dspatch_router::config::AgentMeta;
use dspatch_router::feed::FeedItemKind;
use dspatch_router::host_router::HostRouter;
use dspatch_router::state_machine::InstanceState;
use dspatch_router::wire::WirePackage;

fn meta(is_root: bool, peers: &[&str]) -> AgentMeta {
    AgentMeta { is_root, peers: peers.iter().map(|p| p.to_string()).collect(), fields: vec![] }
}

fn test_agents() -> Vec<(String, AgentMeta)> {
    vec![("lead".into(), meta(true, &["coder"])), ("coder".into(), meta(false, &["lead"]))]
}

fn three_tier_agents() -> Vec<(String, AgentMeta)> {
    vec![
        ("lead".into(), meta(true, &["coder"])),
        ("coder".into(), meta(false, &["lead", "intern"])),
        ("intern".into(), meta(false, &["coder"])),
    ]
}

fn parse(text: &str) -> serde_json::Value {
    serde_json::from_str(text).unwrap()
}

// ── Agent hosts ─────────────────────────────────────────────────────────

#[test]
fn spawn_instance_creates_router() {
    let mut host = AgentHostRouter::new("lead".into());
    assert_eq!(host.instance_count(), 0);

    host.spawn_instance("lead-0".into(), vec![]);
    assert_eq!(host.instance_count(), 1);
    assert_eq!(host.instance_state("lead-0"), Some(InstanceState::Idle));
}

#[test]
fn dispatch_routes_to_correct_instance() {
    let mut host = AgentHostRouter::new("coder".into());
    host.spawn_instance("coder-0".into(), vec![]);
    host.spawn_instance("coder-1".into(), vec![]);

    let event = r#"{"type":"agent.event.user_input","instance_id":"coder-1","text":"hello"}"#.to_string();
    host.dispatch(event);

    let feed = host.take_feed_item("coder-1");
    assert!(feed.is_some());
    assert!(host.take_feed_item("coder-0").is_none());
}

#[test]
fn heartbeat_aggregates_all_instances() {
    let mut host = AgentHostRouter::new("lead".into());
    host.spawn_instance("lead-0".into(), vec![]);
    host.spawn_instance("lead-1".into(), vec![]);

    let hb = host.collect_heartbeat();
    assert_eq!(hb.len(), 2);
    assert!(hb.iter().any(|h| h.instance_id == "lead-0"));
    assert!(hb.iter().any(|h| h.instance_id == "lead-1"));
    assert!(hb.iter().all(|h| h.state == "idle"));
}

#[test]
fn kill_instance_removes_it() {
    let mut host = AgentHostRouter::new("lead".into());
    host.spawn_instance("lead-0".into(), vec![]);
    assert_eq!(host.instance_count(), 1);

    host.kill_instance("lead-0");
    assert_eq!(host.instance_count(), 0);
    assert_eq!(host.instance_state("lead-0"), None);
}

#[test]
fn respawn_replaces_the_instance_with_a_fresh_one() {
    let mut host = AgentHostRouter::new("lead".into());
    host.spawn_instance("lead-0".into(), vec![]);
    host.get_instance_router_mut("lead-0").unwrap().state_machine_mut().enter_generating().unwrap();
    assert_eq!(host.instance_state("lead-0"), Some(InstanceState::Generating));
    host.spawn_instance("lead-0".into(), vec![]);
    assert_eq!(host.instance_count(), 1);
    assert_eq!(host.instance_state("lead-0"), Some(InstanceState::Idle));
    assert_eq!(host.instance_ids(), vec!["lead-0".to_string()]);
}

#[test]
fn dispatch_to_unknown_instance_is_dropped() {
    let mut host = AgentHostRouter::new("lead".into());
    host.spawn_instance("lead-0".into(), vec![]);
    host.dispatch(r#"{"type":"agent.event.user_input","instance_id":"lead-9","text":"x"}"#.to_string());
    assert!(host.take_feed_item("lead-0").is_none());
    assert!(host.take_feed_item("lead-9").is_none());
}

// ── Host router ─────────────────────────────────────────────────────────

#[test]
fn spawn_instance_creates_agent_host() {
    let mut router = HostRouter::new(test_agents());
    router.spawn_instance("lead", "lead-0", vec![]);
    assert!(router.instance_exists("lead-0"));
    assert!(!router.instance_exists("coder-0"));
    assert_eq!(router.agent_key_for_instance("lead-0"), Some("lead".to_string()));
}

#[test]
fn cycle_detection_prevents_loop() {
    let mut router = HostRouter::new(test_agents());
    router.spawn_instance("lead", "lead-0", vec![]);
    router.spawn_instance("coder", "coder-0", vec![]);

    let _result = router.initiate_talk_to("lead-0", "coder", "hello", false);
    assert!(router.has_active_chain("lead-0"));
}

#[test]
fn cycle_detection_rejects_cycle() {
    let mut router = HostRouter::new(test_agents());
    router.spawn_instance("lead", "lead-0", vec![]);
    router.spawn_instance("coder", "coder-0", vec![]);

    router.add_chain_link("req-1", "lead-0", "coder", vec!["lead".into()]);

    let has_cycle = router.would_create_cycle("coder-0", "lead");
    assert!(has_cycle);
}

#[test]
fn inquiry_bubbling_to_supervisor() {
    let mut router = HostRouter::new(test_agents());
    router.spawn_instance("lead", "lead-0", vec![]);
    router.spawn_instance("coder", "coder-0", vec![]);

    let supervisor = router.supervisor_for("coder");
    assert_eq!(supervisor, Some("lead".to_string()));
}

#[test]
fn route_inbound_to_correct_agent_host() {
    let mut router = HostRouter::new(test_agents());
    router.spawn_instance("lead", "lead-0", vec![]);

    let event = r#"{"type":"agent.event.user_input","instance_id":"lead-0","text":"hello"}"#.to_string();
    router.route_from_engine(event);

    let item = router.take_feed_item("lead-0");
    assert!(item.is_some());
}

#[test]
fn instance_may_not_call_its_own_agent() {
    let mut router = HostRouter::new(test_agents());
    router.spawn_instance("lead", "lead-0", vec![]);
    assert!(router.would_create_cycle("lead-0", "lead"));
    assert!(!router.would_create_cycle("lead-0", "coder"));
    match router.initiate_talk_to("lead-0", "lead", "hi", false) {
        Err(reason) => assert_eq!(reason, "cycle_detected"),
        Ok(_) => panic!("a call to the caller's own agent must be refused"),
    }
    assert!(!router.has_active_chain("lead-0"));
}

#[test]
fn talk_to_from_unknown_caller_is_refused() {
    let mut router = HostRouter::new(test_agents());
    router.spawn_instance("coder", "coder-0", vec![]);
    match router.initiate_talk_to("ghost-0", "coder", "hi", false) {
        Err(reason) => assert_eq!(reason, "caller_not_found"),
        Ok(_) => panic!("an unknown caller must be refused"),
    }
}

#[test]
fn talk_to_reply_reaches_the_caller() {
    let mut router = HostRouter::new(test_agents());
    router.spawn_instance("lead", "lead-0", vec![]);
    router.spawn_instance("coder", "coder-0", vec![]);

    let (request_id, mut rx) = router.initiate_talk_to("lead-0", "coder", "please review", false).unwrap();
    assert!(router.has_active_chain("lead-0"));

    let item = router.take_feed_item("coder-0").unwrap();
    assert_eq!(item.kind, FeedItemKind::Input);
    let ev = parse(&item.event);
    assert_eq!(ev["type"], "agent.event.talk_to.request");
    assert_eq!(ev["instance_id"], "coder-0");
    assert_eq!(ev["request_id"], request_id.as_str());
    assert_eq!(ev["caller_agent"], "lead");
    assert_eq!(ev["text"], "please review");

    // While the request is open, the coder may not call back into lead.
    assert!(router.would_create_cycle("coder-0", "lead"));

    router.resolve_talk_to(&request_id, r#"{"response":"done"}"#.to_string());
    assert_eq!(rx.try_recv().unwrap(), r#"{"response":"done"}"#);
    assert!(!router.has_active_chain("lead-0"));
    assert!(!router.would_create_cycle("coder-0", "lead"));
}

#[test]
fn resume_wait_hands_the_reply_to_the_new_receiver() {
    let mut router = HostRouter::new(test_agents());
    router.spawn_instance("lead", "lead-0", vec![]);
    router.spawn_instance("coder", "coder-0", vec![]);
    let (request_id, first) = router.initiate_talk_to("lead-0", "coder", "hi", false).unwrap();
    drop(first);

    let mut rx = router.resume_wait("lead-0", &request_id).unwrap();
    router.resolve_talk_to(&request_id, "{\"response\":\"later\"}".to_string());
    assert_eq!(rx.try_recv().unwrap(), "{\"response\":\"later\"}");

    match router.resume_wait("lead-0", &request_id) {
        Err(reason) => assert_eq!(reason, "no_pending_request"),
        Ok(_) => panic!("a resolved request has nothing to resume"),
    }
}

#[test]
fn continued_conversation_reuses_the_same_target_instance() {
    let mut router = HostRouter::new(test_agents());
    router.spawn_instance("lead", "lead-0", vec![]);
    router.spawn_instance("coder", "coder-0", vec![]);
    router.spawn_instance("coder", "coder-1", vec![]);

    let (first, _rx1) = router.initiate_talk_to("lead-0", "coder", "one", false).unwrap();
    let a = router.take_feed_item("coder-0").unwrap();
    assert_eq!(parse(&a.event)["request_id"], first.as_str());
    router.resolve_talk_to(&first, "{}".to_string());

    let (second, _rx2) = router.initiate_talk_to("lead-0", "coder", "two", true).unwrap();
    assert_ne!(first, second);
    let b = router.take_feed_item("coder-0").unwrap();
    assert_eq!(parse(&b.event)["text"], "two");
    assert!(router.take_feed_item("coder-1").is_none());
}

#[test]
fn spawn_package_starts_the_instance_and_reports_it() {
    let mut router = HostRouter::new(test_agents());
    let (tx, mut rx) = tokio::sync::mpsc::channel::<WirePackage>(8);
    router.set_engine_tx(tx);
    router.route_from_engine(
        r#"{"type":"connection.spawn_instance","agent_key":"coder","instance_id":"coder-0"}"#.to_string(),
    );
    assert!(router.instance_exists("coder-0"));
    assert_eq!(router.agent_key_for_instance("coder-0"), Some("coder".to_string()));
    let pkg = rx.try_recv().unwrap();
    let j = parse(&pkg.to_json());
    assert_eq!(j["type"], "agent.signal.instance_spawned");
    assert_eq!(j["instance_id"], "coder-0");
    assert_eq!(j["agent_key"], "coder");
}

#[test]
fn unrecognised_packages_are_ignored() {
    let mut router = HostRouter::new(test_agents());
    router.spawn_instance("lead", "lead-0", vec![]);
    router.route_from_engine(r#"{"type":"connection.pong","instance_id":"lead-0"}"#.to_string());
    router.route_from_engine("not json".to_string());
    assert!(router.take_feed_item("lead-0").is_none());
}

#[test]
fn relay_output_sends_only_packages() {
    let mut router = HostRouter::new(test_agents());
    let (tx, mut rx) = tokio::sync::mpsc::channel::<WirePackage>(8);
    router.relay_output(r#"{"type":"agent.output.log"}"#.to_string());
    router.set_engine_tx(tx);
    router.relay_output(r#"{"no_type":1}"#.to_string());
    router.relay_output(r#"{"type":"agent.output.message","content":"hi"}"#.to_string());
    let pkg = rx.try_recv().unwrap();
    assert_eq!(pkg.package_type(), "agent.output.message");
    assert!(rx.try_recv().is_err());
}

#[test]
fn heartbeat_lists_instances_of_every_agent() {
    let mut router = HostRouter::new(test_agents());
    router.spawn_instance("lead", "lead-0", vec![]);
    router.spawn_instance("coder", "coder-0", vec![]);
    router.get_instance_router_mut("coder-0").unwrap().state_machine_mut().enter_generating().unwrap();
    let hb = router.collect_heartbeat();
    assert_eq!(hb.len(), 2);
    assert!(hb.iter().any(|h| h.instance_id == "lead-0" && h.state == "idle"));
    assert!(hb.iter().any(|h| h.instance_id == "coder-0" && h.state == "generating"));
}

#[test]
fn chain_heartbeats_change_no_state() {
    let mut router = HostRouter::new(test_agents());
    router.spawn_instance("lead", "lead-0", vec![]);
    router.add_chain_link("req-1", "lead-0", "coder", vec!["lead".into()]);
    router.send_chain_heartbeats();
    assert!(router.has_active_chain("lead-0"));
    assert!(router.take_feed_item("lead-0").is_none());
}

// ── Inquiry bubbling ────────────────────────────────────────────────────

#[test]
fn inquiry_routes_to_supervisor_first() {
    let mut router = HostRouter::new(three_tier_agents());
    router.spawn_instance("lead", "lead-0", vec![]);
    router.spawn_instance("coder", "coder-0", vec![]);

    let supervisor = router.supervisor_for("coder");
    assert_eq!(supervisor, Some("lead".to_string()));
}

#[test]
fn inquiry_surfaces_to_engine_when_no_supervisor() {
    let mut router = HostRouter::new(three_tier_agents());
    router.spawn_instance("lead", "lead-0", vec![]);

    let supervisor = router.supervisor_for("lead");
    assert!(supervisor.is_none());
}

#[test]
fn resolve_inquiry_resolves_pending_bubble() {
    let mut router = HostRouter::new(three_tier_agents());
    router.spawn_instance("coder", "coder-0", vec![]);

    let inquiry_id = "inq-1";
    router.register_pending_inquiry(inquiry_id, "coder", "coder-0", None);

    let resolved = router.resolve_inquiry(inquiry_id, r#"{"response_text":"Approved"}"#.to_string());
    assert!(resolved);
    assert!(!router.resolve_inquiry(inquiry_id, "{}".to_string()));
}

#[test]
fn resolve_inquiry_delivers_response_through_channel() {
    let mut router = HostRouter::new(three_tier_agents());
    router.spawn_instance("lead", "lead-0", vec![]);
    router.spawn_instance("coder", "coder-0", vec![]);

    router.get_instance_router_mut("coder-0").unwrap().state_machine_mut().enter_generating().unwrap();

    let mut rx = router.initiate_inquiry("coder-0", "inq-1", "Need approval", &[], &[], "normal");

    assert!(router.resolve_inquiry("inq-1", r#"{"response_text":"Approved"}"#.to_string()));

    let response = parse(&rx.try_recv().expect("channel closed"));
    assert_eq!(response["response_text"], "Approved");
}

#[test]
fn inquiry_is_delivered_to_the_supervisor_instance() {
    let mut router = HostRouter::new(three_tier_agents());
    router.spawn_instance("lead", "lead-0", vec![]);
    router.spawn_instance("intern", "intern-0", vec![]);
    let suggestions = vec!["Yes".to_string(), "No".to_string()];
    let _rx = router.initiate_inquiry("intern-0", "inq-7", "May I?", &suggestions, &[], "high");
    let item = router.take_feed_item("lead-0").unwrap();
    assert_eq!(item.kind, FeedItemKind::InquiryInterrupt);
    let ev = parse(&item.event);
    assert_eq!(ev["type"], "agent.event.inquiry.request");
    assert_eq!(ev["instance_id"], "lead-0");
    assert_eq!(ev["inquiry_id"], "inq-7");
    assert_eq!(ev["from_agent"], "intern");
    assert_eq!(ev["content_markdown"], "May I?");
    assert_eq!(ev["suggestions"][1], "No");
    assert_eq!(ev["priority"], "high");
}

#[test]
fn inquiry_of_a_root_surfaces_to_the_engine() {
    let mut router = HostRouter::new(three_tier_agents());
    let (tx, mut engine) = tokio::sync::mpsc::channel::<WirePackage>(8);
    router.set_engine_tx(tx);
    router.spawn_instance("lead", "lead-0", vec![]);
    let files = vec!["a.rs".to_string()];
    let _rx = router.initiate_inquiry("lead-0", "inq-2", "Ship it?", &[], &files, "normal");
    let pkg = engine.try_recv().unwrap();
    let j = parse(&pkg.to_json());
    assert_eq!(j["type"], "agent.event.inquiry.request");
    assert_eq!(j["instance_id"], "lead-0");
    assert_eq!(j["inquiry_id"], "inq-2");
    assert_eq!(j["file_paths"][0], "a.rs");
    assert!(router.take_feed_item("lead-0").is_none());
}

#[test]
fn fed_items_come_out_in_order_and_once() {
    let mut host = AgentHostRouter::new("coder".into());
    host.spawn_instance("coder-0".into(), vec![]);
    host.dispatch(r#"{"type":"agent.event.user_input","instance_id":"coder-0","text":"one"}"#.to_string());
    host.dispatch(r#"{"type":"agent.event.user_input","instance_id":"coder-0","text":"two"}"#.to_string());
    let a = host.take_feed_item("coder-0").unwrap();
    let b = host.take_feed_item("coder-0").unwrap();
    assert_eq!(parse(&a.event)["text"], "one");
    assert_eq!(parse(&b.event)["text"], "two");
    assert!(host.take_feed_item("coder-0").is_none());
}

#[test]
fn an_inquiry_id_is_recorded_once() {
    let mut router = HostRouter::new(test_agents());
    router.spawn_instance("coder", "coder-0", vec![]);
    router.register_pending_inquiry("inq-1", "coder", "coder-0", None);
    router.register_pending_inquiry("inq-1", "coder", "coder-0", None);
    assert!(router.resolve_inquiry("inq-1", "first".to_string()));
    assert!(!router.resolve_inquiry("inq-1", "second".to_string()));
}

#[test]
fn a_request_id_is_linked_once() {
    let mut router = HostRouter::new(test_agents());
    router.spawn_instance("lead", "lead-0", vec![]);
    router.spawn_instance("coder", "coder-0", vec![]);
    router.add_chain_link("req-1", "lead-0", "coder", vec!["lead".into()]);
    router.add_chain_link("req-1", "lead-0", "coder", vec!["lead".into()]);
    router.resolve_talk_to("req-1", "{}".to_string());
    assert!(!router.has_active_chain("lead-0"));
    assert!(!router.would_create_cycle("coder-0", "lead"));
    match router.resume_wait("lead-0", "req-1") {
        Err(reason) => assert_eq!(reason, "no_pending_request"),
        Ok(_) => panic!("the request was resolved"),
    }
}

#[test]
fn a_caller_cannot_repeat_an_agent_of_its_own_chain() {
    let mut router = HostRouter::new(three_tier_agents());
    router.spawn_instance("lead", "lead-0", vec![]);
    router.spawn_instance("coder", "coder-0", vec![]);
    assert!(!router.would_create_cycle("coder-0", "intern"));
    router.add_chain_link("req-9", "coder-0", "intern", vec!["coder".into(), "intern".into()]);
    assert!(router.would_create_cycle("coder-0", "intern"));
}
