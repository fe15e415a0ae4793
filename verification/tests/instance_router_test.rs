use dspatch_router::feed::{FeedBuffer, FeedItem, FeedItemKind, MAX_BUFFER_SIZE};
use dspatch_router::instance_router::InstanceRouter;
use dspatch_router::state_machine::InstanceState;

fn make_user_input(text: &str) -> String {
    format!(r#"{{"type":"agent.event.user_input","text":"{}","instance_id":"lead-0"}}"#, text)
}

fn make_talk_to_response(request_id: &str) -> String {
    format!(
        r#"{{"type":"agent.event.talk_to.response","request_id":"{}","response":"ok","instance_id":"lead-0"}}"#,
        request_id
    )
}

fn make_inquiry_request(inquiry_id: &str) -> String {
    format!(
        r#"{{"type":"agent.event.inquiry.request","inquiry_id":"{}","content_markdown":"Help?","instance_id":"lead-0"}}"#,
        inquiry_id
    )
}

fn parse(text: &str) -> serde_json::Value {
    serde_json::from_str(text).unwrap()
}

#[test]
fn idle_delivers_user_input() {
    let (mut router, mut rx) = InstanceRouter::new("lead-0".into(), vec![]);
    router.receive(make_user_input("hello"));
    let item = rx.try_recv().unwrap();
    assert!(matches!(item.kind, FeedItemKind::Input));
}

#[test]
fn generating_buffers_user_input() {
    let (mut router, mut rx) = InstanceRouter::new("lead-0".into(), vec![]);
    router.state_machine_mut().enter_generating().unwrap();
    router.receive(make_user_input("hello"));
    assert!(rx.try_recv().is_err());
    assert_eq!(router.buffer_len(), 1);
}

#[test]
fn state_change_flushes_buffer() {
    let (mut router, mut rx) = InstanceRouter::new("lead-0".into(), vec![]);
    router.state_machine_mut().enter_generating().unwrap();
    router.receive(make_user_input("hello"));
    assert!(rx.try_recv().is_err());

    router.state_machine_mut().enter_idle().unwrap();
    router.flush();
    let item = rx.try_recv().unwrap();
    assert!(matches!(item.kind, FeedItemKind::Input));
}

#[test]
fn waiting_delivers_response() {
    let (mut router, mut rx) = InstanceRouter::new("lead-0".into(), vec![]);
    {
        let sm = router.state_machine_mut();
        sm.enter_generating().unwrap();
        sm.enter_waiting_for_agent("req-1".into(), "coder".into()).unwrap();
    }
    router.receive(make_talk_to_response("req-1"));
    let item = rx.try_recv().unwrap();
    assert!(matches!(item.kind, FeedItemKind::Response));
}

#[test]
fn inquiry_interrupt_has_priority() {
    let (mut router, _rx) = InstanceRouter::new("lead-0".into(), vec![]);
    router.state_machine_mut().enter_generating().unwrap();

    router.receive(make_user_input("hello"));
    router.receive(make_inquiry_request("inq-1"));

    let buffer = router.peek_buffer();
    assert!(matches!(buffer[0].kind, FeedItemKind::InquiryInterrupt));
    assert!(matches!(buffer[1].kind, FeedItemKind::Input));
}

#[test]
fn turn_id_stack() {
    let (mut router, _rx) = InstanceRouter::new("lead-0".into(), vec![]);
    assert!(router.current_turn_id().is_none());

    let t1 = router.push_turn(Some("turn-1".into()));
    assert_eq!(t1, "turn-1");
    assert_eq!(router.current_turn_id().unwrap(), "turn-1");

    let t2 = router.push_turn(None);
    assert_ne!(t2, "turn-1");
    assert_eq!(router.current_turn_id().unwrap(), t2);

    router.pop_turn();
    assert_eq!(router.current_turn_id().unwrap(), "turn-1");

    router.pop_turn();
    assert!(router.current_turn_id().is_none());
}

#[test]
fn tag_outbound_injects_turn_id() {
    let (mut router, _rx) = InstanceRouter::new("lead-0".into(), vec![]);
    router.push_turn(Some("turn-1".into()));

    let output = r#"{"type":"agent.output.message","content":"hi"}"#.to_string();
    let tagged = parse(&router.tag_outbound(output));
    assert_eq!(tagged["turn_id"], "turn-1");
    assert_eq!(tagged["content"], "hi");

    let signal = r#"{"type":"agent.signal.drain"}"#.to_string();
    let not_tagged = parse(&router.tag_outbound(signal));
    assert!(not_tagged.get("turn_id").is_none());
}

#[test]
fn tag_outbound_without_a_turn_returns_the_event() {
    let (router, _rx) = InstanceRouter::new("lead-0".into(), vec![]);
    let output = r#"{"type":"agent.output.message","content":"hi"}"#.to_string();
    assert_eq!(router.tag_outbound(output.clone()), output);
}

#[test]
fn tag_outbound_tags_replies_with_the_innermost_turn() {
    let (mut router, _rx) = InstanceRouter::new("lead-0".into(), vec![]);
    router.push_turn(Some("outer".into()));
    router.push_turn(Some("inner".into()));
    let reply = r#"{"type":"agent.event.talk_to.response","response":"ok"}"#.to_string();
    let tagged = parse(&router.tag_outbound(reply));
    assert_eq!(tagged["turn_id"], "inner");
}

#[test]
fn fresh_turn_ids_are_twelve_characters_and_distinct() {
    let (mut router, _rx) = InstanceRouter::new("lead-0".into(), vec![]);
    let a = router.push_turn(None);
    let b = router.push_turn(None);
    assert_eq!(a.chars().count(), 12);
    assert_eq!(b.chars().count(), 12);
    assert_ne!(a, b);
    assert_eq!(router.pop_turn(), Some(b));
    assert_eq!(router.pop_turn(), Some(a));
    assert_eq!(router.pop_turn(), None);
}

#[test]
fn control_signals_and_keepalives_are_dropped() {
    let (mut router, mut rx) = InstanceRouter::new("lead-0".into(), vec![]);
    router.receive(r#"{"type":"agent.signal.drain"}"#.to_string());
    router.receive(r#"{"type":"agent.event.request.alive"}"#.to_string());
    router.state_machine_mut().enter_generating().unwrap();
    router.receive(r#"{"type":"agent.signal.state_query"}"#.to_string());
    assert!(rx.try_recv().is_err());
    assert_eq!(router.buffer_len(), 0);
}

#[test]
fn flush_keeps_what_the_state_does_not_take() {
    let (mut router, mut rx) = InstanceRouter::new("lead-0".into(), vec![]);
    router.state_machine_mut().enter_generating().unwrap();
    router.receive(make_user_input("first"));
    router.receive(make_talk_to_response("req-9"));
    router.receive(make_user_input("second"));
    assert_eq!(router.buffer_len(), 3);

    router.state_machine_mut().enter_idle().unwrap();
    router.flush();
    let a = rx.try_recv().unwrap();
    let b = rx.try_recv().unwrap();
    assert!(rx.try_recv().is_err());
    assert_eq!(parse(&a.event)["text"], "first");
    assert_eq!(parse(&b.event)["text"], "second");
    let rest = router.peek_buffer();
    assert_eq!(rest.len(), 1);
    assert_eq!(rest[0].kind, FeedItemKind::Response);

    // Flushing twice in the same state hands nothing more over.
    router.flush();
    assert!(rx.try_recv().is_err());
    assert_eq!(router.buffer_len(), 1);
}

#[test]
fn waiting_instance_buffers_input_but_takes_termination() {
    let (mut router, mut rx) = InstanceRouter::new("lead-0".into(), vec![]);
    router.state_machine_mut().enter_generating().unwrap();
    router.state_machine_mut().enter_waiting_for_inquiry("inq-1".into()).unwrap();
    router.receive(make_user_input("later"));
    assert!(rx.try_recv().is_err());
    router.receive(r#"{"type":"agent.event.inquiry.failed","inquiry_id":"inq-1"}"#.to_string());
    let item = rx.try_recv().unwrap();
    assert_eq!(item.kind, FeedItemKind::Termination);
    assert_eq!(router.buffer_len(), 1);
    assert_eq!(router.state_machine().state(), InstanceState::WaitingForInquiry);
}

#[test]
fn instance_id_is_kept() {
    let (router, _rx) = InstanceRouter::new("lead-0".into(), vec!["{}".to_string()]);
    assert_eq!(router.instance_id(), "lead-0");
    assert_eq!(router.state_machine().state(), InstanceState::Idle);
}

#[test]
fn buffer_drops_the_oldest_item_when_full() {
    let mut buf = FeedBuffer::new();
    for i in 0..MAX_BUFFER_SIZE {
        buf.insert(FeedItem { kind: FeedItemKind::Input, event: format!("{}", i) });
    }
    assert_eq!(buf.len(), MAX_BUFFER_SIZE);
    buf.insert(FeedItem { kind: FeedItemKind::Input, event: "new".to_string() });
    assert_eq!(buf.len(), MAX_BUFFER_SIZE);
    assert_eq!(buf.get(0).event, "1");
    assert_eq!(buf.get(MAX_BUFFER_SIZE - 1).event, "new");
}

#[test]
fn interrupts_go_before_the_first_input() {
    let mut buf = FeedBuffer::new();
    buf.insert(FeedItem { kind: FeedItemKind::Response, event: "r".to_string() });
    buf.insert(FeedItem { kind: FeedItemKind::Input, event: "i1".to_string() });
    buf.insert(FeedItem { kind: FeedItemKind::InquiryInterrupt, event: "q".to_string() });
    assert_eq!(buf.get(0).event, "r");
    assert_eq!(buf.get(1).event, "q");
    assert_eq!(buf.get(2).event, "i1");

    let taken = buf.take_deliverable(InstanceState::Idle);
    let taken: Vec<String> = taken.into_iter().map(|i| i.event).collect();
    assert_eq!(taken, vec!["q".to_string(), "i1".to_string()]);
    assert_eq!(buf.len(), 1);
    assert_eq!(buf.get(0).event, "r");
}
