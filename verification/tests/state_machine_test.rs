use dspatch_router::state_machine::{InstanceState, StateError, StateMachine};
use std::sync::{Arc, Mutex};

#[test]
fn initial_state_is_idle() {
    let sm = StateMachine::new();
    assert_eq!(sm.state(), InstanceState::Idle);
    assert!(sm.pending_wait().is_none());
}

#[test]
fn idle_to_generating() {
    let mut sm = StateMachine::new();
    sm.enter_generating().unwrap();
    assert_eq!(sm.state(), InstanceState::Generating);
}

#[test]
fn generating_to_waiting_for_agent() {
    let mut sm = StateMachine::new();
    sm.enter_generating().unwrap();
    sm.enter_waiting_for_agent("req-1".into(), "coder".into()).unwrap();
    assert_eq!(sm.state(), InstanceState::WaitingForAgent);
    let pw = sm.pending_wait().unwrap();
    assert_eq!(pw.request_id, "req-1");
    assert_eq!(pw.peer.as_deref(), Some("coder"));
}

#[test]
fn exit_waiting_clears_pending() {
    let mut sm = StateMachine::new();
    sm.enter_generating().unwrap();
    sm.enter_waiting_for_agent("req-1".into(), "coder".into()).unwrap();
    sm.exit_waiting("req-1").unwrap();
    assert_eq!(sm.state(), InstanceState::Generating);
    assert!(sm.pending_wait().is_none());
}

#[test]
fn exit_waiting_wrong_id_fails() {
    let mut sm = StateMachine::new();
    sm.enter_generating().unwrap();
    sm.enter_waiting_for_agent("req-1".into(), "coder".into()).unwrap();
    assert!(sm.exit_waiting("wrong-id").is_err());
}

#[test]
fn invalid_transition_fails() {
    let mut sm = StateMachine::new();
    assert!(sm.enter_waiting_for_agent("req-1".into(), "coder".into()).is_err());
}

#[test]
fn receive_unexpected_preserves_pending_wait() {
    let mut sm = StateMachine::new();
    sm.enter_generating().unwrap();
    sm.enter_waiting_for_agent("req-1".into(), "coder".into()).unwrap();
    sm.receive_unexpected();
    assert_eq!(sm.state(), InstanceState::Generating);
    assert!(sm.pending_wait().is_some());
    assert_eq!(sm.pending_wait().unwrap().request_id, "req-1");
}

#[test]
fn state_change_callback_fires() {
    let changes: Arc<Mutex<Vec<(InstanceState, InstanceState)>>> = Arc::new(Mutex::new(vec![]));
    let changes_clone = changes.clone();

    let mut sm = StateMachine::new();
    sm.set_on_state_changed(move |old, new| {
        changes_clone.lock().unwrap().push((old, new));
    });

    sm.enter_generating().unwrap();
    sm.enter_idle().unwrap();

    let recorded = changes.lock().unwrap();
    assert_eq!(recorded.len(), 2);
    assert_eq!(recorded[0], (InstanceState::Idle, InstanceState::Generating));
    assert_eq!(recorded[1], (InstanceState::Generating, InstanceState::Idle));
}

#[test]
fn state_names_on_the_wire() {
    assert_eq!(InstanceState::Idle.as_str(), "idle");
    assert_eq!(InstanceState::Generating.as_str(), "generating");
    assert_eq!(InstanceState::WaitingForAgent.as_str(), "waiting_for_agent");
    assert_eq!(InstanceState::WaitingForInquiry.as_str(), "waiting_for_inquiry");
}

#[test]
fn refused_transition_names_both_states() {
    let mut sm = StateMachine::new();
    let err = sm.enter_idle().unwrap_err();
    assert!(matches!(
        err,
        StateError::InvalidTransition { from: InstanceState::Idle, to: InstanceState::Idle }
    ));
    assert_eq!(err.message(), "Invalid transition: idle -> idle");
    assert_eq!(sm.state(), InstanceState::Idle);
}

#[test]
fn wrong_request_id_keeps_the_wait() {
    let mut sm = StateMachine::new();
    sm.enter_generating().unwrap();
    sm.enter_waiting_for_agent("req-1".into(), "coder".into()).unwrap();
    let err = sm.exit_waiting("other").unwrap_err();
    assert_eq!(err.message(), "No pending wait for request_id other");
    assert_eq!(sm.state(), InstanceState::WaitingForAgent);
    assert_eq!(sm.pending_wait().unwrap().request_id, "req-1");
}

#[test]
fn exit_waiting_outside_a_wait_is_refused() {
    let mut sm = StateMachine::new();
    sm.enter_generating().unwrap();
    let err = sm.exit_waiting("req-1").unwrap_err();
    assert!(matches!(err, StateError::NotWaiting(InstanceState::Generating)));
    assert_eq!(err.message(), "exit_waiting called in state generating");
    assert_eq!(sm.state(), InstanceState::Generating);
}

#[test]
fn waiting_for_inquiry_records_the_inquiry() {
    let mut sm = StateMachine::new();
    sm.enter_generating().unwrap();
    sm.enter_waiting_for_inquiry("inq-1".into()).unwrap();
    assert_eq!(sm.state(), InstanceState::WaitingForInquiry);
    let pw = sm.pending_wait().unwrap();
    assert_eq!(pw.wait_type, "inquiry");
    assert_eq!(pw.request_id, "inq-1");
    assert!(pw.peer.is_none());
    sm.exit_waiting("inq-1").unwrap();
    assert_eq!(sm.state(), InstanceState::Generating);
    assert!(sm.pending_wait().is_none());
}

#[test]
fn waiting_states_accept_no_transition() {
    let mut sm = StateMachine::new();
    sm.enter_generating().unwrap();
    sm.enter_waiting_for_agent("req-1".into(), "coder".into()).unwrap();
    assert!(sm.enter_idle().is_err());
    assert!(sm.enter_generating().is_err());
    assert!(sm.enter_waiting_for_inquiry("inq".into()).is_err());
    assert_eq!(sm.state(), InstanceState::WaitingForAgent);
}

#[test]
fn receive_unexpected_always_resumes_generating() {
    let mut sm = StateMachine::new();
    sm.receive_unexpected();
    assert_eq!(sm.state(), InstanceState::Generating);
    assert!(sm.pending_wait().is_none());
}

#[test]
fn a_replaced_listener_is_no_longer_called() {
    let mut sm = StateMachine::new();
    let first = Arc::new(Mutex::new(Vec::new()));
    let second = Arc::new(Mutex::new(Vec::new()));
    let first_clone = first.clone();
    sm.set_on_state_changed(move |old, new| {
        first_clone.lock().unwrap().push((old, new));
    });
    sm.enter_generating().unwrap();
    let second_clone = second.clone();
    sm.set_on_state_changed(move |old, new| {
        second_clone.lock().unwrap().push((old, new));
    });
    assert_eq!(sm.state(), InstanceState::Generating);
    sm.enter_idle().unwrap();
    assert!(sm.enter_waiting_for_agent("r".into(), "p".into()).is_err());

    assert_eq!(*first.lock().unwrap(), vec![(InstanceState::Idle, InstanceState::Generating)]);
    assert_eq!(*second.lock().unwrap(), vec![(InstanceState::Generating, InstanceState::Idle)]);
}
