//! Per-instance lifecycle: idle, generating, and the two waiting states,
//! with the pending wait that a waiting state is blocked on.
use vstd::prelude::*;
use vstd::string::*;

verus! {

/// Lifecycle state of one agent instance.
#[derive(Debug, Clone, Copy, PartialEq, Eq, Hash, Structural)]
pub enum InstanceState {
    Idle,
    Generating,
    WaitingForAgent,
    WaitingForInquiry,
}

/// The wire name of a state.
pub open spec fn state_name(s: InstanceState) -> Seq<char> {
    match s {
        InstanceState::Idle => "idle"@,
        InstanceState::Generating => "generating"@,
        InstanceState::WaitingForAgent => "waiting_for_agent"@,
        InstanceState::WaitingForInquiry => "waiting_for_inquiry"@,
    }
}

/// The transitions that `StateMachine::transition` accepts.
pub open spec fn valid_transition(from: InstanceState, to: InstanceState) -> bool {
    match from {
        InstanceState::Idle => to == InstanceState::Generating,
        InstanceState::Generating => to == InstanceState::Idle || to == InstanceState::WaitingForAgent
            || to == InstanceState::WaitingForInquiry,
        InstanceState::WaitingForAgent => false,
        InstanceState::WaitingForInquiry => false,
    }
}

pub open spec fn is_waiting(s: InstanceState) -> bool {
    s == InstanceState::WaitingForAgent || s == InstanceState::WaitingForInquiry
}

impl InstanceState {
    pub fn as_str(&self) -> (r: &'static str)
        ensures
            r@ == state_name(*self),
    {
        match self {
            InstanceState::Idle => "idle",
            InstanceState::Generating => "generating",
            InstanceState::WaitingForAgent => "waiting_for_agent",
            InstanceState::WaitingForInquiry => "waiting_for_inquiry",
        }
    }

    fn valid_transitions(&self) -> (r: Vec<InstanceState>)
        ensures
            r@ == match *self {
                InstanceState::Idle => seq![InstanceState::Generating],
                InstanceState::Generating => seq![
                    InstanceState::Idle,
                    InstanceState::WaitingForAgent,
                    InstanceState::WaitingForInquiry,
                ],
                _ => Seq::<InstanceState>::empty(),
            },
            forall|to: InstanceState| r@.contains(to) <==> valid_transition(*self, to),
    {
        match self {
            InstanceState::Idle => {
                let r = vec![InstanceState::Generating];
                assert(r@[0] == InstanceState::Generating);
                r
            },
            InstanceState::Generating => {
                let r = vec![
                    InstanceState::Idle,
                    InstanceState::WaitingForAgent,
                    InstanceState::WaitingForInquiry,
                ];
                assert(r@[0] == InstanceState::Idle);
                assert(r@[1] == InstanceState::WaitingForAgent);
                assert(r@[2] == InstanceState::WaitingForInquiry);
                r
            },
            InstanceState::WaitingForAgent => Vec::new(),
            InstanceState::WaitingForInquiry => Vec::new(),
        }
    }
}

/// What a waiting instance is blocked on.
#[derive(Debug, Clone)]
pub struct PendingWait {
    pub wait_type: String,
    pub request_id: String,
    pub peer: Option<String>,
}

pub struct PendingWaitView {
    pub wait_type: Seq<char>,
    pub request_id: Seq<char>,
    pub peer: Option<Seq<char>>,
}

pub open spec fn opt_str_view(o: Option<String>) -> Option<Seq<char>> {
    match o {
        Some(s) => Some(s@),
        None => None,
    }
}

impl View for PendingWait {
    type V = PendingWaitView;

    open spec fn view(&self) -> PendingWaitView {
        PendingWaitView { wait_type: self.wait_type@, request_id: self.request_id@, peer: opt_str_view(self.peer) }
    }
}

/// The message of a refused change from `from` to `to`.
pub open spec fn transition_error_text(from: InstanceState, to: InstanceState) -> Seq<char> {
    "Invalid transition: "@ + state_name(from) + " -> "@ + state_name(to)
}

/// Why a state change was refused.
#[derive(Debug)]
pub enum StateError {
    InvalidTransition { from: InstanceState, to: InstanceState },
    WrongRequestId(String),
    NotWaiting(InstanceState),
}

impl StateError {
    /// The human-readable form of the error.
    pub fn message(&self) -> (r: String)
        ensures
            r@ == match self {
                StateError::InvalidTransition { from, to } => transition_error_text(*from, *to),
                StateError::WrongRequestId(id) => "No pending wait for request_id "@ + id@,
                StateError::NotWaiting(s) => "exit_waiting called in state "@ + state_name(*s),
            },
    {
        match self {
            StateError::InvalidTransition { from, to } => {
                String::from_str("Invalid transition: ").concat(from.as_str()).concat(" -> ").concat(to.as_str())
            },
            StateError::WrongRequestId(id) => {
                String::from_str("No pending wait for request_id ").concat(id.as_str())
            },
            StateError::NotWaiting(s) => {
                String::from_str("exit_waiting called in state ").concat(s.as_str())
            },
        }
    }
}

/// A listener told of every state change as `(old, new)`.
#[verifier::external_body]
pub(crate) struct StateChangeHook {
    f: Box<dyn Fn(InstanceState, InstanceState) + Send + Sync>,
}

impl StateChangeHook {
    /// Boxes a listener closure. Trusted: only moves the closure into a box.
    #[verifier::external_body]
    pub(crate) fn new<F: Fn(InstanceState, InstanceState) + Send + Sync + 'static>(f: F) -> StateChangeHook {
        StateChangeHook { f: Box::new(f) }
    }

    /// Calls the listener (std's `Fn::call` on the boxed closure). Nothing is
    /// promised of what the listener does.
    #[verifier::external_body]
    fn notify(&self, old: InstanceState, new: InstanceState) {
        (self.f)(old, new)
    }
}

pub struct StateMachineView {
    pub state: InstanceState,
    pub pending: Option<PendingWaitView>,
    /// Every state change so far, in order, as (old, new).
    pub changes: Seq<(InstanceState, InstanceState)>,
    pub hooked: bool,
    /// How many listeners were installed so far; the installed one, if
    /// any, is the last of them.
    pub listener: nat,
    /// Every call of a listener, in order, as (listener, old, new).
    pub notified: Seq<(nat, InstanceState, InstanceState)>,
}

pub open spec fn opt_wait_view(o: Option<PendingWait>) -> Option<PendingWaitView> {
    match o {
        Some(p) => Some(p@),
        None => None,
    }
}

/// The lifecycle state machine of one instance.
pub struct StateMachine {
    state: InstanceState,
    pending_wait: Option<PendingWait>,
    on_state_changed: Option<StateChangeHook>,
    changes: Ghost<Seq<(InstanceState, InstanceState)>>,
    listener: Ghost<nat>,
    notified: Ghost<Seq<(nat, InstanceState, InstanceState)>>,
}

impl View for StateMachine {
    type V = StateMachineView;

    closed spec fn view(&self) -> StateMachineView {
        StateMachineView {
            state: self.state,
            pending: opt_wait_view(self.pending_wait),
            changes: self.changes@,
            hooked: self.on_state_changed is Some,
            listener: self.listener@,
            notified: self.notified@,
        }
    }
}

/// The machine after a state change to `to`: the change is recorded and
/// reported once to the installed listener, the pending wait is kept.
pub open spec fn after_set(m: StateMachineView, to: InstanceState) -> StateMachineView {
    StateMachineView {
        state: to,
        changes: m.changes.push((m.state, to)),
        notified: if m.hooked { m.notified.push((m.listener, m.state, to)) } else { m.notified },
        ..m
    }
}

/// The machine after a new listener was installed: nothing else changes
/// and nothing is reported.
pub open spec fn after_listen(m: StateMachineView) -> StateMachineView {
    StateMachineView { hooked: true, listener: m.listener + 1, ..m }
}

/// `r` is the refusal of a change from `from` to `to`.
pub open spec fn refused(r: Result<(), StateError>, from: InstanceState, to: InstanceState) -> bool {
    match r {
        Err(StateError::InvalidTransition { from: f, to: t }) => f == from && t == to,
        _ => false,
    }
}

/// The machine's pending wait is for `id`.
pub open spec fn waits_for(m: StateMachineView, id: Seq<char>) -> bool {
    match m.pending {
        Some(p) => p.request_id == id,
        None => false,
    }
}

pub open spec fn not_waiting_error(r: Result<(), StateError>, s: InstanceState) -> bool {
    match r {
        Err(StateError::NotWaiting(t)) => t == s,
        _ => false,
    }
}

pub open spec fn wrong_id_error(r: Result<(), StateError>, id: Seq<char>) -> bool {
    match r {
        Err(StateError::WrongRequestId(i)) => i@ == id,
        _ => false,
    }
}

pub open spec fn talk_to_wait(request_id: Seq<char>, peer: Seq<char>) -> PendingWaitView {
    PendingWaitView { wait_type: "talk_to"@, request_id, peer: Some(peer) }
}

pub open spec fn inquiry_wait(inquiry_id: Seq<char>) -> PendingWaitView {
    PendingWaitView { wait_type: "inquiry"@, request_id: inquiry_id, peer: None }
}

/// A waiting state has the pending wait of its kind: a talk_to wait names
/// its peer, an inquiry wait has none.
pub open spec fn wait_matches(state: InstanceState, pending: Option<PendingWaitView>) -> bool {
    &&& state == InstanceState::WaitingForAgent ==> (pending matches Some(p) && p.wait_type == "talk_to"@
        && p.peer is Some)
    &&& state == InstanceState::WaitingForInquiry ==> (pending matches Some(p) && p.wait_type == "inquiry"@
        && p.peer is None)
}

impl StateMachine {
    #[verifier::type_invariant]
    spec fn consistent(self) -> bool {
        wait_matches(self.state, opt_wait_view(self.pending_wait))
    }

    pub fn new() -> (r: StateMachine)
        ensures
            r@.state == InstanceState::Idle,
            r@.pending is None,
            r@.changes == Seq::<(InstanceState, InstanceState)>::empty(),
            !r@.hooked,
            r@.listener == 0,
            r@.notified == Seq::<(nat, InstanceState, InstanceState)>::empty(),
    {
        StateMachine {
            state: InstanceState::Idle,
            pending_wait: None,
            on_state_changed: None,
            changes: Ghost(Seq::empty()),
            listener: Ghost(0),
            notified: Ghost(Seq::empty()),
        }
    }

    pub fn state(&self) -> (r: InstanceState)
        ensures
            r == self@.state,
    {
        self.state
    }

    /// The pending wait; a machine in a waiting state always has the one of
    /// its kind.
    pub fn pending_wait(&self) -> (r: Option<&PendingWait>)
        ensures
            match r {
                Some(p) => self@.pending == Some(p@),
                None => self@.pending is None,
            },
            wait_matches(self@.state, self@.pending),
    {
        proof { use_type_invariant(self); }
        self.pending_wait.as_ref()
    }

    /// Installs the listener that every later state change is reported to,
    /// in place of any earlier one.
    pub fn set_on_state_changed<F: Fn(InstanceState, InstanceState) + Send + Sync + 'static>(&mut self, f: F)
        ensures
            final(self)@ == after_listen(old(self)@),
    {
        proof { use_type_invariant(&*self); }
        self.on_state_changed = Some(StateChangeHook::new(f));
        self.listener = Ghost(self.listener@ + 1);
    }

    fn set_state(&mut self, new: InstanceState)
        requires
            wait_matches(new, old(self)@.pending),
        ensures
            final(self)@ == after_set(old(self)@, new),
    {
        let old = self.state;
        self.state = new;
        self.changes = Ghost(self.changes@.push((old, new)));
        match &self.on_state_changed {
            Some(hook) => {
                hook.notify(old, new);
                self.notified = Ghost(self.notified@.push((self.listener@, old, new)));
            },
            None => {},
        }
    }

    fn allows(&self, to: InstanceState) -> (r: bool)
        ensures
            r == valid_transition(self@.state, to),
    {
        let allowed = self.state.valid_transitions();
        let mut i: usize = 0;
        let mut found = false;
        while i < allowed.len()
            invariant
                i <= allowed.len(),
                found == exists|j: int| 0 <= j < i && allowed@[j] == to,
            decreases allowed.len() - i,
        {
            if allowed[i] == to {
                found = true;
            }
            i += 1;
        }
        proof {
            if allowed@.contains(to) {
                let j = choose|j: int| 0 <= j < allowed@.len() && allowed@[j] == to;
                assert(allowed@[j] == to);
            }
        }
        found
    }

    /// A change to a state that is not a waiting one.
    fn transition(&mut self, to: InstanceState) -> (r: Result<(), StateError>)
        requires
            !is_waiting(to),
        ensures
            valid_transition(old(self)@.state, to) ==> r is Ok && final(self)@ == after_set(old(self)@, to),
            !valid_transition(old(self)@.state, to) ==> final(self)@ == old(self)@ && refused(r, old(self)@.state, to),
    {
        if !self.allows(to) {
            return Err(StateError::InvalidTransition { from: self.state, to });
        }
        self.set_state(to);
        Ok(())
    }

    pub fn enter_generating(&mut self) -> (r: Result<(), StateError>)
        ensures
            r is Ok <==> valid_transition(old(self)@.state, InstanceState::Generating),
            r is Ok ==> final(self)@ == after_set(old(self)@, InstanceState::Generating),
            r is Err ==> final(self)@ == old(self)@ && refused(r, old(self)@.state, InstanceState::Generating),
    {
        self.transition(InstanceState::Generating)
    }

    pub fn enter_idle(&mut self) -> (r: Result<(), StateError>)
        ensures
            r is Ok <==> valid_transition(old(self)@.state, InstanceState::Idle),
            r is Ok ==> final(self)@ == after_set(old(self)@, InstanceState::Idle),
            r is Err ==> final(self)@ == old(self)@ && refused(r, old(self)@.state, InstanceState::Idle),
    {
        self.transition(InstanceState::Idle)
    }

    pub fn enter_waiting_for_agent(&mut self, request_id: String, peer: String) -> (r: Result<(), StateError>)
        ensures
            r is Ok <==> valid_transition(old(self)@.state, InstanceState::WaitingForAgent),
            r is Ok ==> final(self)@ == (StateMachineView {
                pending: Some(talk_to_wait(request_id@, peer@)),
                ..after_set(old(self)@, InstanceState::WaitingForAgent)
            }),
            r is Err ==> final(self)@ == old(self)@ && refused(r, old(self)@.state, InstanceState::WaitingForAgent),
    {
        if !self.allows(InstanceState::WaitingForAgent) {
            return Err(StateError::InvalidTransition { from: self.state, to: InstanceState::WaitingForAgent });
        }
        self.pending_wait = Some(
            PendingWait { wait_type: String::from_str("talk_to"), request_id, peer: Some(peer) },
        );
        self.set_state(InstanceState::WaitingForAgent);
        Ok(())
    }

    pub fn enter_waiting_for_inquiry(&mut self, inquiry_id: String) -> (r: Result<(), StateError>)
        ensures
            r is Ok <==> valid_transition(old(self)@.state, InstanceState::WaitingForInquiry),
            r is Ok ==> final(self)@ == (StateMachineView {
                pending: Some(inquiry_wait(inquiry_id@)),
                ..after_set(old(self)@, InstanceState::WaitingForInquiry)
            }),
            r is Err ==> final(self)@ == old(self)@ && refused(r, old(self)@.state, InstanceState::WaitingForInquiry),
    {
        if !self.allows(InstanceState::WaitingForInquiry) {
            return Err(StateError::InvalidTransition { from: self.state, to: InstanceState::WaitingForInquiry });
        }
        self.pending_wait = Some(
            PendingWait { wait_type: String::from_str("inquiry"), request_id: inquiry_id, peer: None },
        );
        self.set_state(InstanceState::WaitingForInquiry);
        Ok(())
    }

    /// Leaves a waiting state once the awaited reply `consumed_request_id` arrived.
    pub fn exit_waiting(&mut self, consumed_request_id: &str) -> (r: Result<(), StateError>)
        ensures
            !is_waiting(old(self)@.state) ==> final(self)@ == old(self)@ && not_waiting_error(r, old(self)@.state),
            is_waiting(old(self)@.state) && !waits_for(old(self)@, consumed_request_id@)
                ==> final(self)@ == old(self)@ && wrong_id_error(r, consumed_request_id@),
            r is Ok <==> is_waiting(old(self)@.state) && waits_for(old(self)@, consumed_request_id@),
            r is Ok ==> final(self)@ == (StateMachineView {
                pending: None,
                ..after_set(old(self)@, InstanceState::Generating)
            }),
    {
        if !(self.state == InstanceState::WaitingForAgent || self.state == InstanceState::WaitingForInquiry) {
            return Err(StateError::NotWaiting(self.state));
        }
        let matches = match &self.pending_wait {
            Some(pw) => crate::text::str_eq(pw.request_id.as_str(), consumed_request_id),
            None => false,
        };
        if !matches {
            return Err(StateError::WrongRequestId(String::from_str(consumed_request_id)));
        }
        self.set_state(InstanceState::Generating);
        self.pending_wait = None;
        Ok(())
    }

    /// A reply arrived that nothing waited for: resume generating, keep the pending wait.
    pub fn receive_unexpected(&mut self)
        ensures
            final(self)@ == after_set(old(self)@, InstanceState::Generating),
    {
        self.set_state(InstanceState::Generating);
    }
}

} // verus!
