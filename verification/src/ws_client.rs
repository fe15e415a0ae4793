//! The engine connection's decisions: reconnect back-off and the reading
//! of what the engine sends. The socket itself is driven by the caller.
use vstd::prelude::*;
use vstd::string::*;
use vstd::arithmetic::power2::pow2;
use std::sync::Arc;
use crate::config::RouterConfig;
use crate::json::{
    json_str_member, json_u64_member, json_has_member, json_is_value, json_error_text, get_str_member, get_u64_member,
    json_parse_error,
};
use crate::text::str_eq;
use crate::wire::{WirePackage, str_member_or_empty};
use crate::wal::{Wal, WalView, WalDirection, WalEntryView, after_ack, in_direction, entry_views};

verus! {

/// 2 to the power `a`, capped at `u32::MAX` (`u32::saturating_pow`).
pub open spec fn saturating_pow2(a: nat) -> nat {
    if a >= 32 {
        u32::MAX as nat
    } else {
        pow2(a)
    }
}

/// The delay before reconnect attempt `attempt`: `base` doubled per
/// attempt, never more than `max`.
pub open spec fn backoff_delay(base: u64, max: u64, attempt: u32) -> u64 {
    let d = base * saturating_pow2(attempt as nat);
    if d > max {
        max
    } else {
        d as u64
    }
}

/// The first delay is the base delay (never more than the cap), and no
/// delay exceeds the cap.
pub proof fn law_backoff_starts_at_base_and_is_capped(base: u64, max: u64, attempt: u32)
    ensures
        backoff_delay(base, max, 0) == if base > max { max } else { base },
        backoff_delay(base, max, attempt) <= max,
{
    vstd::arithmetic::power2::lemma2_to64();
    assert(saturating_pow2(0) == 1);
    assert(base * saturating_pow2(0) == base);
}

/// Delays never shrink as attempts go up.
pub proof fn law_backoff_non_decreasing(base: u64, max: u64, a1: u32, a2: u32)
    requires
        a1 <= a2,
    ensures
        backoff_delay(base, max, a1) <= backoff_delay(base, max, a2),
{
    let p1 = saturating_pow2(a1 as nat);
    let p2 = saturating_pow2(a2 as nat);
    if a2 >= 32 {
        if a1 < 32 {
            vstd::bits::lemma_u32_pow2_no_overflow(a1 as nat);
        }
    } else if a1 < a2 {
        vstd::arithmetic::power2::lemma_pow2_strictly_increases(a1 as nat, a2 as nat);
    }
    assert(p1 <= p2);
    assert(base * p1 <= base * p2) by (nonlinear_arith)
        requires
            p1 <= p2,
    {
    }
}

/// Exponential back-off between reconnect attempts, in milliseconds.
pub struct ExponentialBackoff {
    base_ms: u64,
    max_ms: u64,
    attempt: u32,
}

pub struct BackoffView {
    pub base_ms: u64,
    pub max_ms: u64,
    pub attempt: u32,
}

impl View for ExponentialBackoff {
    type V = BackoffView;

    closed spec fn view(&self) -> BackoffView {
        BackoffView { base_ms: self.base_ms, max_ms: self.max_ms, attempt: self.attempt }
    }
}

impl ExponentialBackoff {
    pub fn new(base_ms: u64, max_ms: u64) -> (r: ExponentialBackoff)
        ensures
            r@ == (BackoffView { base_ms, max_ms, attempt: 0 }),
    {
        ExponentialBackoff { base_ms, max_ms, attempt: 0 }
    }

    /// The delay before the next attempt; the attempt count goes up (it
    /// stops at `u32::MAX`, where the delay no longer changes).
    pub fn next_delay(&mut self) -> (r: u64)
        ensures
            r == backoff_delay(old(self)@.base_ms, old(self)@.max_ms, old(self)@.attempt),
            final(self)@ == (BackoffView {
                attempt: if old(self)@.attempt < u32::MAX { (old(self)@.attempt + 1) as u32 } else { u32::MAX },
                ..old(self)@
            }),
    {
        let factor: u64 = if self.attempt >= 32 {
            0xffff_ffffu64
        } else {
            proof {
                vstd::bits::lemma_u32_pow2_no_overflow(self.attempt as nat);
                vstd::bits::lemma_u32_shl_is_mul(1, self.attempt);
            }
            (1u32 << self.attempt) as u64
        };
        assert(factor == saturating_pow2(self.attempt as nat));
        let b: u128 = self.base_ms as u128;
        let f: u128 = factor as u128;
        assert(b * f <= 0xffff_ffff_ffff_ffffu128 * 0xffff_ffffu128) by (nonlinear_arith)
            requires
                b <= 0xffff_ffff_ffff_ffffu128,
                f <= 0xffff_ffffu128,
        {
        }
        let delay: u128 = b * f;
        if self.attempt < u32::MAX {
            self.attempt = self.attempt + 1;
        }
        if delay > self.max_ms as u128 {
            self.max_ms
        } else {
            delay as u64
        }
    }

    pub fn reset(&mut self)
        ensures
            final(self)@ == (BackoffView { attempt: 0, ..old(self)@ }),
    {
        self.attempt = 0;
    }
}

/// What the engine sent.
pub enum EngineMessage {
    /// An acknowledgement of outbound packages up to a sequence number.
    Ack(Option<u64>),
    /// A package for the router.
    Package(WirePackage),
    /// Text that is not a package, with the reason.
    Invalid(String),
}

/// Why a frame is not a package: serde_json's parse error when it is not
/// JSON, else the missing type.
pub open spec fn frame_error(text: Seq<char>) -> Seq<char> {
    if json_is_value(text) {
        "Missing 'type' field"@
    } else {
        json_error_text(text)
    }
}

/// How a text frame from the engine is read: an ack by its type, else a
/// package when it has a type.
pub open spec fn engine_message_is(text: Seq<char>, m: EngineMessage) -> bool {
    if json_str_member(text, "type"@) == Some("connection.ack"@) {
        m == EngineMessage::Ack(json_u64_member(text, "sequence_number"@))
    } else if json_has_member(text, "type"@) {
        m matches EngineMessage::Package(p) && p@ == text
    } else {
        m matches EngineMessage::Invalid(e) && e@ == frame_error(text)
    }
}

/// The error for `text`, which is not a package (`missing` is the
/// package check's own reason): serde_json's parse error when the text is
/// not JSON.
fn not_a_package(text: &str, missing: &'static str) -> (r: String)
    requires
        missing@ == "Missing 'type' field"@,
    ensures
        r@ == frame_error(text@),
{
    match json_parse_error(text) {
        Some(m) => m,
        None => String::from_str(missing),
    }
}

/// Reads one text frame from the engine.
pub fn classify_engine_text(text: String) -> (r: EngineMessage)
    ensures
        engine_message_is(text@, r),
        json_str_member(text@, "type"@) is Some ==> json_has_member(text@, "type"@),
{
    let is_ack = match get_str_member(text.as_str(), "type") {
        Some(t) => str_eq(t.as_str(), "connection.ack"),
        None => false,
    };
    if is_ack {
        return EngineMessage::Ack(get_u64_member(text.as_str(), "sequence_number"));
    }
    match WirePackage::from_json(text.clone()) {
        Ok(p) => EngineMessage::Package(p),
        Err(e) => EngineMessage::Invalid(not_a_package(text.as_str(), e)),
    }
}

/// Whether the engine's first reply completes the handshake.
pub fn is_auth_ack(pkg: &WirePackage) -> (r: bool)
    ensures
        r == (crate::wire::str_member_or_empty(pkg@, "type"@) == "connection.auth_ack"@),
{
    str_eq(pkg.package_type().as_str(), "connection.auth_ack")
}

/// What the connection does with a text frame from the engine.
pub enum EngineReaction {
    /// Hand the package to the router.
    Deliver(WirePackage),
    /// An acknowledgement; the log has dropped what it covers.
    Acknowledged,
    /// The frame is not a package: the connection ends with this error.
    Stop(String),
}

/// The log after the engine's frame `text` was read.
pub open spec fn wal_after_frame(w: WalView, text: Seq<char>) -> WalView {
    if json_str_member(text, "type"@) == Some("connection.ack"@) {
        match json_u64_member(text, "sequence_number"@) {
            Some(n) => WalView { entries: after_ack(w.entries, WalDirection::Outbound, n), ..w },
            None => w,
        }
    } else {
        w
    }
}

/// Reads one text frame from the engine: an acknowledgement drops the
/// outbound entries it covers from the log, a package goes to the router,
/// anything else ends the connection.
pub fn react_to_engine_text(wal: &mut Wal, text: String) -> (r: EngineReaction)
    ensures
        final(wal)@ == wal_after_frame(old(wal)@, text@),
        json_str_member(text@, "type"@) == Some("connection.ack"@) ==> r is Acknowledged,
        json_str_member(text@, "type"@) != Some("connection.ack"@) && json_has_member(text@, "type"@) ==> (r matches EngineReaction::Deliver(p) && p@ == text@),
        !json_has_member(text@, "type"@) ==> (r matches EngineReaction::Stop(e) && e@ == frame_error(text@)),
{
    match classify_engine_text(text) {
        EngineMessage::Ack(Some(n)) => {
            wal.ack(WalDirection::Outbound, n);
            EngineReaction::Acknowledged
        },
        EngineMessage::Ack(None) => EngineReaction::Acknowledged,
        EngineMessage::Package(p) => EngineReaction::Deliver(p),
        EngineMessage::Invalid(e) => EngineReaction::Stop(e),
    }
}

/// The packages to send again after a reconnect: the data of every
/// outbound entry still waiting for an acknowledgement, oldest first.
pub fn replay_texts(wal: &Wal) -> (r: Vec<String>)
    ensures
        r.deep_view() == in_direction(wal@.entries, WalDirection::Outbound).map_values(|e: WalEntryView| e.data),
{
    let entries = wal.unacked_entries(WalDirection::Outbound);
    let ghost es = in_direction(wal@.entries, WalDirection::Outbound);
    let mut out: Vec<String> = Vec::new();
    let mut i: usize = 0;
    while i < entries.len()
        invariant
            i <= entries@.len(),
            entry_views(entries@) == es,
            out@.len() == i,
            forall|j: int| 0 <= j < i ==> (#[trigger] out@[j])@ == es[j].data,
        decreases entries@.len() - i,
    {
        out.push(String::from_str(entries[i].data()));
        i += 1;
    }
    assert(out.deep_view() =~= es.map_values(|e: WalEntryView| e.data));
    out
}

/// Checks the engine's answer to the auth package.
pub fn check_auth_reply(text: String) -> (r: Result<WirePackage, String>)
    ensures
        match r {
            Ok(p) => p@ == text@ && str_member_or_empty(text@, "type"@) == "connection.auth_ack"@,
            Err(m) => if json_has_member(text@, "type"@) {
                str_member_or_empty(text@, "type"@) != "connection.auth_ack"@ && m@ == "Expected auth_ack, got "@
                    + str_member_or_empty(text@, "type"@)
            } else {
                m@ == frame_error(text@)
            },
        },
        r is Ok <==> json_has_member(text@, "type"@) && str_member_or_empty(text@, "type"@) == "connection.auth_ack"@,
{
    match WirePackage::from_json(text.clone()) {
        Ok(p) => {
            if is_auth_ack(&p) {
                Ok(p)
            } else {
                Err(String::from_str("Expected auth_ack, got ").concat(p.package_type().as_str()))
            }
        },
        Err(e) => Err(not_a_package(text.as_str(), e)),
    }
}

/// The frames that open a session once the engine answered the auth
/// package with `reply`: the register package, then every outbound entry
/// still waiting for an acknowledgement, oldest first. An answer other than
/// the auth acknowledgement ends the session with the error
/// `check_auth_reply` gives.
pub fn session_opening(reply: String, wal: &Wal) -> (r: Result<Vec<String>, String>)
    ensures
        r is Ok <==> json_has_member(reply@, "type"@) && str_member_or_empty(reply@, "type"@) == "connection.auth_ack"@,
        r matches Ok(frames) ==> frames.deep_view() == seq![
            crate::wire::package_text("connection.register"@, "name"@, "router"@, "role"@, "container_router"@),
        ] + in_direction(wal@.entries, WalDirection::Outbound).map_values(|e: WalEntryView| e.data),
        r matches Err(m) ==> m@ == if json_has_member(reply@, "type"@) {
            "Expected auth_ack, got "@ + str_member_or_empty(reply@, "type"@)
        } else {
            frame_error(reply@)
        },
{
    match check_auth_reply(reply) {
        Ok(_) => {
            let mut frames: Vec<String> = Vec::new();
            frames.push(WirePackage::register("router", "container_router").to_string());
            let mut replay = replay_texts(wal);
            let ghost head = frames.deep_view();
            let ghost rest = replay.deep_view();
            frames.append(&mut replay);
            assert(frames.deep_view() =~= head + rest);
            Ok(frames)
        },
        Err(m) => Err(m),
    }
}

/// The engine connection of a router.
pub struct WsClient {
    config: Arc<RouterConfig>,
}

impl WsClient {
    pub fn new(config: Arc<RouterConfig>) -> (r: WsClient)
        ensures
            *r.config() == *config,
    {
        WsClient { config }
    }

    pub closed spec fn config(&self) -> &RouterConfig {
        &*self.config
    }

    pub fn router_config(&self) -> (r: &RouterConfig)
        ensures
            *r == *self.config(),
    {
        &*self.config
    }
}

} // verus!
