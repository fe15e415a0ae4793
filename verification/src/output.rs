//! What an agent reports while it works, and the engine package each
//! report becomes: an object with the report's `type`, the instance it
//! came from, and the report's fields.
use vstd::prelude::*;
use crate::json::{
    json_is_object, json_is_value, json_str_member, json_with_member,
    json_with_bool_member, json_with_null_member, json_with_i64_member, json_array_text, json_empty_object,
    with_member, with_bool_member, with_null_member, with_i64_member, array_of, json_depth, json_parse_error,
    lemma_max_depth_bound,
};
use crate::wire::{set_str, with_str};

verus! {

/// A chat message, whole or as a delta.
#[derive(Debug, Clone)]
pub struct MessageOutput {
    pub id: String,
    pub role: String,
    pub content: String,
    pub is_delta: bool,
    pub model: Option<String>,
    pub input_tokens: Option<i64>,
    pub output_tokens: Option<i64>,
    pub sender_name: Option<String>,
}

/// A step of the agent's work (a tool call, a thought).
#[derive(Debug, Clone)]
pub struct ActivityOutput {
    pub id: String,
    pub event_type: String,
    pub content: String,
    pub is_delta: bool,
    pub data: Option<String>,
}

/// A log line.
#[derive(Debug, Clone)]
pub struct LogOutput {
    pub level: String,
    pub message: String,
}

/// Token usage of a model call. `cost_usd` is the cost in US dollars as
/// the JSON number the agent reported.
#[derive(Debug, Clone)]
pub struct UsageOutput {
    pub model: String,
    pub input_tokens: i64,
    pub output_tokens: i64,
    pub cost_usd: String,
}

/// One file the agent touched and what it did to it.
#[derive(Debug, Clone)]
pub struct FileChange {
    pub path: String,
    pub action: String,
}

#[derive(Debug, Clone)]
pub struct FilesOutput {
    pub files: Vec<FileChange>,
}

/// The agent took a prompt in.
#[derive(Debug, Clone)]
pub struct PromptReceivedOutput {
    pub content: String,
    pub sender_name: Option<String>,
}

#[derive(Debug, Clone)]
pub enum Output {
    Message(MessageOutput),
    Activity(ActivityOutput),
    Log(LogOutput),
    Usage(UsageOutput),
    Files(FilesOutput),
    PromptReceived(PromptReceivedOutput),
}

/// A report of instance `instance_id`; a report without a body is unknown.
#[derive(Debug, Clone)]
pub struct OutputEvent {
    pub instance_id: String,
    pub output: Option<Output>,
}

// ── The package of a report ─────────────────────────────────────────────

pub open spec fn put_bool(t: Seq<char>, k: Seq<char>, b: bool) -> Seq<char> {
    json_with_bool_member(t, k, b).unwrap()
}

pub open spec fn put_null(t: Seq<char>, k: Seq<char>) -> Seq<char> {
    json_with_null_member(t, k).unwrap()
}

pub open spec fn put_opt_str(t: Seq<char>, k: Seq<char>, o: Option<String>) -> Seq<char> {
    match o {
        Some(s) => with_str(t, k, s@),
        None => put_null(t, k),
    }
}

pub open spec fn put_i64(t: Seq<char>, k: Seq<char>, n: i64) -> Seq<char> {
    json_with_i64_member(t, k, n).unwrap()
}

pub open spec fn put_opt_i64(t: Seq<char>, k: Seq<char>, o: Option<i64>) -> Seq<char> {
    match o {
        Some(n) => put_i64(t, k, n),
        None => put_null(t, k),
    }
}

/// Member `k` set to the JSON value `raw`, or to null when `raw` is not JSON
/// or the result would nest deeper than serde_json reads back.
pub open spec fn put_raw(t: Seq<char>, k: Seq<char>, raw: Seq<char>) -> Seq<char> {
    match json_with_member(t, k, raw) {
        Some(u) => if json_is_value(u) {
            u
        } else {
            put_null(t, k)
        },
        None => put_null(t, k),
    }
}

/// The members every report starts with.
pub open spec fn report_head(kind: Seq<char>, instance_id: Seq<char>) -> Seq<char> {
    with_str(with_str("{}"@, "type"@, kind), "instance_id"@, instance_id)
}

pub open spec fn message_text(iid: Seq<char>, m: MessageOutput) -> Seq<char> {
    let t = report_head("agent.output.message"@, iid);
    let t = with_str(t, "id"@, m.id@);
    let t = with_str(t, "role"@, m.role@);
    let t = with_str(t, "content"@, m.content@);
    let t = put_bool(t, "is_delta"@, m.is_delta);
    let t = put_opt_str(t, "model"@, m.model);
    let t = put_opt_i64(t, "input_tokens"@, m.input_tokens);
    let t = put_opt_i64(t, "output_tokens"@, m.output_tokens);
    put_opt_str(t, "sender_name"@, m.sender_name)
}

pub open spec fn activity_text(iid: Seq<char>, a: ActivityOutput) -> Seq<char> {
    let t = report_head("agent.output.activity"@, iid);
    let t = with_str(t, "id"@, a.id@);
    let t = with_str(t, "event_type"@, a.event_type@);
    let t = with_str(t, "content"@, a.content@);
    let t = put_bool(t, "is_delta"@, a.is_delta);
    put_opt_str(t, "data"@, a.data)
}

pub open spec fn log_text(iid: Seq<char>, l: LogOutput) -> Seq<char> {
    with_str(with_str(report_head("agent.output.log"@, iid), "level"@, l.level@), "message"@, l.message@)
}

pub open spec fn usage_text(iid: Seq<char>, u: UsageOutput) -> Seq<char> {
    let t = report_head("agent.output.usage"@, iid);
    let t = with_str(t, "model"@, u.model@);
    let t = put_i64(t, "input_tokens"@, u.input_tokens);
    let t = put_i64(t, "output_tokens"@, u.output_tokens);
    put_raw(t, "cost_usd"@, u.cost_usd@)
}

pub open spec fn file_change_text(f: FileChange) -> Seq<char> {
    with_str(with_str("{}"@, "path"@, f.path@), "action"@, f.action@)
}

pub open spec fn files_text(iid: Seq<char>, f: FilesOutput) -> Seq<char> {
    json_with_member(
        report_head("agent.output.files"@, iid),
        "files"@,
        json_array_text(f.files@.map_values(|c: FileChange| file_change_text(c))).unwrap(),
    ).unwrap()
}

pub open spec fn prompt_received_text(iid: Seq<char>, p: PromptReceivedOutput) -> Seq<char> {
    put_opt_str(with_str(report_head("agent.output.prompt_received"@, iid), "content"@, p.content@), "sender_name"@, p.sender_name)
}

/// The `type` of the package of a report.
pub open spec fn report_type(o: Option<Output>) -> Seq<char> {
    match o {
        Some(Output::Message(_)) => "agent.output.message"@,
        Some(Output::Activity(_)) => "agent.output.activity"@,
        Some(Output::Log(_)) => "agent.output.log"@,
        Some(Output::Usage(_)) => "agent.output.usage"@,
        Some(Output::Files(_)) => "agent.output.files"@,
        Some(Output::PromptReceived(_)) => "agent.output.prompt_received"@,
        None => "unknown"@,
    }
}

/// The package of a report.
pub open spec fn report_text(ev: OutputEvent) -> Seq<char> {
    let iid = ev.instance_id@;
    match ev.output {
        Some(Output::Message(m)) => message_text(iid, m),
        Some(Output::Activity(a)) => activity_text(iid, a),
        Some(Output::Log(l)) => log_text(iid, l),
        Some(Output::Usage(u)) => usage_text(iid, u),
        Some(Output::Files(f)) => files_text(iid, f),
        Some(Output::PromptReceived(p)) => prompt_received_text(iid, p),
        None => report_head("unknown"@, iid),
    }
}

/// The members that follow the head are neither `type` nor `instance_id`.
proof fn lemma_report_keys()
    ensures
        "type"@ != "instance_id"@,
        "id"@ != "type"@,
        "id"@ != "instance_id"@,
        "role"@ != "type"@,
        "role"@ != "instance_id"@,
        "content"@ != "type"@,
        "content"@ != "instance_id"@,
        "is_delta"@ != "type"@,
        "is_delta"@ != "instance_id"@,
        "model"@ != "type"@,
        "model"@ != "instance_id"@,
        "input_tokens"@ != "type"@,
        "input_tokens"@ != "instance_id"@,
        "output_tokens"@ != "type"@,
        "output_tokens"@ != "instance_id"@,
        "sender_name"@ != "type"@,
        "sender_name"@ != "instance_id"@,
        "event_type"@ != "type"@,
        "event_type"@ != "instance_id"@,
        "data"@ != "type"@,
        "data"@ != "instance_id"@,
        "level"@ != "type"@,
        "level"@ != "instance_id"@,
        "message"@ != "type"@,
        "message"@ != "instance_id"@,
        "cost_usd"@ != "type"@,
        "cost_usd"@ != "instance_id"@,
        "files"@ != "type"@,
        "files"@ != "instance_id"@,
{
    reveal_strlit("type");
    reveal_strlit("instance_id");
    reveal_strlit("id");
    reveal_strlit("role");
    reveal_strlit("content");
    reveal_strlit("is_delta");
    reveal_strlit("model");
    reveal_strlit("input_tokens");
    reveal_strlit("output_tokens");
    reveal_strlit("sender_name");
    reveal_strlit("event_type");
    reveal_strlit("data");
    reveal_strlit("level");
    reveal_strlit("message");
    reveal_strlit("cost_usd");
    reveal_strlit("files");
    assert("type"@.len() == 4);
    assert("instance_id"@.len() == 11);
    assert("id"@.len() == 2);
    assert("is_delta"@.len() == 8);
    assert("input_tokens"@.len() == 12);
    assert("role"@[0] != "type"@[0]);
    assert("data"@[0] != "type"@[0]);
    assert("sender_name"@[0] != "instance_id"@[0]);
}

/// What a step of building keeps: an object whose `type` and
/// `instance_id` members read as given.
pub open spec fn keeps_head(t: Seq<char>, kind: Seq<char>, iid: Seq<char>) -> bool {
    &&& json_is_object(t)
    &&& json_is_value(t)
    &&& json_str_member(t, "type"@) == Some(kind)
    &&& json_str_member(t, "instance_id"@) == Some(iid)
}

fn head(kind: &str, instance_id: &str) -> (r: String)
    ensures
        r@ == report_head(kind@, instance_id@),
        keeps_head(r@, kind@, instance_id@),
        json_depth(r@) <= 1,
{
    proof { lemma_report_keys(); }
    let t = set_str(json_empty_object(), "type", kind);
    set_str(t, "instance_id", instance_id)
}

fn add_str(t: String, key: &str, value: &str, Ghost(kind): Ghost<Seq<char>>, Ghost(iid): Ghost<Seq<char>>) -> (r: String)
    requires
        keeps_head(t@, kind, iid),
        key@ != "type"@,
        key@ != "instance_id"@,
    ensures
        r@ == with_str(t@, key@, value@),
        keeps_head(r@, kind, iid),
{
    set_str(t, key, value)
}

fn add_bool(t: String, key: &str, b: bool, Ghost(kind): Ghost<Seq<char>>, Ghost(iid): Ghost<Seq<char>>) -> (r: String)
    requires
        keeps_head(t@, kind, iid),
        key@ != "type"@,
        key@ != "instance_id"@,
    ensures
        r@ == put_bool(t@, key@, b),
        keeps_head(r@, kind, iid),
{
    with_bool_member(t.as_str(), key, b).unwrap()
}

fn add_null(t: String, key: &str, Ghost(kind): Ghost<Seq<char>>, Ghost(iid): Ghost<Seq<char>>) -> (r: String)
    requires
        keeps_head(t@, kind, iid),
        key@ != "type"@,
        key@ != "instance_id"@,
    ensures
        r@ == put_null(t@, key@),
        keeps_head(r@, kind, iid),
{
    with_null_member(t.as_str(), key).unwrap()
}

fn add_opt_str(t: String, key: &str, o: &Option<String>, Ghost(kind): Ghost<Seq<char>>, Ghost(iid): Ghost<Seq<char>>) -> (r: String)
    requires
        keeps_head(t@, kind, iid),
        key@ != "type"@,
        key@ != "instance_id"@,
    ensures
        r@ == put_opt_str(t@, key@, *o),
        keeps_head(r@, kind, iid),
{
    match o {
        Some(s) => add_str(t, key, s.as_str(), Ghost(kind), Ghost(iid)),
        None => add_null(t, key, Ghost(kind), Ghost(iid)),
    }
}

fn add_i64(t: String, key: &str, n: i64, Ghost(kind): Ghost<Seq<char>>, Ghost(iid): Ghost<Seq<char>>) -> (r: String)
    requires
        keeps_head(t@, kind, iid),
        key@ != "type"@,
        key@ != "instance_id"@,
    ensures
        r@ == put_i64(t@, key@, n),
        keeps_head(r@, kind, iid),
{
    with_i64_member(t.as_str(), key, n).unwrap()
}

fn add_opt_i64(t: String, key: &str, o: Option<i64>, Ghost(kind): Ghost<Seq<char>>, Ghost(iid): Ghost<Seq<char>>) -> (r: String)
    requires
        keeps_head(t@, kind, iid),
        key@ != "type"@,
        key@ != "instance_id"@,
    ensures
        r@ == put_opt_i64(t@, key@, o),
        keeps_head(r@, kind, iid),
{
    match o {
        Some(n) => add_i64(t, key, n, Ghost(kind), Ghost(iid)),
        None => add_null(t, key, Ghost(kind), Ghost(iid)),
    }
}

fn add_raw(t: String, key: &str, raw: &str, Ghost(kind): Ghost<Seq<char>>, Ghost(iid): Ghost<Seq<char>>) -> (r: String)
    requires
        keeps_head(t@, kind, iid),
        key@ != "type"@,
        key@ != "instance_id"@,
    ensures
        r@ == put_raw(t@, key@, raw@),
        keeps_head(r@, kind, iid),
{
    match with_member(t.as_str(), key, raw) {
        Some(u) => if json_parse_error(u.as_str()).is_none() {
            u
        } else {
            add_null(t, key, Ghost(kind), Ghost(iid))
        },
        None => add_null(t, key, Ghost(kind), Ghost(iid)),
    }
}

fn file_changes_array(files: &Vec<FileChange>) -> (r: String)
    ensures
        json_array_text(files@.map_values(|c: FileChange| file_change_text(c))) == Some(r@),
        json_is_value(r@),
        json_depth(r@) <= 2,
{
    let mut items: Vec<String> = Vec::new();
    let mut i: usize = 0;
    while i < files.len()
        invariant
            i <= files@.len(),
            items@.len() == i,
            forall|j: int| 0 <= j < i ==> (#[trigger] items@[j])@ == file_change_text(files@[j]) && json_is_value(
                items@[j]@,
            ) && json_depth(items@[j]@) <= 1,
        decreases files@.len() - i,
    {
        let t = set_str(json_empty_object(), "path", files[i].path.as_str());
        let t = set_str(t, "action", files[i].action.as_str());
        items.push(t);
        i += 1;
    }
    assert(items.deep_view() =~= files@.map_values(|c: FileChange| file_change_text(c)));
    proof {
        assert forall|j: int| 0 <= j < items.deep_view().len() implies json_depth(#[trigger] items.deep_view()[j])
            <= 1 by {
            assert(items.deep_view()[j] == items@[j]@);
        }
        lemma_max_depth_bound(items.deep_view(), 1);
    }
    array_of(&items).unwrap()
}

/// The package the engine receives for a report.
pub fn output_event_to_json(output: &OutputEvent) -> (r: String)
    ensures
        r@ == report_text(*output),
        keeps_head(r@, report_type(output.output), output.instance_id@),
{
    proof { lemma_report_keys(); }
    let iid = output.instance_id.as_str();
    let ghost gi = iid@;
    match &output.output {
        Some(Output::Message(m)) => {
            let ghost k = "agent.output.message"@;
            let t = head("agent.output.message", iid);
            let t = add_str(t, "id", m.id.as_str(), Ghost(k), Ghost(gi));
            let t = add_str(t, "role", m.role.as_str(), Ghost(k), Ghost(gi));
            let t = add_str(t, "content", m.content.as_str(), Ghost(k), Ghost(gi));
            let t = add_bool(t, "is_delta", m.is_delta, Ghost(k), Ghost(gi));
            let t = add_opt_str(t, "model", &m.model, Ghost(k), Ghost(gi));
            let t = add_opt_i64(t, "input_tokens", m.input_tokens, Ghost(k), Ghost(gi));
            let t = add_opt_i64(t, "output_tokens", m.output_tokens, Ghost(k), Ghost(gi));
            add_opt_str(t, "sender_name", &m.sender_name, Ghost(k), Ghost(gi))
        },
        Some(Output::Activity(a)) => {
            let ghost k = "agent.output.activity"@;
            let t = head("agent.output.activity", iid);
            let t = add_str(t, "id", a.id.as_str(), Ghost(k), Ghost(gi));
            let t = add_str(t, "event_type", a.event_type.as_str(), Ghost(k), Ghost(gi));
            let t = add_str(t, "content", a.content.as_str(), Ghost(k), Ghost(gi));
            let t = add_bool(t, "is_delta", a.is_delta, Ghost(k), Ghost(gi));
            add_opt_str(t, "data", &a.data, Ghost(k), Ghost(gi))
        },
        Some(Output::Log(l)) => {
            let ghost k = "agent.output.log"@;
            let t = head("agent.output.log", iid);
            let t = add_str(t, "level", l.level.as_str(), Ghost(k), Ghost(gi));
            add_str(t, "message", l.message.as_str(), Ghost(k), Ghost(gi))
        },
        Some(Output::Usage(u)) => {
            let ghost k = "agent.output.usage"@;
            let t = head("agent.output.usage", iid);
            let t = add_str(t, "model", u.model.as_str(), Ghost(k), Ghost(gi));
            let t = add_i64(t, "input_tokens", u.input_tokens, Ghost(k), Ghost(gi));
            let t = add_i64(t, "output_tokens", u.output_tokens, Ghost(k), Ghost(gi));
            add_raw(t, "cost_usd", u.cost_usd.as_str(), Ghost(k), Ghost(gi))
        },
        Some(Output::Files(f)) => {
            let t = head("agent.output.files", iid);
            let arr = file_changes_array(&f.files);
            with_member(t.as_str(), "files", arr.as_str()).unwrap()
        },
        Some(Output::PromptReceived(p)) => {
            let ghost k = "agent.output.prompt_received"@;
            let t = head("agent.output.prompt_received", iid);
            let t = add_str(t, "content", p.content.as_str(), Ghost(k), Ghost(gi));
            add_opt_str(t, "sender_name", &p.sender_name, Ghost(k), Ghost(gi))
        },
        None => head("unknown", iid),
    }
}

} // verus!
