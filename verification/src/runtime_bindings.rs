//! Runtime bindings: which model a binding may hand to its harness, the
//! configuration an agent's binding starts from, and how a captured
//! terminal session is matched back to the binding that spawned it.
use vstd::prelude::*;
use vstd::utf8::encode_utf8;
use crate::harness::has_ctrl;
use crate::redaction::AppError;
use crate::telemetry::{
    find_member, has_member, lemma_member_index_some, member, member_index, string_member,
    string_member_exec, JsonValue,
};
use crate::ordering::{sort_texts, sorted_version, texts};
use crate::text::{any_ctrl, bytes_of, chars_eq, chars_of, join, lemma_join_push, owned, trim, trim_str};

verus! {

pub open spec fn deref_config(config: Option<&JsonValue>) -> Option<JsonValue> {
    match config {
        Some(v) => Some(*v),
        None => None,
    }
}

/// The `model` member of a binding configuration, as `config.get("model")` reads it.
pub open spec fn model_member(config: Option<JsonValue>) -> Option<JsonValue> {
    match config {
        Some(JsonValue::Object(fields)) => member(fields@, "model"@),
        _ => None,
    }
}

/// Why the model of a binding configuration is refused, if it is. A blank
/// model means "the harness default" and is accepted.
pub open spec fn model_error(config: Option<JsonValue>) -> Option<Seq<char>> {
    match model_member(config) {
        None => None,
        Some(JsonValue::Str(s)) => {
            let m = trim(s@);
            if m.len() == 0 {
                None
            } else if encode_utf8(m).len() > 256 {
                Some("config_json.model must be 256 bytes or fewer"@)
            } else if m[0] == '-' || has_ctrl(m) {
                Some("config_json.model contains unsafe characters"@)
            } else {
                None
            }
        },
        Some(_) => Some("config_json.model must be a string"@),
    }
}

/// Refuses a model that could be read as a command-line option or break a
/// command line.
pub fn validate_runtime_binding_config(config_json: Option<&JsonValue>) -> (r: Result<(), AppError>)
    ensures
        match model_error(deref_config(config_json)) {
            None => r is Ok,
            Some(m) => r matches Err(e) && e matches AppError::Validation(x) && x@ == m,
        },
{
    let fields = match config_json {
        Some(JsonValue::Object(fields)) => fields,
        _ => return Ok(()),
    };
    let i = match find_member(fields, "model") {
        Some(i) => i,
        None => return Ok(()),
    };
    let s = match &fields[i].1 {
        JsonValue::Str(s) => s,
        _ => return Err(AppError::Validation(owned("config_json.model must be a string"))),
    };
    let m = trim_str(s.as_str());
    let v = chars_of(m);
    if v.len() == 0 {
        return Ok(());
    }
    let b = bytes_of(m);
    if b.len() > 256 {
        return Err(AppError::Validation(owned("config_json.model must be 256 bytes or fewer")));
    }
    if v[0] == '-' || any_ctrl(v.as_slice()) {
        return Err(AppError::Validation(owned("config_json.model contains unsafe characters")));
    }
    Ok(())
}

/// The members of a configuration; anything but an object counts as `{}`.
pub open spec fn config_members(config: Option<JsonValue>) -> Seq<(String, JsonValue)> {
    match config {
        Some(JsonValue::Object(f)) => f@,
        _ => Seq::empty(),
    }
}

/// The aliases an agent answers to: `mention_aliases` when it is an array.
pub open spec fn alias_items(fields: Seq<(String, JsonValue)>) -> Seq<JsonValue> {
    match member(fields, "mention_aliases"@) {
        Some(JsonValue::Array(a)) => a@,
        _ => Seq::empty(),
    }
}

/// `v` is the JSON string `s`.
pub open spec fn is_string(v: JsonValue, s: Seq<char>) -> bool {
    match v {
        JsonValue::Str(x) => x@ == s,
        _ => false,
    }
}

/// One of the aliases is the string `name`.
pub open spec fn names_alias(items: Seq<JsonValue>, name: Seq<char>) -> bool {
    exists|i: int| 0 <= i < items.len() && is_string(#[trigger] items[i], name)
}

/// `value` is the alias list `items` with `name` appended.
pub open spec fn aliases_with(items: Seq<JsonValue>, name: Seq<char>, value: JsonValue) -> bool {
    match value {
        JsonValue::Array(arr) => arr@.len() == items.len() + 1 && arr@.take(items.len() as int)
            == items && is_string(arr@[items.len() as int], name),
        _ => false,
    }
}

/// `out` holds the members of the configuration that a binding of the agent
/// named `name` starts from, given the configuration the request carried:
/// the agent's name is added to `mention_aliases` unless it is there, and
/// `agent_name` is set unless present; every other member is kept in place.
pub open spec fn agent_config(
    name: Seq<char>,
    input: Option<JsonValue>,
    out: Seq<(String, JsonValue)>,
) -> bool {
    let f = config_members(input);
    let items = alias_items(f);
    let n1: int = if has_member(f, "mention_aliases"@) {
        f.len() as int
    } else {
        f.len() + 1int
    };
    &&& n1 <= out.len()
    &&& match member_index(f, "mention_aliases"@) {
        Some(i) => (forall|j: int| 0 <= j < f.len() && j != i ==> out[j] == f[j]) && out[i].0
            == f[i].0 && if names_alias(items, name) {
            out[i].1 == f[i].1
        } else {
            aliases_with(items, name, out[i].1)
        },
        None => out.take(f.len() as int) == f && out[f.len() as int].0@ == "mention_aliases"@
            && aliases_with(items, name, out[f.len() as int].1),
    }
    &&& if has_member(f, "agent_name"@) {
        out.len() == n1
    } else {
        out.len() == n1 + 1 && out[n1].0@ == "agent_name"@ && is_string(out[n1].1, name)
    }
}

fn array_names(value: &JsonValue, name: &str) -> (r: bool)
    ensures
        r == match *value {
            JsonValue::Array(a) => names_alias(a@, name@),
            _ => false,
        },
{
    match value {
        JsonValue::Array(a) => {
            let n = chars_of(name);
            let mut i: usize = 0;
            while i < a.len()
                invariant
                    i <= a@.len(),
                    n@ == name@,
                    *value == JsonValue::Array(*a),
                    forall|j: int| 0 <= j < i ==> !is_string(#[trigger] a@[j], name@),
                decreases a.len() - i,
            {
                match &a[i] {
                    JsonValue::Str(s) => {
                        let c = chars_of(s.as_str());
                        if chars_eq(c.as_slice(), n.as_slice()) {
                            assert(is_string(a@[i as int], name@));
                            assert(names_alias(a@, name@));
                            return true;
                        }
                    },
                    _ => {},
                }
                i = i + 1;
            }
            false
        },
        _ => false,
    }
}

/// The configuration a new binding of the agent named `agent_name` starts
/// from: the request's configuration, with the agent answering to its own
/// name and knowing it.
pub fn runtime_binding_config_for_agent(agent_name: &str, config_json: Option<JsonValue>) -> (r:
    JsonValue)
    ensures
        r matches JsonValue::Object(out) && agent_config(agent_name@, config_json, out@),
{
    let ghost input = config_json;
    let mut fields: Vec<(String, JsonValue)> = match config_json {
        Some(JsonValue::Object(f)) => f,
        _ => Vec::new(),
    };
    let ghost f = fields@;
    assert(f == config_members(input));
    let ghost items = alias_items(f);
    proof {
        lemma_member_index_some(f, "mention_aliases"@);
        lemma_member_index_some(f, "agent_name"@);
        reveal_strlit("mention_aliases");
        reveal_strlit("agent_name");
    }
    match find_member(&fields, "mention_aliases") {
        Some(i) => {
            let named = array_names(&fields[i].1, agent_name);
            if !named {
                let (key, value) = fields.remove(i);
                let mut arr = match value {
                    JsonValue::Array(a) => a,
                    _ => Vec::new(),
                };
                let ghost items = arr@;
                arr.push(JsonValue::Str(owned(agent_name)));
                assert(arr@.take(items.len() as int) =~= items);
                fields.insert(i, (key, JsonValue::Array(arr)));
            }
            assert(fields@.len() == f.len());
            assert forall|j: int| 0 <= j < f.len() && j != i implies fields@[j] == f[j] by {}
            assert forall|j: int| 0 <= j < f.len() implies (#[trigger] fields@[j]).0 == f[j].0 by {}
        },
        None => {
            let mut arr: Vec<JsonValue> = Vec::new();
            arr.push(JsonValue::Str(owned(agent_name)));
            assert(arr@.take(0) =~= Seq::<JsonValue>::empty());
            fields.push((owned("mention_aliases"), JsonValue::Array(arr)));
            assert(fields@.take(f.len() as int) =~= f);
            assert forall|j: int| 0 <= j < f.len() implies (#[trigger] fields@[j]).0 == f[j].0 by {
                assert(fields@.take(f.len() as int)[j] == fields@[j]);
            }
        },
    }
    let ghost f1 = fields@;
    assert(forall|j: int| 0 <= j < f.len() ==> (#[trigger] f1[j]).0 == f[j].0);
    assert(f1.len() == f.len() || (f1.len() == f.len() + 1 && f1[f.len() as int].0@
        == "mention_aliases"@));
    assert(has_member(f1, "agent_name"@) == has_member(f, "agent_name"@)) by {
        if has_member(f, "agent_name"@) {
            let j = choose|j: int| 0 <= j < f.len() && (#[trigger] f[j]).0@ == "agent_name"@;
            assert(f1[j].0@ == "agent_name"@);
        }
        if has_member(f1, "agent_name"@) {
            let j = choose|j: int| 0 <= j < f1.len() && (#[trigger] f1[j]).0@ == "agent_name"@;
            if j < f.len() {
                assert(f[j].0@ == "agent_name"@);
            }
        }
    }
    proof {
        lemma_member_index_some(f1, "agent_name"@);
    }
    match find_member(&fields, "agent_name") {
        Some(_) => {},
        None => {
            fields.push((owned("agent_name"), JsonValue::Str(owned(agent_name))));
        },
    }
    let ghost out = fields@;
    assert(out.len() >= f1.len());
    assert(forall|j: int| 0 <= j < f1.len() ==> out[j] == f1[j]);
    let ghost n1: int = if has_member(f, "mention_aliases"@) { f.len() as int } else { f.len() + 1int };
    assert(n1 <= out.len());
    assert(match member_index(f, "mention_aliases"@) {
        Some(i) => (forall|j: int| 0 <= j < f.len() && j != i ==> out[j] == f[j]) && out[i].0
            == f[i].0 && if names_alias(items, agent_name@) {
            out[i].1 == f[i].1
        } else {
            aliases_with(items, agent_name@, out[i].1)
        },
        None => out.take(f.len() as int) == f && out[f.len() as int].0@ == "mention_aliases"@
            && aliases_with(items, agent_name@, out[f.len() as int].1),
    });
    assert(if has_member(f, "agent_name"@) {
        out.len() == n1
    } else {
        out.len() == n1 + 1 && out[n1].0@ == "agent_name"@ && is_string(out[n1].1, agent_name@)
    });
    assert(agent_config(agent_name@, input, out));
    JsonValue::Object(fields)
}

/// Where the alias list sits in a configuration built for an agent.
proof fn lemma_agent_config_shape(name: Seq<char>, input: Option<JsonValue>, out: Seq<(String, JsonValue)>) -> (k: int)
    requires
        agent_config(name, input, out),
    ensures
        member_index(out, "mention_aliases"@) == Some(k),
        names_alias(alias_items(out), name),
        has_member(out, "agent_name"@),
{
    let f = config_members(input);
    let items = alias_items(f);
    reveal_strlit("mention_aliases");
    reveal_strlit("agent_name");
    lemma_member_index_some(f, "mention_aliases"@);
    lemma_member_index_some(f, "agent_name"@);
    lemma_member_index_some(out, "mention_aliases"@);
    let k: int = match member_index(f, "mention_aliases"@) {
        Some(i) => i,
        None => f.len() as int,
    };
    match member_index(f, "mention_aliases"@) {
        Some(i) => {
            assert forall|j: int| 0 <= j < i implies (#[trigger] out[j]).0@ != "mention_aliases"@ by {
                assert(out[j] == f[j]);
            }
        },
        None => {
            assert forall|j: int| 0 <= j < f.len() implies (#[trigger] out[j]).0@
                != "mention_aliases"@ by {
                assert(out.take(f.len() as int)[j] == out[j]);
                if f[j].0@ == "mention_aliases"@ {
                    assert(has_member(f, "mention_aliases"@));
                }
            }
        },
    }
    assert(out[k].0@ == "mention_aliases"@);
    assert(has_member(out, "mention_aliases"@));
    let m = member_index(out, "mention_aliases"@).unwrap();
    assert(m == k) by {
        if m < k {
            assert(out[m].0@ != "mention_aliases"@);
        }
        if k < m {
            assert(out[k].0@ != "mention_aliases"@);
        }
    }
    let v = out[k].1;
    if names_alias(items, name) {
        match member_index(f, "mention_aliases"@) {
            Some(i) => {
                assert(alias_items(out) == items);
            },
            None => {
                let w = choose|w: int| 0 <= w < items.len() && is_string(#[trigger] items[w], name);
                assert(items.len() == 0);
            },
        }
    } else {
        match v {
            JsonValue::Array(arr) => {
                assert(alias_items(out) == arr@);
                assert(is_string(arr@[items.len() as int], name));
            },
            _ => {},
        }
    }
    if has_member(f, "agent_name"@) {
        let j = choose|j: int| 0 <= j < f.len() && (#[trigger] f[j]).0@ == "agent_name"@;
        match member_index(f, "mention_aliases"@) {
            Some(i) => {
                if j != i {
                    assert(out[j] == f[j]);
                }
                assert(out[j].0@ == "agent_name"@);
            },
            None => {
                assert(out.take(f.len() as int)[j] == out[j]);
                assert(out[j].0@ == "agent_name"@);
            },
        }
    } else {
        let n1: int = if has_member(f, "mention_aliases"@) { f.len() as int } else { f.len() + 1int };
        assert(out[n1].0@ == "agent_name"@);
    }
    k
}

/// Every configuration built for an agent lists the agent's own name among
/// its `mention_aliases` and carries an `agent_name`.
pub proof fn law_binding_config_names_its_agent(name: Seq<char>, input: Option<JsonValue>, out: Seq<(String, JsonValue)>)
    requires
        agent_config(name, input, out),
    ensures
        names_alias(alias_items(out), name),
        has_member(out, "agent_name"@),
{
    lemma_agent_config_shape(name, input, out);
}

/// Building the configuration again, for the same agent, from a
/// configuration already built for it gives back the same members in the
/// same order.
pub proof fn law_binding_config_is_idempotent(
    name: Seq<char>,
    input: Option<JsonValue>,
    first: Seq<(String, JsonValue)>,
    again: JsonValue,
    second: Seq<(String, JsonValue)>,
)
    requires
        agent_config(name, input, first),
        config_members(Some(again)) == first,
        agent_config(name, Some(again), second),
    ensures
        second == first,
{
    let k = lemma_agent_config_shape(name, input, first);
    lemma_member_index_some(first, "mention_aliases"@);
    assert(has_member(first, "mention_aliases"@));
    assert(second.len() == first.len());
    assert forall|j: int| 0 <= j < first.len() implies second[j] == first[j] by {
        if j == k {
            assert(second[j].0 == first[j].0);
            assert(second[j].1 == first[j].1);
        }
    }
    assert(second =~= first);
}

/// What the gateway reads of a runtime binding: who it belongs to, where
/// it runs, the terminal generation the runtime reports for it, and its
/// configuration.
#[derive(Debug)]
pub struct RuntimeBinding {
    pub id: String,
    pub conversation_id: String,
    pub agent_principal_id: String,
    pub driver_type: String,
    pub workspace_path: String,
    pub terminal_generation: u64,
    pub config_json: JsonValue,
}

/// The owner tuple a captured Codex terminal session reports.
#[derive(Debug)]
pub struct CodexCaptureMetadata {
    pub binding_id: String,
    pub conversation_id: String,
    pub agent_principal_id: String,
    pub driver_type: String,
    pub workspace_path: String,
    pub binding_generation: u64,
    pub workspace_id: String,
    pub company_id: String,
}

fn member_is(value: &JsonValue, key: &str, expected: &str) -> (r: bool)
    ensures
        r == (string_member(*value, key@) == Some(expected@)),
{
    match string_member_exec(value, key) {
        Some(s) => {
            let a = chars_of(s.as_str());
            let b = chars_of(expected);
            chars_eq(a.as_slice(), b.as_slice())
        },
        None => false,
    }
}

fn same_text(a: &str, b: &str) -> (r: bool)
    ensures
        r == (a@ == b@),
{
    let x = chars_of(a);
    let y = chars_of(b);
    chars_eq(x.as_slice(), y.as_slice())
}

/// The binding's configuration records a process-captured session of this
/// binding, its driver and the expected mode.
pub open spec fn provenance_matches(binding: RuntimeBinding, binding_id: Seq<char>, mode: Seq<char>) -> bool {
    let c = binding.config_json;
    &&& string_member(c, "external_session_provenance"@) == Some("process_captured"@)
    &&& string_member(c, "external_session_binding_id"@) == Some(binding_id)
    &&& string_member(c, "external_session_driver_type"@) == Some(binding.driver_type@)
    &&& string_member(c, "external_session_mode"@) == Some(mode)
}

/// Whether the session recorded on `binding` was captured from its own
/// process, for `binding_id`, in `expected_mode`.
pub fn codex_session_provenance_matches(binding: &RuntimeBinding, binding_id: &str, expected_mode: &str) -> (r: bool)
    ensures
        r == provenance_matches(*binding, binding_id@, expected_mode@),
{
    member_is(&binding.config_json, "external_session_provenance", "process_captured")
        && member_is(&binding.config_json, "external_session_binding_id", binding_id)
        && member_is(&binding.config_json, "external_session_driver_type", binding.driver_type.as_str())
        && member_is(&binding.config_json, "external_session_mode", expected_mode)
}

/// A capture describes `binding`: the whole owner tuple agrees, including
/// the workspace and company recorded in the binding's configuration.
pub open spec fn capture_matches(binding: RuntimeBinding, capture: CodexCaptureMetadata) -> bool {
    &&& capture.binding_id@ == binding.id@
    &&& capture.conversation_id@ == binding.conversation_id@
    &&& capture.agent_principal_id@ == binding.agent_principal_id@
    &&& capture.driver_type@ == binding.driver_type@
    &&& capture.workspace_path@ == binding.workspace_path@
    &&& capture.binding_generation == binding.terminal_generation
    &&& string_member(binding.config_json, "agent_workspace_id"@) == Some(capture.workspace_id@)
    &&& string_member(binding.config_json, "conversation_workspace_id"@) == Some(
        capture.company_id@,
    )
}

/// Whether a captured Codex terminal session still describes `binding`.
pub fn codex_capture_metadata_matches_binding(binding: &RuntimeBinding, capture: &CodexCaptureMetadata) -> (r: bool)
    ensures
        r == capture_matches(*binding, *capture),
{
    let workspace_id_matches = member_is(&binding.config_json, "agent_workspace_id", capture.workspace_id.as_str());
    let company_id_matches = member_is(&binding.config_json, "conversation_workspace_id", capture.company_id.as_str());
    same_text(capture.binding_id.as_str(), binding.id.as_str())
        && same_text(capture.conversation_id.as_str(), binding.conversation_id.as_str())
        && same_text(capture.agent_principal_id.as_str(), binding.agent_principal_id.as_str())
        && same_text(capture.driver_type.as_str(), binding.driver_type.as_str())
        && same_text(capture.workspace_path.as_str(), binding.workspace_path.as_str())
        && capture.binding_generation == binding.terminal_generation
        && workspace_id_matches
        && company_id_matches
}

/// A failed capture is not retried once the binding's context is gone.
pub fn terminal_capture_error_is_permanent(error: &AppError) -> (r: bool)
    ensures
        r == (*error is NotFound),
{
    match error {
        AppError::NotFound(_) => true,
        _ => false,
    }
}

/// The transcript a binding shows: its stored non-blank `interaction_mode`,
/// else `terminal` for a driver served over a terminal and `message` otherwise.
pub open spec fn interaction_mode(terminal_driver: bool, config: JsonValue) -> Seq<char> {
    match string_member(config, "interaction_mode"@) {
        Some(m) if trim(m).len() > 0 => m,
        _ => if terminal_driver {
            "terminal"@
        } else {
            "message"@
        },
    }
}

/// The interaction mode of a binding whose driver is (or is not) a terminal driver.
pub fn effective_interaction_mode(terminal_driver: bool, config_json: &JsonValue) -> (r: String)
    ensures
        r@ == interaction_mode(terminal_driver, *config_json),
{
    match string_member_exec(config_json, "interaction_mode") {
        Some(m) => {
            let t = trim_str(m.as_str());
            let v = chars_of(t);
            if v.len() > 0 {
                return m;
            }
        },
        None => {},
    }
    if terminal_driver {
        owned("terminal")
    } else {
        owned("message")
    }
}

/// The kinds of conversation a binding can serve.
#[derive(Debug, Clone, Copy, PartialEq, Eq, Structural)]
pub enum ConversationType {
    Direct,
    Group,
}

/// The label clients show for a conversation type.
pub fn conversation_type_label(kind: ConversationType) -> (r: &'static str)
    ensures
        r@ == match kind {
            ConversationType::Direct => "direct"@,
            ConversationType::Group => "group"@,
        },
{
    match kind {
        ConversationType::Direct => "direct",
        ConversationType::Group => "group",
    }
}

/// The conversation has a name worth showing: present and not blank.
pub open spec fn has_label(name: Option<String>) -> bool {
    match name {
        Some(n) => trim(n@).len() > 0,
        None => false,
    }
}

/// The label of a conversation: its name when it has one, else its
/// members' names in ascending order, separated by `" / "`.
pub fn conversation_label(name: Option<String>, member_names: Vec<String>) -> (r: String)
    ensures
        has_label(name) ==> (name matches Some(n) && r@ == n@),
        !has_label(name) ==> exists|p: Seq<Seq<char>>|
            sorted_version(texts(member_names@), p) && r@ == join(p, " / "@),
{
    match name {
        Some(n) => {
            let t = trim_str(n.as_str());
            if chars_of(t).len() > 0 {
                return n;
            }
        },
        None => {},
    }
    let sorted = sort_texts(member_names);
    let ghost p = texts(sorted@);
    let mut out = String::new();
    let mut i: usize = 0;
    proof {
        assert(p.take(0) =~= Seq::<Seq<char>>::empty());
        reveal_strlit(" / ");
    }
    while i < sorted.len()
        invariant
            i <= sorted@.len(),
            p == texts(sorted@),
            out@ == join(p.take(i as int), " / "@),
        decreases sorted.len() - i,
    {
        proof {
            assert(p.take(i + 1) =~= p.take(i as int).push(sorted@[i as int]@));
            lemma_join_push(p.take(i as int), " / "@, sorted@[i as int]@);
        }
        if i > 0 {
            out.append(" / ");
        }
        out.append(sorted[i].as_str());
        i = i + 1;
    }
    assert(p.take(sorted@.len() as int) =~= p);
    out
}

// ── Creating a binding ──────────────────────────────────────────────

/// The member `key` of a request's configuration, as `config.get(key)` reads it.
pub open spec fn config_member(config: Option<JsonValue>, key: Seq<char>) -> Option<JsonValue> {
    match config {
        Some(JsonValue::Object(fields)) => member(fields@, key),
        _ => None,
    }
}

fn config_get<'a>(config: Option<&'a JsonValue>, key: &str) -> (r: Option<&'a JsonValue>)
    ensures
        match r {
            Some(v) => config_member(deref_config(config), key@) == Some(*v),
            None => config_member(deref_config(config), key@) is None,
        },
{
    match config {
        Some(JsonValue::Object(fields)) => match find_member(fields, key) {
            Some(i) => Some(&fields[i].1),
            None => None,
        },
        _ => None,
    }
}

/// The runtime host a binding asks for: none when its configuration names
/// none; the trimmed id of a non-blank string; otherwise a validation error.
pub fn requested_runtime_host(config_json: Option<&JsonValue>) -> (r: Result<Option<String>, AppError>)
    ensures
        match config_member(deref_config(config_json), "runtime_host_id"@) {
            None => r matches Ok(None),
            Some(JsonValue::Str(s)) => if trim(s@).len() == 0 {
                r matches Err(e) && e matches AppError::Validation(m) && m@
                    == "config_json.runtime_host_id must not be empty"@
            } else {
                r matches Ok(Some(h)) && h@ == trim(s@)
            },
            Some(_) => r matches Err(e) && e matches AppError::Validation(m) && m@
                == "config_json.runtime_host_id must be a string"@,
        },
{
    match config_get(config_json, "runtime_host_id") {
        None => Ok(None),
        Some(JsonValue::Str(s)) => {
            let h = trim_str(s.as_str());
            if chars_of(h).len() == 0 {
                Err(AppError::Validation(owned("config_json.runtime_host_id must not be empty")))
            } else {
                Ok(Some(owned(h)))
            }
        },
        Some(_) => Err(AppError::Validation(owned("config_json.runtime_host_id must be a string"))),
    }
}

/// A requested runtime host must be one of the agent's company.
pub fn check_runtime_host_owned(exists: bool) -> (r: Result<(), AppError>)
    ensures
        exists ==> r is Ok,
        !exists ==> (r matches Err(e) && e matches AppError::Validation(m) && m@
            == "runtime host does not belong to the agent's company"@),
{
    if !exists {
        return Err(AppError::Validation(owned("runtime host does not belong to the agent's company")));
    }
    Ok(())
}

/// The harness account a binding asks for, with the model the account must
/// offer: none when no account is named (account metadata without an id is
/// refused); an error when the id is not a string.
pub fn requested_harness_account(config_json: Option<&JsonValue>) -> (r: Result<Option<(String, Option<String>)>, AppError>)
    ensures
        match config_member(deref_config(config_json), "harness_account_id"@) {
            None => if config_member(deref_config(config_json), "harness_account_name"@) is Some
                || config_member(deref_config(config_json), "harness_account_profile_kind"@) is Some {
                r matches Err(e) && e matches AppError::Validation(m) && m@
                    == "harness account metadata requires harness_account_id"@
            } else {
                r matches Ok(None)
            },
            Some(JsonValue::Str(id)) => r matches Ok(Some((i, model))) && i@ == id@ && match config_member(
                deref_config(config_json),
                "model"@,
            ) {
                Some(JsonValue::Str(m)) => if trim(m@).len() > 0 {
                    model matches Some(x) && x@ == trim(m@)
                } else {
                    model is None
                },
                _ => model is None,
            },
            Some(_) => r matches Err(e) && e matches AppError::Validation(m) && m@
                == "config_json.harness_account_id must be a string"@,
        },
{
    match config_get(config_json, "harness_account_id") {
        None => {
            if config_get(config_json, "harness_account_name").is_some() || config_get(
                config_json,
                "harness_account_profile_kind",
            ).is_some() {
                return Err(AppError::Validation(owned("harness account metadata requires harness_account_id")));
            }
            Ok(None)
        },
        Some(JsonValue::Str(id)) => {
            let model = match config_get(config_json, "model") {
                Some(JsonValue::Str(m)) => {
                    let t = trim_str(m.as_str());
                    if chars_of(t).len() > 0 {
                        Some(owned(t))
                    } else {
                        None
                    }
                },
                _ => None,
            };
            Ok(Some((owned(id.as_str()), model)))
        },
        Some(_) => Err(AppError::Validation(owned("config_json.harness_account_id must be a string"))),
    }
}

/// A named harness account must be active, of the agent's company, device
/// and driver, and offer the selected model.
pub fn check_harness_account_found(found: bool) -> (r: Result<(), AppError>)
    ensures
        found ==> r is Ok,
        !found ==> (r matches Err(e) && e matches AppError::Validation(m) && m@
            == "harness account is inactive, belongs to a different company/device/driver, or does not offer the selected model"@),
{
    if !found {
        return Err(
            AppError::Validation(
                owned(
                    "harness account is inactive, belongs to a different company/device/driver, or does not offer the selected model",
                ),
            ),
        );
    }
    Ok(())
}

/// Why a binding may not be created for this caller, if it may not: only
/// people create bindings, and only in conversations they belong to.
pub fn check_binding_creator(is_human: bool, is_member: bool) -> (r: Result<(), AppError>)
    ensures
        !is_human ==> (r matches Err(e) && e matches AppError::Forbidden(m) && m@
            == "only humans can create runtime bindings"@),
        is_human && !is_member ==> (r matches Err(e) && e matches AppError::Forbidden(m) && m@
            == "must be a conversation member to create a runtime binding"@),
        is_human && is_member ==> r is Ok,
{
    if !is_human {
        return Err(AppError::Forbidden(owned("only humans can create runtime bindings")));
    }
    if !is_member {
        return Err(AppError::Forbidden(owned("must be a conversation member to create a runtime binding")));
    }
    Ok(())
}

/// Why a binding target is refused, if it is.
pub open spec fn target_refusal(conversation_allowed: bool, agent_allowed: bool, is_agent: bool, agent_is_member: bool) -> Option<(bool, Seq<char>)> {
    if !conversation_allowed || !agent_allowed {
        Some((true, "cross-workspace access denied"@))
    } else if !is_agent {
        Some((false, "runtime bindings can only target agents"@))
    } else if !agent_is_member {
        Some((false, "agent must be a conversation member before binding"@))
    } else {
        None
    }
}

/// A binding targets an agent of an accessible workspace that belongs to
/// an accessible conversation. (Access failures are `Forbidden`, the
/// others `Validation`.)
pub fn check_runtime_target(conversation_allowed: bool, agent_allowed: bool, is_agent: bool, agent_is_member: bool) -> (r: Result<(), AppError>)
    ensures
        match target_refusal(conversation_allowed, agent_allowed, is_agent, agent_is_member) {
            None => r is Ok,
            Some((true, m)) => r matches Err(e) && e matches AppError::Forbidden(x) && x@ == m,
            Some((false, m)) => r matches Err(e) && e matches AppError::Validation(x) && x@ == m,
        },
{
    if !conversation_allowed || !agent_allowed {
        return Err(AppError::Forbidden(owned("cross-workspace access denied")));
    }
    if !is_agent {
        return Err(AppError::Validation(owned("runtime bindings can only target agents")));
    }
    if !agent_is_member {
        return Err(AppError::Validation(owned("agent must be a conversation member before binding")));
    }
    Ok(())
}

/// The keys the validated host and account are recorded under.
pub open spec fn normalized_key(k: Seq<char>) -> bool {
    k == "runtime_host_id"@ || k == "harness_account_id"@ || k == "harness_account_name"@
        || k == "harness_account_profile_kind"@
}

/// The request's configuration with the validated runtime host and harness
/// account (id, name, profile kind) recorded; both come from the
/// configuration, which is therefore an object whenever either is present.
pub fn normalized_binding_config(config_json: Option<JsonValue>, runtime_host_id: Option<String>, account: Option<(String, String, String)>) -> (r: Option<JsonValue>)
    requires
        (runtime_host_id is Some || account is Some) ==> config_json matches Some(JsonValue::Object(_)),
    ensures
        (runtime_host_id is None && account is None) ==> r == config_json,
        (runtime_host_id is Some || account is Some) ==> (r matches Some(JsonValue::Object(out)) && {
            &&& forall|k: Seq<char>| !normalized_key(k) ==> #[trigger] member(out@, k) == member(
                config_members(config_json),
                k,
            )
            &&& match runtime_host_id {
                Some(h) => member(out@, "runtime_host_id"@) matches Some(v) && is_string(v, h@),
                None => member(out@, "runtime_host_id"@) == member(config_members(config_json), "runtime_host_id"@),
            }
            &&& match account {
                Some((id, name, kind)) => (member(out@, "harness_account_id"@) matches Some(v) && is_string(v, id@))
                    && (member(out@, "harness_account_name"@) matches Some(v) && is_string(v, name@))
                    && (member(out@, "harness_account_profile_kind"@) matches Some(v) && is_string(v, kind@)),
                None => true,
            }
        }),
{
    if runtime_host_id.is_none() && account.is_none() {
        return config_json;
    }
    proof {
        reveal_strlit("runtime_host_id");
        reveal_strlit("harness_account_id");
        reveal_strlit("harness_account_name");
        reveal_strlit("harness_account_profile_kind");
        assert("runtime_host_id"@.len() != "harness_account_id"@.len());
        assert("runtime_host_id"@.len() != "harness_account_name"@.len());
        assert("runtime_host_id"@.len() != "harness_account_profile_kind"@.len());
        assert("harness_account_id"@.len() != "harness_account_name"@.len());
        assert("harness_account_id"@.len() != "harness_account_profile_kind"@.len());
        assert("harness_account_name"@.len() != "harness_account_profile_kind"@.len());
    }
    let mut fields = match config_json {
        Some(JsonValue::Object(f)) => f,
        _ => Vec::new(),
    };
    let ghost m0 = fields@;
    let ghost h = runtime_host_id;
    match runtime_host_id {
        Some(host) => {
            let v = JsonValue::Str(host);
            let ghost g = v;
            let ghost before = fields@;
            crate::evaluation::set_member(&mut fields, "runtime_host_id", v);
            proof {
                assert forall|k: Seq<char>| #[trigger] member(fields@, k) == (if k == "runtime_host_id"@ {
                    Some(g)
                } else {
                    member(before, k)
                }) by {
                    crate::evaluation::lemma_with_member(before, "runtime_host_id"@, g, fields@, k);
                }
            }
        },
        None => {},
    }
    let ghost m1 = fields@;
    assert(forall|k: Seq<char>| k != "runtime_host_id"@ ==> #[trigger] member(m1, k) == member(m0, k));
    match account {
        Some((id, name, kind)) => {
            let v1 = JsonValue::Str(id);
            let ghost g1 = v1;
            crate::evaluation::set_member(&mut fields, "harness_account_id", v1);
            let ghost m2 = fields@;
            let v2 = JsonValue::Str(name);
            let ghost g2 = v2;
            crate::evaluation::set_member(&mut fields, "harness_account_name", v2);
            let ghost m3 = fields@;
            let v3 = JsonValue::Str(kind);
            let ghost g3 = v3;
            crate::evaluation::set_member(&mut fields, "harness_account_profile_kind", v3);
            let ghost m4 = fields@;
            proof {
                assert forall|k: Seq<char>| #[trigger] member(m4, k) == (if k == "harness_account_profile_kind"@ {
                    Some(g3)
                } else if k == "harness_account_name"@ {
                    Some(g2)
                } else if k == "harness_account_id"@ {
                    Some(g1)
                } else {
                    member(m1, k)
                }) by {
                    crate::evaluation::lemma_with_member(m1, "harness_account_id"@, g1, m2, k);
                    crate::evaluation::lemma_with_member(m2, "harness_account_name"@, g2, m3, k);
                    crate::evaluation::lemma_with_member(m3, "harness_account_profile_kind"@, g3, m4, k);
                }
                assert(member(m4, "harness_account_id"@) == Some(g1));
                assert(member(m4, "harness_account_name"@) == Some(g2));
                assert(member(m4, "harness_account_profile_kind"@) == Some(g3));
                assert(member(m4, "runtime_host_id"@) == member(m1, "runtime_host_id"@));
            }
        },
        None => {},
    }
    Some(JsonValue::Object(fields))
}

} // verus!
