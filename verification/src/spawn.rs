//! What a `spawn_agent` tool call reported back.
//!
//! The output is JSON written by Codex: older versions report the new agent's
//! id and nickname, multi-agent v2 reports only the task path of the new agent.
//! Any output that is not such an object means the spawn did not go through.

use vstd::prelude::*;

use crate::jwt::opt_string;

verus! {

/// The text of a top-level string field of a JSON object, if the text parses
/// as JSON and has such a field.
pub uninterp spec fn json_text_field_of(text: Seq<char>, field: Seq<char>) -> Option<Seq<char>>;

/// `serde_json::from_str::<serde_json::Value>(text)`, then `Value::get(field)`
/// and `Value::as_str`: `None` when the text is not JSON, not an object, has no
/// such field, or the field is not a string. The result is named by
/// `json_text_field_of`.
#[verifier::external_body]
fn json_text_field(text: &str, field: &str) -> (r: Option<String>)
    ensures
        opt_string(r) == json_text_field_of(text@, field@),
{
    let parsed: serde_json::Value = serde_json::from_str(text).ok()?;
    parsed.get(field)?.as_str().map(|s| s.to_string())
}

/// The new agent a pre-v2 `spawn_agent` call reports.
#[derive(Debug, Clone, PartialEq, Eq)]
pub struct SpawnAgentOutput {
    pub agent_id: String,
    pub nickname: String,
}

/// What `parse_spawn_agent_output` reads: a non-empty `agent_id`, and the
/// nickname (empty when there is none).
pub open spec fn spawn_agent_of(output: Seq<char>) -> Option<(Seq<char>, Seq<char>)> {
    match json_text_field_of(output, "agent_id"@) {
        Some(id) => if id.len() == 0 {
            None
        } else {
            Some(
                (
                    id,
                    match json_text_field_of(output, "nickname"@) {
                        Some(n) => n,
                        None => Seq::empty(),
                    },
                ),
            )
        },
        None => None,
    }
}

/// The agent a `spawn_agent` call started: its non-empty `agent_id`, and its
/// `nickname` (empty when absent or not a string).
pub fn parse_spawn_agent_output(output: &str) -> (r: Option<SpawnAgentOutput>)
    ensures
        match spawn_agent_of(output@) {
            Some((id, nick)) => r matches Some(o) && o.agent_id@ == id && o.nickname@ == nick,
            None => r is None,
        },
{
    let agent_id = match json_text_field(output, "agent_id") {
        Some(id) => id,
        None => {
            return None;
        },
    };
    if agent_id.as_str().is_empty() {
        return None;
    }
    let nickname = match json_text_field(output, "nickname") {
        Some(n) => n,
        None => String::new(),
    };
    Some(SpawnAgentOutput { agent_id, nickname })
}

/// What `parse_spawn_task_name` reads: a non-empty `task_name`.
pub open spec fn spawn_task_of(output: Seq<char>) -> Option<Seq<char>> {
    match json_text_field_of(output, "task_name"@) {
        Some(t) => if t.len() == 0 {
            None
        } else {
            Some(t)
        },
        None => None,
    }
}

/// The task path a multi-agent v2 `spawn_agent` call returns, e.g.
/// `/root/batch_1` from `{"task_name":"/root/batch_1"}`. Such spawns report
/// only where the new agent sits in the task tree, so this is the only sign
/// the spawn went through.
pub fn parse_spawn_task_name(output: &str) -> (r: Option<String>)
    ensures
        opt_string(r) == spawn_task_of(output@),
{
    match json_text_field(output, "task_name") {
        Some(t) => {
            if t.as_str().is_empty() {
                None
            } else {
                Some(t)
            }
        },
        None => None,
    }
}

} // verus!
