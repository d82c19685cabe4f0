//! The parsed shape of a Codex session, as far as this library reads it.
//!
//! A session is a list of turns; a turn holds the user's message, the agent's
//! messages (reasoning among them) and the tool calls it made. Discovery
//! reports one `CodexSessionInfo` row per session file.

use vstd::prelude::*;

verus! {

/// Where a turn stands.
#[derive(Clone, Copy, Debug, PartialEq, Eq, Structural, Default)]
pub enum TurnStatus {
    #[default]
    InProgress,
    Completed,
    Aborted,
}

/// One message of the agent within a turn.
#[derive(Debug, Clone, Default)]
pub struct AgentMsg {
    pub text: String,
    /// `final_answer` for the turn's answer, when Codex labels it.
    pub phase: Option<String>,
    pub timestamp: String,
    pub is_reasoning: bool,
    pub order: u64,
}

/// One tool call of a turn.
#[derive(Debug, Clone, Default)]
pub struct ToolCall {
    pub call_id: String,
    pub name: String,
    pub arguments: Option<String>,
    pub output: Option<String>,
}

/// Token counts reported for a turn.
#[derive(Debug, Clone, Copy, Default)]
pub struct TokenInfo {
    pub input_tokens: u64,
    pub output_tokens: u64,
    pub total_tokens: u64,
}

/// One turn: a user message and everything the agent did in answer.
#[derive(Debug, Clone, Default)]
pub struct CodexTurn {
    pub turn_id: String,
    pub status: TurnStatus,
    pub started_at: Option<u64>,
    pub completed_at: Option<u64>,
    pub duration_ms: Option<u64>,
    pub user_message: Option<String>,
    pub agent_messages: Vec<AgentMsg>,
    pub tool_calls: Vec<ToolCall>,
    pub total_tokens: Option<TokenInfo>,
    pub model: Option<String>,
}

impl CodexTurn {
    /// A turn that has just started: nothing in it yet.
    pub fn new(turn_id: String) -> (t: CodexTurn)
        ensures
            t.turn_id@ == turn_id@,
            t.status == TurnStatus::InProgress,
            t.agent_messages@.len() == 0,
            t.tool_calls@.len() == 0,
            t.started_at is None,
            t.completed_at is None,
            t.duration_ms is None,
            t.user_message is None,
            t.total_tokens is None,
            t.model is None,
    {
        CodexTurn {
            turn_id,
            status: TurnStatus::InProgress,
            started_at: None,
            completed_at: None,
            duration_ms: None,
            user_message: None,
            agent_messages: Vec::new(),
            tool_calls: Vec::new(),
            total_tokens: None,
            model: None,
        }
    }
}

/// A parsed session: its metadata and its turns.
#[derive(Debug, Clone, Default)]
pub struct CodexSession {
    pub id: String,
    pub path: String,
    pub cwd: Option<String>,
    pub model: Option<String>,
    pub start_time: String,
    pub is_ongoing: bool,
    pub turns: Vec<CodexTurn>,
}

/// One row of the session picker, as discovery reports it.
#[derive(Debug, Clone, Default)]
pub struct CodexSessionInfo {
    pub id: String,
    pub path: String,
    pub cwd: Option<String>,
    pub git_branch: Option<String>,
    pub originator: Option<String>,
    pub model: Option<String>,
    pub cli_version: Option<String>,
    pub thread_name: Option<String>,
    pub turn_count: u32,
    pub start_time: String,
    pub end_time: Option<String>,
    pub total_tokens: Option<u64>,
    pub is_ongoing: bool,
    pub is_external_worker: bool,
    pub is_inline_worker: bool,
    pub is_headless: bool,
    pub is_archived: bool,
    pub worker_nickname: Option<String>,
    pub worker_role: Option<String>,
    pub spawned_worker_ids: Vec<String>,
    pub date_group: String,
    pub ai_title: Option<String>,
    pub approval_mode: Option<String>,
    pub history_base_thread_id: Option<String>,
    pub forked_from_thread_id: Option<String>,
    pub mentioned_thread_ids: Vec<String>,
}

/// How far a walk of the sessions directory has got.
#[derive(Debug, Clone, Copy, Default, PartialEq, Eq, Structural)]
pub struct IndexProgress {
    pub files_read: u64,
    pub total_files: u64,
    pub bytes_read: u64,
    pub total_bytes: u64,
    pub done: bool,
}

/// A copy of an optional text.
pub fn copy_opt(o: &Option<String>) -> (r: Option<String>)
    ensures
        crate::jwt::opt_string(r) == crate::jwt::opt_string(*o),
{
    match o {
        Some(s) => Some(s.clone()),
        None => None,
    }
}

} // verus!
