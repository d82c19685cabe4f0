use codex_trace::session::{AgentMsg, CodexSession, CodexTurn, TokenInfo, ToolCall};
use codex_trace::summary::{agent_preview, SessionIndex, TurnSummary};

fn agent(text: &str, phase: Option<&str>, reasoning: bool, ts: &str) -> AgentMsg {
    AgentMsg {
        text: text.to_string(),
        phase: phase.map(str::to_string),
        timestamp: ts.to_string(),
        is_reasoning: reasoning,
        order: 0,
    }
}

fn turn_with(messages: Vec<AgentMsg>, tools: Vec<ToolCall>) -> CodexTurn {
    let mut t = CodexTurn::new("t1".to_string());
    t.agent_messages = messages;
    t.tool_calls = tools;
    t
}

#[test]
fn preview_prefers_the_final_answer() {
    let t = turn_with(
        vec![
            agent("thinking", None, true, "2026-01-01T00:00:00Z"),
            agent("chatter", None, false, "2026-01-01T00:00:01Z"),
            agent("the answer", Some("final_answer"), false, "2026-01-01T00:00:02Z"),
        ],
        vec![],
    );
    assert_eq!(TurnSummary::of(&t).agent_preview.as_deref(), Some("the answer"));
}

#[test]
fn preview_falls_back_to_the_first_non_reasoning_message() {
    let t = turn_with(
        vec![
            agent("thinking", None, true, "2026-01-01T00:00:00Z"),
            agent("chatter", None, false, "2026-01-01T00:00:01Z"),
        ],
        vec![],
    );
    assert_eq!(TurnSummary::of(&t).agent_preview.as_deref(), Some("chatter"));
}

#[test]
fn preview_is_absent_when_every_message_is_reasoning() {
    let t = turn_with(vec![agent("thinking", None, true, "2026-01-01T00:00:00Z")], vec![]);
    assert!(TurnSummary::of(&t).agent_preview.is_none());
}

#[test]
fn counts_reasoning_messages_and_tool_calls() {
    let t = turn_with(
        vec![
            agent("a", None, true, "2026-01-01T00:00:00Z"),
            agent("b", None, true, "2026-01-01T00:00:01Z"),
            agent("c", None, false, "2026-01-01T00:00:02Z"),
        ],
        vec![ToolCall::default(), ToolCall::default()],
    );
    let s = TurnSummary::of(&t);
    assert_eq!(s.reasoning_count, 2);
    assert_eq!(s.tool_call_count, 2);
    assert!(s.has_detail);
}

#[test]
fn an_empty_turn_has_no_detail() {
    let s = TurnSummary::of(&turn_with(vec![], vec![]));
    assert!(!s.has_detail);
    assert_eq!(s.tool_call_count, 0);
    assert_eq!(s.reasoning_count, 0);
    assert!(s.last_agent_timestamp.is_none());
}

#[test]
fn a_turn_with_only_tool_calls_still_has_detail() {
    let s = TurnSummary::of(&turn_with(vec![], vec![ToolCall::default()]));
    assert!(s.has_detail);
}

#[test]
fn last_agent_timestamp_is_the_last_message_not_the_first() {
    let t = turn_with(
        vec![
            agent("a", None, false, "2026-01-01T00:00:00Z"),
            agent("b", None, false, "2026-01-01T00:00:09Z"),
        ],
        vec![],
    );
    assert_eq!(
        TurnSummary::of(&t).last_agent_timestamp.as_deref(),
        Some("2026-01-01T00:00:09Z"),
    );
}

#[test]
fn total_tokens_is_flattened_to_the_number_the_row_prints() {
    let mut t = turn_with(vec![], vec![]);
    t.total_tokens = Some(TokenInfo {
        total_tokens: 4321,
        ..Default::default()
    });
    assert_eq!(TurnSummary::of(&t).total_tokens, Some(4321));
}

#[test]
fn the_index_drops_every_turn_body_but_keeps_the_metadata() {
    let session = CodexSession {
        id: "sess-1".into(),
        turns: vec![
            turn_with(vec![agent("a", None, false, "t")], vec![ToolCall::default()]),
            turn_with(vec![], vec![]),
        ],
        ..Default::default()
    };

    let index = SessionIndex::of(session);

    assert_eq!(index.session.id, "sess-1");
    assert!(index.session.turns.is_empty(), "bodies are dropped");
    assert_eq!(index.summaries.len(), 2);
    assert_eq!(index.summaries[0].tool_call_count, 1);
}

#[test]
fn the_index_of_a_session_with_no_turns_is_empty() {
    let index = SessionIndex::of(CodexSession::default());
    assert!(index.summaries.is_empty());
}

#[test]
fn indexing_a_cached_session_leaves_its_turns_in_place() {
    let mut session = CodexSession {
        id: "s".into(),
        turns: vec![turn_with(vec![], vec![ToolCall {
            output: Some("x".repeat(1000)),
            ..Default::default()
        }])],
        ..Default::default()
    };
    let index = SessionIndex::of_cached(&mut session);
    assert_eq!(index.summaries.len(), 1);
    assert!(index.session.turns.is_empty());
    assert_eq!(session.turns.len(), 1, "the cache keeps the bodies");
    assert_eq!(session.turns[0].tool_calls[0].output.as_deref().map(str::len), Some(1000));
}

#[test]
fn a_final_answer_wins_even_after_plain_messages() {
    let ms = vec![
        agent("first", None, false, "t0"),
        agent("done", Some("final_answer"), true, "t1"),
    ];
    assert_eq!(agent_preview(&ms).as_deref(), Some("done"));
    assert_eq!(agent_preview(&[]), None);
}

#[test]
fn the_index_is_much_smaller_than_the_session_it_came_from() {
    let tool = ToolCall {
        output: Some("x".repeat(200_000)),
        ..Default::default()
    };
    let session = CodexSession {
        turns: vec![turn_with(vec![], vec![tool])],
        ..Default::default()
    };

    let full = format!("{session:?}").len();
    let index = format!("{:?}", SessionIndex::of(session)).len();

    assert!(index * 100 < full, "index {index} vs full {full}");
}
