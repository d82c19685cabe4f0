//! Lightweight per-turn index for the session list.
//!
//! A session's bulk is in its tool calls: command output, file contents, patch
//! bodies. The list view never renders any of it (a row shows the user
//! message, one agent preview line, and a few counts), so shipping whole turns
//! to the frontend just to draw that list held the entire transcript in the JS
//! heap at once.
//!
//! `TurnSummary` carries exactly what a row draws. Bodies are fetched one turn
//! at a time when the user opens the detail view.

use vstd::prelude::*;

use crate::jwt::opt_string;
use crate::session::{copy_opt, AgentMsg, CodexSession, CodexTurn, TurnStatus};

verus! {

/// Everything the list view draws for one turn, and nothing else.
#[derive(Debug, Clone)]
pub struct TurnSummary {
    pub turn_id: String,
    pub status: TurnStatus,
    pub started_at: Option<u64>,
    pub completed_at: Option<u64>,
    pub duration_ms: Option<u64>,
    /// Shown in full: a prompt is small next to the tool output it triggers.
    pub user_message: Option<String>,
    /// The final answer when there is one, else the first non-reasoning message.
    pub agent_preview: Option<String>,
    /// Timestamp of the last agent message, used when `completed_at` is absent.
    pub last_agent_timestamp: Option<String>,
    pub tool_call_count: usize,
    pub reasoning_count: usize,
    /// Just the number the row prints, not the whole token record.
    pub total_tokens: Option<u64>,
    pub model: Option<String>,
    /// Whether opening the detail view would show anything.
    pub has_detail: bool,
}

pub open spec fn is_final_answer(m: AgentMsg) -> bool {
    m.phase matches Some(p) && p@ == "final_answer"@
}

/// Index of the first message satisfying the final-answer test.
pub open spec fn first_final(ms: Seq<AgentMsg>) -> Option<int>
    decreases ms.len(),
{
    if ms.len() == 0 {
        None
    } else {
        match first_final(ms.drop_last()) {
            Some(i) => Some(i),
            None => if is_final_answer(ms.last()) {
                Some(ms.len() - 1)
            } else {
                None
            },
        }
    }
}

/// Index of the first message that is not reasoning.
pub open spec fn first_plain(ms: Seq<AgentMsg>) -> Option<int>
    decreases ms.len(),
{
    if ms.len() == 0 {
        None
    } else {
        match first_plain(ms.drop_last()) {
            Some(i) => Some(i),
            None => if !ms.last().is_reasoning {
                Some(ms.len() - 1)
            } else {
                None
            },
        }
    }
}

/// The preview line for a turn: the final answer, else the first message that
/// is not reasoning.
pub open spec fn preview_of(ms: Seq<AgentMsg>) -> Option<Seq<char>> {
    match first_final(ms) {
        Some(i) => Some(ms[i].text@),
        None => match first_plain(ms) {
            Some(i) => Some(ms[i].text@),
            None => None,
        },
    }
}

/// How many messages are reasoning.
pub open spec fn reasoning_count_of(ms: Seq<AgentMsg>) -> nat
    decreases ms.len(),
{
    if ms.len() == 0 {
        0
    } else {
        reasoning_count_of(ms.drop_last()) + if ms.last().is_reasoning {
            1nat
        } else {
            0nat
        }
    }
}

proof fn lemma_reasoning_count_bound(ms: Seq<AgentMsg>)
    ensures
        reasoning_count_of(ms) <= ms.len(),
    decreases ms.len(),
{
    if ms.len() > 0 {
        lemma_reasoning_count_bound(ms.drop_last());
    }
}

proof fn lemma_first_final(ms: Seq<AgentMsg>)
    ensures
        first_final(ms) matches Some(i) ==> 0 <= i < ms.len() && is_final_answer(ms[i]) && forall|k: int|
            0 <= k < i ==> !is_final_answer(#[trigger] ms[k]),
        first_final(ms) is None ==> forall|k: int| 0 <= k < ms.len() ==> !is_final_answer(#[trigger] ms[k]),
    decreases ms.len(),
{
    if ms.len() > 0 {
        let t = ms.drop_last();
        lemma_first_final(t);
        assert(forall|k: int| 0 <= k < t.len() ==> t[k] == ms[k]);
    }
}

proof fn lemma_first_plain(ms: Seq<AgentMsg>)
    ensures
        first_plain(ms) matches Some(i) ==> 0 <= i < ms.len() && !ms[i].is_reasoning && forall|k: int|
            0 <= k < i ==> (#[trigger] ms[k]).is_reasoning,
        first_plain(ms) is None ==> forall|k: int| 0 <= k < ms.len() ==> (#[trigger] ms[k]).is_reasoning,
    decreases ms.len(),
{
    if ms.len() > 0 {
        let t = ms.drop_last();
        lemma_first_plain(t);
        assert(forall|k: int| 0 <= k < t.len() ==> t[k] == ms[k]);
    }
}

fn is_final_answer_exec(m: &AgentMsg) -> (r: bool)
    ensures
        r == is_final_answer(*m),
{
    match &m.phase {
        Some(p) => crate::text::chars_eq(
            crate::text::chars_of(p.as_str()).as_slice(),
            crate::text::chars_of("final_answer").as_slice(),
        ),
        None => false,
    }
}

/// The preview line for a turn: the final answer, else the first message that
/// is not reasoning.
pub fn agent_preview(messages: &[AgentMsg]) -> (r: Option<String>)
    ensures
        opt_string(r) == preview_of(messages@),
{
    proof {
        lemma_first_final(messages@);
        lemma_first_plain(messages@);
    }
    let mut i: usize = 0;
    while i < messages.len()
        invariant
            i <= messages@.len(),
            forall|k: int| 0 <= k < i ==> !is_final_answer(#[trigger] messages@[k]),
        decreases messages@.len() - i,
    {
        if is_final_answer_exec(&messages[i]) {
            proof {
                lemma_first_final(messages@);
            }
            return Some(messages[i].text.clone());
        }
        i = i + 1;
    }
    let mut j: usize = 0;
    while j < messages.len()
        invariant
            j <= messages@.len(),
            first_final(messages@) is None,
            forall|k: int| 0 <= k < j ==> (#[trigger] messages@[k]).is_reasoning,
        decreases messages@.len() - j,
    {
        if !messages[j].is_reasoning {
            proof {
                lemma_first_plain(messages@);
            }
            return Some(messages[j].text.clone());
        }
        j = j + 1;
    }
    None
}

fn count_reasoning(messages: &[AgentMsg]) -> (n: usize)
    ensures
        n == reasoning_count_of(messages@),
{
    let mut n: usize = 0;
    let mut i: usize = 0;
    while i < messages.len()
        invariant
            i <= messages@.len(),
            n == reasoning_count_of(messages@.subrange(0, i as int)),
            n <= i,
        decreases messages@.len() - i,
    {
        let ghost next = messages@.subrange(0, i + 1);
        assert(next.drop_last() =~= messages@.subrange(0, i as int));
        if messages[i].is_reasoning {
            n = n + 1;
        }
        i = i + 1;
    }
    assert(messages@.subrange(0, messages@.len() as int) =~= messages@);
    n
}

/// What a summary holds, by the turn it summarises.
pub open spec fn summarises(s: TurnSummary, t: CodexTurn) -> bool {
    &&& s.turn_id@ == t.turn_id@
    &&& s.status == t.status
    &&& s.started_at == t.started_at
    &&& s.completed_at == t.completed_at
    &&& s.duration_ms == t.duration_ms
    &&& opt_string(s.user_message) == opt_string(t.user_message)
    &&& opt_string(s.agent_preview) == preview_of(t.agent_messages@)
    &&& opt_string(s.last_agent_timestamp) == if t.agent_messages@.len() == 0 {
        None
    } else {
        Some(t.agent_messages@.last().timestamp@)
    }
    &&& s.tool_call_count == t.tool_calls@.len()
    &&& s.reasoning_count == reasoning_count_of(t.agent_messages@)
    &&& s.total_tokens == match t.total_tokens {
        Some(k) => Some(k.total_tokens),
        None => None,
    }
    &&& opt_string(s.model) == opt_string(t.model)
    &&& s.has_detail == (t.agent_messages@.len() > 0 || t.tool_calls@.len() > 0)
}

impl TurnSummary {
    /// The row for one turn.
    pub fn of(turn: &CodexTurn) -> (s: TurnSummary)
        ensures
            summarises(s, *turn),
    {
        let n = turn.agent_messages.len();
        let last = if n == 0 {
            None
        } else {
            Some(turn.agent_messages[n - 1].timestamp.clone())
        };
        TurnSummary {
            turn_id: turn.turn_id.clone(),
            status: turn.status,
            started_at: turn.started_at,
            completed_at: turn.completed_at,
            duration_ms: turn.duration_ms,
            user_message: copy_opt(&turn.user_message),
            agent_preview: agent_preview(turn.agent_messages.as_slice()),
            last_agent_timestamp: last,
            tool_call_count: turn.tool_calls.len(),
            reasoning_count: count_reasoning(turn.agent_messages.as_slice()),
            total_tokens: match &turn.total_tokens {
                Some(t) => Some(t.total_tokens),
                None => None,
            },
            model: copy_opt(&turn.model),
            has_detail: turn.agent_messages.len() > 0 || turn.tool_calls.len() > 0,
        }
    }
}

/// A session without its turn bodies: the metadata the info bar needs, plus
/// one `TurnSummary` per turn.
#[derive(Debug, Clone)]
pub struct SessionIndex {
    /// The full session with `turns` emptied, so every metadata consumer keeps
    /// working unchanged.
    pub session: CodexSession,
    pub summaries: Vec<TurnSummary>,
}

/// `m` is the metadata of `s`: every field but the turns, which are empty.
pub open spec fn metadata_of(m: CodexSession, s: CodexSession) -> bool {
    &&& m.id@ == s.id@
    &&& m.path@ == s.path@
    &&& opt_string(m.cwd) == opt_string(s.cwd)
    &&& opt_string(m.model) == opt_string(s.model)
    &&& m.start_time@ == s.start_time@
    &&& m.is_ongoing == s.is_ongoing
    &&& m.turns@.len() == 0
}

/// `ix` indexes `s`: its metadata, and one summary per turn, in order.
pub open spec fn indexes(ix: SessionIndex, s: CodexSession) -> bool {
    &&& metadata_of(ix.session, s)
    &&& ix.summaries@.len() == s.turns@.len()
    &&& forall|k: int| 0 <= k < s.turns@.len() ==> summarises(#[trigger] ix.summaries@[k], s.turns@[k])
}

fn metadata_copy(s: &CodexSession) -> (m: CodexSession)
    ensures
        metadata_of(m, *s),
{
    CodexSession {
        id: s.id.clone(),
        path: s.path.clone(),
        cwd: copy_opt(&s.cwd),
        model: copy_opt(&s.model),
        start_time: s.start_time.clone(),
        is_ongoing: s.is_ongoing,
        turns: Vec::new(),
    }
}

impl SessionIndex {
    /// Index a session held in the parse cache without copying its turn
    /// bodies: the turns are moved out, summarised and put back, so the only
    /// copy made is of the session metadata. The session is left as it was.
    pub fn of_cached(session: &mut CodexSession) -> (ix: SessionIndex)
        ensures
            *final(session) == *old(session),
            indexes(ix, *old(session)),
    {
        let mut turns: Vec<CodexTurn> = Vec::new();
        std::mem::swap(&mut turns, &mut session.turns);
        let mut summaries: Vec<TurnSummary> = Vec::new();
        let mut i: usize = 0;
        while i < turns.len()
            invariant
                i <= turns@.len(),
                summaries@.len() == i,
                forall|k: int| 0 <= k < i ==> summarises(#[trigger] summaries@[k], turns@[k]),
            decreases turns@.len() - i,
        {
            summaries.push(TurnSummary::of(&turns[i]));
            i = i + 1;
        }
        let metadata = metadata_copy(session);
        session.turns = turns;
        SessionIndex { session: metadata, summaries }
    }

    /// Split an owned session into its metadata and its turn index, dropping
    /// every turn body.
    pub fn of(session: CodexSession) -> (ix: SessionIndex)
        ensures
            indexes(ix, session),
    {
        let mut s = session;
        Self::of_cached(&mut s)
    }
}


// ---------------------------------------------------------------------------
// Laws
// ---------------------------------------------------------------------------

/// The preview of a turn's agent messages: the text of the first message
/// labelled `final_answer`; when none is, the text of the first message that
/// is not reasoning; and nothing only when every message is reasoning.
pub proof fn law_preview_is_the_answer_else_the_first_plain_message(ms: Seq<AgentMsg>)
    ensures
        forall|j: int|
            0 <= j < ms.len() && (ms[j].phase matches Some(p) && p@ == "final_answer"@) && (forall|k: int|
                0 <= k < j ==> !((#[trigger] ms[k]).phase matches Some(p) && p@ == "final_answer"@)) ==> preview_of(ms)
                == Some(ms[j].text@),
        (forall|k: int| 0 <= k < ms.len() ==> !((#[trigger] ms[k]).phase matches Some(p) && p@ == "final_answer"@)) ==> {
            &&& forall|j: int|
                0 <= j < ms.len() && !ms[j].is_reasoning && (forall|k: int| 0 <= k < j ==> (#[trigger] ms[k]).is_reasoning)
                    ==> preview_of(ms) == Some(ms[j].text@)
            &&& (preview_of(ms) is None <==> forall|k: int| 0 <= k < ms.len() ==> (#[trigger] ms[k]).is_reasoning)
        },
{
    lemma_first_final(ms);
    lemma_first_plain(ms);
    assert forall|j: int|
        0 <= j < ms.len() && (ms[j].phase matches Some(p) && p@ == "final_answer"@) && (forall|k: int|
            0 <= k < j ==> !((#[trigger] ms[k]).phase matches Some(p) && p@ == "final_answer"@)) implies preview_of(ms)
        == Some(ms[j].text@) by {
        assert(is_final_answer(ms[j]));
        match first_final(ms) {
            Some(i) => {
                if i < j {
                    assert(is_final_answer(ms[i]));
                } else if i > j {
                    assert(!is_final_answer(ms[j]));
                }
            },
            None => {},
        }
    }
    if forall|k: int| 0 <= k < ms.len() ==> !((#[trigger] ms[k]).phase matches Some(p) && p@ == "final_answer"@) {
        assert(first_final(ms) is None) by {
            if let Some(i) = first_final(ms) {
                assert(is_final_answer(ms[i]));
            }
        }
        assert forall|j: int|
            0 <= j < ms.len() && !ms[j].is_reasoning && (forall|k: int| 0 <= k < j ==> (#[trigger] ms[k]).is_reasoning)
                implies preview_of(ms) == Some(ms[j].text@) by {
            match first_plain(ms) {
                Some(i) => {
                    if i < j {
                        assert(ms[i].is_reasoning);
                    } else if i > j {
                        assert(ms[j].is_reasoning);
                    }
                },
                None => {
                    assert(ms[j].is_reasoning);
                },
            }
        }
        if preview_of(ms) is None {
            assert(first_plain(ms) is None);
        }
        if forall|k: int| 0 <= k < ms.len() ==> (#[trigger] ms[k]).is_reasoning {
            if let Some(i) = first_plain(ms) {
                assert(ms[i].is_reasoning);
            }
        }
    }
}

} // verus!
