//! Decoder for Codex TUI's task-mention encoding.
//!
//! Codex lets a user `@`-mention another task from the composer. The TUI
//! rewrites the visible `@Title` into `[@Title](thread://<id>)` before the
//! message is sent, and, for the first task mention of a message, prefixes the
//! message with a preamble (a "## Referenced chats with Codex:" heading, a JSON
//! array of referenced thread ids, and a "## My request for Codex:" heading).
//! Both land verbatim in the session file as the user's message text.
//!
//! This module turns the inline links back into a readable `@Title` and strips
//! the preamble, the way the Codex TUI renders its own transcript.
//!
//! Positions are character positions throughout.

use vstd::prelude::*;

use crate::text::{
    chars_of, contains, contains_chars, find, find_chars, idx_of, lemma_find_from, lemma_idx_of, matches_at,
    matches_at_exec, push_all, slice_chars, split_once, split_once_chars, starts_with,
    starts_with_chars, string_of,
};

verus! {

/// Longest task title the TUI writes, in characters.
pub const MAX_TASK_TITLE_CHARS: usize = 160;

/// Longest thread id accepted, in characters.
pub const MAX_THREAD_ID_CHARS: usize = 64;

/// A task/thread reference decoded out of a user message.
#[derive(Debug, PartialEq, Eq)]
pub struct TaskMentionRef {
    pub title: String,
    pub thread_id: String,
}

impl View for TaskMentionRef {
    type V = (Seq<char>, Seq<char>);

    open spec fn view(&self) -> (Seq<char>, Seq<char>) {
        (self.title@, self.thread_id@)
    }
}

pub open spec fn mention_views(v: Seq<TaskMentionRef>) -> Seq<(Seq<char>, Seq<char>)> {
    v.map_values(|m: TaskMentionRef| m@)
}

// ---------------------------------------------------------------------------
// Specification
// ---------------------------------------------------------------------------

pub open spec fn thread_scheme() -> Seq<char> {
    "thread://"@
}

pub open spec fn link_open() -> Seq<char> {
    "[@"@
}

pub open spec fn referenced_chats_heading() -> Seq<char> {
    "## Referenced chats with Codex:"@
}

pub open spec fn request_heading() -> Seq<char> {
    "## My request for Codex:"@
}

/// ASCII letter, digit, `_` or `-`.
pub open spec fn is_thread_id_char(c: char) -> bool {
    let u = c as u32;
    ||| 48 <= u <= 57
    ||| 65 <= u <= 90
    ||| 97 <= u <= 122
    ||| c == '_'
    ||| c == '-'
}

/// A non-empty thread id of at most 64 ASCII letters, digits, `_` or `-`.
pub open spec fn is_valid_thread_id(id: Seq<char>) -> bool {
    &&& 0 < id.len() <= MAX_THREAD_ID_CHARS
    &&& forall|k: int| 0 <= k < id.len() ==> is_thread_id_char(#[trigger] id[k])
}

/// The id of a `thread://<id>` path, when the path is one.
pub open spec fn valid_thread_id_of(path: Seq<char>) -> Option<Seq<char>> {
    if starts_with(path, thread_scheme()) {
        let id = path.subrange(thread_scheme().len() as int, path.len() as int);
        if is_valid_thread_id(id) {
            Some(id)
        } else {
            None
        }
    } else {
        None
    }
}

/// What follows a link's closing `]` at `k`: `(<path>)` with a valid path.
/// Yields the id and the position just past the `)`.
pub open spec fn link_tail(t: Seq<char>, k: int) -> Option<(Seq<char>, int)> {
    if k + 1 < t.len() && t[k + 1] == '(' {
        match split_once(t.subrange(k + 2, t.len() as int), ')') {
            None => None,
            Some(parts) => match valid_thread_id_of(parts.0) {
                None => None,
                Some(id) => Some((id, k + 3 + parts.0.len())),
            },
        }
    } else {
        None
    }
}

/// Scan a link's title from position `k`, with `title` read so far.
/// A `\` takes the next character literally; the first other `]` ends the title.
pub open spec fn scan_title(t: Seq<char>, k: int, title: Seq<char>) -> Option<
    (Seq<char>, Seq<char>, int),
>
    decreases t.len() - k,
{
    if k < 0 || k >= t.len() {
        None
    } else if t[k] == '\\' {
        if k + 1 >= t.len() {
            None
        } else if title.len() + 1 > MAX_TASK_TITLE_CHARS {
            None
        } else {
            scan_title(t, k + 2, title.push(t[k + 1]))
        }
    } else if t[k] == ']' {
        if title.len() > 0 {
            match link_tail(t, k) {
                None => None,
                Some(r) => Some((title, r.0, r.1)),
            }
        } else {
            None
        }
    } else if title.len() + 1 > MAX_TASK_TITLE_CHARS {
        None
    } else {
        scan_title(t, k + 1, title.push(t[k]))
    }
}

/// A `[@Title](thread://id)` link starting at `start`: its title, its thread id,
/// and the position just past it.
pub open spec fn task_link_at(t: Seq<char>, start: int) -> Option<(Seq<char>, Seq<char>, int)> {
    if 0 <= start && matches_at(t, link_open(), start) {
        scan_title(t, start + link_open().len(), Seq::empty())
    } else {
        None
    }
}

/// The text that closes a link to thread `id`: `](thread://<id>)`.
pub open spec fn link_close(id: Seq<char>) -> Seq<char> {
    "]("@ + thread_scheme() + id + ")"@
}

/// A link's tail at the `]` in position `k` is exactly `](thread://<id>)`.
proof fn lemma_link_tail_shape(t: Seq<char>, k: int)
    requires
        0 <= k < t.len(),
        t[k] == ']',
    ensures
        link_tail(t, k) matches Some(p) ==> p.1 <= t.len() && p.1 - k == link_close(p.0).len()
            && t.subrange(k, p.1) == link_close(p.0),
{
    if k + 1 < t.len() && t[k + 1] == '(' {
        let rest = t.subrange(k + 2, t.len() as int);
        lemma_idx_of(rest, ')');
        if let Some(parts) = split_once(rest, ')') {
            if let Some(id) = valid_thread_id_of(parts.0) {
                reveal_strlit("](");
                reveal_strlit(")");
                reveal_strlit("thread://");
                let j = idx_of(rest, ')')->0 as int;
                assert(parts.0 == rest.subrange(0, j));
                assert(parts.0 =~= thread_scheme() + id);
                assert(t.subrange(k, k + 3 + j) =~= link_close(id));
            }
        }
    }
}

pub proof fn lemma_scan_title_ends_after(t: Seq<char>, k: int, title: Seq<char>)
    requires
        title.len() <= MAX_TASK_TITLE_CHARS,
    ensures
        scan_title(t, k, title) matches Some(r) ==> r.2 > k && r.2 <= t.len() && r.0.len() > 0
            && r.0.len() <= MAX_TASK_TITLE_CHARS && is_valid_thread_id(r.1) && r.2 - k >= link_close(
            r.1,
        ).len() && t.subrange(r.2 - link_close(r.1).len(), r.2) == link_close(r.1),
    decreases t.len() - k,
{
    if 0 <= k < t.len() {
        if t[k] == '\\' {
            if k + 1 < t.len() && title.len() + 1 <= MAX_TASK_TITLE_CHARS {
                lemma_scan_title_ends_after(t, k + 2, title.push(t[k + 1]));
            }
        } else if t[k] == ']' {
            lemma_link_tail_shape(t, k);
            if title.len() > 0 && k + 1 < t.len() && t[k + 1] == '(' {
                let rest = t.subrange(k + 2, t.len() as int);
                lemma_idx_of(rest, ')');
                if let Some(parts) = split_once(rest, ')') {
                    if let Some(id) = valid_thread_id_of(parts.0) {
                        assert(is_valid_thread_id(id));
                    }
                }
            }
        } else if title.len() + 1 <= MAX_TASK_TITLE_CHARS {
            lemma_scan_title_ends_after(t, k + 1, title.push(t[k]));
        }
    }
}

pub proof fn lemma_task_link_ends_after(t: Seq<char>, start: int)
    ensures
        task_link_at(t, start) matches Some(r) ==> r.2 > start && r.2 <= t.len() && r.0.len() > 0
            && r.0.len() <= MAX_TASK_TITLE_CHARS && is_valid_thread_id(r.1),
{
    lemma_scan_title_ends_after(t, start + link_open().len(), Seq::empty());
}

/// Where a parsed task link lies: it opens with `[@` at `start` and ends
/// within the text with `](thread://<id>)`; its title has 1 to 160
/// characters and its id 1 to 64 ASCII letters, digits, `_` or `-`.
pub proof fn law_task_link_bounds(t: Seq<char>, start: int)
    ensures
        task_link_at(t, start) matches Some(r) ==> {
            &&& start < r.2 <= t.len()
            &&& matches_at(t, link_open(), start)
            &&& 1 <= r.0.len() <= MAX_TASK_TITLE_CHARS
            &&& is_valid_thread_id(r.1)
            &&& crate::text::ends_with(t.subrange(0, r.2), link_close(r.1))
        },
{
    lemma_scan_title_ends_after(t, start + link_open().len(), Seq::empty());
    if let Some(r) = task_link_at(t, start) {
        reveal_strlit("[@");
        let n = link_close(r.1).len();
        assert(t.subrange(0, r.2).subrange(r.2 - n, r.2) =~= t.subrange(r.2 - n, r.2));
    }
}

/// Decode every link from position `i` on: the rewritten text and the
/// references found, in order.
pub open spec fn decode_from(t: Seq<char>, i: int) -> (Seq<char>, Seq<(Seq<char>, Seq<char>)>)
    decreases t.len() - i,
{
    if i < 0 || i >= t.len() {
        (Seq::empty(), Seq::empty())
    } else if t[i] == '[' && task_link_at(t, i) is Some {
        let r = task_link_at(t, i).unwrap();
        proof {
            lemma_task_link_ends_after(t, i);
        }
        let rest = decode_from(t, r.2);
        (seq!['@'] + r.0 + rest.0, seq![(r.0, r.1)] + rest.1)
    } else {
        let rest = decode_from(t, i + 1);
        (seq![t[i]] + rest.0, rest.1)
    }
}

/// Inline links rewritten to `@Title`, with the references they carried.
/// Text without `thread://` anywhere is returned as is.
pub open spec fn decode_inline(t: Seq<char>) -> (Seq<char>, Seq<(Seq<char>, Seq<char>)>) {
    if !contains(t, thread_scheme()) {
        (t, Seq::empty())
    } else {
        decode_from(t, 0)
    }
}

/// The request body after the CLI preamble, when the text opens with one.
pub open spec fn strip_preamble(t: Seq<char>) -> Option<Seq<char>> {
    if !starts_with(t, referenced_chats_heading()) {
        None
    } else {
        match find(t, request_heading()) {
            None => None,
            Some(pos) => {
                let after = t.subrange(pos as int + request_heading().len(), t.len() as int);
                if after.len() > 0 && after[0] == '\n' {
                    Some(after.drop_first())
                } else {
                    Some(after)
                }
            },
        }
    }
}

/// The readable text and references of a user message.
pub open spec fn decode_mentions(t: Seq<char>) -> (Seq<char>, Seq<(Seq<char>, Seq<char>)>) {
    match strip_preamble(t) {
        Some(body) => decode_inline(body),
        None => decode_inline(t),
    }
}

// ---------------------------------------------------------------------------
// Implementation
// ---------------------------------------------------------------------------

fn is_thread_id_char_exec(c: char) -> (r: bool)
    ensures
        r == is_thread_id_char(c),
{
    let u = c as u32;
    (48 <= u && u <= 57) || (65 <= u && u <= 90) || (97 <= u && u <= 122) || c == '_' || c == '-'
}

/// The id of a `thread://<id>` path: non-empty, at most 64 characters, all of
/// them ASCII letters, digits, `_` or `-`.
pub fn valid_task_thread_id(path: &[char]) -> (r: Option<Vec<char>>)
    ensures
        r matches Some(id) ==> valid_thread_id_of(path@) == Some(id@),
        r is None ==> valid_thread_id_of(path@) is None,
{
    let scheme = chars_of("thread://");
    if !starts_with_chars(path, scheme.as_slice()) {
        return None;
    }
    let id = slice_chars(path, scheme.len(), path.len());
    if id.len() == 0 || id.len() > MAX_THREAD_ID_CHARS {
        return None;
    }
    let mut k: usize = 0;
    while k < id.len()
        invariant
            k <= id@.len(),
            0 < id@.len() <= MAX_THREAD_ID_CHARS,
            starts_with(path@, thread_scheme()),
            id@ == path@.subrange(thread_scheme().len() as int, path@.len() as int),
            forall|j: int| 0 <= j < k ==> is_thread_id_char(#[trigger] id@[j]),
        decreases id@.len() - k,
    {
        if !is_thread_id_char_exec(id[k]) {
            assert(!is_thread_id_char(id@[k as int]));
            return None;
        }
        k = k + 1;
    }
    Some(id)
}

fn link_tail_exec(t: &[char], k: usize) -> (r: Option<(Vec<char>, usize)>)
    requires
        k < t@.len(),
    ensures
        r matches Some(p) ==> link_tail(t@, k as int) == Some((p.0@, p.1 as int)),
        r is None ==> link_tail(t@, k as int) is None,
{
    let n = t.len();
    if k + 1 < n && t[k + 1] == '(' {
        let rest = slice_chars(t, k + 2, n);
        match split_once_chars(rest.as_slice(), ')') {
            None => None,
            Some(parts) => {
                proof {
                    lemma_idx_of(rest@, ')');
                }
                match valid_task_thread_id(parts.0.as_slice()) {
                    None => None,
                    Some(id) => Some((id, k + 3 + parts.0.len())),
                }
            },
        }
    } else {
        None
    }
}

/// Parse a `[@Title](thread://id)` link starting at `start`. Returns the title,
/// the thread id and the position just past the link. A `\` in the title takes
/// the next character literally (the TUI escapes `]` and `(` that way).
pub fn parse_task_link(text: &[char], start: usize) -> (r: Option<(Vec<char>, Vec<char>, usize)>)
    ensures
        r matches Some(p) ==> task_link_at(text@, start as int) == Some((p.0@, p.1@, p.2 as int)),
        r is None ==> task_link_at(text@, start as int) is None,
{
    let open = chars_of("[@");
    if !matches_at_exec(text, open.as_slice(), start) {
        return None;
    }
    let n = text.len();
    let mut k: usize = start + open.len();
    let mut title: Vec<char> = Vec::new();
    while k < n
        invariant
            n == text@.len(),
            title@.len() <= MAX_TASK_TITLE_CHARS,
            task_link_at(text@, start as int) == scan_title(text@, k as int, title@),
        decreases n - k,
    {
        let ch = text[k];
        if ch == '\\' {
            if k + 1 >= n {
                return None;
            }
            if title.len() + 1 > MAX_TASK_TITLE_CHARS {
                return None;
            }
            title.push(text[k + 1]);
            k = k + 2;
        } else if ch == ']' {
            if title.len() > 0 {
                match link_tail_exec(text, k) {
                    None => {
                        return None;
                    },
                    Some(tail) => {
                        return Some((title, tail.0, tail.1));
                    },
                }
            } else {
                return None;
            }
        } else {
            if title.len() + 1 > MAX_TASK_TITLE_CHARS {
                return None;
            }
            title.push(ch);
            k = k + 1;
        }
    }
    None
}

/// Rewrite every `[@Title](thread://id)` link in `text` to `@Title`, collecting
/// the referenced tasks. Text without `thread://` is returned unchanged.
pub fn decode_inline_task_mentions(text: &[char]) -> (r: (Vec<char>, Vec<TaskMentionRef>))
    ensures
        (r.0@, mention_views(r.1@)) == decode_inline(text@),
{
    let scheme = chars_of("thread://");
    if !contains_chars(text, scheme.as_slice()) {
        let mut same: Vec<char> = Vec::new();
        push_all(&mut same, text);
        assert(same@ =~= text@);
        let none: Vec<TaskMentionRef> = Vec::new();
        assert(mention_views(none@) =~= Seq::empty());
        return (same, none);
    }
    let n = text.len();
    let mut out: Vec<char> = Vec::new();
    let mut mentions: Vec<TaskMentionRef> = Vec::new();
    let mut index: usize = 0;
    assert(mention_views(mentions@) =~= Seq::empty());
    assert(decode_from(text@, 0).0 =~= out@ + decode_from(text@, 0).0);
    assert(decode_from(text@, 0).1 =~= mention_views(mentions@) + decode_from(text@, 0).1);
    while index < n
        invariant
            n == text@.len(),
            index <= n,
            decode_from(text@, 0).0 == out@ + decode_from(text@, index as int).0,
            decode_from(text@, 0).1 == mention_views(mentions@) + decode_from(
                text@,
                index as int,
            ).1,
        decreases n - index,
    {
        let ch = text[index];
        if ch == '[' {
            match parse_task_link(text, index) {
                Some(link) => {
                    proof {
                        lemma_task_link_ends_after(text@, index as int);
                    }
                    let ghost old_out = out@;
                    let ghost old_m = mention_views(mentions@);
                    let (title, thread_id, end) = link;
                    out.push('@');
                    push_all(&mut out, title.as_slice());
                    let title_text = string_of(title.as_slice());
                    let id_text = string_of(thread_id.as_slice());
                    mentions.push(TaskMentionRef { title: title_text, thread_id: id_text });
                    proof {
                        assert(out@ =~= old_out + (seq!['@'] + title@));
                        assert(mention_views(mentions@) =~= old_m + seq![(title@, thread_id@)]);
                        let rest = decode_from(text@, end as int);
                        assert(decode_from(text@, index as int).0 =~= seq!['@'] + title@ + rest.0);
                        assert(out@ + rest.0 =~= old_out + (seq!['@'] + title@ + rest.0));
                        assert(mention_views(mentions@) + rest.1 =~= old_m + (seq![
                            (title@, thread_id@),
                        ] + rest.1));
                    }
                    index = end;
                    continue ;
                },
                None => {},
            }
        }
        let ghost old_out = out@;
        out.push(ch);
        proof {
            let rest = decode_from(text@, index + 1);
            assert(decode_from(text@, index as int).0 =~= seq![ch] + rest.0);
            assert(out@ + rest.0 =~= old_out + (seq![ch] + rest.0));
        }
        index = index + 1;
    }
    assert(out@ =~= out@ + decode_from(text@, n as int).0);
    assert(mention_views(mentions@) =~= mention_views(mentions@) + decode_from(text@, n as int).1);
    (out, mentions)
}

/// The request body after the CLI-injected "## Referenced chats with Codex:" /
/// "## My request for Codex:" preamble, when the message opens with it; `None`
/// for any other message.
pub fn strip_referenced_chats_preamble(text: &[char]) -> (r: Option<Vec<char>>)
    ensures
        r matches Some(b) ==> strip_preamble(text@) == Some(b@),
        r is None ==> strip_preamble(text@) is None,
{
    let first = chars_of("## Referenced chats with Codex:");
    if !starts_with_chars(text, first.as_slice()) {
        return None;
    }
    let second = chars_of("## My request for Codex:");
    let tlen = text.len();
    match find_chars(text, second.as_slice()) {
        None => None,
        Some(pos) => {
            proof {
                lemma_find_from(text@, second@, 0);
            }
            let after = slice_chars(text, pos + second.len(), tlen);
            if after.len() > 0 && after[0] == '\n' {
                let body = slice_chars(after.as_slice(), 1, after.len());
                assert(body@ =~= after@.drop_first());
                Some(body)
            } else {
                Some(after)
            }
        },
    }
}

/// Decode a user message's task-mention encoding: strip the CLI-injected
/// preamble (if present) and rewrite inline `[@Title](thread://id)` links back
/// to plain `@Title`. Returns the readable text and the referenced tasks, in
/// order. A message without task mentions comes back unchanged.
pub fn decode_task_mentions(text: &str) -> (r: (String, Vec<TaskMentionRef>))
    ensures
        (r.0@, mention_views(r.1@)) == decode_mentions(text@),
        forall|k: int|
            0 <= k < r.1@.len() ==> is_valid_thread_id(#[trigger] r.1@[k].thread_id@),
{
    let chars = chars_of(text);
    let decoded = match strip_referenced_chats_preamble(chars.as_slice()) {
        Some(body) => decode_inline_task_mentions(body.as_slice()),
        None => decode_inline_task_mentions(chars.as_slice()),
    };
    proof {
        let body = match strip_preamble(text@) {
            Some(b) => b,
            None => text@,
        };
        lemma_decoded_ids_valid(body);
        assert(mention_views(decoded.1@) == decode_inline(body).1);
        assert forall|k: int| 0 <= k < decoded.1@.len() implies is_valid_thread_id(
            #[trigger] decoded.1@[k].thread_id@,
        ) by {
            assert(mention_views(decoded.1@)[k] == decoded.1@[k]@);
            assert(decode_inline(body).1[k] == decoded.1@[k]@);
        }
    }
    (string_of(decoded.0.as_slice()), decoded.1)
}

/// Every decoded reference has a valid thread id and a non-empty title of at
/// most 160 characters.
pub proof fn lemma_decoded_ids_valid(t: Seq<char>)
    ensures
        forall|k: int|
            0 <= k < decode_inline(t).1.len() ==> is_valid_thread_id(
                (#[trigger] decode_inline(t).1[k]).1,
            ) && decode_inline(t).1[k].0.len() > 0 && decode_inline(t).1[k].0.len()
                <= MAX_TASK_TITLE_CHARS,
{
    if contains(t, thread_scheme()) {
        lemma_decode_from_ids_valid(t, 0);
    }
}

proof fn lemma_decode_from_ids_valid(t: Seq<char>, i: int)
    ensures
        forall|k: int|
            0 <= k < decode_from(t, i).1.len() ==> is_valid_thread_id(
                (#[trigger] decode_from(t, i).1[k]).1,
            ) && decode_from(t, i).1[k].0.len() > 0 && decode_from(t, i).1[k].0.len()
                <= MAX_TASK_TITLE_CHARS,
    decreases t.len() - i,
{
    if 0 <= i < t.len() {
        if t[i] == '[' && task_link_at(t, i) is Some {
            let r = task_link_at(t, i).unwrap();
            lemma_task_link_ends_after(t, i);
            lemma_decode_from_ids_valid(t, r.2);
            let rest = decode_from(t, r.2);
            assert forall|k: int| 0 <= k < decode_from(t, i).1.len() implies is_valid_thread_id(
                (#[trigger] decode_from(t, i).1[k]).1,
            ) && decode_from(t, i).1[k].0.len() > 0 && decode_from(t, i).1[k].0.len()
                <= MAX_TASK_TITLE_CHARS by {
                if k > 0 {
                    assert(decode_from(t, i).1[k] == rest.1[k - 1]);
                }
            }
        } else {
            lemma_decode_from_ids_valid(t, i + 1);
            assert(decode_from(t, i).1 == decode_from(t, i + 1).1);
        }
    }
}

/// The thread ids a message references, without stripping any preamble (for
/// discovery scans that only need the ids).
pub fn referenced_thread_ids(text: &str) -> (r: Vec<String>)
    ensures
        r@.len() == decode_inline(text@).1.len(),
        forall|k: int| 0 <= k < r@.len() ==> #[trigger] r@[k]@ == decode_inline(text@).1[k].1,
{
    let chars = chars_of(text);
    let decoded = decode_inline_task_mentions(chars.as_slice());
    let mentions = decoded.1;
    let mut ids: Vec<String> = Vec::new();
    let mut k: usize = 0;
    while k < mentions.len()
        invariant
            k <= mentions@.len(),
            mention_views(mentions@) == decode_inline(text@).1,
            ids@.len() == k,
            forall|j: int| 0 <= j < k ==> #[trigger] ids@[j]@ == mentions@[j].thread_id@,
        decreases mentions@.len() - k,
    {
        let id_chars = chars_of(mentions[k].thread_id.as_str());
        ids.push(string_of(id_chars.as_slice()));
        k = k + 1;
    }
    assert forall|j: int| 0 <= j < ids@.len() implies #[trigger] ids@[j]@ == decode_inline(
        text@,
    ).1[j].1 by {
        assert(mention_views(mentions@)[j] == mentions@[j]@);
    }
    ids
}

// ---------------------------------------------------------------------------
// Laws
// ---------------------------------------------------------------------------

/// A message that opens with the referenced-chats heading and holds the
/// request heading reads as its request alone: everything up to the first
/// request heading, and one line break after it, is dropped, and the rest is
/// decoded like any message body. A heading anywhere but at the start strips
/// nothing.
pub proof fn law_preamble_is_stripped(t: Seq<char>)
    ensures
        starts_with(t, referenced_chats_heading()) ==> (find(t, request_heading()) matches Some(pos) ==> {
            let after = t.subrange(pos as int + request_heading().len(), t.len() as int);
            let body = if after.len() > 0 && after[0] == '\n' {
                after.drop_first()
            } else {
                after
            };
            decode_mentions(t) == decode_inline(body)
        }),
        !starts_with(t, referenced_chats_heading()) ==> decode_mentions(t) == decode_inline(t),
        starts_with(t, referenced_chats_heading()) && find(t, request_heading()) is None ==> decode_mentions(
            t,
        ) == decode_inline(t),
{
}

/// Some position of the text starts a valid task link.
pub open spec fn has_task_link(t: Seq<char>) -> bool {
    exists|k: int| 0 <= k < t.len() && #[trigger] task_link_at(t, k) is Some
}

/// Past position `i`, text holding no task link decodes to itself.
proof fn lemma_decode_from_no_links(t: Seq<char>, i: int)
    requires
        0 <= i <= t.len(),
        !has_task_link(t),
    ensures
        decode_from(t, i) == (t.subrange(i, t.len() as int), Seq::<(Seq<char>, Seq<char>)>::empty()),
    decreases t.len() - i,
{
    if i < t.len() {
        assert(task_link_at(t, i) is None);
        lemma_decode_from_no_links(t, i + 1);
        assert(t.subrange(i, t.len() as int) =~= seq![t[i]] + t.subrange(i + 1, t.len() as int));
    } else {
        assert(t.subrange(i, t.len() as int) =~= Seq::<char>::empty());
    }
}

/// A message holding no valid `[@Title](thread://id)` link, and not opening
/// with the referenced-chats heading, is returned unchanged, with no
/// references: ordinary Markdown links, `@` mentions of other schemes and
/// malformed task links all stay as written.
pub proof fn law_message_without_task_links_is_untouched(t: Seq<char>)
    requires
        !has_task_link(t),
        !starts_with(t, referenced_chats_heading()),
    ensures
        decode_mentions(t) == (t, Seq::<(Seq<char>, Seq<char>)>::empty()),
{
    lemma_decode_from_no_links(t, 0);
    assert(t.subrange(0, t.len() as int) =~= t);
}

/// A message that contains no `thread://` and does not open with the
/// referenced-chats heading is returned unchanged, with no references.
pub proof fn law_plain_message_is_untouched(t: Seq<char>)
    requires
        !contains(t, thread_scheme()),
        !starts_with(t, referenced_chats_heading()),
    ensures
        decode_mentions(t) == (t, Seq::<(Seq<char>, Seq<char>)>::empty()),
{
}

} // verus!
