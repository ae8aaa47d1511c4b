//! Per-transcript conversation history.
//!
//! A transcript is the list of turns of one conversation, oldest first,
//! keyed by a string: `""` for the interactive session, `swarm:<id>` for
//! a swarm agent, so concurrent agents never interleave their turns.
//!
//! Recording a turn trims its text, caps it at [`MAX_TURN_CHARS`] bytes,
//! keeps at most [`MAX_HISTORY_TURNS`] turns (the oldest unpinned ones
//! leave first) and then drops the oldest turns whose rendered lines no
//! longer fit the character budget. Rendering applies the same budget. A
//! pinned turn is never dropped for the budget: the kept range always
//! starts at or before the oldest pinned turn.

use vstd::prelude::*;
use vstd::hash_map::StringHashMap;
use crate::hooks::{copy_call, ToolCall, ToolCallView};
use crate::render::truncate_chars;
use crate::text::{byte_len, byte_prefix, owned, push_str, str_byte_len, str_eq, trim, trim_string};

verus! {

/// Turns kept per transcript.
pub const MAX_HISTORY_TURNS: usize = 40;

/// Bytes kept of one turn's text.
pub const MAX_TURN_CHARS: usize = 4000;

/// The default rendered-history budget, in bytes.
pub const DEFAULT_HISTORY_CHAR_BUDGET: usize = 32000;

/// The least budget a caller can set.
pub const MIN_HISTORY_CHAR_BUDGET: usize = 4000;

/// Who produced a turn.
#[derive(Clone, Copy, Debug, PartialEq, Eq, Structural)]
pub enum Role {
    User,
    Assistant,
    System,
    Tool,
}

/// One message of a transcript. `tool_calls` are the tool calls an
/// assistant message carries; a tool message names the call it answers
/// in `tool_call_id`.
#[derive(Debug)]
pub struct Turn {
    pub role: Role,
    pub content: String,
    pub pinned: bool,
    pub tool_calls: Vec<ToolCall>,
    pub tool_call_id: Option<String>,
}

/// The value of a turn.
pub struct TurnView {
    pub role: Role,
    pub content: Seq<char>,
    pub pinned: bool,
    pub tool_calls: Seq<ToolCallView>,
    pub tool_call_id: Option<Seq<char>>,
}

impl View for Turn {
    type V = TurnView;

    open spec fn view(&self) -> TurnView {
        TurnView {
            role: self.role,
            content: self.content@,
            pinned: self.pinned,
            tool_calls: self.tool_calls@.map_values(|c: ToolCall| c@),
            tool_call_id: match self.tool_call_id {
                Some(id) => Some(id@),
                None => None,
            },
        }
    }
}

/// The values of a sequence of turns.
pub open spec fn turn_views(ts: Seq<Turn>) -> Seq<TurnView> {
    ts.map_values(|t: Turn| t@)
}

// ---------------------------------------------------------------------
// The model
// ---------------------------------------------------------------------

/// The label a turn's line starts with.
pub open spec fn role_label(r: Role) -> Seq<char> {
    match r {
        Role::User => "User"@,
        Role::Assistant => "Assistant"@,
        Role::System => "System"@,
        Role::Tool => "Tool"@,
    }
}

/// A turn as one line of text: `User: …`.
pub open spec fn turn_line(t: TurnView) -> Seq<char> {
    role_label(t.role) + ": "@ + t.content
}

/// What a turn costs of the budget: its line and a newline, in bytes.
pub open spec fn line_cost(t: TurnView) -> nat {
    byte_len(turn_line(t)) + 1
}

/// The cost of the turns from `i` to the newest.
pub open spec fn tail_cost(ts: Seq<TurnView>, i: int) -> nat
    decreases ts.len() - i,
{
    if 0 <= i < ts.len() {
        line_cost(ts[i]) + tail_cost(ts, i + 1)
    } else {
        0
    }
}

/// Walking back from `i`, the oldest index from which the turns still
/// fit `budget`.
pub open spec fn fit_start(ts: Seq<TurnView>, budget: nat, i: int) -> int
    decreases i,
{
    if i > 0 && tail_cost(ts, i - 1) <= budget {
        fit_start(ts, budget, i - 1)
    } else {
        i
    }
}

/// The oldest index from which the newest turns fit `budget`.
pub open spec fn budget_start(ts: Seq<TurnView>, budget: nat) -> int {
    fit_start(ts, budget, ts.len() as int)
}

/// The index of the first pinned turn in `[j, c)`, or `c`.
pub open spec fn pinned_from(ts: Seq<TurnView>, j: int, c: int) -> int
    decreases c - j,
{
    if j < c {
        if ts[j].pinned {
            j
        } else {
            pinned_from(ts, j + 1, c)
        }
    } else {
        c
    }
}

/// Where the kept turns start: the budget's start, pulled back to the
/// oldest pinned turn before it.
pub open spec fn keep_start(ts: Seq<TurnView>, budget: nat) -> int {
    pinned_from(ts, 0, budget_start(ts, budget))
}

/// Whether a turn is rendered: tool results are not, nor an assistant
/// message that only carries tool calls.
pub open spec fn shown(t: TurnView) -> bool {
    t.role != Role::Tool && !(t.role == Role::Assistant && trim(t.content).len() == 0
        && t.tool_calls.len() > 0)
}

/// The lines of the shown turns, each followed by a newline.
pub open spec fn render_lines(ts: Seq<TurnView>) -> Seq<char>
    decreases ts.len(),
{
    if ts.len() == 0 {
        Seq::empty()
    } else {
        render_lines(ts.drop_last()) + if shown(ts.last()) {
            turn_line(ts.last()) + seq!['\n']
        } else {
            Seq::empty()
        }
    }
}

/// What a transcript renders to under `budget`.
pub open spec fn rendered(ts: Seq<TurnView>, budget: nat) -> Seq<char> {
    if ts.len() == 0 {
        "(start of conversation)"@
    } else {
        render_lines(ts.skip(keep_start(ts, budget)))
    }
}

/// The text stored for a recorded turn: trimmed, and cut to
/// [`MAX_TURN_CHARS`] bytes with a marker when longer; nothing for an
/// empty text.
pub open spec fn stored_text(text: Seq<char>) -> Option<Seq<char>> {
    let t = trim(text);
    if t.len() == 0 {
        None
    } else if byte_len(t) > MAX_TURN_CHARS {
        Some(byte_prefix(t, MAX_TURN_CHARS as nat) + "… [truncated]"@)
    } else {
        Some(t)
    }
}

/// Drop the `k` oldest unpinned turns.
pub open spec fn drop_unpinned(ts: Seq<TurnView>, k: nat) -> Seq<TurnView>
    decreases ts.len(),
{
    if ts.len() == 0 || k == 0 {
        ts
    } else if ts[0].pinned {
        seq![ts[0]] + drop_unpinned(ts.skip(1), k)
    } else {
        drop_unpinned(ts.skip(1), (k - 1) as nat)
    }
}

/// Keep at most `max` turns, dropping the oldest unpinned ones.
pub open spec fn capped_turns(ts: Seq<TurnView>, max: nat) -> Seq<TurnView> {
    if ts.len() > max {
        drop_unpinned(ts, (ts.len() - max) as nat)
    } else {
        ts
    }
}

/// The turns kept under `budget`.
pub open spec fn budget_trimmed(ts: Seq<TurnView>, budget: nat) -> Seq<TurnView> {
    ts.skip(keep_start(ts, budget))
}

/// The new turn a recording adds.
pub open spec fn new_turn(user: bool, content: Seq<char>) -> TurnView {
    TurnView {
        role: if user { Role::User } else { Role::Assistant },
        content,
        pinned: false,
        tool_calls: Seq::empty(),
        tool_call_id: None,
    }
}

/// A transcript after recording a turn of `text`.
pub open spec fn after_record(ts: Seq<TurnView>, user: bool, text: Seq<char>, budget: nat) -> Seq<
    TurnView,
> {
    match stored_text(text) {
        None => ts,
        Some(c) => budget_trimmed(
            capped_turns(ts.push(new_turn(user, c)), MAX_HISTORY_TURNS as nat),
            budget,
        ),
    }
}

/// A transcript after a tool round's messages are appended: the oldest
/// turns beyond [`MAX_HISTORY_TURNS`] leave, pinned or not. No messages
/// leave the transcript as it is.
pub open spec fn after_append(ts: Seq<TurnView>, msgs: Seq<TurnView>) -> Seq<TurnView> {
    if msgs.len() == 0 {
        ts
    } else {
        compacted(ts + msgs, MAX_HISTORY_TURNS as nat)
    }
}

/// A transcript compacted to its last `max` turns.
pub open spec fn compacted(ts: Seq<TurnView>, max: nat) -> Seq<TurnView> {
    if ts.len() > max {
        ts.skip(ts.len() - max)
    } else {
        ts
    }
}

/// The index of the newest turn whose text is `content`.
pub open spec fn newest_with(ts: Seq<TurnView>, content: Seq<char>) -> Option<int>
    decreases ts.len(),
{
    if ts.len() == 0 {
        None
    } else if ts.last().content == content {
        Some(ts.len() - 1)
    } else {
        newest_with(ts.drop_last(), content)
    }
}


// ---------------------------------------------------------------------
// Facts about the model
// ---------------------------------------------------------------------

pub proof fn lemma_fit_start_bounds(ts: Seq<TurnView>, budget: nat, i: int)
    requires
        0 <= i,
    ensures
        0 <= fit_start(ts, budget, i) <= i,
    decreases i,
{
    if i > 0 && tail_cost(ts, i - 1) <= budget {
        lemma_fit_start_bounds(ts, budget, i - 1);
    }
}

pub proof fn lemma_pinned_from(ts: Seq<TurnView>, j: int, c: int)
    requires
        0 <= j <= c <= ts.len(),
    ensures
        j <= pinned_from(ts, j, c) <= c,
        pinned_from(ts, j, c) < c ==> ts[pinned_from(ts, j, c)].pinned,
        forall|m: int| j <= m < pinned_from(ts, j, c) ==> !(#[trigger] ts[m]).pinned,
    decreases c - j,
{
    if j < c && !ts[j].pinned {
        lemma_pinned_from(ts, j + 1, c);
    }
}

pub proof fn lemma_keep_start_bounds(ts: Seq<TurnView>, budget: nat)
    ensures
        0 <= keep_start(ts, budget) <= budget_start(ts, budget) <= ts.len(),
{
    lemma_fit_start_bounds(ts, budget, ts.len() as int);
    lemma_pinned_from(ts, 0, budget_start(ts, budget));
}

pub proof fn lemma_keep_start_le_pinned(ts: Seq<TurnView>, budget: nat, j: int)
    requires
        0 <= j < ts.len(),
        ts[j].pinned,
    ensures
        keep_start(ts, budget) <= j,
{
    lemma_keep_start_bounds(ts, budget);
    let c = budget_start(ts, budget);
    lemma_pinned_from(ts, 0, c);
    if j < c && pinned_from(ts, 0, c) > j {
        assert(!ts[j].pinned);
    }
}

proof fn lemma_drop_unpinned_keeps(ts: Seq<TurnView>, k: nat, j: int)
    requires
        0 <= j < ts.len(),
        ts[j].pinned,
    ensures
        drop_unpinned(ts, k).contains(ts[j]),
    decreases ts.len(),
{
    if ts.len() == 0 || k == 0 {
        assert(drop_unpinned(ts, k)[j] == ts[j]);
    } else if ts[0].pinned {
        if j == 0 {
            assert(drop_unpinned(ts, k)[0] == ts[0]);
        } else {
            lemma_drop_unpinned_keeps(ts.skip(1), k, j - 1);
            let r = drop_unpinned(ts.skip(1), k);
            let m = choose|m: int| 0 <= m < r.len() && r[m] == ts.skip(1)[j - 1];
            assert(drop_unpinned(ts, k)[m + 1] == r[m]);
        }
    } else {
        lemma_drop_unpinned_keeps(ts.skip(1), (k - 1) as nat, j - 1);
    }
}

proof fn lemma_drop_unpinned_from(ts: Seq<TurnView>, k: nat)
    ensures
        drop_unpinned(ts, k).len() <= ts.len(),
        forall|m: int| 0 <= m < drop_unpinned(ts, k).len() ==> ts.contains(
            #[trigger] drop_unpinned(ts, k)[m],
        ),
        k > 0 ==> drop_unpinned(ts, k).len() < ts.len() || (drop_unpinned(ts, k) == ts && forall|
            m: int,
        | 0 <= m < ts.len() ==> (#[trigger] ts[m]).pinned),
    decreases ts.len(),
{
    let r = drop_unpinned(ts, k);
    if ts.len() == 0 || k == 0 {
        assert forall|m: int| 0 <= m < r.len() implies ts.contains(#[trigger] r[m]) by {
            assert(ts[m] == r[m]);
        }
    } else {
        let rest = ts.skip(1);
        if ts[0].pinned {
            lemma_drop_unpinned_from(rest, k);
            let rr = drop_unpinned(rest, k);
            assert(r == seq![ts[0]] + rr);
            assert forall|m: int| 0 <= m < r.len() implies ts.contains(#[trigger] r[m]) by {
                if m == 0 {
                    assert(ts[0] == r[0]);
                } else {
                    assert(r[m] == rr[m - 1]);
                    let q = choose|q: int| 0 <= q < rest.len() && rest[q] == rr[m - 1];
                    assert(ts[q + 1] == rest[q]);
                }
            }
            if rr.len() == rest.len() {
                assert(rr == rest);
                assert(r =~= ts);
                assert forall|m: int| 0 <= m < ts.len() implies (#[trigger] ts[m]).pinned by {
                    if m > 0 {
                        assert(ts[m] == rest[m - 1]);
                    }
                }
            }
        } else {
            let k1 = (k - 1) as nat;
            lemma_drop_unpinned_from(rest, k1);
            assert forall|m: int| 0 <= m < r.len() implies ts.contains(#[trigger] r[m]) by {
                let q = choose|q: int| 0 <= q < rest.len() && rest[q] == r[m];
                assert(ts[q + 1] == rest[q]);
            }
        }
    }
}

proof fn lemma_fit_start_fits(ts: Seq<TurnView>, budget: nat, i: int)
    requires
        0 <= i,
        tail_cost(ts, i) <= budget,
    ensures
        tail_cost(ts, fit_start(ts, budget, i)) <= budget,
    decreases i,
{
    if i > 0 && tail_cost(ts, i - 1) <= budget {
        lemma_fit_start_fits(ts, budget, i - 1);
    }
}

proof fn lemma_tail_cost_skip(ts: Seq<TurnView>, s: int, i: int)
    requires
        0 <= s <= ts.len(),
        0 <= i,
    ensures
        tail_cost(ts.skip(s), i) == tail_cost(ts, s + i),
    decreases ts.len() - s - i,
{
    if i < ts.len() - s {
        lemma_tail_cost_skip(ts, s, i + 1);
        assert(ts.skip(s)[i] == ts[s + i]);
    }
}

/// A pinned turn is never dropped when a turn is recorded.
pub proof fn law_pinned_turn_survives_recording(
    ts: Seq<TurnView>,
    user: bool,
    text: Seq<char>,
    budget: nat,
    j: int,
)
    requires
        0 <= j < ts.len(),
        ts[j].pinned,
    ensures
        after_record(ts, user, text, budget).contains(ts[j]),
{
    match stored_text(text) {
        None => {
            assert(after_record(ts, user, text, budget)[j] == ts[j]);
        },
        Some(c) => {
            let t1 = ts.push(new_turn(user, c));
            assert(t1[j] == ts[j]);
            let t2 = capped_turns(t1, MAX_HISTORY_TURNS as nat);
            if t1.len() > MAX_HISTORY_TURNS {
                lemma_drop_unpinned_keeps(t1, (t1.len() - MAX_HISTORY_TURNS) as nat, j);
            } else {
                assert(t2[j] == t1[j]);
            }
            let m = choose|m: int| 0 <= m < t2.len() && t2[m] == ts[j];
            lemma_keep_start_le_pinned(t2, budget, m);
            lemma_keep_start_bounds(t2, budget);
            let ks = keep_start(t2, budget);
            assert(t2.skip(ks)[m - ks] == t2[m]);
        },
    }
}

/// Rendering keeps every pinned turn: the kept range starts at or
/// before it.
pub proof fn law_pinned_turn_is_rendered(ts: Seq<TurnView>, budget: nat, j: int)
    requires
        0 <= j < ts.len(),
        ts[j].pinned,
    ensures
        ts.skip(keep_start(ts, budget)).contains(ts[j]),
{
    lemma_keep_start_le_pinned(ts, budget, j);
    lemma_keep_start_bounds(ts, budget);
    let ks = keep_start(ts, budget);
    assert(ts.skip(ks)[j - ks] == ts[j]);
}

/// A transcript within the turn cap stays within it after a turn is
/// recorded, unless every turn it keeps is pinned.
pub proof fn law_recording_caps_turns(ts: Seq<TurnView>, user: bool, text: Seq<char>, budget: nat)
    requires
        ts.len() <= MAX_HISTORY_TURNS,
    ensures
        after_record(ts, user, text, budget).len() <= MAX_HISTORY_TURNS || forall|m: int|
            0 <= m < after_record(ts, user, text, budget).len() ==> (#[trigger] after_record(
                ts,
                user,
                text,
                budget,
            )[m]).pinned,
{
    if let Some(c) = stored_text(text) {
        let t1 = ts.push(new_turn(user, c));
        let t2 = capped_turns(t1, MAX_HISTORY_TURNS as nat);
        lemma_keep_start_bounds(t2, budget);
        let ks = keep_start(t2, budget);
        let a = t2.skip(ks);
        if t1.len() > MAX_HISTORY_TURNS {
            lemma_drop_unpinned_from(t1, 1);
            if t2.len() > MAX_HISTORY_TURNS {
                assert forall|m: int| 0 <= m < a.len() implies (#[trigger] a[m]).pinned by {
                    assert(a[m] == t2[m + ks]);
                }
            }
        }
    }
}

/// With no pinned turn, the turns kept after recording fit the budget.
pub proof fn law_unpinned_history_fits_budget(
    ts: Seq<TurnView>,
    user: bool,
    text: Seq<char>,
    budget: nat,
)
    requires
        stored_text(text) is Some,
        forall|m: int| 0 <= m < ts.len() ==> !(#[trigger] ts[m]).pinned,
    ensures
        tail_cost(after_record(ts, user, text, budget), 0) <= budget,
{
    let c = stored_text(text)->0;
    let t1 = ts.push(new_turn(user, c));
    let t2 = capped_turns(t1, MAX_HISTORY_TURNS as nat);
    assert forall|m: int| 0 <= m < t1.len() implies !(#[trigger] t1[m]).pinned by {
        if m < ts.len() {
            assert(t1[m] == ts[m]);
        }
    }
    if t1.len() > MAX_HISTORY_TURNS {
        lemma_drop_unpinned_from(t1, (t1.len() - MAX_HISTORY_TURNS) as nat);
    }
    assert forall|m: int| 0 <= m < t2.len() implies !(#[trigger] t2[m]).pinned by {
        if t1.len() > MAX_HISTORY_TURNS {
            let q = choose|q: int| 0 <= q < t1.len() && t1[q] == t2[m];
            assert(!t1[q].pinned);
        }
    }
    lemma_keep_start_bounds(t2, budget);
    let bs = budget_start(t2, budget);
    lemma_pinned_from(t2, 0, bs);
    if pinned_from(t2, 0, bs) < bs {
        assert(t2[pinned_from(t2, 0, bs)].pinned);
    }
    assert(tail_cost(t2, t2.len() as int) == 0);
    lemma_fit_start_fits(t2, budget, t2.len() as int);
    lemma_tail_cost_skip(t2, bs, 0);
}

/// A recorded turn whose line fits the budget on its own is the newest
/// turn afterwards, when the transcript had room under the turn cap.
pub proof fn law_recorded_turn_is_newest(ts: Seq<TurnView>, user: bool, text: Seq<char>, budget: nat)
    requires
        ts.len() < MAX_HISTORY_TURNS,
        stored_text(text) is Some,
        line_cost(new_turn(user, stored_text(text)->0)) <= budget,
    ensures
        after_record(ts, user, text, budget).len() > 0,
        after_record(ts, user, text, budget).last() == new_turn(user, stored_text(text)->0),
{
    let nt = new_turn(user, stored_text(text)->0);
    let t1 = ts.push(nt);
    let n = t1.len() as int;
    assert(tail_cost(t1, n) == 0);
    assert(tail_cost(t1, n - 1) == line_cost(nt));
    lemma_fit_start_bounds(t1, budget, n - 1);
    lemma_keep_start_bounds(t1, budget);
    let ks = keep_start(t1, budget);
    assert(t1.skip(ks).last() == t1[n - 1]);
}

/// Compacting twice to the same size is compacting once.
pub proof fn law_compacting_twice_is_compacting_once(ts: Seq<TurnView>, max: nat)
    ensures
        compacted(compacted(ts, max), max) == compacted(ts, max),
{
}

// ---------------------------------------------------------------------
// Turns
// ---------------------------------------------------------------------

fn label_of(r: Role) -> (s: &'static str)
    ensures
        s@ == role_label(r),
{
    match r {
        Role::User => "User",
        Role::Assistant => "Assistant",
        Role::System => "System",
        Role::Tool => "Tool",
    }
}

/// The cost of `t`'s line when it is at most `room`.
fn cost_within(t: &Turn, room: usize) -> (r: Option<usize>)
    ensures
        match r {
            Some(c) => c == line_cost(t@) && c <= room,
            None => line_cost(t@) > room,
        },
{
    let label = label_of(t.role);
    let a = str_byte_len(label);
    let b = str_byte_len(": ");
    let c = str_byte_len(t.content.as_str());
    proof {
        crate::text::lemma_byte_len_concat(role_label(t.role), ": "@);
        crate::text::lemma_byte_len_concat(role_label(t.role) + ": "@, t.content@);
    }
    if c > room {
        return None;
    }
    let rest = room - c;
    if a > rest {
        return None;
    }
    let rest2 = rest - a;
    if b >= rest2 {
        return None;
    }
    Some(a + b + c + 1)
}

fn is_shown(t: &Turn) -> (r: bool)
    ensures
        r == shown(t@),
{
    if t.role == Role::Tool {
        false
    } else if t.role == Role::Assistant && t.tool_calls.len() > 0 {
        !trim_string(t.content.as_str()).as_str().is_empty()
    } else {
        true
    }
}

fn copy_calls(v: &Vec<ToolCall>) -> (r: Vec<ToolCall>)
    ensures
        r@.map_values(|c: ToolCall| c@) == v@.map_values(|c: ToolCall| c@),
{
    let mut r: Vec<ToolCall> = Vec::new();
    let mut i: usize = 0;
    while i < v.len()
        invariant
            i <= v.len(),
            r.len() == i,
            r@.map_values(|c: ToolCall| c@) == v@.take(i as int).map_values(|c: ToolCall| c@),
        decreases v.len() - i,
    {
        let ghost before = r@;
        r.push(copy_call(&v[i]));
        proof {
            assert(r@ =~= before.push(r@[i as int]));
            assert(v@.take(i + 1) =~= v@.take(i as int).push(v@[i as int]));
            assert(r@.map_values(|c: ToolCall| c@) =~= before.map_values(|c: ToolCall| c@).push(
                r@[i as int]@,
            ));
            assert(v@.take(i + 1).map_values(|c: ToolCall| c@) =~= v@.take(i as int).map_values(
                |c: ToolCall| c@,
            ).push(v@[i as int]@));
        }
        i += 1;
    }
    assert(v@.take(v.len() as int) =~= v@);
    r
}

fn copy_turn(t: &Turn) -> (r: Turn)
    ensures
        r@ == t@,
{
    Turn {
        role: t.role,
        content: t.content.clone(),
        pinned: t.pinned,
        tool_calls: copy_calls(&t.tool_calls),
        tool_call_id: match &t.tool_call_id {
            Some(id) => Some(id.clone()),
            None => None,
        },
    }
}

fn copy_turns(v: &Vec<Turn>) -> (r: Vec<Turn>)
    ensures
        turn_views(r@) == turn_views(v@),
{
    let mut r: Vec<Turn> = Vec::new();
    let mut i: usize = 0;
    while i < v.len()
        invariant
            i <= v.len(),
            r.len() == i,
            turn_views(r@) == turn_views(v@.take(i as int)),
        decreases v.len() - i,
    {
        let ghost before = r@;
        r.push(copy_turn(&v[i]));
        proof {
            assert(r@ =~= before.push(r@[i as int]));
            assert(v@.take(i + 1) =~= v@.take(i as int).push(v@[i as int]));
            assert(turn_views(r@) =~= turn_views(before).push(r@[i as int]@));
            assert(turn_views(v@.take(i + 1)) =~= turn_views(v@.take(i as int)).push(v@[i as int]@));
        }
        i += 1;
    }
    assert(v@.take(v.len() as int) =~= v@);
    r
}

/// The index the budget's kept range starts at.
fn budget_start_of(ts: &Vec<Turn>, budget: usize) -> (c: usize)
    ensures
        c == budget_start(turn_views(ts@), budget as nat),
        c <= ts.len(),
{
    let ghost v = turn_views(ts@);
    let n = ts.len();
    let mut i = n;
    let mut total: usize = 0;
    let mut done = false;
    while i > 0 && !done
        invariant
            i <= n == ts.len(),
            v == turn_views(ts@),
            v.len() == n,
            total == tail_cost(v, i as int),
            total <= budget,
            fit_start(v, budget as nat, n as int) == fit_start(v, budget as nat, i as int),
            done ==> fit_start(v, budget as nat, i as int) == i,
        decreases i + if done { 0int } else { 1int },
    {
        assert(v[i - 1] == ts@[i - 1]@);
        match cost_within(&ts[i - 1], budget - total) {
            Some(c) => {
                total = total + c;
                i = i - 1;
            },
            None => {
                done = true;
            },
        }
    }
    i
}

/// The index the kept turns start at.
fn keep_start_of(ts: &Vec<Turn>, budget: usize) -> (k: usize)
    ensures
        k == keep_start(turn_views(ts@), budget as nat),
        k <= ts.len(),
{
    let ghost v = turn_views(ts@);
    let c = budget_start_of(ts, budget);
    let mut k = c;
    let mut j = c;
    while j > 0
        invariant
            j <= c <= ts.len(),
            v == turn_views(ts@),
            k == pinned_from(v, j as int, c as int),
        decreases j,
    {
        j -= 1;
        assert(v[j as int] == ts@[j as int]@);
        if ts[j].pinned {
            k = j;
        }
    }
    proof {
        lemma_keep_start_bounds(v, budget as nat);
    }
    k
}

/// Render a transcript under `budget`.
fn render_turns(ts: &Vec<Turn>, budget: usize) -> (r: String)
    ensures
        r@ == rendered(turn_views(ts@), budget as nat),
{
    let ghost v = turn_views(ts@);
    if ts.len() == 0 {
        return owned("(start of conversation)");
    }
    let start = keep_start_of(ts, budget);
    let ghost tail = v.skip(start as int);
    let mut out = String::new();
    let mut i = start;
    assert(tail.take(0) =~= Seq::<TurnView>::empty());
    while i < ts.len()
        invariant
            start <= i <= ts.len(),
            v == turn_views(ts@),
            tail == v.skip(start as int),
            out@ == render_lines(tail.take(i - start)),
        decreases ts.len() - i,
    {
        let ghost before = out@;
        let t = &ts[i];
        proof {
            assert(tail.take(i + 1 - start).drop_last() =~= tail.take(i - start));
            assert(tail.take(i + 1 - start).last() == t@);
        }
        if is_shown(t) {
            push_str(&mut out, label_of(t.role));
            push_str(&mut out, ": ");
            push_str(&mut out, t.content.as_str());
            push_str(&mut out, "\n");
            proof {
                reveal_strlit("\n");
                assert(out@ =~= before + (turn_line(t@) + seq!['\n']));
            }
        } else {
            assert(out@ =~= before + Seq::<char>::empty());
        }
        i += 1;
    }
    assert(tail.take(ts.len() - start) =~= tail);
    out
}

/// The text to store for a recorded turn.
fn stored_text_of(text: &str) -> (r: Option<String>)
    ensures
        match r {
            Some(s) => stored_text(text@) == Some(s@),
            None => stored_text(text@) is None,
        },
{
    let t = trim_string(text);
    if t.as_str().is_empty() {
        return None;
    }
    if str_byte_len(t.as_str()) > MAX_TURN_CHARS {
        let p = truncate_chars(t.as_str(), MAX_TURN_CHARS);
        let mut out = owned(p);
        push_str(&mut out, "… [truncated]");
        return Some(out);
    }
    Some(t)
}

proof fn lemma_views_remove(s: Seq<Turn>, i: int)
    requires
        0 <= i < s.len(),
    ensures
        turn_views(s.remove(i)) == turn_views(s).remove(i),
{
    assert(turn_views(s.remove(i)) =~= turn_views(s).remove(i));
}

/// Drop the `k` oldest unpinned turns in place.
fn drop_unpinned_in(ts: &mut Vec<Turn>, k: usize)
    ensures
        turn_views(final(ts)@) == drop_unpinned(turn_views(old(ts)@), k as nat),
{
    let ghost orig = turn_views(ts@);
    let mut i: usize = 0;
    let mut left = k;
    assert(turn_views(ts@).take(0) + turn_views(ts@).skip(0) =~= orig);
    while i < ts.len()
        invariant
            i <= ts.len(),
            turn_views(ts@).take(i as int) + drop_unpinned(turn_views(ts@).skip(i as int), left as nat)
                == drop_unpinned(orig, k as nat),
        decreases ts.len() - i,
    {
        let ghost w = turn_views(ts@);
        let ghost before = ts@;
        assert(w.skip(i as int)[0] == ts@[i as int]@);
        assert(w.skip(i as int).skip(1) =~= w.skip(i + 1));
        if left > 0 && !ts[i].pinned {
            ts.remove(i);
            proof {
                lemma_views_remove(before, i as int);
                assert(turn_views(ts@).take(i as int) =~= w.take(i as int));
                assert(turn_views(ts@).skip(i as int) =~= w.skip(i + 1));
            }
            left = left - 1;
        } else {
            proof {
                assert(w.take(i + 1) =~= w.take(i as int) + seq![w[i as int]]);
                if left == 0 {
                    assert(w.take(i as int) + w.skip(i as int) =~= w.take(i + 1) + w.skip(i + 1));
                }
            }
            i += 1;
        }
    }
    assert(turn_views(ts@).skip(i as int) =~= Seq::<TurnView>::empty());
    assert(turn_views(ts@).take(i as int) =~= turn_views(ts@));
}


/// Record a turn of `text` into one transcript.
fn record_into(ts: &mut Vec<Turn>, user: bool, text: &str, budget: usize)
    ensures
        turn_views(final(ts)@) == after_record(turn_views(old(ts)@), user, text@, budget as nat),
{
    let ghost orig = turn_views(ts@);
    match stored_text_of(text) {
        None => {},
        Some(c) => {
            let role = if user {
                Role::User
            } else {
                Role::Assistant
            };
            let ghost cv = c@;
            let none: Vec<ToolCall> = Vec::new();
            assert(none@.map_values(|c: ToolCall| c@) =~= Seq::<ToolCallView>::empty());
            ts.push(Turn { role, content: c, pinned: false, tool_calls: none, tool_call_id: None });
            assert(turn_views(ts@) =~= orig.push(new_turn(user, cv)));
            if ts.len() > MAX_HISTORY_TURNS {
                let excess = ts.len() - MAX_HISTORY_TURNS;
                drop_unpinned_in(ts, excess);
            }
            let k = keep_start_of(ts, budget);
            if k > 0 {
                let tail = ts.split_off(k);
                *ts = tail;
            }
            proof {
                let t2 = capped_turns(orig.push(new_turn(user, cv)), MAX_HISTORY_TURNS as nat);
                assert(turn_views(ts@) =~= t2.skip(keep_start(t2, budget as nat)));
            }
        },
    }
}

// ---------------------------------------------------------------------
// The transcripts of a session
// ---------------------------------------------------------------------

/// Every transcript of a session, and the rendered-history budget they
/// share.
pub struct History {
    transcripts: StringHashMap<Vec<Turn>>,
    budget: usize,
}

impl History {
    /// The turns of the transcript `key`; none when it was never used.
    pub closed spec fn transcript(&self, key: Seq<char>) -> Seq<TurnView> {
        if self.transcripts@.contains_key(key) {
            turn_views(self.transcripts@[key]@)
        } else {
            Seq::empty()
        }
    }

    /// The rendered-history budget, in bytes.
    pub closed spec fn budget(&self) -> nat {
        self.budget as nat
    }

    /// An empty history with the default budget.
    pub fn new() -> (h: Self)
        ensures
            h.budget() == DEFAULT_HISTORY_CHAR_BUDGET,
            forall|k: Seq<char>| #[trigger] h.transcript(k) == Seq::<TurnView>::empty(),
    {
        History { transcripts: StringHashMap::new(), budget: DEFAULT_HISTORY_CHAR_BUDGET }
    }

    /// Set the budget; a value below [`MIN_HISTORY_CHAR_BUDGET`] is
    /// raised to it.
    pub fn set_history_budget(&mut self, chars: usize)
        ensures
            final(self).budget() == if chars < MIN_HISTORY_CHAR_BUDGET {
                MIN_HISTORY_CHAR_BUDGET as nat
            } else {
                chars as nat
            },
            forall|k: Seq<char>| #[trigger] final(self).transcript(k) == old(self).transcript(k),
    {
        self.budget = if chars < MIN_HISTORY_CHAR_BUDGET {
            MIN_HISTORY_CHAR_BUDGET
        } else {
            chars
        };
    }

    /// The budget.
    pub fn history_budget(&self) -> (b: usize)
        ensures
            b == self.budget(),
    {
        self.budget
    }

    fn turns_of(&self, key: &str) -> (r: Vec<Turn>)
        ensures
            turn_views(r@) == self.transcript(key@),
    {
        match self.transcripts.get(key) {
            Some(v) => copy_turns(v),
            None => Vec::new(),
        }
    }

    fn store(&mut self, key: &str, turns: Vec<Turn>)
        ensures
            final(self).transcript(key@) == turn_views(turns@),
            final(self).budget() == old(self).budget(),
            forall|k: Seq<char>| k != key@ ==> #[trigger] final(self).transcript(k) == old(
                self,
            ).transcript(k),
    {
        self.transcripts.insert(owned(key), turns);
    }

    /// Record a user (`user`) or assistant turn of `text` on `key`.
    pub fn record_turn_for(&mut self, key: &str, user: bool, text: &str)
        ensures
            final(self).transcript(key@) == after_record(
                old(self).transcript(key@),
                user,
                text@,
                old(self).budget(),
            ),
            final(self).budget() == old(self).budget(),
            forall|k: Seq<char>| k != key@ ==> #[trigger] final(self).transcript(k) == old(
                self,
            ).transcript(k),
    {
        let mut turns = self.turns_of(key);
        record_into(&mut turns, user, text, self.budget);
        self.store(key, turns);
    }

    /// Seed a turn, as after restoring a saved session; the same as
    /// recording one.
    pub fn seed_turn_for(&mut self, key: &str, user: bool, text: &str)
        ensures
            final(self).transcript(key@) == after_record(
                old(self).transcript(key@),
                user,
                text@,
                old(self).budget(),
            ),
            final(self).budget() == old(self).budget(),
            forall|k: Seq<char>| k != key@ ==> #[trigger] final(self).transcript(k) == old(
                self,
            ).transcript(k),
    {
        self.record_turn_for(key, user, text);
    }

    /// Append a tool round's structured messages to `key`.
    pub fn append_messages_for(&mut self, key: &str, msgs: Vec<Turn>)
        ensures
            final(self).transcript(key@) == after_append(
                old(self).transcript(key@),
                turn_views(msgs@),
            ),
            final(self).budget() == old(self).budget(),
            forall|k: Seq<char>| k != key@ ==> #[trigger] final(self).transcript(k) == old(
                self,
            ).transcript(k),
    {
        if msgs.len() == 0 {
            return;
        }
        let mut turns = self.turns_of(key);
        let ghost before = turns@;
        let mut m = msgs;
        turns.append(&mut m);
        assert(turn_views(turns@) =~= turn_views(before) + turn_views(msgs@));
        if turns.len() > MAX_HISTORY_TURNS {
            let drop = turns.len() - MAX_HISTORY_TURNS;
            let ghost all = turns@;
            let tail = turns.split_off(drop);
            turns = tail;
            assert(turn_views(turns@) =~= turn_views(all).skip(drop as int));
        }
        self.store(key, turns);
    }

    /// The transcript `key` rendered under the budget, one line per
    /// shown turn; `(start of conversation)` when it has no turns.
    pub fn render_history_for(&self, key: &str) -> (r: String)
        ensures
            r@ == rendered(self.transcript(key@), self.budget()),
    {
        match self.transcripts.get(key) {
            Some(v) => render_turns(v, self.budget),
            None => owned("(start of conversation)"),
        }
    }

    /// Pin or unpin the newest turn of `key` whose text is exactly
    /// `content`; whether there was one.
    pub fn set_turn_pinned_by_content(&mut self, key: &str, content: &str, pinned: bool) -> (found: bool)
        ensures
            found == newest_with(old(self).transcript(key@), content@) is Some,
            match newest_with(old(self).transcript(key@), content@) {
                Some(i) => final(self).transcript(key@) == old(self).transcript(key@).update(
                    i,
                    TurnView { pinned, ..old(self).transcript(key@)[i] },
                ),
                None => final(self).transcript(key@) == old(self).transcript(key@),
            },
            final(self).budget() == old(self).budget(),
            forall|k: Seq<char>| k != key@ ==> #[trigger] final(self).transcript(k) == old(
                self,
            ).transcript(k),
    {
        let mut turns = self.turns_of(key);
        let ghost v = turn_views(turns@);
        let mut i = turns.len();
        assert(v.take(i as int) =~= v);
        while i > 0
            invariant
                i <= turns.len(),
                v == turn_views(turns@),
                v == old(self).transcript(key@),
                *self == *old(self),
                newest_with(v, content@) == newest_with(v.take(i as int), content@),
            decreases i,
        {
            proof {
                assert(v.take(i as int).drop_last() =~= v.take(i - 1));
                assert(v.take(i as int).last() == turns@[i - 1]@);
            }
            if str_eq(turns[i - 1].content.as_str(), content) {
                let mut t = turns.remove(i - 1);
                t.pinned = pinned;
                turns.insert(i - 1, t);
                proof {
                    assert(turn_views(turns@) =~= v.update(
                        i - 1,
                        TurnView { pinned, ..v[i - 1] },
                    ));
                }
                self.store(key, turns);
                return true;
            }
            i -= 1;
        }
        assert(v.take(0) =~= Seq::<TurnView>::empty());
        false
    }

    /// Keep only the last `max_turns` turns of `key`.
    pub fn compact_history_for(&mut self, key: &str, max_turns: usize)
        ensures
            final(self).transcript(key@) == compacted(old(self).transcript(key@), max_turns as nat),
            final(self).budget() == old(self).budget(),
            forall|k: Seq<char>| k != key@ ==> #[trigger] final(self).transcript(k) == old(
                self,
            ).transcript(k),
    {
        let mut turns = self.turns_of(key);
        if turns.len() > max_turns {
            let drop = turns.len() - max_turns;
            let ghost all = turns@;
            let tail = turns.split_off(drop);
            assert(turn_views(tail@) =~= turn_views(all).skip(drop as int));
            self.store(key, tail);
        }
    }

    /// Forget the transcript `key`.
    pub fn clear_history_for(&mut self, key: &str)
        ensures
            final(self).transcript(key@) == Seq::<TurnView>::empty(),
            final(self).budget() == old(self).budget(),
            forall|k: Seq<char>| k != key@ ==> #[trigger] final(self).transcript(k) == old(
                self,
            ).transcript(k),
    {
        self.transcripts.remove(key);
    }

    /// The number of turns of `key`.
    pub fn turn_count_for(&self, key: &str) -> (n: usize)
        ensures
            n == self.transcript(key@).len(),
    {
        match self.transcripts.get(key) {
            Some(v) => v.len(),
            None => 0,
        }
    }
}

} // verus!
