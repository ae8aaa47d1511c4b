//! The decisions and texts of one tool round.
//!
//! The engine runs a round's calls, asks for approvals and answers, and
//! runs hooks and checks; those are outside work. What this module
//! holds is what the round decides around that work: what refuses a
//! call before it runs, what an approval or a question's answer turns
//! into, how each result is shown to the model and recorded, and the
//! structured messages the round leaves in the transcript.

use vstd::prelude::*;
use crate::history::{Role, Turn, TurnView};
use crate::hooks::{ToolCall, ToolCallView};
use crate::json::{
    clone_json, compact_text, get_array, get_array_of, get_str, get_str_of, json_compact, Json,
    JsonValue,
};
use crate::markers::ApprovalDecision;
use crate::session::{deny_key, DenyKey, SessionDeny};
use crate::summary::{capped_result, cap_rendered_result, result_summary, summarize_tool_result, ToolResult};
use crate::text::{decimal, owned, push_decimal, push_str, str_eq};

verus! {

/// Seconds the engine waits for an approval or an answer.
pub const AWAIT_APPROVAL_SECS: u64 = 120;

/// Bytes of a rendered result kept in the prompt block.
pub const RENDERED_RESULT_CAP: usize = 8000;

/// The label a transcript key runs its tool calls under: `session` for
/// the interactive transcript `""`, the key itself otherwise.
pub fn effective_holder(holder: &str) -> (r: &str)
    ensures
        r@ == if holder@.len() == 0 {
            "session"@
        } else {
            holder@
        },
{
    if holder.is_empty() {
        "session"
    } else {
        holder
    }
}

/// Tools that write files: their target is snapshotted before they
/// run, an approval shows their diff, and they trigger the checks.
pub open spec fn writes_file(name: Seq<char>) -> bool {
    name == "write_file"@ || name == "patch_file"@
}

/// Whether `name` is a file-writing tool.
pub fn is_file_write(name: &str) -> (r: bool)
    ensures
        r == writes_file(name@),
{
    str_eq(name, "write_file") || str_eq(name, "patch_file")
}

/// Tools whose call needs approval when the round's input is tainted.
pub open spec fn high_impact(name: Seq<char>) -> bool {
    name == "execute_command"@ || name == "write_file"@ || name == "patch_file"@ || name
        == "git_commit"@ || name == "git_branch_create"@
}

/// Whether `name` is a high-impact tool.
pub fn is_high_impact(name: &str) -> (r: bool)
    ensures
        r == high_impact(name@),
{
    str_eq(name, "execute_command") || str_eq(name, "write_file") || str_eq(name, "patch_file")
        || str_eq(name, "git_commit") || str_eq(name, "git_branch_create")
}

// ---------------------------------------------------------------------
// Refusals
// ---------------------------------------------------------------------

/// Why a call does not run: a failing pre-tool hook first, then a
/// refusal by policy or by the user.
pub open spec fn refusal(hook: Option<Seq<char>>, denial: Option<Seq<char>>) -> Option<Seq<char>> {
    match hook {
        Some(h) => Some("pre_tool_use hook denied this call: "@ + h),
        None => match denial {
            Some(d) => Some("write denied: "@ + d),
            None => None,
        },
    }
}

/// The error a refused call gets instead of running, if it is refused.
pub fn refusal_text(hook: Option<&str>, denial: Option<&str>) -> (r: Option<String>)
    ensures
        match r {
            Some(t) => refusal(
                match hook {
                    Some(h) => Some(h@),
                    None => None,
                },
                match denial {
                    Some(d) => Some(d@),
                    None => None,
                },
            ) == Some(t@),
            None => hook is None && denial is None,
        },
{
    match hook {
        Some(h) => {
            let mut out = owned("pre_tool_use hook denied this call: ");
            push_str(&mut out, h);
            Some(out)
        },
        None => match denial {
            Some(d) => {
                let mut out = owned("write denied: ");
                push_str(&mut out, d);
                Some(out)
            },
            None => None,
        },
    }
}

/// How a request for approval ended.
#[derive(Debug)]
pub enum ApprovalOutcome {
    Answered(ApprovalDecision),
    Cancelled,
    TimedOut,
}

/// The decision logged for an approval outcome.
pub open spec fn approval_log(o: ApprovalOutcome) -> Seq<char> {
    match o {
        ApprovalOutcome::Answered(ApprovalDecision::Approve) => "approve"@,
        ApprovalOutcome::Answered(ApprovalDecision::Deny) => "deny"@,
        ApprovalOutcome::Answered(ApprovalDecision::DenyAlways) => "deny-always"@,
        ApprovalOutcome::Cancelled => "cancelled"@,
        ApprovalOutcome::TimedOut => "timeout"@,
    }
}

/// Why the call is refused after an approval outcome; none when it was
/// approved.
pub open spec fn approval_refusal(o: ApprovalOutcome) -> Option<Seq<char>> {
    match o {
        ApprovalOutcome::Answered(ApprovalDecision::Approve) => None,
        ApprovalOutcome::Answered(_) => Some("denied by user"@),
        ApprovalOutcome::Cancelled => Some("approval cancelled"@),
        ApprovalOutcome::TimedOut => Some("no approval answer within timeout — denied"@),
    }
}

/// The decision to log for an approval outcome.
pub fn approval_log_text(o: &ApprovalOutcome) -> (r: &'static str)
    ensures
        r@ == approval_log(*o),
{
    match o {
        ApprovalOutcome::Answered(ApprovalDecision::Approve) => "approve",
        ApprovalOutcome::Answered(ApprovalDecision::Deny) => "deny",
        ApprovalOutcome::Answered(ApprovalDecision::DenyAlways) => "deny-always",
        ApprovalOutcome::Cancelled => "cancelled",
        ApprovalOutcome::TimedOut => "timeout",
    }
}

/// Why the call is refused after an approval outcome, if it is.
pub fn approval_refusal_text(o: &ApprovalOutcome) -> (r: Option<String>)
    ensures
        match r {
            Some(t) => approval_refusal(*o) == Some(t@),
            None => approval_refusal(*o) is None,
        },
{
    match o {
        ApprovalOutcome::Answered(ApprovalDecision::Approve) => None,
        ApprovalOutcome::Answered(_) => Some(owned("denied by user")),
        ApprovalOutcome::Cancelled => Some(owned("approval cancelled")),
        ApprovalOutcome::TimedOut => Some(owned("no approval answer within timeout — denied")),
    }
}

/// The "never" rule a deny-always answer adds for `call`: its tool, and
/// its `path` argument as the pattern when that is a string.
pub fn deny_rule_for(call: &ToolCall) -> (r: SessionDeny)
    ensures
        deny_key(r) == (call.tool_name@, get_str(call.arguments@, "path"@)),
{
    SessionDeny {
        tool: call.tool_name.clone(),
        path_pattern: match get_str_of(&call.arguments, "path") {
            Some(p) => Some(owned(p)),
            None => None,
        },
    }
}

/// The refusal of a call that needs approval when nothing can answer.
pub fn no_consumer_refusal() -> (r: String)
    ensures
        r@ == "policy requires approval but this execution path has no interactive consumer. Use the TUI, or install a permissive policy."@,
{
    owned(
        "policy requires approval but this execution path has no interactive consumer. Use the TUI, or install a permissive policy.",
    )
}

// ---------------------------------------------------------------------
// Questions
// ---------------------------------------------------------------------

/// How an `ask_user` question ended.
#[derive(Debug)]
pub enum QuestionOutcome {
    Answered(String),
    Cancelled,
    TimedOut,
    NoConsumer,
}

/// The answer a question's outcome becomes.
pub open spec fn question_answer(o: QuestionOutcome) -> Seq<char> {
    match o {
        QuestionOutcome::Answered(t) => t@,
        QuestionOutcome::Cancelled => "(question cancelled)"@,
        QuestionOutcome::TimedOut => "(no answer within "@ + decimal(AWAIT_APPROVAL_SECS as nat)
            + "s — the user is away)"@,
        QuestionOutcome::NoConsumer => "(ask_user requires an interactive consumer; use kod tui or kod chat)"@,
    }
}

/// The answer text for a question's outcome.
pub fn question_answer_text(o: QuestionOutcome) -> (r: String)
    ensures
        r@ == question_answer(o),
{
    match o {
        QuestionOutcome::Answered(t) => t,
        QuestionOutcome::Cancelled => owned("(question cancelled)"),
        QuestionOutcome::TimedOut => {
            let mut out = owned("(no answer within ");
            push_decimal(&mut out, AWAIT_APPROVAL_SECS);
            push_str(&mut out, "s — the user is away)");
            out
        },
        QuestionOutcome::NoConsumer => owned(
            "(ask_user requires an interactive consumer; use kod tui or kod chat)",
        ),
    }
}

/// The question an `ask_user` call asks: its `question` argument, or
/// `(no question)`.
pub fn question_of(call: &ToolCall) -> (r: String)
    ensures
        r@ == match get_str(call.arguments@, "question"@) {
            Some(q) => q,
            None => "(no question)"@,
        },
{
    match get_str_of(&call.arguments, "question") {
        Some(q) => owned(q),
        None => owned("(no question)"),
    }
}

/// The result an answered question stands for: `{"answer": <text>}`.
pub fn answer_result(answer: &str) -> (r: ToolResult)
    ensures
        r matches ToolResult::Success(v) && v@ == Json::Object(seq![("answer"@, Json::Str(answer@))]),
{
    let mut es: Vec<(String, JsonValue)> = Vec::new();
    es.push((owned("answer"), JsonValue::String(owned(answer))));
    let v = JsonValue::Object(es);
    proof {
        crate::summary::lemma_object_entries(es);
        assert(v@->Object_0 =~= seq![("answer"@, Json::Str(answer@))]);
    }
    ToolResult::Success(v)
}

// ---------------------------------------------------------------------
// Showing results
// ---------------------------------------------------------------------

/// A result as the model sees it in the round's prompt block: a file
/// listing summarized, other successes as capped JSON, errors and
/// confirmation requests as a line.
pub open spec fn prompt_rendering(name: Seq<char>, r: ToolResult) -> Seq<char> {
    match r {
        ToolResult::Success(v) => if name == "list_files"@ {
            result_summary(name, r)
        } else {
            capped_result(v@, RENDERED_RESULT_CAP as nat)
        },
        ToolResult::Error(e) => "error: "@ + e@,
        ToolResult::RequiresConfirmation { description } => "requires confirmation (auto-skipped in TUI): "@
            + description@,
    }
}

/// Render a result for the round's prompt block.
pub fn render_for_prompt(name: &str, result: &ToolResult) -> (r: String)
    ensures
        r@ == prompt_rendering(name@, *result),
{
    match result {
        ToolResult::Success(_) => {
            if str_eq(name, "list_files") {
                summarize_tool_result(name, result)
            } else {
                cap_rendered_result(result, RENDERED_RESULT_CAP)
            }
        },
        ToolResult::Error(e) => {
            let mut out = owned("error: ");
            push_str(&mut out, e.as_str());
            out
        },
        ToolResult::RequiresConfirmation { description } => {
            let mut out = owned("requires confirmation (auto-skipped in TUI): ");
            push_str(&mut out, description.as_str());
            out
        },
    }
}

/// The heading of a call's result in the prompt block:
/// `### <tool> <arguments as JSON>`.
pub fn result_heading(call: &ToolCall) -> (r: String)
    ensures
        r@ == "\n### "@ + call.tool_name@ + " "@ + json_compact(call.arguments@) + "\n"@,
{
    let mut out = owned("\n### ");
    push_str(&mut out, call.tool_name.as_str());
    push_str(&mut out, " ");
    push_str(&mut out, compact_text(&call.arguments).as_str());
    push_str(&mut out, "\n");
    out
}

/// A result as the text of its tool message in the transcript.
pub open spec fn message_text(r: ToolResult) -> Seq<char> {
    match r {
        ToolResult::Success(v) => json_compact(v@),
        ToolResult::Error(e) => "error: "@ + e@,
        ToolResult::RequiresConfirmation { description } => "requires confirmation: "@
            + description@,
    }
}

/// Render a result as its tool message's text.
pub fn tool_message_text(result: &ToolResult) -> (r: String)
    ensures
        r@ == message_text(*result),
{
    match result {
        ToolResult::Success(v) => compact_text(v),
        ToolResult::Error(e) => {
            let mut out = owned("error: ");
            push_str(&mut out, e.as_str());
            out
        },
        ToolResult::RequiresConfirmation { description } => {
            let mut out = owned("requires confirmation: ");
            push_str(&mut out, description.as_str());
            out
        },
    }
}

/// The id a call's result is linked by: the provider's, else `call_<i>`.
pub open spec fn linked_id(call: ToolCall, i: nat) -> Seq<char> {
    match call.id {
        Some(id) => id@,
        None => "call_"@ + decimal(i),
    }
}

/// The id of the `i`-th call of a round.
pub fn call_id(call: &ToolCall, i: usize) -> (r: String)
    ensures
        r@ == linked_id(*call, i as nat),
{
    match &call.id {
        Some(id) => id.clone(),
        None => {
            let mut out = owned("call_");
            push_decimal(&mut out, i as u64);
            out
        },
    }
}

/// The tool messages of a round, one per call: the result's text,
/// linked to the call's id.
pub open spec fn tool_turns(calls: Seq<ToolCall>, results: Seq<ToolResult>) -> Seq<TurnView> {
    Seq::new(
        calls.len(),
        |i: int|
            TurnView {
                role: Role::Tool,
                content: if i < results.len() {
                    message_text(results[i])
                } else {
                    Seq::empty()
                },
                pinned: false,
                tool_calls: Seq::empty(),
                tool_call_id: Some(linked_id(calls[i], i as nat)),
            },
    )
}

/// The calls as the round's assistant message carries them: each with
/// the id its result is linked by.
pub open spec fn linked_calls(calls: Seq<ToolCall>) -> Seq<ToolCallView> {
    Seq::new(
        calls.len(),
        |i: int|
            ToolCallView {
                id: Some(linked_id(calls[i], i as nat)),
                tool_name: calls[i].tool_name@,
                arguments: calls[i].arguments@,
            },
    )
}

/// The structured messages a round leaves: an assistant message carrying
/// the calls (when there are any), then one tool message per call.
pub open spec fn round_turns(calls: Seq<ToolCall>, results: Seq<ToolResult>) -> Seq<TurnView> {
    if calls.len() == 0 {
        Seq::empty()
    } else {
        seq![
            TurnView {
                role: Role::Assistant,
                content: Seq::empty(),
                pinned: false,
                tool_calls: linked_calls(calls),
                tool_call_id: None,
            },
        ] + tool_turns(calls, results)
    }
}

/// Each tool message of a round answers the call at the same position in
/// the round's assistant message: the call carries the id the message
/// names, with the call's own tool and arguments.
pub proof fn law_round_results_answer_carried_calls(
    calls: Seq<ToolCall>,
    results: Seq<ToolResult>,
    i: int,
)
    requires
        0 <= i < calls.len(),
    ensures
        round_turns(calls, results).len() == calls.len() + 1,
        round_turns(calls, results)[0].role == Role::Assistant,
        round_turns(calls, results)[0].tool_calls.len() == calls.len(),
        round_turns(calls, results)[i + 1].role == Role::Tool,
        round_turns(calls, results)[0].tool_calls[i].id == round_turns(calls, results)[i + 1].tool_call_id,
        round_turns(calls, results)[0].tool_calls[i].tool_name == calls[i].tool_name@,
        round_turns(calls, results)[0].tool_calls[i].arguments == calls[i].arguments@,
{
    let rt = round_turns(calls, results);
    assert(rt[i + 1] == tool_turns(calls, results)[i]);
}

/// The calls of a round, each carrying the id its result is linked by.
pub fn linked_calls_of(calls: &Vec<ToolCall>) -> (r: Vec<ToolCall>)
    ensures
        r@.map_values(|c: ToolCall| c@) == linked_calls(calls@),
{
    let mut r: Vec<ToolCall> = Vec::new();
    let mut i: usize = 0;
    while i < calls.len()
        invariant
            i <= calls.len(),
            r.len() == i,
            r@.map_values(|c: ToolCall| c@) == linked_calls(calls@).take(i as int),
        decreases calls.len() - i,
    {
        let c = ToolCall {
            id: Some(call_id(&calls[i], i)),
            tool_name: calls[i].tool_name.clone(),
            arguments: clone_json(&calls[i].arguments),
        };
        let ghost before = r@;
        r.push(c);
        proof {
            let lc = linked_calls(calls@);
            assert(r@ =~= before.push(r@[i as int]));
            assert(r@.map_values(|c: ToolCall| c@) =~= before.map_values(|c: ToolCall| c@).push(
                r@[i as int]@,
            ));
            assert(lc.take(i + 1) =~= lc.take(i as int).push(lc[i as int]));
        }
        i += 1;
    }
    assert(linked_calls(calls@).take(i as int) =~= linked_calls(calls@));
    r
}

/// Build the structured messages of a round.
pub fn round_messages(calls: &Vec<ToolCall>, results: &Vec<ToolResult>) -> (r: Vec<Turn>)
    ensures
        r@.map_values(|t: Turn| t@) == round_turns(calls@, results@),
{
    let mut out: Vec<Turn> = Vec::new();
    if calls.len() == 0 {
        assert(out@.map_values(|t: Turn| t@) =~= round_turns(calls@, results@));
        return out;
    }
    let carried = linked_calls_of(calls);
    out.push(
        Turn {
            role: Role::Assistant,
            content: String::new(),
            pinned: false,
            tool_calls: carried,
            tool_call_id: None,
        },
    );
    let ghost head = out@.map_values(|t: Turn| t@);
    let mut i: usize = 0;
    while i < calls.len()
        invariant
            i <= calls.len(),
            out@.len() == i + 1,
            head.len() == 1,
            out@.map_values(|t: Turn| t@) == head + tool_turns(calls@, results@).take(i as int),
        decreases calls.len() - i,
    {
        let text = if i < results.len() {
            tool_message_text(&results[i])
        } else {
            String::new()
        };
        let ghost before = out@.map_values(|t: Turn| t@);
        let none: Vec<ToolCall> = Vec::new();
        assert(none@.map_values(|c: ToolCall| c@) =~= Seq::<ToolCallView>::empty());
        out.push(
            Turn {
                role: Role::Tool,
                content: text,
                pinned: false,
                tool_calls: none,
                tool_call_id: Some(call_id(&calls[i], i)),
            },
        );
        proof {
            let tt = tool_turns(calls@, results@);
            assert(out@.map_values(|t: Turn| t@) =~= before.push(tt[i as int]));
            assert(tt.take(i + 1) =~= tt.take(i as int).push(tt[i as int]));
        }
        i += 1;
    }
    proof {
        let tt = tool_turns(calls@, results@);
        assert(tt.take(i as int) =~= tt);
        assert(out@.map_values(|t: Turn| t@) =~= round_turns(calls@, results@));
    }
    out
}


// ---------------------------------------------------------------------
// What a round records
// ---------------------------------------------------------------------

/// A result as the session log records it: `{"success": ..}`,
/// `{"error": ..}` or `{"requires_confirmation": ..}`.
pub open spec fn log_json(r: ToolResult) -> Json {
    match r {
        ToolResult::Success(v) => Json::Object(seq![("success"@, v@)]),
        ToolResult::Error(e) => Json::Object(seq![("error"@, Json::Str(e@))]),
        ToolResult::RequiresConfirmation { description } => Json::Object(
            seq![("requires_confirmation"@, Json::Str(description@))],
        ),
    }
}

/// The session-log form of a result.
pub fn result_log_json(result: &ToolResult) -> (r: JsonValue)
    ensures
        r@ == log_json(*result),
{
    let (k, v) = match result {
        ToolResult::Success(v) => (owned("success"), clone_json(v)),
        ToolResult::Error(e) => (owned("error"), JsonValue::String(e.clone())),
        ToolResult::RequiresConfirmation { description } => (
            owned("requires_confirmation"),
            JsonValue::String(description.clone()),
        ),
    };
    let mut es: Vec<(String, JsonValue)> = Vec::new();
    es.push((k, v));
    let r = JsonValue::Object(es);
    proof {
        crate::summary::lemma_object_entries(es);
        assert(r@->Object_0 =~= log_json(*result)->Object_0);
    }
    r
}

/// The strings of a JSON array, in order, skipping other values.
pub open spec fn strings_in(a: Seq<Json>) -> Seq<Seq<char>>
    decreases a.len(),
{
    if a.len() == 0 {
        Seq::empty()
    } else {
        strings_in(a.drop_last()) + match a.last() {
            Json::Str(s) => seq![s],
            _ => Seq::empty(),
        }
    }
}

/// What a successful `memory_save` wrote: the id it returned and the
/// string tags it returned; nothing for any other call or result, or a
/// result without an id.
pub open spec fn memory_write(name: Seq<char>, r: ToolResult) -> Option<(Seq<char>, Seq<Seq<char>>)> {
    match r {
        ToolResult::Success(v) => if name == "memory_save"@ {
            match get_str(v@, "id"@) {
                Some(id) => Some(
                    (
                        id,
                        match get_array(v@, "tags"@) {
                            Some(a) => strings_in(a),
                            None => Seq::empty(),
                        },
                    ),
                ),
                None => None,
            }
        } else {
            None
        },
        _ => None,
    }
}

fn strings_of(a: &Vec<JsonValue>) -> (r: Vec<String>)
    ensures
        r@.map_values(|s: String| s@) == strings_in(JsonValue::Array(*a)@->Array_0),
{
    let ghost m = JsonValue::Array(*a)@->Array_0;
    proof {
        crate::summary::lemma_array_model(*a);
    }
    let mut r: Vec<String> = Vec::new();
    let mut i: usize = 0;
    assert(m.take(0) =~= Seq::<Json>::empty());
    while i < a.len()
        invariant
            i <= a.len(),
            m == JsonValue::Array(*a)@->Array_0,
            m.len() == a@.len(),
            forall|j: int| 0 <= j < a@.len() ==> #[trigger] m[j] == a@[j]@,
            r@.map_values(|s: String| s@) == strings_in(m.take(i as int)),
        decreases a.len() - i,
    {
        let ghost before = r@.map_values(|s: String| s@);
        proof {
            assert(m.take(i + 1).drop_last() =~= m.take(i as int));
            assert(m.take(i + 1).last() == a@[i as int]@);
        }
        match &a[i] {
            JsonValue::String(s) => {
                r.push(s.clone());
                assert(r@.map_values(|s: String| s@) =~= before + seq![s@]);
            },
            _ => {
                assert(before + Seq::<Seq<char>>::empty() =~= before);
            },
        }
        i += 1;
    }
    assert(m.take(i as int) =~= m);
    r
}

/// The id and tags a successful `memory_save` call returned.
pub fn memory_write_of(name: &str, result: &ToolResult) -> (r: Option<(String, Vec<String>)>)
    ensures
        match r {
            Some((id, tags)) => memory_write(name@, *result) == Some(
                (id@, tags@.map_values(|s: String| s@)),
            ),
            None => memory_write(name@, *result) is None,
        },
{
    match result {
        ToolResult::Success(v) => {
            if !str_eq(name, "memory_save") {
                return None;
            }
            match get_str_of(v, "id") {
                Some(id) => {
                    let tags = match get_array_of(v, "tags") {
                        Some(a) => strings_of(a),
                        None => {
                            let e: Vec<String> = Vec::new();
                            assert(e@.map_values(|s: String| s@) =~= Seq::<Seq<char>>::empty());
                            e
                        },
                    };
                    Some((owned(id), tags))
                },
                None => None,
            }
        },
        _ => None,
    }
}

/// The paths a round wrote: for each file-writing call that succeeded
/// and names a `path`, that path, in call order.
pub open spec fn written_paths(calls: Seq<ToolCall>, results: Seq<ToolResult>) -> Seq<Seq<char>>
    decreases calls.len(),
{
    if calls.len() == 0 {
        Seq::empty()
    } else {
        let i = calls.len() - 1;
        let c = calls[i];
        written_paths(calls.drop_last(), results) + if writes_file(c.tool_name@) && i < results.len()
            && results[i] is Success {
            match get_str(c.arguments@, "path"@) {
                Some(p) => seq![p],
                None => Seq::empty(),
            }
        } else {
            Seq::empty()
        }
    }
}

/// The paths the round's successful file writes name.
pub fn written_paths_of(calls: &Vec<ToolCall>, results: &Vec<ToolResult>) -> (r: Vec<String>)
    ensures
        r@.map_values(|s: String| s@) == written_paths(calls@, results@),
{
    let mut r: Vec<String> = Vec::new();
    let mut i: usize = 0;
    assert(calls@.take(0) =~= Seq::<ToolCall>::empty());
    while i < calls.len()
        invariant
            i <= calls.len(),
            r@.map_values(|s: String| s@) == written_paths(calls@.take(i as int), results@),
        decreases calls.len() - i,
    {
        let ghost before = r@.map_values(|s: String| s@);
        proof {
            assert(calls@.take(i + 1).drop_last() =~= calls@.take(i as int));
            assert(calls@.take(i + 1)[i as int] == calls@[i as int]);
        }
        let c = &calls[i];
        let ok = i < results.len() && match &results[i] {
            ToolResult::Success(_) => true,
            _ => false,
        };
        if is_file_write(c.tool_name.as_str()) && ok {
            match get_str_of(&c.arguments, "path") {
                Some(p) => {
                    r.push(owned(p));
                    assert(r@.map_values(|s: String| s@) =~= before + seq![p@]);
                },
                None => {
                    assert(before + Seq::<Seq<char>>::empty() =~= before);
                },
            }
        } else {
            assert(before + Seq::<Seq<char>>::empty() =~= before);
        }
        i += 1;
    }
    assert(calls@.take(i as int) =~= calls@);
    r
}

// ---------------------------------------------------------------------
// Tool quotas
// ---------------------------------------------------------------------

/// How many calls of a tool are allowed per turn, per session and per
/// command; zero means no limit.
#[derive(Debug, Clone, Copy, PartialEq, Eq, Structural)]
pub struct ToolQuota {
    pub per_turn: u32,
    pub per_session: u32,
    pub per_command: u32,
}

/// Whether a quota limits anything.
pub open spec fn limits(q: ToolQuota) -> bool {
    q.per_turn > 0 || q.per_session > 0 || q.per_command > 0
}

/// The quota of the first entry named `name`.
pub open spec fn quota_entry(qs: Seq<(Seq<char>, ToolQuota)>, name: Seq<char>) -> Option<ToolQuota>
    decreases qs.len(),
{
    if qs.len() == 0 {
        None
    } else if qs[0].0 == name {
        Some(qs[0].1)
    } else {
        quota_entry(qs.drop_first(), name)
    }
}

/// The quota that applies to a tool: its own entry, else the `default`
/// entry, and only when it limits anything.
pub open spec fn applicable_quota(qs: Seq<(Seq<char>, ToolQuota)>, tool: Seq<char>) -> Option<ToolQuota> {
    let q = match quota_entry(qs, tool) {
        Some(q) => Some(q),
        None => quota_entry(qs, "default"@),
    };
    match q {
        Some(q) => if limits(q) {
            Some(q)
        } else {
            None
        },
        None => None,
    }
}

fn find_quota(qs: &Vec<(String, ToolQuota)>, name: &str) -> (r: Option<ToolQuota>)
    ensures
        r == quota_entry(qs@.map_values(|e: (String, ToolQuota)| (e.0@, e.1)), name@),
{
    let ghost qv = qs@.map_values(|e: (String, ToolQuota)| (e.0@, e.1));
    let mut i: usize = 0;
    assert(qv.skip(0) =~= qv);
    while i < qs.len()
        invariant
            i <= qs.len(),
            qv == qs@.map_values(|e: (String, ToolQuota)| (e.0@, e.1)),
            quota_entry(qv, name@) == quota_entry(qv.skip(i as int), name@),
        decreases qs.len() - i,
    {
        proof {
            assert(qv.skip(i as int)[0] == qv[i as int]);
            assert(qv.skip(i as int).drop_first() =~= qv.skip(i + 1));
        }
        if str_eq(qs[i].0.as_str(), name) {
            return Some(qs[i].1);
        }
        i += 1;
    }
    None
}

/// The quota that applies to a tool, from the configured quotas by tool
/// name.
pub fn quota_for(quotas: &Vec<(String, ToolQuota)>, tool: &str) -> (r: Option<ToolQuota>)
    ensures
        r == applicable_quota(quotas@.map_values(|e: (String, ToolQuota)| (e.0@, e.1)), tool@),
{
    let q = match find_quota(quotas, tool) {
        Some(q) => Some(q),
        None => find_quota(quotas, "default"),
    };
    match q {
        Some(q) => if q.per_turn > 0 || q.per_session > 0 || q.per_command > 0 {
            Some(q)
        } else {
            None
        },
        None => None,
    }
}

// ---------------------------------------------------------------------
// Approval requests
// ---------------------------------------------------------------------

/// One call put to the user for approval: the tool, its arguments, the
/// diff of the change when one is known, a one-line summary, and the
/// engine's approval id.
#[derive(Debug)]
pub struct ApprovalRequest {
    pub tool_name: String,
    pub arguments: JsonValue,
    pub diff: Option<String>,
    pub summary: String,
    pub id: Option<u64>,
}

/// The approvals of one round, put to the user together.
#[derive(Debug)]
pub struct ApprovalBatch {
    pub items: Vec<ApprovalRequest>,
}

/// The approval request for a call: its tool and arguments, the given
/// diff and id, and the call's one-line summary.
pub fn approval_request(call: &ToolCall, diff: Option<String>, id: u64) -> (r: ApprovalRequest)
    ensures
        r.tool_name@ == call.tool_name@,
        r.arguments@ == call.arguments@,
        r.diff == diff,
        r.summary@ == crate::summary::call_brief(call.tool_name@, call.arguments@),
        r.id == Some(id),
{
    ApprovalRequest {
        tool_name: owned(call.tool_name.as_str()),
        arguments: clone_json(&call.arguments),
        diff,
        summary: crate::summary::format_call_brief(call.tool_name.as_str(), &call.arguments),
        id: Some(id),
    }
}

/// Where the diff shown with an approval comes from.
pub enum DiffSource {
    /// The patch the call carries (`patch_file`), empty when it carries
    /// none.
    Patch(String),
    /// The file's saved content against the content the call would
    /// write (`write_file`), empty new content when the call has none.
    Rewrite(String),
    /// No diff for other tools.
    Nothing,
}

/// What the diff for an approval is made from, for a call whose target
/// was snapshotted.
pub open spec fn diff_source(name: Seq<char>, args: Json) -> (u8, Seq<char>) {
    if name == "write_file"@ {
        (1, match get_str(args, "content"@) {
            Some(c) => c,
            None => Seq::empty(),
        })
    } else if name == "patch_file"@ {
        (0, match get_str(args, "patch"@) {
            Some(p) => p,
            None => Seq::empty(),
        })
    } else {
        (2, Seq::empty())
    }
}

/// What the diff for an approval is made from.
pub fn approval_diff_source(call: &ToolCall) -> (r: DiffSource)
    ensures
        match r {
            DiffSource::Patch(p) => diff_source(call.tool_name@, call.arguments@) == (0u8, p@),
            DiffSource::Rewrite(c) => diff_source(call.tool_name@, call.arguments@) == (1u8, c@),
            DiffSource::Nothing => diff_source(call.tool_name@, call.arguments@).0 == 2,
        },
{
    if str_eq(call.tool_name.as_str(), "write_file") {
        match get_str_of(&call.arguments, "content") {
            Some(c) => DiffSource::Rewrite(owned(c)),
            None => DiffSource::Rewrite(String::new()),
        }
    } else if str_eq(call.tool_name.as_str(), "patch_file") {
        match get_str_of(&call.arguments, "patch") {
            Some(p) => DiffSource::Patch(owned(p)),
            None => DiffSource::Patch(String::new()),
        }
    } else {
        DiffSource::Nothing
    }
}

// ---------------------------------------------------------------------
// The policy gate
// ---------------------------------------------------------------------

/// What the policy decides of a call.
#[derive(Debug, Clone, Copy, PartialEq, Eq, Structural)]
pub enum PolicyOutcome {
    Allow,
    Deny,
    Ask,
}

/// A policy decision: its outcome and the rule that gave it.
#[derive(Debug)]
pub struct PolicyDecision {
    pub outcome: PolicyOutcome,
    pub rule: String,
}

/// The label the session log records for an outcome.
pub fn policy_outcome_label(o: PolicyOutcome) -> (r: &'static str)
    ensures
        r@ == match o {
            PolicyOutcome::Allow => "allow"@,
            PolicyOutcome::Deny => "deny"@,
            PolicyOutcome::Ask => "ask"@,
        },
{
    proof {
        reveal_strlit("allow");
        reveal_strlit("deny");
        reveal_strlit("ask");
    }
    match o {
        PolicyOutcome::Allow => "allow",
        PolicyOutcome::Deny => "deny",
        PolicyOutcome::Ask => "ask",
    }
}

/// Whether a call must be put to the user whatever the policy says: the
/// round is tainted and the tool is high-impact.
pub fn taint_requires_approval(tainting: bool, tool_name: &str) -> (r: bool)
    ensures
        r == (tainting && high_impact(tool_name@)),
{
    tainting && is_high_impact(tool_name)
}

/// The rule recorded when taint forces a call to be asked about.
pub open spec fn taint_rule(tool_name: Seq<char>, level: Seq<char>) -> Seq<char> {
    "taint escalation: "@ + tool_name + " under "@ + level
}

/// The decision taint forces on a high-impact call: ask, by the taint
/// rule; `level` is the round's trust level as its name prints.
pub fn taint_decision(tool_name: &str, level: &str) -> (r: PolicyDecision)
    ensures
        r.outcome == PolicyOutcome::Ask,
        r.rule@ == taint_rule(tool_name@, level@),
{
    let mut rule = owned("taint escalation: ");
    push_str(&mut rule, tool_name);
    push_str(&mut rule, " under ");
    push_str(&mut rule, level);
    PolicyDecision { outcome: PolicyOutcome::Ask, rule }
}

/// The calls denied, with the rule that denied each, in order.
pub open spec fn denied_calls(ds: Seq<PolicyDecision>) -> Seq<(nat, Seq<char>)>
    decreases ds.len(),
{
    if ds.len() == 0 {
        Seq::empty()
    } else {
        denied_calls(ds.drop_last()) + if ds.last().outcome == PolicyOutcome::Deny {
            seq![((ds.len() - 1) as nat, ds.last().rule@)]
        } else {
            Seq::empty()
        }
    }
}

/// The calls to put to the user, in order.
pub open spec fn asked_calls(ds: Seq<PolicyDecision>) -> Seq<nat>
    decreases ds.len(),
{
    if ds.len() == 0 {
        Seq::empty()
    } else {
        asked_calls(ds.drop_last()) + if ds.last().outcome == PolicyOutcome::Ask {
            seq![(ds.len() - 1) as nat]
        } else {
            Seq::empty()
        }
    }
}

/// Split a round's decisions, one per call in order, into the calls
/// denied (with the rule) and the calls to ask about; the rest run.
pub fn gate_round(decisions: &Vec<PolicyDecision>) -> (r: (Vec<(usize, String)>, Vec<usize>))
    ensures
        r.0@.map_values(|d: (usize, String)| (d.0 as nat, d.1@)) == denied_calls(decisions@),
        r.1@.map_values(|i: usize| i as nat) == asked_calls(decisions@),
{
    let mut denied: Vec<(usize, String)> = Vec::new();
    let mut asked: Vec<usize> = Vec::new();
    let mut i: usize = 0;
    while i < decisions.len()
        invariant
            i <= decisions.len(),
            denied@.map_values(|d: (usize, String)| (d.0 as nat, d.1@)) == denied_calls(decisions@.take(i as int)),
            asked@.map_values(|j: usize| j as nat) == asked_calls(decisions@.take(i as int)),
        decreases decisions.len() - i,
    {
        let ghost d0 = denied@.map_values(|d: (usize, String)| (d.0 as nat, d.1@));
        let ghost a0 = asked@.map_values(|j: usize| j as nat);
        proof {
            assert(decisions@.take(i + 1).drop_last() =~= decisions@.take(i as int));
            assert(decisions@.take(i + 1).last() == decisions@[i as int]);
        }
        match decisions[i].outcome {
            PolicyOutcome::Allow => {
                assert(d0 + Seq::<(nat, Seq<char>)>::empty() =~= d0);
                assert(a0 + Seq::<nat>::empty() =~= a0);
            },
            PolicyOutcome::Deny => {
                denied.push((i, owned(decisions[i].rule.as_str())));
                assert(denied@.map_values(|d: (usize, String)| (d.0 as nat, d.1@)) =~= d0 + seq![(i as nat, decisions@[i as int].rule@)]);
                assert(a0 + Seq::<nat>::empty() =~= a0);
            },
            PolicyOutcome::Ask => {
                asked.push(i);
                assert(asked@.map_values(|j: usize| j as nat) =~= a0 + seq![i as nat]);
                assert(d0 + Seq::<(nat, Seq<char>)>::empty() =~= d0);
            },
        }
        i += 1;
    }
    assert(decisions@.take(decisions.len() as int) =~= decisions@);
    (denied, asked)
}

/// Each call is sorted one way only: a call is denied exactly when
/// its decision denies it, and asked about exactly when its decision
/// asks.
pub proof fn law_each_call_is_gated_once(ds: Seq<PolicyDecision>)
    ensures
        forall|i: nat| i < ds.len() ==> (asked_calls(ds).contains(i) <==> ds[i as int].outcome == PolicyOutcome::Ask),
        forall|i: nat| i < ds.len() ==> ((exists|k: int| 0 <= k < denied_calls(ds).len() && #[trigger] denied_calls(ds)[k].0 == i)
            <==> ds[i as int].outcome == PolicyOutcome::Deny),
        forall|k: int| 0 <= k < asked_calls(ds).len() ==> asked_calls(ds)[k] < ds.len(),
        forall|k: int| 0 <= k < denied_calls(ds).len() ==> denied_calls(ds)[k].0 < ds.len(),
    decreases ds.len(),
{
    if ds.len() > 0 {
        let init = ds.drop_last();
        law_each_call_is_gated_once(init);
        let n = (ds.len() - 1) as nat;
        let a0 = asked_calls(init);
        let d0 = denied_calls(init);
        let a = asked_calls(ds);
        let d = denied_calls(ds);
        assert forall|i: nat| i < ds.len() implies (a.contains(i) <==> ds[i as int].outcome == PolicyOutcome::Ask) by {
            if i < n {
                assert(ds[i as int] == init[i as int]);
                if a0.contains(i) {
                    let k = choose|k: int| 0 <= k < a0.len() && a0[k] == i;
                    assert(a[k] == i);
                }
                if a.contains(i) {
                    let k = choose|k: int| 0 <= k < a.len() && a[k] == i;
                    if k < a0.len() {
                        assert(a0[k] == i);
                    }
                }
            } else {
                if ds.last().outcome == PolicyOutcome::Ask {
                    assert(a[a0.len() as int] == n);
                } else {
                    assert(a =~= a0);
                }
            }
        }
        assert forall|i: nat| i < ds.len() implies ((exists|k: int| 0 <= k < d.len() && #[trigger] d[k].0 == i)
            <==> ds[i as int].outcome == PolicyOutcome::Deny) by {
            if i < n {
                assert(ds[i as int] == init[i as int]);
                if exists|k: int| 0 <= k < d0.len() && #[trigger] d0[k].0 == i {
                    let k = choose|k: int| 0 <= k < d0.len() && #[trigger] d0[k].0 == i;
                    assert(d[k] == d0[k]);
                }
                if exists|k: int| 0 <= k < d.len() && #[trigger] d[k].0 == i {
                    let k = choose|k: int| 0 <= k < d.len() && #[trigger] d[k].0 == i;
                    if k < d0.len() {
                        assert(d0[k] == d[k]);
                    }
                }
            } else {
                if ds.last().outcome == PolicyOutcome::Deny {
                    assert(d[d0.len() as int].0 == n);
                } else {
                    assert(d =~= d0);
                }
            }
        }
        assert forall|k: int| 0 <= k < a.len() implies a[k] < ds.len() by {
            if k < a0.len() {
                assert(a[k] == a0[k]);
            }
        }
        assert forall|k: int| 0 <= k < d.len() implies d[k].0 < ds.len() by {
            if k < d0.len() {
                assert(d[k] == d0[k]);
            }
        }
    }
}

} // verus!
