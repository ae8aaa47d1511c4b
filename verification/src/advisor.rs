//! The advisor's side of each question the engine puts to the decision
//! model: when a question is worth asking, what text it carries, and
//! what the engine makes of the answers.
//!
//! The model call itself is outside work. Where its answer is a
//! probability, the engine compares it with the configured threshold and
//! hands the outcome here as a `bool`; a failed call is `None`.

use vstd::prelude::*;
use crate::jev::{build_state, preview_chars, preview_text, state_value};
use crate::diagnostics::Diagnostic;
use crate::history::{Role, Turn};
use crate::hooks::ToolCall;
use crate::summary::ToolResult;
use crate::json::{compact_text, get, json_compact, json_get, Json, JsonValue};
use crate::plan::find_char_in;
use crate::triage::{hunk_views, MAX_HUNKS, MAX_LINES_TO_SCORE, MAX_RESULTS_TO_RANK};
use crate::text::{
    after_prefix, byte_len, chars_of, starts_with, copy_range, decimal, find_char, find_seq, find_seq_in, join,
    lemma_find_seq, trim, trim_string, lines, lines_of, push_joined_first, string_of, owned, parse_u64, parse_u64_str, push_decimal, push_str, str_byte_len,
    str_eq, strip_prefix_str,
};

verus! {

// ---------------------------------------------------------------------
// When a question is worth asking
// ---------------------------------------------------------------------

/// Shortest request and reply, in bytes, that the decision extractor
/// looks at.
pub const MIN_DECISION_EXCHANGE_BYTES: usize = 30;

/// Whether an exchange is long enough on both sides to carry a durable
/// decision.
pub fn decision_check_wanted(input: &str, reply: &str) -> (r: bool)
    ensures
        r == (byte_len(input@) >= MIN_DECISION_EXCHANGE_BYTES && byte_len(reply@)
            >= MIN_DECISION_EXCHANGE_BYTES),
{
    str_byte_len(input) >= MIN_DECISION_EXCHANGE_BYTES && str_byte_len(reply)
        >= MIN_DECISION_EXCHANGE_BYTES
}

/// Fastest tool call, in milliseconds, whose outcome is classified when
/// it did not fail.
pub const MIN_CLASSIFY_MS: u64 = 100;

/// Whether a finished tool call's outcome is worth classifying: it failed,
/// or it took long enough to matter.
pub fn outcome_worth_classifying(duration_ms: u64, failed: bool) -> (r: bool)
    ensures
        r == (failed || duration_ms >= MIN_CLASSIFY_MS),
{
    failed || duration_ms >= MIN_CLASSIFY_MS
}

/// The outcome and impact recorded when the classifier gave no answer:
/// a failure or a success by the call's own result, of minor impact.
pub fn heuristic_outcome(failed: bool) -> (r: (&'static str, &'static str))
    ensures
        r.0@ == (if failed { "failure"@ } else { "success"@ }),
        r.1@ == "minor"@,
{
    proof {
        reveal_strlit("failure");
        reveal_strlit("success");
        reveal_strlit("minor");
    }
    if failed {
        ("failure", "minor")
    } else {
        ("success", "minor")
    }
}

/// Shortest reply, in bytes, whose quality is checked.
pub const MIN_QUALITY_CHECK_BYTES: usize = 200;

/// Whether a reply is long enough to have its quality checked.
pub fn quality_check_wanted(response: &str) -> (r: bool)
    ensures
        r == (byte_len(response@) >= MIN_QUALITY_CHECK_BYTES),
{
    str_byte_len(response) >= MIN_QUALITY_CHECK_BYTES
}

/// Shortest request, in bytes, that is checked for ambiguity.
pub const MIN_AMBIGUITY_CHECK_BYTES: usize = 10;

/// Whether a request is long enough to be checked for ambiguity.
pub fn ambiguity_check_wanted(input: &str) -> (r: bool)
    ensures
        r == (byte_len(input@) >= MIN_AMBIGUITY_CHECK_BYTES),
{
    str_byte_len(input) >= MIN_AMBIGUITY_CHECK_BYTES
}

// ---------------------------------------------------------------------
// Deciding from the answers
// ---------------------------------------------------------------------

/// Whether a call is approved without asking: the user would almost
/// certainly approve it, and its risk is neither destructive nor
/// irreversible.
pub open spec fn approves_itself(likely: bool, risk: Option<Seq<char>>) -> bool {
    likely && !(risk == Some("destructive"@) || risk == Some("irreversible"@))
}

/// Whether a call is approved without asking; `risk` is the risk label
/// the model gave, if it gave one.
pub fn auto_approved(likely: bool, risk: Option<&str>) -> (r: bool)
    ensures
        r == approves_itself(likely, match risk {
            Some(s) => Some(s@),
            None => None,
        }),
{
    if !likely {
        return false;
    }
    match risk {
        Some(s) => !(str_eq(s, "destructive") || str_eq(s, "irreversible")),
        None => true,
    }
}

/// How a command runs with respect to the OS sandbox.
#[derive(Debug, Clone, Copy, PartialEq, Eq, Structural)]
pub enum SandboxMode {
    Disabled,
    Auto,
    Require,
}

/// The sandbox mode for one command: only `Auto` is negotiable; there a
/// command the model rates `safe` or `network_risk` runs unsandboxed and
/// any other rating, or none, keeps `Auto`.
pub open spec fn sandbox_mode(configured: SandboxMode, risk: Option<Seq<char>>) -> SandboxMode {
    if configured != SandboxMode::Auto {
        configured
    } else if risk == Some("safe"@) || risk == Some("network_risk"@) {
        SandboxMode::Disabled
    } else {
        SandboxMode::Auto
    }
}

/// The sandbox mode for one command, from the configured mode and the
/// model's risk rating of the command, if it gave one.
pub fn sandbox_mode_for(configured: SandboxMode, risk: Option<&str>) -> (r: SandboxMode)
    ensures
        r == sandbox_mode(configured, match risk {
            Some(s) => Some(s@),
            None => None,
        }),
{
    match configured {
        SandboxMode::Auto => {},
        _ => return configured,
    }
    match risk {
        Some(s) => if str_eq(s, "safe") || str_eq(s, "network_risk") {
            SandboxMode::Disabled
        } else {
            SandboxMode::Auto
        },
        None => SandboxMode::Auto,
    }
}

/// The code a sandbox mode is stored as.
pub open spec fn mode_code(m: SandboxMode) -> u8 {
    match m {
        SandboxMode::Disabled => 0,
        SandboxMode::Require => 1,
        SandboxMode::Auto => 2,
    }
}

/// The mode a stored code stands for; an unknown code reads as
/// `Disabled`.
pub open spec fn code_mode(c: u8) -> SandboxMode {
    if c == 1 {
        SandboxMode::Require
    } else if c == 2 {
        SandboxMode::Auto
    } else {
        SandboxMode::Disabled
    }
}

/// The engine's sandbox mode, stored as a one-byte code.
pub struct SandboxSetting {
    code: u8,
}

impl SandboxSetting {
    /// The mode the setting holds.
    pub closed spec fn mode(&self) -> SandboxMode {
        code_mode(self.code)
    }

    /// A new setting: `Auto`.
    pub fn new() -> (s: Self)
        ensures
            s.mode() == SandboxMode::Auto,
    {
        SandboxSetting { code: 2 }
    }

    /// Set the sandbox mode.
    pub fn set_sandbox_mode(&mut self, mode: SandboxMode)
        ensures
            final(self).mode() == mode,
    {
        self.code = match mode {
            SandboxMode::Disabled => 0,
            SandboxMode::Require => 1,
            SandboxMode::Auto => 2,
        };
    }

    /// The current sandbox mode.
    pub fn sandbox_setting(&self) -> (m: SandboxMode)
        ensures
            m == self.mode(),
    {
        if self.code == 1 {
            SandboxMode::Require
        } else if self.code == 2 {
            SandboxMode::Auto
        } else {
            SandboxMode::Disabled
        }
    }
}

/// Reading a stored mode gives back the mode that was stored.
pub proof fn law_stored_mode_reads_back(m: SandboxMode)
    ensures
        code_mode(mode_code(m)) == m,
{
}

/// Whether a stream is cut short, and why.
#[derive(Debug, Clone, Copy, PartialEq, Eq, Structural)]
pub enum EarlyTermination {
    /// The stream goes on.
    Continue,
    Complete,
    OffTrack,
}

/// Whether to stop the stream early: off-track beats complete when
/// both hold.
pub open spec fn verdict(complete: bool, off_track: bool) -> EarlyTermination {
    if off_track {
        EarlyTermination::OffTrack
    } else if complete {
        EarlyTermination::Complete
    } else {
        EarlyTermination::Continue
    }
}

/// The early-termination verdict from the two answers, each already
/// held against the threshold.
pub fn early_verdict(complete: bool, off_track: bool) -> (r: EarlyTermination)
    ensures
        r == verdict(complete, off_track),
{
    if off_track {
        EarlyTermination::OffTrack
    } else if complete {
        EarlyTermination::Complete
    } else {
        EarlyTermination::Continue
    }
}

/// The label the session log records for a verdict.
pub fn verdict_label(v: EarlyTermination) -> (r: &'static str)
    ensures
        r@ == match v {
            EarlyTermination::Continue => "none"@,
            EarlyTermination::Complete => "complete"@,
            EarlyTermination::OffTrack => "off_track"@,
        },
{
    proof {
        reveal_strlit("none");
        reveal_strlit("complete");
        reveal_strlit("off_track");
    }
    match v {
        EarlyTermination::Continue => "none",
        EarlyTermination::Complete => "complete",
        EarlyTermination::OffTrack => "off_track",
    }
}

/// Whether a partial response holds at least one sentence end or line
/// break; before that no early termination is considered.
pub open spec fn has_sentence_end(s: Seq<char>) -> bool {
    exists|i: int| 0 <= i < s.len() && (s[i] == '.' || s[i] == '!' || s[i] == '?' || s[i] == '\n')
}

/// Whether a partial response holds at least one sentence end.
pub fn ends_a_sentence(s: &str) -> (r: bool)
    ensures
        r == has_sentence_end(s@),
{
    let v = crate::text::chars_of(s);
    let mut i: usize = 0;
    while i < v.len()
        invariant
            i <= v.len(),
            v@ == s@,
            forall|j: int| 0 <= j < i ==> !(v@[j] == '.' || v@[j] == '!' || v@[j] == '?' || v@[j] == '\n'),
        decreases v.len() - i,
    {
        let c = v[i];
        if c == '.' || c == '!' || c == '?' || c == '\n' {
            return true;
        }
        i += 1;
    }
    false
}

/// Every this many chunks the stream is checked for early termination.
pub const EARLY_CHECK_EVERY_CHUNKS: usize = 5;

/// Shortest accumulated response, in bytes, that is checked.
pub const EARLY_CHECK_MIN_BYTES: usize = 400;

/// Whether the stream is due an early-termination check after
/// `chunk_count` chunks with `len` bytes gathered.
pub fn early_check_due(chunk_count: usize, len: usize) -> (r: bool)
    ensures
        r == (chunk_count % EARLY_CHECK_EVERY_CHUNKS == 0 && len >= EARLY_CHECK_MIN_BYTES),
{
    chunk_count % EARLY_CHECK_EVERY_CHUNKS == 0 && len >= EARLY_CHECK_MIN_BYTES
}

/// A change of phase, from the earlier phase to the current one, when
/// the two differ and the model is confident of both.
pub open spec fn phase_change(prev: Seq<char>, now: Seq<char>, confident: bool) -> Option<(Seq<char>, Seq<char>)> {
    if prev == now || !confident {
        None
    } else {
        Some((prev, now))
    }
}

/// The phase change the model reports, if it is one.
pub fn phase_change_of(prev: String, now: String, confident: bool) -> (r: Option<(String, String)>)
    ensures
        match r {
            Some((a, b)) => phase_change(prev@, now@, confident) == Some((a@, b@)),
            None => phase_change(prev@, now@, confident) is None,
        },
{
    if str_eq(prev.as_str(), now.as_str()) || !confident {
        None
    } else {
        Some((prev, now))
    }
}

// ---------------------------------------------------------------------
// The texts the questions carry
// ---------------------------------------------------------------------

/// The state for classifying a streamed chunk: the request and the last
/// 500 characters gathered.
pub open spec fn chunk_state(request: Seq<char>, tail: Seq<char>) -> Seq<char> {
    "User request: "@ + request + "\n\nRecent buffer: "@ + preview_text(tail, 500)
}

/// The state text for classifying a streamed chunk.
pub fn chunk_state_text(request: &str, tail: &str) -> (r: String)
    ensures
        r@ == chunk_state(request@, tail@),
{
    let mut out = owned("User request: ");
    push_str(&mut out, request);
    push_str(&mut out, "\n\nRecent buffer: ");
    let p = preview_chars(tail, 500);
    push_str(&mut out, p.as_str());
    out
}

/// The state for the decision extractor: both sides of the exchange, 400
/// characters each.
pub open spec fn exchange_state(input: Seq<char>, reply: Seq<char>) -> Seq<char> {
    "User request: "@ + preview_text(input, 400) + "\n\nAssistant reply: "@ + preview_text(reply, 400)
}

/// The state text for the decision extractor.
pub fn exchange_state_text(input: &str, reply: &str) -> (r: String)
    ensures
        r@ == exchange_state(input@, reply@),
{
    let mut out = owned("User request: ");
    let a = preview_chars(input, 400);
    push_str(&mut out, a.as_str());
    push_str(&mut out, "\n\nAssistant reply: ");
    let b = preview_chars(reply, 400);
    push_str(&mut out, b.as_str());
    out
}

/// The text a recorded decision keeps: 150 characters of each side.
pub open spec fn decision_record(input: Seq<char>, reply: Seq<char>) -> Seq<char> {
    preview_text(input, 150) + " → "@ + preview_text(reply, 150)
}

/// The text a recorded decision keeps.
pub fn decision_text(input: &str, reply: &str) -> (r: String)
    ensures
        r@ == decision_record(input@, reply@),
{
    let mut out = preview_chars(input, 150);
    push_str(&mut out, " → ");
    let b = preview_chars(reply, 150);
    push_str(&mut out, b.as_str());
    out
}

/// The kind of a durable decision.
#[derive(Debug, Clone, Copy, PartialEq, Eq, Structural)]
pub enum DecisionKind {
    UserPreference,
    Approach,
    FileChange,
    Constraint,
    Other,
}

/// The kind a label names; `Other` for any other label or none.
pub open spec fn kind_of(label: Option<Seq<char>>) -> DecisionKind {
    if label == Some("user_preference"@) {
        DecisionKind::UserPreference
    } else if label == Some("approach"@) {
        DecisionKind::Approach
    } else if label == Some("file_change"@) {
        DecisionKind::FileChange
    } else if label == Some("constraint"@) {
        DecisionKind::Constraint
    } else {
        DecisionKind::Other
    }
}

/// The kind of decision the model's label names.
pub fn decision_kind(label: Option<&str>) -> (r: DecisionKind)
    ensures
        r == kind_of(match label {
            Some(s) => Some(s@),
            None => None,
        }),
{
    match label {
        Some(s) => if str_eq(s, "user_preference") {
            DecisionKind::UserPreference
        } else if str_eq(s, "approach") {
            DecisionKind::Approach
        } else if str_eq(s, "file_change") {
            DecisionKind::FileChange
        } else if str_eq(s, "constraint") {
            DecisionKind::Constraint
        } else {
            DecisionKind::Other
        },
        None => DecisionKind::Other,
    }
}

/// The question asked of one skill.
pub open spec fn skill_prompt(name: Seq<char>, description: Seq<char>) -> Seq<char> {
    "Is this skill relevant to the user's request? Skill: "@ + name + " — "@ + preview_text(
        description,
        300,
    )
}

/// The question asked of one skill: its name and 300 characters of its
/// description.
pub fn skill_question(name: &str, description: &str) -> (r: String)
    ensures
        r@ == skill_prompt(name@, description@),
{
    let mut out = owned("Is this skill relevant to the user's request? Skill: ");
    push_str(&mut out, name);
    push_str(&mut out, " — ");
    let d = preview_chars(description, 300);
    push_str(&mut out, d.as_str());
    out
}

/// The state for the quality check: the request and the whole reply.
pub open spec fn quality_state(request: Seq<char>, response: Seq<char>) -> Seq<char> {
    "User request: "@ + request + "\n\nAssistant response: "@ + response
}

/// The state text for the quality check.
pub fn quality_state_text(request: &str, response: &str) -> (r: String)
    ensures
        r@ == quality_state(request@, response@),
{
    let mut out = owned("User request: ");
    push_str(&mut out, request);
    push_str(&mut out, "\n\nAssistant response: ");
    push_str(&mut out, response);
    out
}

/// The note appended to a reply the quality check flags, with the
/// model's confidence that the reply answers the request, in whole
/// percent.
pub open spec fn quality_note(percent: nat) -> Seq<char> {
    "\n\n---\n\n*Note: Jev flagged this reply as possibly off-track                  (confidence the response answers the request: "@
        + decimal(percent) + "%). If it missed                  the point, /regenerate to try again.*"@
}

/// The note appended to a flagged reply.
pub fn quality_note_text(percent: u64) -> (r: String)
    ensures
        r@ == quality_note(percent as nat),
{
    let mut out = owned(
        "\n\n---\n\n*Note: Jev flagged this reply as possibly off-track                  (confidence the response answers the request: ",
    );
    push_decimal(&mut out, percent);
    push_str(&mut out, "%). If it missed                  the point, /regenerate to try again.*");
    out
}

/// The question put to the user about a possibly ambiguous request.
pub open spec fn ambiguity_prompt(input: Seq<char>) -> Seq<char> {
    "Your request may be ambiguous. Add any missing context, or press Enter to continue as-is:\n\n> "@
        + input
}

/// The question put to the user about a possibly ambiguous request.
pub fn ambiguity_question(input: &str) -> (r: String)
    ensures
        r@ == ambiguity_prompt(input@),
{
    let mut out = owned(
        "Your request may be ambiguous. Add any missing context, or press Enter to continue as-is:\n\n> ",
    );
    push_str(&mut out, input);
    out
}

/// The request after the user's clarification: an answer that is not
/// empty and not a cancellation is appended; otherwise the request stands.
pub open spec fn clarified(input: Seq<char>, answer: Option<Seq<char>>) -> Seq<char> {
    match answer {
        Some(a) => if a.len() > 0 && a != "(cancelled)"@ && a != "(question cancelled)"@ {
            input + "\n\nAdditional clarification from user: "@ + a
        } else {
            input
        },
        None => input,
    }
}

/// The request after the user's clarification; `answer` is `None` when
/// the user gave none in time.
pub fn clarified_input(input: &str, answer: Option<&str>) -> (r: String)
    ensures
        r@ == clarified(input@, match answer {
            Some(a) => Some(a@),
            None => None,
        }),
{
    match answer {
        Some(a) => {
            if !a.is_empty() && !str_eq(a, "(cancelled)") && !str_eq(a, "(question cancelled)") {
                let mut out = owned(input);
                push_str(&mut out, "\n\nAdditional clarification from user: ");
                push_str(&mut out, a);
                out
            } else {
                owned(input)
            }
        },
        None => owned(input),
    }
}

/// The state for the early-termination check.
pub open spec fn progress_state(request: Seq<char>, so_far: Seq<char>) -> Seq<char> {
    "User request: "@ + request + "\nResponse so far: "@ + so_far
}

/// The state text for the early-termination check.
pub fn progress_state_text(request: &str, so_far: &str) -> (r: String)
    ensures
        r@ == progress_state(request@, so_far@),
{
    let mut out = owned("User request: ");
    push_str(&mut out, request);
    push_str(&mut out, "\nResponse so far: ");
    push_str(&mut out, so_far);
    out
}

/// The state for one approval: the request, the tool, and its arguments
/// as compact JSON.
pub open spec fn approval_state(request: Seq<char>, tool: Seq<char>, args: Seq<char>) -> Seq<char> {
    "User request: "@ + request + "\nTool: "@ + tool + "\nArguments: "@ + args
}

/// The state text for one approval; `args` is the arguments' compact
/// JSON text.
pub fn approval_state_text(request: &str, tool: &str, args: &str) -> (r: String)
    ensures
        r@ == approval_state(request@, tool@, args@),
{
    let mut out = owned("User request: ");
    push_str(&mut out, request);
    push_str(&mut out, "\nTool: ");
    push_str(&mut out, tool);
    push_str(&mut out, "\nArguments: ");
    push_str(&mut out, args);
    out
}

/// The question asked of a memory entry.
pub open spec fn memory_prompt(text: Seq<char>) -> Seq<char> {
    "Is this memory entry relevant to the request? Entry: "@ + preview_text(text, 400)
}

/// The question asked of a memory entry: 400 characters of it.
pub fn memory_question(text: &str) -> (r: String)
    ensures
        r@ == memory_prompt(text@),
{
    let mut out = owned("Is this memory entry relevant to the request? Entry: ");
    let p = preview_chars(text, 400);
    push_str(&mut out, p.as_str());
    out
}

/// The answer given in the user's place when the context already holds
/// it: the request itself, marked as such.
pub open spec fn context_answer(request: Seq<char>) -> Seq<char> {
    "(Jev answered from context — the request already specified this.) "@ + request
}

/// The answer given in the user's place.
pub fn context_answer_text(request: &str) -> (r: String)
    ensures
        r@ == context_answer(request@),
{
    let mut out = owned("(Jev answered from context — the request already specified this.) ");
    push_str(&mut out, request);
    out
}

// ---------------------------------------------------------------------
// Answers keyed by question id
// ---------------------------------------------------------------------

/// The index an id carries after `prefix`, as `str::parse::<usize>`
/// reads it.
pub open spec fn id_index(id: Seq<char>, prefix: Seq<char>) -> Option<nat> {
    match after_prefix(id, prefix) {
        Some(rest) => match parse_u64(rest) {
            Some(v) => if v <= usize::MAX {
                Some(v as nat)
            } else {
                None
            },
            None => None,
        },
        None => None,
    }
}

/// `s.parse::<usize>()`.
fn parse_index(s: &str) -> (r: Option<usize>)
    ensures
        match r {
            Some(v) => parse_u64(s@) == Some(v as u64),
            None => parse_u64(s@) is None || parse_u64(s@).unwrap() > usize::MAX,
        },
{
    match parse_u64_str(s) {
        Some(v) => if v <= usize::MAX as u64 {
            Some(v as usize)
        } else {
            None
        },
        None => None,
    }
}

/// The index an id carries after `prefix`.
fn index_of_id(id: &str, prefix: &str) -> (r: Option<usize>)
    ensures
        match r {
            Some(v) => id_index(id@, prefix@) == Some(v as nat),
            None => id_index(id@, prefix@) is None,
        },
{
    match strip_prefix_str(id, prefix) {
        Some(rest) => parse_index(rest),
        None => None,
    }
}

/// Whether some answer marked `true` carries index `i` after `prefix`.
pub open spec fn marked(answers: Seq<(Seq<char>, bool)>, prefix: Seq<char>, i: nat) -> bool {
    exists|k: int| 0 <= k < answers.len() && (#[trigger] answers[k]).1 && id_index(answers[k].0, prefix) == Some(i)
}

/// The views of answers keyed by id.
pub open spec fn answer_views(answers: Seq<(String, bool)>) -> Seq<(Seq<char>, bool)> {
    answers.map_values(|a: (String, bool)| (a.0@, a.1))
}

fn is_marked(answers: &Vec<(String, bool)>, prefix: &str, i: usize) -> (r: bool)
    ensures
        r == marked(answer_views(answers@), prefix@, i as nat),
{
    let ghost av = answer_views(answers@);
    let mut k: usize = 0;
    while k < answers.len()
        invariant
            k <= answers.len(),
            av == answer_views(answers@),
            forall|j: int| 0 <= j < k ==> !((#[trigger] av[j]).1 && id_index(av[j].0, prefix@) == Some(i as nat)),
        decreases answers.len() - k,
    {
        if answers[k].1 {
            match index_of_id(answers[k].0.as_str(), prefix) {
                Some(v) => if v == i {
                    assert(av[k as int].1 && id_index(av[k as int].0, prefix@) == Some(i as nat));
                    return true;
                },
                None => {},
            }
        }
        k += 1;
    }
    false
}

/// The indices below `n` that no `true` answer marks, in order.
pub open spec fn unmarked_below(answers: Seq<(Seq<char>, bool)>, prefix: Seq<char>, n: nat) -> Seq<nat>
    decreases n,
{
    if n == 0 {
        Seq::empty()
    } else {
        let rest = unmarked_below(answers, prefix, (n - 1) as nat);
        if marked(answers, prefix, (n - 1) as nat) {
            rest
        } else {
            rest.push((n - 1) as nat)
        }
    }
}

/// Which of `n` new diagnostics are still held new. Each answer is the
/// question's id (`diag_<i>`) and whether the model scored the
/// diagnostic below the threshold, that is, as a shifted duplicate of a
/// baseline one. An index that no answer dismisses stays new.
pub fn still_new_diagnostics(n: usize, dismissed: &Vec<(String, bool)>) -> (r: Vec<usize>)
    ensures
        r@.map_values(|i: usize| i as nat) == unmarked_below(answer_views(dismissed@), "diag_"@, n as nat),
{
    let mut out: Vec<usize> = Vec::new();
    let mut i: usize = 0;
    while i < n
        invariant
            i <= n,
            out@.map_values(|j: usize| j as nat) == unmarked_below(answer_views(dismissed@), "diag_"@, i as nat),
        decreases n - i,
    {
        let ghost before = out@.map_values(|j: usize| j as nat);
        if !is_marked(dismissed, "diag_", i) {
            out.push(i);
            assert(out@.map_values(|j: usize| j as nat) =~= before.push(i as nat));
        }
        i += 1;
    }
    out
}

/// Indices below `n` that no `true` answer marks are exactly those kept:
/// an index the model did not dismiss, or did not answer for, stays.
pub proof fn law_undismissed_indices_stay(answers: Seq<(Seq<char>, bool)>, prefix: Seq<char>, n: nat)
    ensures
        forall|i: nat| i < n ==> (unmarked_below(answers, prefix, n).contains(i) <==> !marked(answers, prefix, i)),
        forall|k: int| 0 <= k < unmarked_below(answers, prefix, n).len() ==> unmarked_below(answers, prefix, n)[k] < n,
    decreases n,
{
    if n > 0 {
        law_undismissed_indices_stay(answers, prefix, (n - 1) as nat);
        let rest = unmarked_below(answers, prefix, (n - 1) as nat);
        assert forall|i: nat| i < n implies (unmarked_below(answers, prefix, n).contains(i) <==> !marked(answers, prefix, i)) by {
            if i < n - 1 {
                if !marked(answers, prefix, (n - 1) as nat) {
                    let p = rest.push((n - 1) as nat);
                    if rest.contains(i) {
                        let k = choose|k: int| 0 <= k < rest.len() && rest[k] == i;
                        assert(p[k] == i);
                    }
                    if p.contains(i) {
                        let k = choose|k: int| 0 <= k < p.len() && p[k] == i;
                        if k < rest.len() {
                            assert(rest[k] == i);
                        }
                    }
                }
            } else {
                if !marked(answers, prefix, (n - 1) as nat) {
                    assert(rest.push((n - 1) as nat)[rest.len() as int] == i);
                } else {
                    assert(!rest.contains(i));
                }
            }
        }
    }
}

/// The pair of subtask indices an id `pair_<i>_<j>` names.
pub open spec fn pair_of(id: Seq<char>) -> Option<(nat, nat)> {
    match after_prefix(id, "pair_"@) {
        Some(rest) => match find_char(rest, '_') {
            Some(k) => match (parse_u64(rest.take(k)), parse_u64(rest.skip(k + 1))) {
                (Some(a), Some(b)) => if a <= usize::MAX && b <= usize::MAX {
                    Some((a as nat, b as nat))
                } else {
                    None
                },
                _ => None,
            },
            None => None,
        },
        None => None,
    }
}

/// The pairs the model holds to collide, in the order of its answers.
pub open spec fn colliding(answers: Seq<(Seq<char>, bool)>) -> Seq<(nat, nat)>
    decreases answers.len(),
{
    if answers.len() == 0 {
        Seq::empty()
    } else {
        colliding(answers.drop_last()) + match pair_of(answers.last().0) {
            Some(p) => if answers.last().1 {
                seq![p]
            } else {
                Seq::empty()
            },
            None => Seq::empty(),
        }
    }
}

fn pair_from_id(id: &str) -> (r: Option<(usize, usize)>)
    ensures
        match r {
            Some((a, b)) => pair_of(id@) == Some((a as nat, b as nat)),
            None => pair_of(id@) is None,
        },
{
    let rest = match strip_prefix_str(id, "pair_") {
        Some(r) => r,
        None => return None,
    };
    let v = chars_of(rest);
    let k = match find_char_in(&v, '_') {
        Some(k) => k,
        None => return None,
    };
    proof {
        crate::text::lemma_find_char(v@, '_');
    }
    let a = rest.substring_char(0, k);
    let b = rest.substring_char(k + 1, v.len());
    proof {
        assert(a@ =~= rest@.take(k as int));
        assert(b@ =~= rest@.skip(k + 1));
    }
    match (parse_index(a), parse_index(b)) {
        (Some(i), Some(j)) => Some((i, j)),
        _ => None,
    }
}

/// The subtask pairs the model holds to touch the same file. Each answer
/// is the question's id (`pair_<i>_<j>`) and whether the model scored it
/// at or above the threshold.
pub fn colliding_pairs(answers: &Vec<(String, bool)>) -> (r: Vec<(usize, usize)>)
    ensures
        r@.map_values(|p: (usize, usize)| (p.0 as nat, p.1 as nat)) == colliding(answer_views(answers@)),
{
    let ghost av = answer_views(answers@);
    let mut out: Vec<(usize, usize)> = Vec::new();
    let mut k: usize = 0;
    while k < answers.len()
        invariant
            k <= answers.len(),
            av == answer_views(answers@),
            out@.map_values(|p: (usize, usize)| (p.0 as nat, p.1 as nat)) == colliding(av.take(k as int)),
        decreases answers.len() - k,
    {
        let ghost before = out@.map_values(|p: (usize, usize)| (p.0 as nat, p.1 as nat));
        proof {
            assert(av.take(k + 1).drop_last() =~= av.take(k as int));
            assert(av.take(k + 1).last() == av[k as int]);
        }
        match pair_from_id(answers[k].0.as_str()) {
            Some(p) => {
                if answers[k].1 {
                    out.push(p);
                    assert(out@.map_values(|p: (usize, usize)| (p.0 as nat, p.1 as nat)) =~= before
                        + seq![(p.0 as nat, p.1 as nat)]);
                } else {
                    assert(before + Seq::<(nat, nat)>::empty() =~= before);
                }
            },
            None => {
                assert(before + Seq::<(nat, nat)>::empty() =~= before);
            },
        }
        k += 1;
    }
    assert(av.take(answers.len() as int) =~= av);
    out
}

/// Whether some answer for `id` keeps it.
pub open spec fn kept_id(answers: Seq<(Seq<char>, bool)>, id: Seq<char>) -> bool {
    exists|k: int| 0 <= k < answers.len() && (#[trigger] answers[k]).0 == id && answers[k].1
}

/// The entries some answer keeps, in order.
pub open spec fn entries_kept(entries: Seq<(Seq<char>, Seq<char>)>, answers: Seq<(Seq<char>, bool)>) -> Seq<(Seq<char>, Seq<char>)>
    decreases entries.len(),
{
    if entries.len() == 0 {
        Seq::empty()
    } else {
        entries_kept(entries.drop_last(), answers) + if kept_id(answers, entries.last().0) {
            seq![entries.last()]
        } else {
            Seq::empty()
        }
    }
}

/// The memory entries that stay in the prompt: all of them when the
/// model gave no answers, else those it kept, or all of them again when
/// it kept none.
pub open spec fn memory_kept(entries: Seq<(Seq<char>, Seq<char>)>, answers: Option<Seq<(Seq<char>, bool)>>) -> Seq<(Seq<char>, Seq<char>)> {
    match answers {
        None => entries,
        Some(a) => if entries_kept(entries, a).len() == 0 {
            entries
        } else {
            entries_kept(entries, a)
        },
    }
}

/// The views of `(id, text)` entries.
pub open spec fn entry_views(entries: Seq<(String, String)>) -> Seq<(Seq<char>, Seq<char>)> {
    entries.map_values(|e: (String, String)| (e.0@, e.1@))
}

fn keeps_id(answers: &Vec<(String, bool)>, id: &str) -> (r: bool)
    ensures
        r == kept_id(answer_views(answers@), id@),
{
    let ghost av = answer_views(answers@);
    let mut k: usize = 0;
    while k < answers.len()
        invariant
            k <= answers.len(),
            av == answer_views(answers@),
            forall|j: int| 0 <= j < k ==> !((#[trigger] av[j]).0 == id@ && av[j].1),
        decreases answers.len() - k,
    {
        if answers[k].1 && str_eq(answers[k].0.as_str(), id) {
            assert(av[k as int].0 == id@ && av[k as int].1);
            return true;
        }
        k += 1;
    }
    false
}

/// The memory entries that stay in the prompt. Each answer is an
/// entry's id and whether the model scored it at or above the
/// threshold; `None` when the model could not be asked.
pub fn kept_memory_entries(entries: Vec<(String, String)>, answers: Option<&Vec<(String, bool)>>) -> (r: Vec<(String, String)>)
    ensures
        entry_views(r@) == memory_kept(entry_views(entries@), match answers {
            Some(a) => Some(answer_views(a@)),
            None => None,
        }),
{
    let a = match answers {
        Some(a) => a,
        None => return entries,
    };
    let ghost ev = entry_views(entries@);
    let mut out: Vec<(String, String)> = Vec::new();
    let mut i: usize = 0;
    while i < entries.len()
        invariant
            i <= entries.len(),
            ev == entry_views(entries@),
            entry_views(out@) == entries_kept(ev.take(i as int), answer_views(a@)),
        decreases entries.len() - i,
    {
        let ghost before = entry_views(out@);
        proof {
            assert(ev.take(i + 1).drop_last() =~= ev.take(i as int));
            assert(ev.take(i + 1).last() == ev[i as int]);
        }
        if keeps_id(a, entries[i].0.as_str()) {
            out.push((entries[i].0.clone(), entries[i].1.clone()));
            assert(entry_views(out@) =~= before + seq![ev[i as int]]);
        } else {
            assert(before + Seq::<(Seq<char>, Seq<char>)>::empty() =~= before);
        }
        i += 1;
    }
    assert(ev.take(entries.len() as int) =~= ev);
    if out.len() == 0 {
        entries
    } else {
        out
    }
}

/// A filter of memory entries never leaves the prompt without memory:
/// when some entry was offered, some entry stays, and every entry that
/// stays was offered.
pub proof fn law_memory_filter_never_empties(entries: Seq<(Seq<char>, Seq<char>)>, answers: Option<Seq<(Seq<char>, bool)>>)
    ensures
        entries.len() > 0 ==> memory_kept(entries, answers).len() > 0,
        forall|k: int| 0 <= k < memory_kept(entries, answers).len() ==> entries.contains(
            #[trigger] memory_kept(entries, answers)[k],
        ),
{
    if let Some(a) = answers {
        lemma_entries_kept_from(entries, a);
    }
}

proof fn lemma_entries_kept_from(entries: Seq<(Seq<char>, Seq<char>)>, answers: Seq<(Seq<char>, bool)>)
    ensures
        forall|k: int| 0 <= k < entries_kept(entries, answers).len() ==> entries.contains(
            #[trigger] entries_kept(entries, answers)[k],
        ),
    decreases entries.len(),
{
    if entries.len() > 0 {
        let init = entries.drop_last();
        lemma_entries_kept_from(init, answers);
        let rest = entries_kept(init, answers);
        assert forall|k: int| 0 <= k < entries_kept(entries, answers).len() implies entries.contains(
            #[trigger] entries_kept(entries, answers)[k],
        ) by {
            if k < rest.len() {
                assert(entries_kept(entries, answers)[k] == rest[k]);
                let j = choose|j: int| 0 <= j < init.len() && init[j] == rest[k];
                assert(entries[j] == init[j]);
            } else {
                assert(entries_kept(entries, answers)[k] == entries.last());
                assert(entries[entries.len() - 1] == entries.last());
            }
        }
    }
}

// ---------------------------------------------------------------------
// Skills and approval groups
// ---------------------------------------------------------------------

/// At most this many skills are scored in one round-trip.
pub const MAX_SKILLS: usize = 30;

/// The router's matched skills with each relevant skill among the first
/// `n` added once, in order.
pub open spec fn merged_skills(base: Seq<Seq<char>>, names: Seq<Seq<char>>, relevant: Seq<bool>, n: nat) -> Seq<Seq<char>>
    decreases n,
{
    if n == 0 {
        base
    } else {
        let m = merged_skills(base, names, relevant, (n - 1) as nat);
        if n - 1 < relevant.len() && relevant[n - 1] && !m.contains(names[n - 1]) {
            m.push(names[n - 1])
        } else {
            m
        }
    }
}

/// The number of skills scored out of `count`.
pub open spec fn scored_count(count: nat) -> nat {
    if count < MAX_SKILLS {
        count
    } else {
        MAX_SKILLS as nat
    }
}

/// The views of a vector of strings.
pub open spec fn string_views(v: Seq<String>) -> Seq<Seq<char>> {
    v.map_values(|s: String| s@)
}

fn contains_text(v: &Vec<String>, t: &str) -> (r: bool)
    ensures
        r == string_views(v@).contains(t@),
{
    let ghost sv = string_views(v@);
    let mut k: usize = 0;
    while k < v.len()
        invariant
            k <= v.len(),
            sv == string_views(v@),
            forall|j: int| 0 <= j < k ==> sv[j] != t@,
        decreases v.len() - k,
    {
        if str_eq(v[k].as_str(), t) {
            assert(sv[k as int] == t@);
            return true;
        }
        k += 1;
    }
    false
}

/// The skills offered for a request: the router's matches, then each of
/// the first [`MAX_SKILLS`] loaded skills that the model scored relevant
/// (`relevant[i]`, at or above the threshold) and that is not already
/// there.
pub fn merge_skills(router_match: &Vec<String>, names: &Vec<String>, relevant: &Vec<bool>) -> (r: Vec<String>)
    ensures
        string_views(r@) == merged_skills(
            string_views(router_match@),
            string_views(names@),
            relevant@,
            scored_count(names@.len()),
        ),
{
    let mut out: Vec<String> = Vec::new();
    let mut j: usize = 0;
    while j < router_match.len()
        invariant
            j <= router_match.len(),
            string_views(out@) == string_views(router_match@).take(j as int),
        decreases router_match.len() - j,
    {
        let ghost before = string_views(out@);
        out.push(router_match[j].clone());
        proof {
            assert(string_views(out@) =~= before.push(router_match@[j as int]@));
            assert(string_views(router_match@).take(j + 1) =~= string_views(router_match@).take(
                j as int,
            ).push(router_match@[j as int]@));
        }
        j += 1;
    }
    proof {
        assert(string_views(router_match@).take(j as int) =~= string_views(router_match@));
    }
    let n = if names.len() < MAX_SKILLS { names.len() } else { MAX_SKILLS };
    let ghost nv = string_views(names@);
    let mut i: usize = 0;
    while i < n
        invariant
            i <= n,
            n == scored_count(names@.len()),
            n <= names.len(),
            nv == string_views(names@),
            string_views(out@) == merged_skills(string_views(router_match@), nv, relevant@, i as nat),
        decreases n - i,
    {
        if i < relevant.len() && relevant[i] && !contains_text(&out, names[i].as_str()) {
            let ghost before = string_views(out@);
            out.push(names[i].clone());
            assert(string_views(out@) =~= before.push(nv[i as int]));
        }
        i += 1;
    }
    out
}

/// Merging skills keeps the router's matches first and in order, adds
/// every scored skill the model held relevant, and adds nothing else.
pub proof fn law_merge_keeps_matches_and_adds_relevant(
    base: Seq<Seq<char>>,
    names: Seq<Seq<char>>,
    relevant: Seq<bool>,
    n: nat,
)
    requires
        n <= names.len(),
    ensures
        merged_skills(base, names, relevant, n).take(base.len() as int) == base,
        base.len() <= merged_skills(base, names, relevant, n).len(),
        forall|i: int| 0 <= i < n && i < relevant.len() && relevant[i] ==> merged_skills(base, names, relevant, n).contains(
            #[trigger] names[i],
        ),
        forall|k: int| base.len() <= k < merged_skills(base, names, relevant, n).len() ==> exists|i: int|
            0 <= i < n && i < relevant.len() && relevant[i] && names[i] == #[trigger] merged_skills(
                base,
                names,
                relevant,
                n,
            )[k],
    decreases n,
{
    if n > 0 {
        law_merge_keeps_matches_and_adds_relevant(base, names, relevant, (n - 1) as nat);
        let m = merged_skills(base, names, relevant, (n - 1) as nat);
        let r = merged_skills(base, names, relevant, n);
        if n - 1 < relevant.len() && relevant[n - 1] && !m.contains(names[n - 1]) {
            assert(r.take(base.len() as int) =~= m.take(base.len() as int));
            assert(r[m.len() as int] == names[n - 1]);
        }
        assert forall|i: int| 0 <= i < n && i < relevant.len() && relevant[i] implies r.contains(#[trigger] names[i]) by {
            if i < n - 1 {
                let k = choose|k: int| 0 <= k < m.len() && m[k] == names[i];
                assert(r[k] == m[k]);
            } else if !m.contains(names[n - 1]) {
                assert(r[m.len() as int] == names[n - 1]);
            }
        }
        assert forall|k: int| base.len() <= k < r.len() implies exists|i: int|
            0 <= i < n && i < relevant.len() && relevant[i] && names[i] == #[trigger] r[k] by {
            if k < m.len() {
                assert(r[k] == m[k]);
                let i = choose|i: int| 0 <= i < n - 1 && i < relevant.len() && relevant[i] && names[i] == m[k];
                assert(names[i] == r[k]);
            } else {
                assert(names[n - 1] == r[k]);
            }
        }
    }
}

/// The index of the first group with `label`.
pub open spec fn group_index(gs: Seq<(Seq<char>, Seq<nat>)>, label: Seq<char>) -> Option<int>
    decreases gs.len(),
{
    if gs.len() == 0 {
        None
    } else {
        match group_index(gs.drop_last(), label) {
            Some(k) => Some(k),
            None => if gs.last().0 == label {
                Some(gs.len() - 1)
            } else {
                None
            },
        }
    }
}

/// The groups after call `i` is put in the group of its label.
pub open spec fn add_to_group(gs: Seq<(Seq<char>, Seq<nat>)>, label: Seq<char>, i: nat) -> Seq<(Seq<char>, Seq<nat>)> {
    match group_index(gs, label) {
        Some(k) => gs.update(k, (label, gs[k].1.push(i))),
        None => gs.push((label, seq![i])),
    }
}

/// The calls grouped by the label the model gave each, groups in order
/// of first appearance, calls in order within a group.
pub open spec fn label_groups(labels: Seq<Seq<char>>) -> Seq<(Seq<char>, Seq<nat>)>
    decreases labels.len(),
{
    if labels.len() == 0 {
        Seq::empty()
    } else {
        add_to_group(label_groups(labels.drop_last()), labels.last(), (labels.len() - 1) as nat)
    }
}

/// The approval groups: none for fewer than two calls.
pub open spec fn approval_groups(call_count: nat, labels: Seq<Seq<char>>) -> Seq<(Seq<char>, Seq<nat>)> {
    if call_count < 2 {
        Seq::empty()
    } else {
        label_groups(labels)
    }
}

/// The views of label groups.
pub open spec fn group_views(gs: Seq<(String, Vec<usize>)>) -> Seq<(Seq<char>, Seq<nat>)> {
    gs.map_values(|g: (String, Vec<usize>)| (g.0@, g.1@.map_values(|i: usize| i as nat)))
}

fn find_group(gs: &Vec<(String, Vec<usize>)>, label: &str) -> (r: Option<usize>)
    ensures
        match r {
            Some(k) => k < gs.len() && group_index(group_views(gs@), label@) == Some(k as int),
            None => group_index(group_views(gs@), label@) is None,
        },
{
    let ghost gv = group_views(gs@);
    let mut k: usize = 0;
    while k < gs.len()
        invariant
            k <= gs.len(),
            gv == group_views(gs@),
            group_index(gv.take(k as int), label@) is None,
        decreases gs.len() - k,
    {
        proof {
            assert(gv.take(k + 1).drop_last() =~= gv.take(k as int));
        }
        if str_eq(gs[k].0.as_str(), label) {
            proof {
                lemma_group_index_prefix(gv, label@, k + 1);
            }
            return Some(k);
        }
        k += 1;
    }
    assert(gv.take(gs.len() as int) =~= gv);
    None
}

proof fn lemma_group_index_found(gs: Seq<(Seq<char>, Seq<nat>)>, label: Seq<char>)
    ensures
        group_index(gs, label) matches Some(k) ==> 0 <= k < gs.len() && gs[k].0 == label,
    decreases gs.len(),
{
    if gs.len() > 0 {
        lemma_group_index_found(gs.drop_last(), label);
    }
}

proof fn lemma_group_index_prefix(gs: Seq<(Seq<char>, Seq<nat>)>, label: Seq<char>, n: int)
    requires
        0 < n <= gs.len(),
        group_index(gs.take(n - 1), label) is None,
        gs[n - 1].0 == label,
    ensures
        group_index(gs, label) == Some(n - 1),
    decreases gs.len() - n,
{
    assert(gs.take(n).drop_last() =~= gs.take(n - 1));
    if n < gs.len() {
        lemma_group_index_prefix_extends(gs, label, n);
    } else {
        assert(gs.take(n) =~= gs);
    }
}

proof fn lemma_group_index_prefix_extends(gs: Seq<(Seq<char>, Seq<nat>)>, label: Seq<char>, n: int)
    requires
        0 < n <= gs.len(),
        group_index(gs.take(n), label) matches Some(_),
    ensures
        group_index(gs, label) == group_index(gs.take(n), label),
    decreases gs.len() - n,
{
    if n < gs.len() {
        assert(gs.take(n + 1).drop_last() =~= gs.take(n));
        lemma_group_index_prefix_extends(gs, label, n + 1);
    } else {
        assert(gs.take(n) =~= gs);
    }
}

/// The approval calls grouped by the logical change the model assigned
/// each to; `labels` are its answers for the calls in order, up to the
/// first call it could not place. Fewer than two calls are not grouped.
pub fn group_approvals(call_count: usize, labels: &Vec<String>) -> (r: Vec<(String, Vec<usize>)>)
    ensures
        group_views(r@) == approval_groups(call_count as nat, string_views(labels@)),
{
    let mut gs: Vec<(String, Vec<usize>)> = Vec::new();
    if call_count < 2 {
        assert(group_views(gs@) =~= Seq::<(Seq<char>, Seq<nat>)>::empty());
        return gs;
    }
    let ghost lv = string_views(labels@);
    let mut i: usize = 0;
    assert(group_views(gs@) =~= label_groups(lv.take(0)));
    while i < labels.len()
        invariant
            i <= labels.len(),
            lv == string_views(labels@),
            group_views(gs@) == label_groups(lv.take(i as int)),
        decreases labels.len() - i,
    {
        proof {
            assert(lv.take(i + 1).drop_last() =~= lv.take(i as int));
            assert(lv.take(i + 1).last() == lv[i as int]);
        }
        let ghost before = group_views(gs@);
        let ghost old_gs = gs@;
        match find_group(&gs, labels[i].as_str()) {
            Some(k) => {
                proof {
                    lemma_group_index_found(before, lv[i as int]);
                }
                let (lbl, mut ids) = gs.remove(k);
                let ghost old_ids = ids@;
                let ghost lbl_v = lbl@;
                assert(lbl_v == old_gs[k as int].0@);
                ids.push(i);
                let ghost new_ids = ids@;
                gs.insert(k, (lbl, ids));
                proof {
                    assert(gs@.len() == old_gs.len());
                    assert(forall|j: int| 0 <= j < gs@.len() && j != k ==> gs@[j] == old_gs[j]);
                    assert(gs@[k as int].1@ == new_ids && gs@[k as int].0@ == lbl_v);
                    assert(new_ids.map_values(|j: usize| j as nat) =~= old_ids.map_values(|j: usize| j as nat).push(i as nat));
                    assert(group_views(gs@) =~= before.update(k as int, (lv[i as int], before[k as int].1.push(i as nat))));
                }
            },
            None => {
                let mut ids: Vec<usize> = Vec::new();
                ids.push(i);
                let ghost new_ids = ids@;
                gs.push((labels[i].clone(), ids));
                proof {
                    assert(new_ids.map_values(|j: usize| j as nat) =~= seq![i as nat]);
                    assert(group_views(gs@) =~= before.push((lv[i as int], seq![i as nat])));
                }
            },
        }
        i += 1;
    }
    assert(lv.take(labels.len() as int) =~= lv);
    gs
}

// ---------------------------------------------------------------------
// Question lists
// ---------------------------------------------------------------------

/// A question's id: a prefix and an index.
pub open spec fn qid(prefix: Seq<char>, i: nat) -> Seq<char> {
    prefix + decimal(i)
}

/// The id `prefix` followed by `i` in decimal.
pub fn question_id(prefix: &str, i: usize) -> (r: String)
    ensures
        r@ == qid(prefix@, i as nat),
{
    let mut out = owned(prefix);
    push_decimal(&mut out, i as u64);
    out
}

/// The views of `(id, question)` pairs.
pub open spec fn question_views(qs: Seq<(String, String)>) -> Seq<(Seq<char>, Seq<char>)> {
    qs.map_values(|q: (String, String)| (q.0@, q.1@))
}

/// The smaller of a count and a cap.
pub open spec fn capped(n: nat, cap: nat) -> nat {
    if n < cap {
        n
    } else {
        cap
    }
}

/// The questions for the first [`MAX_SKILLS`] skills, `(name,
/// description)` each.
pub open spec fn skill_prompts(skills: Seq<(Seq<char>, Seq<char>)>) -> Seq<(Seq<char>, Seq<char>)> {
    Seq::new(
        capped(skills.len(), MAX_SKILLS as nat),
        |i: int| (qid("skill_"@, i as nat), skill_prompt(skills[i].0, skills[i].1)),
    )
}

/// The questions put for the loaded skills, one per skill, up to
/// [`MAX_SKILLS`].
pub fn skill_questions(skills: &Vec<(String, String)>) -> (r: Vec<(String, String)>)
    ensures
        question_views(r@) == skill_prompts(entry_views(skills@)),
{
    let n = if skills.len() < MAX_SKILLS { skills.len() } else { MAX_SKILLS };
    let ghost sv = entry_views(skills@);
    let mut out: Vec<(String, String)> = Vec::new();
    let mut i: usize = 0;
    while i < n
        invariant
            i <= n <= skills.len(),
            n == capped(skills@.len(), MAX_SKILLS as nat),
            sv == entry_views(skills@),
            question_views(out@) == skill_prompts(sv).take(i as int),
        decreases n - i,
    {
        let ghost before = question_views(out@);
        let id = question_id("skill_", i);
        let q = skill_question(skills[i].0.as_str(), skills[i].1.as_str());
        out.push((id, q));
        proof {
            assert(question_views(out@) =~= before.push((qid("skill_"@, i as nat), skill_prompt(sv[i as int].0, sv[i as int].1))));
            assert(skill_prompts(sv).take(i + 1) =~= skill_prompts(sv).take(i as int).push(skill_prompts(sv)[i as int]));
        }
        i += 1;
    }
    assert(skill_prompts(sv).take(n as int) =~= skill_prompts(sv));
    out
}

/// At most this many memory entries are scored in one round-trip.
pub const MAX_MEMORY_ENTRIES: usize = 30;

/// The questions for the first [`MAX_MEMORY_ENTRIES`] memory entries,
/// each keyed by the entry's id.
pub open spec fn memory_prompts(entries: Seq<(Seq<char>, Seq<char>)>) -> Seq<(Seq<char>, Seq<char>)> {
    Seq::new(
        capped(entries.len(), MAX_MEMORY_ENTRIES as nat),
        |i: int| (entries[i].0, memory_prompt(entries[i].1)),
    )
}

/// The questions put for memory entries, `(id, text)` each.
pub fn memory_questions(entries: &Vec<(String, String)>) -> (r: Vec<(String, String)>)
    ensures
        question_views(r@) == memory_prompts(entry_views(entries@)),
{
    let n = if entries.len() < MAX_MEMORY_ENTRIES { entries.len() } else { MAX_MEMORY_ENTRIES };
    let ghost ev = entry_views(entries@);
    let mut out: Vec<(String, String)> = Vec::new();
    let mut i: usize = 0;
    while i < n
        invariant
            i <= n <= entries.len(),
            n == capped(entries@.len(), MAX_MEMORY_ENTRIES as nat),
            ev == entry_views(entries@),
            question_views(out@) == memory_prompts(ev).take(i as int),
        decreases n - i,
    {
        let ghost before = question_views(out@);
        let q = memory_question(entries[i].1.as_str());
        out.push((entries[i].0.clone(), q));
        proof {
            assert(question_views(out@) =~= before.push((ev[i as int].0, memory_prompt(ev[i as int].1))));
            assert(memory_prompts(ev).take(i + 1) =~= memory_prompts(ev).take(i as int).push(memory_prompts(ev)[i as int]));
        }
        i += 1;
    }
    assert(memory_prompts(ev).take(n as int) =~= memory_prompts(ev));
    out
}

/// The question asked of one line of a file.
pub open spec fn line_prompt(line: Seq<char>) -> Seq<char> {
    "Is this file line relevant to the request? Line: "@ + preview_text(line, 160)
}

/// The questions for the first [`MAX_LINES_TO_SCORE`] lines of a file.
pub open spec fn line_prompts(content: Seq<char>) -> Seq<(Seq<char>, Seq<char>)> {
    Seq::new(
        capped(lines(content).len(), MAX_LINES_TO_SCORE as nat),
        |i: int| (qid("line_"@, i as nat), line_prompt(lines(content)[i])),
    )
}

/// The questions put for the lines of a file read, one per line, up to
/// [`MAX_LINES_TO_SCORE`].
pub fn line_questions(content: &str) -> (r: Vec<(String, String)>)
    ensures
        question_views(r@) == line_prompts(content@),
{
    let v = chars_of(content);
    let ls = lines_of(v.as_slice());
    let ghost lv = ls@.map_values(|l: Vec<char>| l@);
    assert(lv == lines(content@));
    let n = if ls.len() < MAX_LINES_TO_SCORE { ls.len() } else { MAX_LINES_TO_SCORE };
    let mut out: Vec<(String, String)> = Vec::new();
    let mut i: usize = 0;
    while i < n
        invariant
            i <= n <= ls.len(),
            n == capped(lv.len(), MAX_LINES_TO_SCORE as nat),
            lv == ls@.map_values(|l: Vec<char>| l@),
            lv == lines(content@),
            question_views(out@) == line_prompts(content@).take(i as int),
        decreases n - i,
    {
        let ghost before = question_views(out@);
        let id = question_id("line_", i);
        let line = string_of(ls[i].as_slice());
        let mut q = owned("Is this file line relevant to the request? Line: ");
        let p = preview_chars(line.as_str(), 160);
        push_str(&mut q, p.as_str());
        out.push((id, q));
        proof {
            assert(lv[i as int] == ls@[i as int]@);
            assert(question_views(out@) =~= before.push((qid("line_"@, i as nat), line_prompt(lv[i as int]))));
            assert(line_prompts(content@).take(i + 1) =~= line_prompts(content@).take(i as int).push(
                line_prompts(content@)[i as int],
            ));
        }
        i += 1;
    }
    assert(line_prompts(content@).take(n as int) =~= line_prompts(content@));
    out
}

/// Lines of a hunk shown in its question.
pub const MAX_HUNK_LINES_SHOWN: usize = 30;

/// The question asked of one diff hunk: the request and the hunk's first
/// [`MAX_HUNK_LINES_SHOWN`] lines.
pub open spec fn hunk_prompt(request: Seq<char>, hunk: Seq<Seq<char>>) -> Seq<char> {
    "Is this diff hunk relevant to the user's request, or context-only? Request: "@ + request
        + ". Hunk:\n"@ + join(hunk.take(capped(hunk.len(), MAX_HUNK_LINES_SHOWN as nat) as int), "\n"@)
}

/// The questions for the first [`MAX_HUNKS`] hunks.
pub open spec fn hunk_prompts(request: Seq<char>, hunks: Seq<Seq<Seq<char>>>) -> Seq<(Seq<char>, Seq<char>)> {
    Seq::new(
        capped(hunks.len(), MAX_HUNKS as nat),
        |i: int| (qid("hunk_"@, i as nat), hunk_prompt(request, hunks[i])),
    )
}

/// The questions put for the hunks of a diff (see
/// [`crate::triage::split_diff`]), one per hunk, up to [`MAX_HUNKS`].
pub fn hunk_questions(request: &str, hunks: &Vec<Vec<Vec<char>>>) -> (r: Vec<(String, String)>)
    ensures
        question_views(r@) == hunk_prompts(request@, hunk_views(hunks@)),
{
    let ghost hv = hunk_views(hunks@);
    let n = if hunks.len() < MAX_HUNKS { hunks.len() } else { MAX_HUNKS };
    let mut out: Vec<(String, String)> = Vec::new();
    let mut i: usize = 0;
    while i < n
        invariant
            i <= n <= hunks.len(),
            n == capped(hv.len(), MAX_HUNKS as nat),
            hv == hunk_views(hunks@),
            question_views(out@) == hunk_prompts(request@, hv).take(i as int),
        decreases n - i,
    {
        let ghost before = question_views(out@);
        let id = question_id("hunk_", i);
        let mut q = owned("Is this diff hunk relevant to the user's request, or context-only? Request: ");
        push_str(&mut q, request);
        push_str(&mut q, ". Hunk:\n");
        let h = &hunks[i];
        let k = if h.len() < MAX_HUNK_LINES_SHOWN { h.len() } else { MAX_HUNK_LINES_SHOWN };
        push_joined_first(&mut q, h, k, "\n");
        out.push((id, q));
        proof {
            assert(hv[i as int] == h@.map_values(|l: Vec<char>| l@));
            assert(question_views(out@) =~= before.push((qid("hunk_"@, i as nat), hunk_prompt(request@, hv[i as int]))));
            assert(hunk_prompts(request@, hv).take(i + 1) =~= hunk_prompts(request@, hv).take(i as int).push(
                hunk_prompts(request@, hv)[i as int],
            ));
        }
        i += 1;
    }
    assert(hunk_prompts(request@, hv).take(n as int) =~= hunk_prompts(request@, hv));
    out
}

/// The text under the first of two keys that is present, when it is a
/// string; empty otherwise.
pub open spec fn text_under(v: Json, first: Seq<char>, second: Seq<char>) -> Seq<char> {
    match json_get(v, first) {
        Some(Json::Str(s)) => s,
        Some(_) => Seq::empty(),
        None => match json_get(v, second) {
            Some(Json::Str(s)) => s,
            _ => Seq::empty(),
        },
    }
}

fn text_under_of<'a>(v: &'a JsonValue, first: &str, second: &str) -> (r: &'a str)
    ensures
        r@ == text_under(v@, first@, second@),
{
    proof {
        reveal_strlit("");
    }
    match get(v, first) {
        Some(JsonValue::String(s)) => s.as_str(),
        Some(_) => "",
        None => match get(v, second) {
            Some(JsonValue::String(s)) => s.as_str(),
            _ => "",
        },
    }
}

/// The question asked of one search hit: the tool, the request, and the
/// hit's path and first 200 characters of text.
pub open spec fn hit_prompt(tool: Seq<char>, request: Seq<char>, hit: Json) -> Seq<char> {
    "Is this "@ + tool + " result relevant to the request? \""@ + request + "\" in "@ + text_under(
        hit,
        "file"@,
        "path"@,
    ) + ": "@ + preview_text(text_under(hit, "text"@, "line"@), 200)
}

/// The questions for the first [`MAX_RESULTS_TO_RANK`] hits.
pub open spec fn hit_prompts(tool: Seq<char>, request: Seq<char>, hits: Seq<Json>) -> Seq<(Seq<char>, Seq<char>)> {
    Seq::new(
        capped(hits.len(), MAX_RESULTS_TO_RANK as nat),
        |i: int| (qid("hit_"@, i as nat), hit_prompt(tool, request, hits[i])),
    )
}

/// The questions put for the hits of a search, one per hit, up to
/// [`MAX_RESULTS_TO_RANK`].
pub fn hit_questions(tool: &str, request: &str, hits: &Vec<JsonValue>) -> (r: Vec<(String, String)>)
    ensures
        question_views(r@) == hit_prompts(tool@, request@, hits@.map_values(|h: JsonValue| h@)),
{
    let ghost hv = hits@.map_values(|h: JsonValue| h@);
    let n = if hits.len() < MAX_RESULTS_TO_RANK { hits.len() } else { MAX_RESULTS_TO_RANK };
    let mut out: Vec<(String, String)> = Vec::new();
    let mut i: usize = 0;
    while i < n
        invariant
            i <= n <= hits.len(),
            n == capped(hv.len(), MAX_RESULTS_TO_RANK as nat),
            hv == hits@.map_values(|h: JsonValue| h@),
            question_views(out@) == hit_prompts(tool@, request@, hv).take(i as int),
        decreases n - i,
    {
        let ghost before = question_views(out@);
        let id = question_id("hit_", i);
        let mut q = owned("Is this ");
        push_str(&mut q, tool);
        push_str(&mut q, " result relevant to the request? \"");
        push_str(&mut q, request);
        push_str(&mut q, "\" in ");
        push_str(&mut q, text_under_of(&hits[i], "file", "path"));
        push_str(&mut q, ": ");
        let p = preview_chars(text_under_of(&hits[i], "text", "line"), 200);
        push_str(&mut q, p.as_str());
        out.push((id, q));
        proof {
            assert(hv[i as int] == hits@[i as int]@);
            assert(question_views(out@) =~= before.push((qid("hit_"@, i as nat), hit_prompt(tool@, request@, hv[i as int]))));
            assert(hit_prompts(tool@, request@, hv).take(i + 1) =~= hit_prompts(tool@, request@, hv).take(i as int).push(
                hit_prompts(tool@, request@, hv)[i as int],
            ));
        }
        i += 1;
    }
    assert(hit_prompts(tool@, request@, hv).take(n as int) =~= hit_prompts(tool@, request@, hv));
    out
}

// ---------------------------------------------------------------------
// Diagnostic triage
// ---------------------------------------------------------------------

/// Baseline diagnostics shown to the model.
pub const MAX_BASELINE_SHOWN: usize = 40;

/// A diagnostic in brief: `file:line [code] message`, `?` for no code.
pub open spec fn diag_brief(d: Diagnostic) -> Seq<char> {
    d.file@ + ":"@ + decimal(d.line as nat) + " ["@ + match d.code {
        Some(c) => c@,
        None => "?"@,
    } + "] "@ + d.message@
}

fn push_diag_brief(out: &mut String, d: &Diagnostic)
    ensures
        final(out)@ == old(out)@ + diag_brief(*d),
{
    push_str(out, d.file.as_str());
    push_str(out, ":");
    push_decimal(out, d.line as u64);
    push_str(out, " [");
    match &d.code {
        Some(c) => push_str(out, c.as_str()),
        None => push_str(out, "?"),
    }
    push_str(out, "] ");
    push_str(out, d.message.as_str());
    proof {
        assert(final(out)@ =~= old(out)@ + diag_brief(*d));
    }
}

/// The baseline, first [`MAX_BASELINE_SHOWN`] in brief, one per line.
pub open spec fn baseline_preview(baseline: Seq<Diagnostic>) -> Seq<char> {
    join(
        Seq::new(capped(baseline.len(), MAX_BASELINE_SHOWN as nat), |i: int| diag_brief(baseline[i])),
        "\n"@,
    )
}

/// The new diagnostics, numbered, in brief, one per line.
pub open spec fn current_preview(current: Seq<Diagnostic>) -> Seq<char> {
    join(
        Seq::new(current.len(), |i: int| "["@ + decimal(i as nat) + "] "@ + diag_brief(current[i])),
        "\n"@,
    )
}

/// The state for diagnostic triage: the baseline before the write and
/// the diagnostics after it.
pub open spec fn triage_state(current: Seq<Diagnostic>, baseline: Seq<Diagnostic>) -> Seq<char> {
    "Baseline diagnostics (before the write):\n"@ + baseline_preview(baseline)
        + "\n\nCurrent diagnostics (after the write):\n"@ + current_preview(current)
}

/// The state text for diagnostic triage.
pub fn triage_state_text(current: &Vec<Diagnostic>, baseline: &Vec<Diagnostic>) -> (r: String)
    ensures
        r@ == triage_state(current@, baseline@),
{
    let mut out = owned("Baseline diagnostics (before the write):\n");
    let ghost start = out@;
    let n = if baseline.len() < MAX_BASELINE_SHOWN { baseline.len() } else { MAX_BASELINE_SHOWN };
    let ghost bs = Seq::new(n as nat, |i: int| diag_brief(baseline@[i]));
    let mut i: usize = 0;
    while i < n
        invariant
            i <= n <= baseline.len(),
            bs == Seq::new(n as nat, |i: int| diag_brief(baseline@[i])),
            out@ == start + join(bs.take(i as int), "\n"@),
        decreases n - i,
    {
        if i > 0 {
            push_str(&mut out, "\n");
        }
        push_diag_brief(&mut out, &baseline[i]);
        proof {
            assert(bs.take(i + 1).drop_last() =~= bs.take(i as int));
            if i == 0 {
                assert(bs.take(1) =~= seq![bs[0]]);
            }
            assert(out@ =~= start + join(bs.take(i + 1), "\n"@));
        }
        i += 1;
    }
    assert(bs.take(n as int) =~= bs);
    push_str(&mut out, "\n\nCurrent diagnostics (after the write):\n");
    let ghost mid = out@;
    let ghost cs = Seq::new(current@.len(), |i: int| "["@ + decimal(i as nat) + "] "@ + diag_brief(current@[i]));
    let mut j: usize = 0;
    while j < current.len()
        invariant
            j <= current.len(),
            cs == Seq::new(current@.len(), |i: int| "["@ + decimal(i as nat) + "] "@ + diag_brief(current@[i])),
            out@ == mid + join(cs.take(j as int), "\n"@),
        decreases current.len() - j,
    {
        if j > 0 {
            push_str(&mut out, "\n");
        }
        push_str(&mut out, "[");
        push_decimal(&mut out, j as u64);
        push_str(&mut out, "] ");
        push_diag_brief(&mut out, &current[j]);
        proof {
            assert(cs.take(j + 1).drop_last() =~= cs.take(j as int));
            if j == 0 {
                assert(cs.take(1) =~= seq![cs[0]]);
            }
            assert(out@ =~= mid + join(cs.take(j + 1), "\n"@));
        }
        j += 1;
    }
    assert(cs.take(current.len() as int) =~= cs);
    assert(out@ =~= triage_state(current@, baseline@));
    out
}

/// The question asked of one new diagnostic.
pub open spec fn diag_prompt(i: nat, d: Diagnostic) -> Seq<char> {
    "Is diagnostic ["@ + decimal(i) + "] ("@ + diag_brief(d)
        + ") genuinely new, or the same as one of the baseline diagnostics just at a different line?"@
}

/// The questions for the new diagnostics, one each.
pub open spec fn diag_prompts(current: Seq<Diagnostic>) -> Seq<(Seq<char>, Seq<char>)> {
    Seq::new(current.len(), |i: int| (qid("diag_"@, i as nat), diag_prompt(i as nat, current[i])))
}

/// The questions put for the new diagnostics, one each.
pub fn diag_questions(current: &Vec<Diagnostic>) -> (r: Vec<(String, String)>)
    ensures
        question_views(r@) == diag_prompts(current@),
{
    let mut out: Vec<(String, String)> = Vec::new();
    let mut i: usize = 0;
    while i < current.len()
        invariant
            i <= current.len(),
            question_views(out@) == diag_prompts(current@).take(i as int),
        decreases current.len() - i,
    {
        let ghost before = question_views(out@);
        let id = question_id("diag_", i);
        let mut q = owned("Is diagnostic [");
        push_decimal(&mut q, i as u64);
        push_str(&mut q, "] (");
        push_diag_brief(&mut q, &current[i]);
        push_str(&mut q, ") genuinely new, or the same as one of the baseline diagnostics just at a different line?");
        out.push((id, q));
        proof {
            assert(question_views(out@) =~= before.push((qid("diag_"@, i as nat), diag_prompt(i as nat, current@[i as int]))));
            assert(diag_prompts(current@).take(i + 1) =~= diag_prompts(current@).take(i as int).push(
                diag_prompts(current@)[i as int],
            ));
        }
        i += 1;
    }
    assert(diag_prompts(current@).take(current.len() as int) =~= diag_prompts(current@));
    out
}

// ---------------------------------------------------------------------
// Handoff facts
// ---------------------------------------------------------------------

/// The paragraphs of a text: the pieces between blank-line breaks
/// (`"\n\n"`), as `str::split("\n\n")` yields them.
pub open spec fn paragraphs(s: Seq<char>) -> Seq<Seq<char>>
    decreases s.len(),
{
    match find_seq(s, "\n\n"@) {
        Some(i) => {
            proof {
                lemma_find_seq(s, "\n\n"@);
                reveal_strlit("\n\n");
            }
            if i + 2 <= s.len() {
                seq![s.take(i)] + paragraphs(s.skip(i + 2))
            } else {
                seq![s]
            }
        },
        None => seq![s],
    }
}

/// Paragraphs considered for a handoff.
pub const MAX_HANDOFF_PARAGRAPHS: usize = 40;

/// Shortest trimmed paragraph, in bytes, considered for a handoff is one
/// byte longer than this.
pub const MIN_HANDOFF_PARAGRAPH_BYTES: usize = 20;

/// The paragraphs long enough to carry a fact.
pub open spec fn substantial(ps: Seq<Seq<char>>) -> Seq<Seq<char>>
    decreases ps.len(),
{
    if ps.len() == 0 {
        Seq::empty()
    } else {
        substantial(ps.drop_last()) + if byte_len(trim(ps.last())) > MIN_HANDOFF_PARAGRAPH_BYTES {
            seq![ps.last()]
        } else {
            Seq::empty()
        }
    }
}

/// The paragraphs of a transcript a handoff looks at: the first
/// [`MAX_HANDOFF_PARAGRAPHS`] whose trimmed text is longer than
/// [`MIN_HANDOFF_PARAGRAPH_BYTES`].
pub open spec fn handoff_chunks(transcript: Seq<char>) -> Seq<Seq<char>> {
    let all = substantial(paragraphs(transcript));
    all.take(capped(all.len(), MAX_HANDOFF_PARAGRAPHS as nat) as int)
}

fn paragraphs_of(s: &str) -> (r: Vec<String>)
    ensures
        string_views(r@) == paragraphs(s@),
{
    proof {
        reveal_strlit("\n\n");
    }
    let v = chars_of(s);
    let sep = chars_of("\n\n");
    let mut out: Vec<String> = Vec::new();
    let mut pos: usize = 0;
    assert(v@.skip(0) =~= v@);
    assert(string_views(out@) + paragraphs(v@.skip(0)) =~= paragraphs(s@));
    loop
        invariant
            pos <= v.len(),
            v@ == s@,
            sep@ == "\n\n"@,
            paragraphs(s@) == string_views(out@) + paragraphs(v@.skip(pos as int)),
        decreases v.len() - pos,
    {
        let rest = copy_range(v.as_slice(), pos, v.len());
        assert(rest@ =~= v@.skip(pos as int));
        match find_seq_in(rest.as_slice(), sep.as_slice()) {
            Some(i) => {
                proof {
                    lemma_find_seq(rest@, sep@);
                }
                if i < rest.len() && rest.len() - i >= 2 {
                    let ghost before = string_views(out@);
                    let piece = copy_range(rest.as_slice(), 0, i);
                    out.push(string_of(piece.as_slice()));
                    proof {
                        assert(piece@ =~= rest@.take(i as int));
                        assert(string_views(out@) =~= before.push(rest@.take(i as int)));
                        assert(v@.skip(pos as int).skip(i + 2) =~= v@.skip(pos + i + 2));
                        assert(paragraphs(rest@) == seq![rest@.take(i as int)] + paragraphs(rest@.skip(i + 2)));
                        assert(before + paragraphs(rest@) =~= before.push(rest@.take(i as int)) + paragraphs(rest@.skip(i + 2)));
                    }
                    pos = pos + i + 2;
                } else {
                    out.push(string_of(rest.as_slice()));
                    assert(string_views(out@) =~= paragraphs(s@));
                    return out;
                }
            },
            None => {
                let ghost before = string_views(out@);
                out.push(string_of(rest.as_slice()));
                assert(string_views(out@) =~= before + paragraphs(rest@));
                return out;
            },
        }
    }
}

/// The paragraphs of a transcript a handoff looks at.
pub fn handoff_paragraphs(transcript: &str) -> (r: Vec<String>)
    ensures
        string_views(r@) == handoff_chunks(transcript@),
{
    let ps = paragraphs_of(transcript);
    let ghost pv = string_views(ps@);
    let mut out: Vec<String> = Vec::new();
    let mut i: usize = 0;
    while i < ps.len()
        invariant
            i <= ps.len(),
            pv == string_views(ps@),
            pv == paragraphs(transcript@),
            string_views(out@) == substantial(pv.take(i as int)),
        decreases ps.len() - i,
    {
        let ghost before = string_views(out@);
        proof {
            assert(pv.take(i + 1).drop_last() =~= pv.take(i as int));
            assert(pv.take(i + 1).last() == pv[i as int]);
        }
        let t = trim_string(ps[i].as_str());
        if str_byte_len(t.as_str()) > MIN_HANDOFF_PARAGRAPH_BYTES {
            out.push(ps[i].clone());
            assert(string_views(out@) =~= before + seq![pv[i as int]]);
        } else {
            assert(before + Seq::<Seq<char>>::empty() =~= before);
        }
        i += 1;
    }
    assert(pv.take(ps.len() as int) =~= pv);
    let ghost all = string_views(out@);
    let n = if out.len() < MAX_HANDOFF_PARAGRAPHS { out.len() } else { MAX_HANDOFF_PARAGRAPHS };
    let mut kept: Vec<String> = Vec::new();
    let mut k: usize = 0;
    while k < n
        invariant
            k <= n <= out.len(),
            all == string_views(out@),
            string_views(kept@) == all.take(k as int),
        decreases n - k,
    {
        let ghost before = string_views(kept@);
        kept.push(out[k].clone());
        assert(string_views(kept@) =~= before.push(all[k as int]));
        assert(all.take(k + 1) =~= all.take(k as int).push(all[k as int]));
        k += 1;
    }
    kept
}

/// The tags a paragraph earns: a durable decision, unfinished work, a
/// file reference.
pub open spec fn fact_tags(decision: bool, unfinished: bool, file: bool) -> Seq<Seq<char>> {
    (if decision { seq!["decision"@] } else { Seq::empty() }) + (if unfinished {
        seq!["unfinished"@]
    } else {
        Seq::empty()
    }) + (if file { seq!["file"@] } else { Seq::empty() })
}

/// A handoff fact: the paragraph's tags and 400 characters of it.
pub open spec fn handoff_fact(tags: Seq<Seq<char>>, chunk: Seq<char>) -> Seq<char> {
    "["@ + join(tags, ","@) + "] "@ + preview_text(chunk, 400)
}

/// The facts of the paragraphs that earned a tag, in order.
pub open spec fn handoff_fact_list(chunks: Seq<Seq<char>>, flags: Seq<(bool, bool, bool)>) -> Seq<Seq<char>>
    decreases chunks.len(),
{
    if chunks.len() == 0 {
        Seq::empty()
    } else {
        let i = chunks.len() - 1;
        let tags = if i < flags.len() {
            fact_tags(flags[i].0, flags[i].1, flags[i].2)
        } else {
            Seq::empty()
        };
        handoff_fact_list(chunks.drop_last(), flags) + if tags.len() > 0 {
            seq![handoff_fact(tags, chunks.last())]
        } else {
            Seq::empty()
        }
    }
}

/// The facts a handoff carries: for each paragraph, the tags the model
/// gave it (`flags[i]`: decision, unfinished, file, each held against
/// the threshold) and the paragraph; untagged paragraphs are left out.
pub fn handoff_facts(chunks: &Vec<String>, flags: &Vec<(bool, bool, bool)>) -> (r: Vec<String>)
    ensures
        string_views(r@) == handoff_fact_list(string_views(chunks@), flags@),
{
    proof {
        reveal_strlit("decision");
        reveal_strlit("unfinished");
        reveal_strlit("file");
    }
    let ghost cv = string_views(chunks@);
    let mut out: Vec<String> = Vec::new();
    let mut i: usize = 0;
    while i < chunks.len()
        invariant
            i <= chunks.len(),
            cv == string_views(chunks@),
            string_views(out@) == handoff_fact_list(cv.take(i as int), flags@),
        decreases chunks.len() - i,
    {
        let ghost before = string_views(out@);
        proof {
            assert(cv.take(i + 1).drop_last() =~= cv.take(i as int));
            assert(cv.take(i + 1).last() == cv[i as int]);
        }
        let (d, u, f) = if i < flags.len() { flags[i] } else { (false, false, false) };
        let ghost tags = fact_tags(d, u, f);
        if d || u || f {
            let mut fact = owned("[");
            let mut any = false;
            let ghost mut shown: Seq<Seq<char>> = Seq::empty();
            if d {
                push_str(&mut fact, "decision");
                any = true;
                proof { shown = seq!["decision"@]; }
            }
            if u {
                if any {
                    push_str(&mut fact, ",");
                }
                push_str(&mut fact, "unfinished");
                proof {
                    if shown.len() > 0 {
                        assert(shown.push("unfinished"@).drop_last() =~= shown);
                        assert(join(shown.push("unfinished"@), ","@) =~= join(shown, ","@) + ","@ + "unfinished"@);
                    } else {
                        assert(join(seq!["unfinished"@], ","@) == "unfinished"@);
                    }
                    shown = shown.push("unfinished"@);
                }
                any = true;
            }
            if f {
                if any {
                    push_str(&mut fact, ",");
                }
                push_str(&mut fact, "file");
                proof {
                    if shown.len() > 0 {
                        assert(shown.push("file"@).drop_last() =~= shown);
                        assert(join(shown.push("file"@), ","@) =~= join(shown, ","@) + ","@ + "file"@);
                    } else {
                        assert(join(seq!["file"@], ","@) == "file"@);
                    }
                    shown = shown.push("file"@);
                }
            }
            proof {
                assert(shown =~= tags);
                assert(fact@ =~= "["@ + join(tags, ","@));
            }
            push_str(&mut fact, "] ");
            let p = preview_chars(chunks[i].as_str(), 400);
            push_str(&mut fact, p.as_str());
            out.push(fact);
            proof {
                assert(string_views(out@) =~= before + seq![handoff_fact(tags, cv[i as int])]);
            }
        } else {
            assert(tags.len() == 0);
            assert(before + Seq::<Seq<char>>::empty() =~= before);
        }
        i += 1;
    }
    assert(cv.take(chunks.len() as int) =~= cv);
    out
}

/// The three questions asked of one paragraph.
pub open spec fn paragraph_prompts(i: nat, chunk: Seq<char>) -> Seq<(Seq<char>, Seq<char>)> {
    seq![
        (qid("decision_"@, i), "Does this message contain a durable decision or a concrete chosen approach? Message: "@ + preview_text(chunk, 400)),
        (qid("unfinished_"@, i), "Does this message describe an unfinished task, a TODO, or the next step? Message: "@ + preview_text(chunk, 400)),
        (qid("file_"@, i), "Does this message reference a specific file path? Message: "@ + preview_text(chunk, 400)),
    ]
}

/// The questions for every paragraph, three each, in order.
pub open spec fn handoff_prompts(chunks: Seq<Seq<char>>) -> Seq<(Seq<char>, Seq<char>)>
    decreases chunks.len(),
{
    if chunks.len() == 0 {
        Seq::empty()
    } else {
        handoff_prompts(chunks.drop_last()) + paragraph_prompts((chunks.len() - 1) as nat, chunks.last())
    }
}

/// The questions put for the paragraphs of a handoff.
pub fn handoff_questions(chunks: &Vec<String>) -> (r: Vec<(String, String)>)
    ensures
        question_views(r@) == handoff_prompts(string_views(chunks@)),
{
    let ghost cv = string_views(chunks@);
    let mut out: Vec<(String, String)> = Vec::new();
    let mut i: usize = 0;
    while i < chunks.len()
        invariant
            i <= chunks.len(),
            cv == string_views(chunks@),
            question_views(out@) == handoff_prompts(cv.take(i as int)),
        decreases chunks.len() - i,
    {
        let ghost before = question_views(out@);
        proof {
            assert(cv.take(i + 1).drop_last() =~= cv.take(i as int));
            assert(cv.take(i + 1).last() == cv[i as int]);
        }
        let p = preview_chars(chunks[i].as_str(), 400);
        let mut q1 = owned("Does this message contain a durable decision or a concrete chosen approach? Message: ");
        push_str(&mut q1, p.as_str());
        out.push((question_id("decision_", i), q1));
        let mut q2 = owned("Does this message describe an unfinished task, a TODO, or the next step? Message: ");
        push_str(&mut q2, p.as_str());
        out.push((question_id("unfinished_", i), q2));
        let mut q3 = owned("Does this message reference a specific file path? Message: ");
        push_str(&mut q3, p.as_str());
        out.push((question_id("file_", i), q3));
        proof {
            assert(question_views(out@) =~= before + paragraph_prompts(i as nat, cv[i as int]));
        }
        i += 1;
    }
    assert(cv.take(chunks.len() as int) =~= cv);
    out
}

// ---------------------------------------------------------------------
// Subtask overlap and globs
// ---------------------------------------------------------------------

fn push_joined_strings(out: &mut String, parts: &Vec<String>, sep: &str)
    ensures
        final(out)@ == old(out)@ + join(string_views(parts@), sep@),
{
    let ghost ps = string_views(parts@);
    let mut i: usize = 0;
    while i < parts.len()
        invariant
            i <= parts.len(),
            ps == string_views(parts@),
            out@ == old(out)@ + join(ps.take(i as int), sep@),
        decreases parts.len() - i,
    {
        if i > 0 {
            push_str(out, sep);
        }
        push_str(out, parts[i].as_str());
        proof {
            assert(ps.take(i + 1).drop_last() =~= ps.take(i as int));
            if i == 0 {
                assert(ps.take(1) =~= seq![ps[0]]);
            }
            assert(out@ =~= old(out)@ + join(ps.take(i + 1), sep@));
        }
        i += 1;
    }
    assert(ps.take(parts.len() as int) =~= ps);
}

/// Subtasks compared for overlap.
pub const MAX_OVERLAP_SUBTASKS: usize = 6;

/// One subtask in the overlap state: its number, 200 characters of its
/// description, and its globs.
pub open spec fn subtask_line(i: nat, description: Seq<char>, globs: Seq<Seq<char>>) -> Seq<char> {
    "["@ + decimal(i) + "] "@ + preview_text(description, 200) + " :: "@ + join(globs, ", "@) + "\n"@
}

/// The views of `(description, globs)` subtasks.
pub open spec fn subtask_views(ts: Seq<(String, Vec<String>)>) -> Seq<(Seq<char>, Seq<Seq<char>>)> {
    ts.map_values(|t: (String, Vec<String>)| (t.0@, string_views(t.1@)))
}

/// The state for the overlap check: the first
/// [`MAX_OVERLAP_SUBTASKS`] subtasks, one per line.
pub open spec fn overlap_state(ts: Seq<(Seq<char>, Seq<Seq<char>>)>) -> Seq<char> {
    "Subtasks:\n"@ + join(
        Seq::new(capped(ts.len(), MAX_OVERLAP_SUBTASKS as nat), |i: int| subtask_line(i as nat, ts[i].0, ts[i].1)),
        ""@,
    )
}

/// The state text for the overlap check.
pub fn overlap_state_text(subtasks: &Vec<(String, Vec<String>)>) -> (r: String)
    ensures
        r@ == overlap_state(subtask_views(subtasks@)),
{
    proof {
        reveal_strlit("");
    }
    let ghost tv = subtask_views(subtasks@);
    let n = if subtasks.len() < MAX_OVERLAP_SUBTASKS { subtasks.len() } else { MAX_OVERLAP_SUBTASKS };
    let ghost ls = Seq::new(n as nat, |i: int| subtask_line(i as nat, tv[i].0, tv[i].1));
    let mut out = owned("Subtasks:\n");
    let ghost start = out@;
    let mut i: usize = 0;
    while i < n
        invariant
            i <= n <= subtasks.len(),
            n == capped(tv.len(), MAX_OVERLAP_SUBTASKS as nat),
            tv == subtask_views(subtasks@),
            ls == Seq::new(n as nat, |i: int| subtask_line(i as nat, tv[i].0, tv[i].1)),
            out@ == start + join(ls.take(i as int), ""@),
        decreases n - i,
    {
        let ghost before = out@;
        push_str(&mut out, "[");
        push_decimal(&mut out, i as u64);
        push_str(&mut out, "] ");
        let p = preview_chars(subtasks[i].0.as_str(), 200);
        push_str(&mut out, p.as_str());
        push_str(&mut out, " :: ");
        push_joined_strings(&mut out, &subtasks[i].1, ", ");
        push_str(&mut out, "\n");
        proof {
            reveal_strlit("");
            assert(""@ =~= Seq::<char>::empty());
            assert(tv[i as int] == (subtasks@[i as int].0@, string_views(subtasks@[i as int].1@)));
            assert(out@ =~= before + ls[i as int]);
            assert(ls.take(i + 1).drop_last() =~= ls.take(i as int));
            if i == 0 {
                assert(ls.take(1) =~= seq![ls[0]]);
                assert(join(ls.take(0), ""@) =~= Seq::<char>::empty());
                assert(before + ls[0] =~= start + join(ls.take(1), ""@));
            } else {
                assert(join(ls.take(i + 1), ""@) =~= join(ls.take(i as int), ""@) + ""@ + ls[i as int]);
            }
            assert(out@ =~= start + join(ls.take(i + 1), ""@));
        }
        i += 1;
    }
    assert(ls.take(n as int) =~= ls);
    out
}

/// The question asked of one pair of subtasks.
pub open spec fn pair_prompt(i: nat, j: nat) -> Seq<char> {
    "Do subtasks "@ + decimal(i) + " and "@ + decimal(j)
        + " touch the same conceptual file, even if their declared globs differ?"@
}

/// The id of the question about a pair.
pub open spec fn pair_id(i: nat, j: nat) -> Seq<char> {
    "pair_"@ + decimal(i) + "_"@ + decimal(j)
}

/// The questions for pairs `(i, j)` with `i < j < n`, for one `i`.
pub open spec fn pair_row(i: nat, n: nat) -> Seq<(Seq<char>, Seq<char>)> {
    Seq::new(
        if i + 1 <= n { (n - i - 1) as nat } else { 0 },
        |k: int| (pair_id(i, (i + 1 + k) as nat), pair_prompt(i, (i + 1 + k) as nat)),
    )
}

/// The questions for every pair `(i, j)` with `i < j < n` and `i < m`,
/// `i` first, then `j`.
pub open spec fn pair_rows(m: nat, n: nat) -> Seq<(Seq<char>, Seq<char>)>
    decreases m,
{
    if m == 0 {
        Seq::empty()
    } else {
        pair_rows((m - 1) as nat, n) + pair_row((m - 1) as nat, n)
    }
}

/// The questions for every pair of the first [`MAX_OVERLAP_SUBTASKS`]
/// of `count` subtasks.
pub open spec fn overlap_prompts(count: nat) -> Seq<(Seq<char>, Seq<char>)> {
    let n = capped(count, MAX_OVERLAP_SUBTASKS as nat);
    pair_rows(n, n)
}

/// The questions put for the subtask pairs.
pub fn overlap_questions(count: usize) -> (r: Vec<(String, String)>)
    ensures
        question_views(r@) == overlap_prompts(count as nat),
{
    let n = if count < MAX_OVERLAP_SUBTASKS { count } else { MAX_OVERLAP_SUBTASKS };
    let mut out: Vec<(String, String)> = Vec::new();
    let mut i: usize = 0;
    while i < n
        invariant
            i <= n <= MAX_OVERLAP_SUBTASKS,
            n == capped(count as nat, MAX_OVERLAP_SUBTASKS as nat),
            question_views(out@) == pair_rows(i as nat, n as nat),
        decreases n - i,
    {
        let ghost start = question_views(out@);
        let mut j: usize = i + 1;
        while j < n
            invariant
                i < n <= MAX_OVERLAP_SUBTASKS,
                i + 1 <= j <= n,
                question_views(out@) == start + pair_row(i as nat, n as nat).take(j - i - 1),
            decreases n - j,
        {
            let ghost before = question_views(out@);
            let mut id = owned("pair_");
            push_decimal(&mut id, i as u64);
            push_str(&mut id, "_");
            push_decimal(&mut id, j as u64);
            let mut q = owned("Do subtasks ");
            push_decimal(&mut q, i as u64);
            push_str(&mut q, " and ");
            push_decimal(&mut q, j as u64);
            push_str(&mut q, " touch the same conceptual file, even if their declared globs differ?");
            out.push((id, q));
            proof {
                let row = pair_row(i as nat, n as nat);
                assert(question_views(out@) =~= before.push((pair_id(i as nat, j as nat), pair_prompt(i as nat, j as nat))));
                assert(row[j - i - 1] == (pair_id(i as nat, j as nat), pair_prompt(i as nat, j as nat)));
                assert(row.take(j - i) =~= row.take(j - i - 1).push(row[j - i - 1]));
                assert(question_views(out@) =~= start + row.take(j - i));
            }
            j += 1;
        }
        proof {
            assert(pair_row(i as nat, n as nat).take(n - i - 1) =~= pair_row(i as nat, n as nat));
        }
        i += 1;
    }
    out
}

/// The state for checking a subtask's globs: its description and globs.
pub open spec fn globs_state(description: Seq<char>, globs: Seq<Seq<char>>) -> Seq<char> {
    "Subtask: "@ + description + "\nWrite-set globs: "@ + join(globs, ", "@)
}

/// The state text for checking a subtask's globs; `None` for a subtask
/// with no globs, which is not checked.
pub fn globs_state_text(description: &str, globs: &Vec<String>) -> (r: Option<String>)
    ensures
        match r {
            Some(t) => globs@.len() > 0 && t@ == globs_state(description@, string_views(globs@)),
            None => globs@.len() == 0,
        },
{
    if globs.len() == 0 {
        return None;
    }
    let mut out = owned("Subtask: ");
    push_str(&mut out, description);
    push_str(&mut out, "\nWrite-set globs: ");
    push_joined_strings(&mut out, globs, ", ");
    Some(out)
}

// ---------------------------------------------------------------------
// Session phase
// ---------------------------------------------------------------------

/// Messages the phase detector looks at.
pub const PHASE_WINDOW: usize = 6;

/// The fewest messages a session needs before its phase is asked about.
pub const MIN_PHASE_MESSAGES: usize = 3;

/// The word for a message's role in the phase transcript.
pub open spec fn role_word(r: Role) -> Seq<char> {
    match r {
        Role::User => "user"@,
        Role::Assistant => "assistant"@,
        _ => "other"@,
    }
}

/// One message in the phase transcript: its role and 300 characters.
pub open spec fn phase_line(t: Turn) -> Seq<char> {
    role_word(t.role) + ": "@ + preview_text(t.content@, 300)
}

/// The last [`PHASE_WINDOW`] messages, in order, one per line.
pub open spec fn phase_tail(turns: Seq<Turn>) -> Seq<char> {
    let k = capped(turns.len(), PHASE_WINDOW as nat);
    join(Seq::new(k, |i: int| phase_line(turns[turns.len() - k + i])), "\n"@)
}

/// The transcript the phase detector reads; `None` for a session of
/// fewer than [`MIN_PHASE_MESSAGES`] messages.
pub fn phase_transcript(turns: &Vec<Turn>) -> (r: Option<String>)
    ensures
        match r {
            Some(t) => turns@.len() >= MIN_PHASE_MESSAGES && t@ == phase_tail(turns@),
            None => turns@.len() < MIN_PHASE_MESSAGES,
        },
{
    if turns.len() < MIN_PHASE_MESSAGES {
        return None;
    }
    let len = turns.len();
    let k = if len < PHASE_WINDOW { len } else { PHASE_WINDOW };
    let ghost ls = Seq::new(k as nat, |i: int| phase_line(turns@[len - k + i]));
    let mut out = String::new();
    let mut i: usize = 0;
    assert(out@ =~= join(ls.take(0), "\n"@));
    while i < k
        invariant
            i <= k <= len,
            len == turns.len(),
            ls == Seq::new(k as nat, |i: int| phase_line(turns@[len - k + i])),
            out@ == join(ls.take(i as int), "\n"@),
        decreases k - i,
    {
        if i > 0 {
            push_str(&mut out, "\n");
        }
        let ghost before = out@;
        let t = &turns[len - k + i];
        match t.role {
            Role::User => push_str(&mut out, "user"),
            Role::Assistant => push_str(&mut out, "assistant"),
            _ => push_str(&mut out, "other"),
        }
        push_str(&mut out, ": ");
        let p = preview_chars(t.content.as_str(), 300);
        push_str(&mut out, p.as_str());
        proof {
            assert(out@ =~= before + ls[i as int]);
            assert(ls.take(i + 1).drop_last() =~= ls.take(i as int));
            if i == 0 {
                assert(ls.take(1) =~= seq![ls[0]]);
            }
            assert(out@ =~= join(ls.take(i + 1), "\n"@));
        }
        i += 1;
    }
    assert(ls.take(k as int) =~= ls);
    Some(out)
}

/// The earlier half of a transcript: its first half of lines (rounded
/// down), one per line.
pub open spec fn earlier_half(text: Seq<char>) -> Seq<char> {
    join(lines(text).take((lines(text).len() / 2) as int), "\n"@)
}

/// The earlier half of the phase transcript, for asking the phase before
/// the latest turn.
pub fn earlier_half_text(text: &str) -> (r: String)
    ensures
        r@ == earlier_half(text@),
{
    let v = chars_of(text);
    let ls = lines_of(v.as_slice());
    let mut out = String::new();
    push_joined_first(&mut out, &ls, ls.len() / 2, "\n");
    out
}

// ---------------------------------------------------------------------
// Citations
// ---------------------------------------------------------------------

/// One less than `n`, but not below zero.
pub open spec fn below(n: nat) -> nat {
    if n == 0 {
        0
    } else {
        (n - 1) as nat
    }
}

/// The lines a citation of `line` (through `end`, when later) points at
/// in a file's content: the span joined by line breaks, or the single
/// line; empty where the file has no such line, or for line 0.
pub open spec fn cited_excerpt(content: Seq<char>, line: nat, end: nat) -> Seq<char> {
    let ls = lines(content);
    if end > line {
        let from = capped(below(line), ls.len());
        let to = capped((from + (end - line + 1)) as nat, ls.len());
        join(ls.subrange(from as int, to as int), "\n"@)
    } else if line == 0 || line - 1 >= ls.len() {
        Seq::empty()
    } else {
        ls[line - 1]
    }
}

/// The excerpt of a file's content a citation points at; `end_line` is
/// the last line of a cited span, if the citation gave one.
pub fn citation_excerpt(content: &str, line: usize, end_line: Option<usize>) -> (r: String)
    ensures
        r@ == cited_excerpt(content@, line as nat, match end_line {
            Some(e) => e as nat,
            None => line as nat,
        }),
{
    let v = chars_of(content);
    let ls = lines_of(v.as_slice());
    let ghost lv = ls@.map_values(|l: Vec<char>| l@);
    let end = match end_line {
        Some(e) => e,
        None => line,
    };
    if end > line {
        let b = if line == 0 { 0 } else { line - 1 };
        let from = if b < ls.len() { b } else { ls.len() };
        let span = end - line;
        let to = if span < ls.len() - from { from + span + 1 } else { ls.len() };
        proof {
            assert(to as nat == capped((from + (end - line + 1)) as nat, ls.len() as nat));
        }
        let mut part: Vec<Vec<char>> = Vec::new();
        let mut i = from;
        while i < to
            invariant
                from <= i <= to <= ls.len(),
                lv == ls@.map_values(|l: Vec<char>| l@),
                part@.map_values(|l: Vec<char>| l@) == lv.subrange(from as int, i as int),
            decreases to - i,
        {
            let l = copy_range(ls[i].as_slice(), 0, ls[i].len());
            assert(l@ =~= ls@[i as int]@);
            assert(lv[i as int] == ls@[i as int]@);
            let ghost before = part@.map_values(|l: Vec<char>| l@);
            part.push(l);
            assert(part@.map_values(|l: Vec<char>| l@) =~= before.push(lv[i as int]));
            assert(lv.subrange(from as int, i + 1) =~= lv.subrange(from as int, i as int).push(lv[i as int]));
            i += 1;
        }
        let mut out = String::new();
        let n = part.len();
        push_joined_first(&mut out, &part, n, "\n");
        assert(part@.map_values(|l: Vec<char>| l@).take(n as int) =~= lv.subrange(from as int, to as int));
        out
    } else if line == 0 || line - 1 >= ls.len() {
        String::new()
    } else {
        string_of(ls[line - 1].as_slice())
    }
}

/// The question asked of one citation: the cited place and its excerpt.
pub open spec fn citation_prompt(path: Seq<char>, line: nat, excerpt: Seq<char>) -> Seq<char> {
    "Does the code at "@ + path + ":"@ + decimal(line) + " support the claim made about it? Code excerpt:\n"@
        + excerpt
}

/// The question put for citation `idx`, or `None` when its excerpt is
/// blank and there is nothing to check.
pub fn citation_question(idx: usize, path: &str, line: usize, excerpt: &str) -> (r: Option<(String, String)>)
    ensures
        match r {
            Some((id, q)) => trim(excerpt@).len() > 0 && id@ == qid("citation_"@, idx as nat) && q@
                == citation_prompt(path@, line as nat, excerpt@),
            None => trim(excerpt@).len() == 0,
        },
{
    let t = trim_string(excerpt);
    if t.as_str().is_empty() {
        return None;
    }
    let mut q = owned("Does the code at ");
    push_str(&mut q, path);
    push_str(&mut q, ":");
    push_decimal(&mut q, line as u64);
    push_str(&mut q, " support the claim made about it? Code excerpt:\n");
    push_str(&mut q, excerpt);
    Some((question_id("citation_", idx), q))
}

/// The cited places the model could not confirm, in the order of its
/// answers: each answer that falls below the threshold and names a
/// citation that was asked about.
pub open spec fn unconfirmed(cited: Seq<(Seq<char>, nat)>, below_threshold: Seq<(Seq<char>, bool)>) -> Seq<Seq<char>>
    decreases below_threshold.len(),
{
    if below_threshold.len() == 0 {
        Seq::empty()
    } else {
        let a = below_threshold.last();
        unconfirmed(cited, below_threshold.drop_last()) + match id_index(a.0, "citation_"@) {
            Some(i) => if a.1 && i < cited.len() {
                seq![cited[i as int].0 + ":"@ + decimal(cited[i as int].1)]
            } else {
                Seq::empty()
            },
            None => Seq::empty(),
        }
    }
}

/// The views of cited places.
pub open spec fn cited_views(cited: Seq<(String, usize)>) -> Seq<(Seq<char>, nat)> {
    cited.map_values(|c: (String, usize)| (c.0@, c.1 as nat))
}

/// The cited places the model could not confirm. `cited` are the
/// citations asked about, `(path, line)`; each answer is a question's
/// id and whether its score fell below the threshold.
pub fn unconfirmed_citations(cited: &Vec<(String, usize)>, below_threshold: &Vec<(String, bool)>) -> (r: Vec<String>)
    ensures
        string_views(r@) == unconfirmed(cited_views(cited@), answer_views(below_threshold@)),
{
    let ghost av = answer_views(below_threshold@);
    let ghost cv = cited_views(cited@);
    let mut out: Vec<String> = Vec::new();
    let mut k: usize = 0;
    while k < below_threshold.len()
        invariant
            k <= below_threshold.len(),
            av == answer_views(below_threshold@),
            cv == cited_views(cited@),
            string_views(out@) == unconfirmed(cv, av.take(k as int)),
        decreases below_threshold.len() - k,
    {
        let ghost before = string_views(out@);
        proof {
            assert(av.take(k + 1).drop_last() =~= av.take(k as int));
            assert(av.take(k + 1).last() == av[k as int]);
        }
        match index_of_id(below_threshold[k].0.as_str(), "citation_") {
            Some(i) => {
                if below_threshold[k].1 && i < cited.len() {
                    let mut f = owned(cited[i].0.as_str());
                    push_str(&mut f, ":");
                    push_decimal(&mut f, cited[i].1 as u64);
                    out.push(f);
                    assert(string_views(out@) =~= before + seq![cv[i as int].0 + ":"@ + decimal(cv[i as int].1)]);
                } else {
                    assert(before + Seq::<Seq<char>>::empty() =~= before);
                }
            },
            None => {
                assert(before + Seq::<Seq<char>>::empty() =~= before);
            },
        }
        k += 1;
    }
    assert(av.take(below_threshold.len() as int) =~= av);
    out
}

/// The lines listing unconfirmed citations.
pub open spec fn bullet_lines(items: Seq<Seq<char>>) -> Seq<char>
    decreases items.len(),
{
    if items.len() == 0 {
        Seq::empty()
    } else {
        bullet_lines(items.drop_last()) + "- "@ + items.last() + "\n"@
    }
}

/// A reply with its unconfirmed citations listed after it; the reply
/// alone when every citation was confirmed.
pub open spec fn citation_checked(text: Seq<char>, failing: Seq<Seq<char>>) -> Seq<char> {
    if failing.len() == 0 {
        text
    } else {
        text + "\n\n## Citation semantic check\n\n"@
            + "Jev could not confirm that the following cited lines support the claims made about them:\n"@
            + bullet_lines(failing)
    }
}

/// The reply with its unconfirmed citations listed after it.
pub fn citation_report(text: &str, failing: &Vec<String>) -> (r: String)
    ensures
        r@ == citation_checked(text@, string_views(failing@)),
{
    let mut out = owned(text);
    if failing.len() == 0 {
        return out;
    }
    push_str(&mut out, "\n\n## Citation semantic check\n\n");
    push_str(&mut out, "Jev could not confirm that the following cited lines support the claims made about them:\n");
    let ghost start = out@;
    let ghost fv = string_views(failing@);
    let mut i: usize = 0;
    while i < failing.len()
        invariant
            i <= failing.len(),
            fv == string_views(failing@),
            out@ == start + bullet_lines(fv.take(i as int)),
        decreases failing.len() - i,
    {
        push_str(&mut out, "- ");
        push_str(&mut out, failing[i].as_str());
        push_str(&mut out, "\n");
        proof {
            assert(fv.take(i + 1).drop_last() =~= fv.take(i as int));
            assert(out@ =~= start + bullet_lines(fv.take(i + 1)));
        }
        i += 1;
    }
    assert(fv.take(failing.len() as int) =~= fv);
    out
}

// ---------------------------------------------------------------------
// Approvals, outcomes, rounds
// ---------------------------------------------------------------------

/// The state for grouping approvals.
pub open spec fn pending_state(count: nat) -> Seq<char> {
    "Pending approvals: "@ + decimal(count) + " items"@
}

/// The state text for grouping `count` approvals.
pub fn pending_state_text(count: usize) -> (r: String)
    ensures
        r@ == pending_state(count as nat),
{
    let mut out = owned("Pending approvals: ");
    push_decimal(&mut out, count as u64);
    push_str(&mut out, " items");
    out
}

/// The question asked of one pending approval: its tool and 200
/// characters of its arguments' compact JSON.
pub open spec fn grouping_prompt(tool: Seq<char>, args: Seq<char>) -> Seq<char> {
    "Which logical change does this approval belong to? Call: "@ + tool + " "@ + preview_text(args, 200)
}

/// The question asked of one pending approval.
pub fn grouping_question(call: &ToolCall) -> (r: String)
    ensures
        r@ == grouping_prompt(call.tool_name@, json_compact(call.arguments@)),
{
    let mut out = owned("Which logical change does this approval belong to? Call: ");
    push_str(&mut out, call.tool_name.as_str());
    push_str(&mut out, " ");
    let args = compact_text(&call.arguments);
    let p = preview_chars(args.as_str(), 200);
    push_str(&mut out, p.as_str());
    out
}

/// The text of a tool result the outcome classifier reads: the compact
/// JSON of a success, `ERROR: ` and the message of a failure, nothing
/// otherwise.
pub open spec fn outcome_result(r: ToolResult) -> Seq<char> {
    match r {
        ToolResult::Success(v) => json_compact(v@),
        ToolResult::Error(e) => "ERROR: "@ + e@,
        _ => Seq::empty(),
    }
}

/// The state for classifying a tool call's outcome.
pub open spec fn outcome_state(request: Seq<char>, call: ToolCall, duration_ms: nat, result: ToolResult) -> Seq<char> {
    "User request: "@ + request + "\nTool: "@ + call.tool_name@ + "\nArguments: "@ + json_compact(
        call.arguments@,
    ) + "\nDuration: "@ + decimal(duration_ms) + "ms\nResult: "@ + preview_text(outcome_result(result), 800)
}

/// The state text for classifying a tool call's outcome.
pub fn outcome_state_text(request: &str, call: &ToolCall, duration_ms: u64, result: &ToolResult) -> (r: String)
    ensures
        r@ == outcome_state(request@, *call, duration_ms as nat, *result),
{
    let text = match result {
        ToolResult::Success(v) => compact_text(v),
        ToolResult::Error(e) => {
            let mut t = owned("ERROR: ");
            push_str(&mut t, e.as_str());
            t
        },
        _ => String::new(),
    };
    let mut out = owned("User request: ");
    push_str(&mut out, request);
    push_str(&mut out, "\nTool: ");
    push_str(&mut out, call.tool_name.as_str());
    push_str(&mut out, "\nArguments: ");
    let args = compact_text(&call.arguments);
    push_str(&mut out, args.as_str());
    push_str(&mut out, "\nDuration: ");
    push_decimal(&mut out, duration_ms);
    push_str(&mut out, "ms\nResult: ");
    let p = preview_chars(text.as_str(), 800);
    push_str(&mut out, p.as_str());
    out
}

/// The state for routing a round: the request, the round's index, and
/// whether a tool ran before it.
pub open spec fn round_state(request: Seq<char>, round: nat, tool_ran: bool) -> Json {
    state_value(
        "User request: "@ + request,
        seq![("round_index"@, decimal(round)), ("tool_ran"@, if tool_ran { "yes"@ } else { "no"@ })],
    )
}

/// The state for routing a round.
pub fn round_state_value(request: &str, round: usize, tool_ran: bool) -> (r: JsonValue)
    ensures
        r@ == round_state(request@, round as nat, tool_ran),
{
    proof {
        reveal_strlit("yes");
        reveal_strlit("no");
        reveal_strlit("round_index");
        reveal_strlit("tool_ran");
    }
    let mut text = owned("User request: ");
    push_str(&mut text, request);
    let idx = crate::text::decimal_string(round as u64);
    let ran = if tool_ran { "yes" } else { "no" };
    let md = [("round_index", idx.as_str()), ("tool_ran", ran)];
    let r = build_state(text.as_str(), md.as_slice());
    proof {
        assert(md@.map_values(|p: (&str, &str)| (p.0@, p.1@)) =~= seq![("round_index"@, decimal(round as nat)), ("tool_ran"@, if tool_ran { "yes"@ } else { "no"@ })]);
    }
    r
}

// ---------------------------------------------------------------------
// Tool filtering and asking the user
// ---------------------------------------------------------------------

/// The tools whose category is wanted, by index, in order.
pub open spec fn wanted_tools(categories: Seq<Seq<char>>, wanted: Seq<Seq<char>>) -> Seq<nat>
    decreases categories.len(),
{
    if categories.len() == 0 {
        Seq::empty()
    } else {
        wanted_tools(categories.drop_last(), wanted) + if wanted.contains(categories.last()) {
            seq![(categories.len() - 1) as nat]
        } else {
            Seq::empty()
        }
    }
}

/// The tools offered for a request: those of a wanted category, or every
/// tool when that leaves none.
pub open spec fn offered_tools(categories: Seq<Seq<char>>, wanted: Seq<Seq<char>>) -> Seq<nat> {
    if wanted_tools(categories, wanted).len() == 0 {
        Seq::new(categories.len(), |i: int| i as nat)
    } else {
        wanted_tools(categories, wanted)
    }
}

/// The indices of the tools offered for a request. `categories[i]` is
/// the category of tool `i`; `wanted` are the categories the model held
/// the request to need (every category when it could not be asked).
pub fn offered_tool_indices(categories: &Vec<String>, wanted: &Vec<String>) -> (r: Vec<usize>)
    ensures
        r@.map_values(|i: usize| i as nat) == offered_tools(string_views(categories@), string_views(wanted@)),
{
    let ghost cv = string_views(categories@);
    let ghost wv = string_views(wanted@);
    let mut out: Vec<usize> = Vec::new();
    let mut i: usize = 0;
    while i < categories.len()
        invariant
            i <= categories.len(),
            cv == string_views(categories@),
            wv == string_views(wanted@),
            out@.map_values(|j: usize| j as nat) == wanted_tools(cv.take(i as int), wv),
        decreases categories.len() - i,
    {
        let ghost before = out@.map_values(|j: usize| j as nat);
        proof {
            assert(cv.take(i + 1).drop_last() =~= cv.take(i as int));
            assert(cv.take(i + 1).last() == cv[i as int]);
        }
        if contains_text(wanted, categories[i].as_str()) {
            out.push(i);
            assert(out@.map_values(|j: usize| j as nat) =~= before + seq![i as nat]);
        } else {
            assert(before + Seq::<nat>::empty() =~= before);
        }
        i += 1;
    }
    assert(cv.take(categories.len() as int) =~= cv);
    if out.len() == 0 {
        let mut all: Vec<usize> = Vec::new();
        let mut k: usize = 0;
        while k < categories.len()
            invariant
                k <= categories.len(),
                all@.map_values(|j: usize| j as nat) == Seq::new(k as nat, |i: int| i as nat),
            decreases categories.len() - k,
        {
            let ghost before = all@.map_values(|j: usize| j as nat);
            all.push(k);
            assert(all@.map_values(|j: usize| j as nat) =~= before.push(k as nat));
            assert(Seq::new((k + 1) as nat, |i: int| i as nat) =~= Seq::new(k as nat, |i: int| i as nat).push(k as nat));
            k += 1;
        }
        all
    } else {
        out
    }
}

/// Characters of recent conversation shown when deciding whether a
/// question can be answered without the user.
pub const QUESTION_HISTORY_CHARS: usize = 2000;

/// The state for deciding whether the model's question to the user can
/// be answered from context: the request, the last
/// [`QUESTION_HISTORY_CHARS`] characters of the conversation, and the
/// question.
pub open spec fn question_state(request: Seq<char>, history: Seq<char>, question: Seq<char>) -> Seq<char> {
    let k = capped(history.len(), QUESTION_HISTORY_CHARS as nat);
    "User request: "@ + request + "\n\nRecent conversation excerpt:\n"@ + history.skip(history.len() - k)
        + "\n\nQuestion the model wants to ask: "@ + question
}

/// The state text for deciding whether a question can be answered from
/// context.
pub fn question_state_text(request: &str, history: &str, question: &str) -> (r: String)
    ensures
        r@ == question_state(request@, history@, question@),
{
    let v = chars_of(history);
    let k = if v.len() < QUESTION_HISTORY_CHARS { v.len() } else { QUESTION_HISTORY_CHARS };
    let tail = copy_range(v.as_slice(), v.len() - k, v.len());
    let mut out = owned("User request: ");
    push_str(&mut out, request);
    push_str(&mut out, "\n\nRecent conversation excerpt:\n");
    crate::text::push_chars(&mut out, tail.as_slice());
    push_str(&mut out, "\n\nQuestion the model wants to ask: ");
    push_str(&mut out, question);
    proof {
        assert(tail@ =~= history@.skip(history@.len() - k));
    }
    out
}

// ---------------------------------------------------------------------
// Plugin tools
// ---------------------------------------------------------------------

/// Fewest plugin tools that are worth filtering.
pub const MIN_PLUGIN_TOOLS_TO_FILTER: usize = 5;

/// Plugin tools scored in one round-trip.
pub const MAX_PLUGIN_TOOLS_SCORED: usize = 30;

/// Plugin tools kept at most.
pub const KEEP_TOP_PLUGIN_TOOLS: usize = 3;

/// The indices of the tools whose name does (`plugin`) or does not start
/// with `prefix`, in order.
pub open spec fn tools_with_prefix(names: Seq<Seq<char>>, prefix: Seq<char>, plugin: bool) -> Seq<nat>
    decreases names.len(),
{
    if names.len() == 0 {
        Seq::empty()
    } else {
        tools_with_prefix(names.drop_last(), prefix, plugin) + if starts_with(names.last(), prefix)
            == plugin {
            seq![(names.len() - 1) as nat]
        } else {
            Seq::empty()
        }
    }
}

/// The plugin tools kept: of the first [`KEEP_TOP_PLUGIN_TOOLS`]
/// positions of the ranking (best first; each names a position among
/// the scored tools), those that passed the threshold, as tool indices.
pub open spec fn top_plugin_tools(scored: Seq<nat>, order: Seq<nat>, passes: Seq<bool>, n: nat) -> Seq<nat>
    decreases n,
{
    if n == 0 {
        Seq::empty()
    } else {
        let j = order[n - 1];
        top_plugin_tools(scored, order, passes, (n - 1) as nat) + if j < scored.len() && j < passes.len()
            && passes[j as int] {
            seq![scored[j as int]]
        } else {
            Seq::empty()
        }
    }
}

/// The tools offered, as indices in the order offered: the built-in
/// tools, then the plugin tools. With enough plugin tools and a ranking
/// of them, only the top ranked that passed are offered, unless that
/// leaves none.
pub open spec fn offered_plugin_order(
    names: Seq<Seq<char>>,
    prefix: Seq<char>,
    ranking: Option<(Seq<nat>, Seq<bool>)>,
) -> Seq<nat> {
    let other = tools_with_prefix(names, prefix, false);
    let plugin = tools_with_prefix(names, prefix, true);
    match ranking {
        Some((order, passes)) => if plugin.len() < MIN_PLUGIN_TOOLS_TO_FILTER {
            other + plugin
        } else {
            let scored = plugin.take(capped(plugin.len(), MAX_PLUGIN_TOOLS_SCORED as nat) as int);
            let kept = top_plugin_tools(
                scored,
                order,
                passes,
                capped(order.len(), KEEP_TOP_PLUGIN_TOOLS as nat),
            );
            if kept.len() == 0 {
                other + plugin
            } else {
                other + kept
            }
        },
        None => other + plugin,
    }
}

fn indices_with_prefix(names: &Vec<String>, prefix: &str, plugin: bool) -> (r: Vec<usize>)
    ensures
        r@.map_values(|i: usize| i as nat) == tools_with_prefix(string_views(names@), prefix@, plugin),
{
    let ghost nv = string_views(names@);
    let pv = chars_of(prefix);
    let mut out: Vec<usize> = Vec::new();
    let mut i: usize = 0;
    while i < names.len()
        invariant
            i <= names.len(),
            nv == string_views(names@),
            pv@ == prefix@,
            out@.map_values(|j: usize| j as nat) == tools_with_prefix(nv.take(i as int), prefix@, plugin),
        decreases names.len() - i,
    {
        let ghost before = out@.map_values(|j: usize| j as nat);
        proof {
            assert(nv.take(i + 1).drop_last() =~= nv.take(i as int));
            assert(nv.take(i + 1).last() == nv[i as int]);
        }
        let v = chars_of(names[i].as_str());
        let has = crate::text::has_prefix_at(v.as_slice(), 0, pv.as_slice());
        proof {
            assert(v@.skip(0) =~= v@);
        }
        if has == plugin {
            out.push(i);
            assert(out@.map_values(|j: usize| j as nat) =~= before + seq![i as nat]);
        } else {
            assert(before + Seq::<nat>::empty() =~= before);
        }
        i += 1;
    }
    assert(nv.take(names.len() as int) =~= nv);
    out
}

fn append_indices(out: &mut Vec<usize>, more: &Vec<usize>)
    ensures
        final(out)@.map_values(|i: usize| i as nat) == old(out)@.map_values(|i: usize| i as nat) + more@.map_values(
            |i: usize| i as nat,
        ),
{
    let ghost start = out@.map_values(|i: usize| i as nat);
    let ghost mv = more@.map_values(|i: usize| i as nat);
    let mut k: usize = 0;
    while k < more.len()
        invariant
            k <= more.len(),
            mv == more@.map_values(|i: usize| i as nat),
            out@.map_values(|i: usize| i as nat) == start + mv.take(k as int),
        decreases more.len() - k,
    {
        let ghost before = out@.map_values(|i: usize| i as nat);
        out.push(more[k]);
        assert(out@.map_values(|i: usize| i as nat) =~= before.push(mv[k as int]));
        assert(mv.take(k + 1) =~= mv.take(k as int).push(mv[k as int]));
        k += 1;
    }
    assert(mv.take(more.len() as int) =~= mv);
}

/// The order in which tools are offered, as indices into `names`.
/// `prefix` marks a plugin tool's name. `ranking`, when the plugin tools
/// were scored, is their order best first (positions among the first
/// [`MAX_PLUGIN_TOOLS_SCORED`] plugin tools) and whether each position
/// passed the threshold.
pub fn plugin_tool_order(names: &Vec<String>, prefix: &str, ranking: Option<(&Vec<usize>, &Vec<bool>)>) -> (r: Vec<usize>)
    ensures
        r@.map_values(|i: usize| i as nat) == offered_plugin_order(
            string_views(names@),
            prefix@,
            match ranking {
                Some((o, p)) => Some((o@.map_values(|i: usize| i as nat), p@)),
                None => None,
            },
        ),
{
    let other = indices_with_prefix(names, prefix, false);
    let plugin = indices_with_prefix(names, prefix, true);
    let mut out: Vec<usize> = Vec::new();
    assert(out@.map_values(|i: usize| i as nat) =~= Seq::<nat>::empty());
    append_indices(&mut out, &other);
    let (order, passes) = match ranking {
        Some(r) => r,
        None => {
            append_indices(&mut out, &plugin);
            return out;
        },
    };
    if plugin.len() < MIN_PLUGIN_TOOLS_TO_FILTER {
        append_indices(&mut out, &plugin);
        return out;
    }
    let ghost pl = plugin@.map_values(|i: usize| i as nat);
    let scored_len = if plugin.len() < MAX_PLUGIN_TOOLS_SCORED { plugin.len() } else { MAX_PLUGIN_TOOLS_SCORED };
    let ghost scored = pl.take(scored_len as int);
    let ghost ov = order@.map_values(|i: usize| i as nat);
    let n = if order.len() < KEEP_TOP_PLUGIN_TOOLS { order.len() } else { KEEP_TOP_PLUGIN_TOOLS };
    let mut kept: Vec<usize> = Vec::new();
    let mut k: usize = 0;
    while k < n
        invariant
            k <= n <= order.len(),
            scored_len <= plugin.len(),
            pl == plugin@.map_values(|i: usize| i as nat),
            scored == pl.take(scored_len as int),
            ov == order@.map_values(|i: usize| i as nat),
            kept@.map_values(|i: usize| i as nat) == top_plugin_tools(scored, ov, passes@, k as nat),
        decreases n - k,
    {
        let ghost before = kept@.map_values(|i: usize| i as nat);
        let j = order[k];
        assert(ov[k as int] == j as nat);
        if j < scored_len && j < passes.len() && passes[j] {
            kept.push(plugin[j]);
            assert(kept@.map_values(|i: usize| i as nat) =~= before + seq![scored[j as int]]);
        } else {
            assert(before + Seq::<nat>::empty() =~= before);
        }
        k += 1;
    }
    if kept.len() == 0 {
        append_indices(&mut out, &plugin);
    } else {
        append_indices(&mut out, &kept);
    }
    out
}

// ---------------------------------------------------------------------
// Memory context
// ---------------------------------------------------------------------

/// Total memory content, in bytes, below which the context is not
/// filtered.
pub const MIN_MEMORY_CONTEXT_BYTES: usize = 400;

/// A memory entry as the prompt carries it.
#[derive(Debug)]
pub struct MemoryEntry {
    pub id: String,
    pub content: String,
}

/// The id a memory entry is asked about by: `w:` for working memory,
/// `l:` for long-term memory, then its id.
pub open spec fn memory_key(long_term: bool, id: Seq<char>) -> Seq<char> {
    (if long_term { "l:"@ } else { "w:"@ }) + id
}

/// The `(key, content)` pairs asked about: working memory first, then
/// long-term memory.
pub open spec fn memory_pairs(working: Seq<MemoryEntry>, long_term: Seq<MemoryEntry>) -> Seq<(Seq<char>, Seq<char>)> {
    Seq::new(working.len(), |i: int| (memory_key(false, working[i].id@), working[i].content@)) + Seq::new(
        long_term.len(),
        |i: int| (memory_key(true, long_term[i].id@), long_term[i].content@),
    )
}

fn push_pairs(out: &mut Vec<(String, String)>, es: &Vec<MemoryEntry>, long_term: bool)
    ensures
        entry_views(final(out)@) == entry_views(old(out)@) + Seq::new(
            es@.len(),
            |i: int| (memory_key(long_term, es@[i].id@), es@[i].content@),
        ),
{
    let ghost start = entry_views(out@);
    let ghost want = Seq::new(es@.len(), |i: int| (memory_key(long_term, es@[i].id@), es@[i].content@));
    let mut i: usize = 0;
    while i < es.len()
        invariant
            i <= es.len(),
            want == Seq::new(es@.len(), |i: int| (memory_key(long_term, es@[i].id@), es@[i].content@)),
            entry_views(out@) == start + want.take(i as int),
        decreases es.len() - i,
    {
        let ghost before = entry_views(out@);
        let mut key = if long_term { owned("l:") } else { owned("w:") };
        push_str(&mut key, es[i].id.as_str());
        out.push((key, owned(es[i].content.as_str())));
        assert(entry_views(out@) =~= before.push(want[i as int]));
        assert(want.take(i + 1) =~= want.take(i as int).push(want[i as int]));
        i += 1;
    }
    assert(want.take(es.len() as int) =~= want);
}

/// The `(key, content)` pairs a memory context is filtered by.
pub fn memory_context_pairs(working: &Vec<MemoryEntry>, long_term: &Vec<MemoryEntry>) -> (r: Vec<(String, String)>)
    ensures
        entry_views(r@) == memory_pairs(working@, long_term@),
{
    let mut out: Vec<(String, String)> = Vec::new();
    assert(entry_views(out@) =~= Seq::<(Seq<char>, Seq<char>)>::empty());
    push_pairs(&mut out, working, false);
    push_pairs(&mut out, long_term, true);
    assert(entry_views(out@) =~= memory_pairs(working@, long_term@));
    out
}

/// The entries whose key is among the kept keys, in order.
pub open spec fn retained(es: Seq<MemoryEntry>, long_term: bool, kept: Seq<Seq<char>>) -> Seq<MemoryEntry>
    decreases es.len(),
{
    if es.len() == 0 {
        Seq::empty()
    } else {
        retained(es.drop_last(), long_term, kept) + if kept.contains(memory_key(long_term, es.last().id@)) {
            seq![es.last()]
        } else {
            Seq::empty()
        }
    }
}

/// The views of memory entries.
pub open spec fn memory_views(es: Seq<MemoryEntry>) -> Seq<(Seq<char>, Seq<char>)> {
    es.map_values(|e: MemoryEntry| (e.id@, e.content@))
}

/// The views of the entries retained.
pub open spec fn retained_views(es: Seq<MemoryEntry>, long_term: bool, kept: Seq<Seq<char>>) -> Seq<(Seq<char>, Seq<char>)> {
    memory_views(retained(es, long_term, kept))
}

fn retain_kept(es: Vec<MemoryEntry>, long_term: bool, kept: &Vec<String>) -> (r: Vec<MemoryEntry>)
    ensures
        memory_views(r@) == retained_views(es@, long_term, string_views(kept@)),
{
    let ghost kv = string_views(kept@);
    let mut out: Vec<MemoryEntry> = Vec::new();
    let mut i: usize = 0;
    while i < es.len()
        invariant
            i <= es.len(),
            kv == string_views(kept@),
            memory_views(out@) == retained_views(es@.take(i as int), long_term, kv),
        decreases es.len() - i,
    {
        let ghost before = memory_views(out@);
        proof {
            assert(es@.take(i + 1).drop_last() =~= es@.take(i as int));
            assert(es@.take(i + 1).last() == es@[i as int]);
            lemma_retained_push(es@.take(i as int), es@[i as int], long_term, kv);
        }
        let mut key = if long_term { owned("l:") } else { owned("w:") };
        push_str(&mut key, es[i].id.as_str());
        if contains_text(kept, key.as_str()) {
            out.push(MemoryEntry { id: owned(es[i].id.as_str()), content: owned(es[i].content.as_str()) });
            assert(memory_views(out@) =~= before + seq![(es@[i as int].id@, es@[i as int].content@)]);
        } else {
            assert(before + Seq::<(Seq<char>, Seq<char>)>::empty() =~= before);
        }
        i += 1;
    }
    assert(es@.take(es.len() as int) =~= es@);
    out
}

proof fn lemma_retained_push(es: Seq<MemoryEntry>, e: MemoryEntry, long_term: bool, kept: Seq<Seq<char>>)
    ensures
        retained_views(es.push(e), long_term, kept) == retained_views(es, long_term, kept) + if kept.contains(
            memory_key(long_term, e.id@),
        ) {
            seq![(e.id@, e.content@)]
        } else {
            Seq::<(Seq<char>, Seq<char>)>::empty()
        },
{
    assert(es.push(e).drop_last() =~= es);
    let r = retained(es, long_term, kept);
    if kept.contains(memory_key(long_term, e.id@)) {
        assert(memory_views(r + seq![e]) =~= memory_views(r) + seq![(e.id@, e.content@)]);
    } else {
        assert(r + Seq::<MemoryEntry>::empty() =~= r);
    }
}

/// The total content of memory entries, in bytes.
pub open spec fn memory_bytes(es: Seq<(Seq<char>, Seq<char>)>) -> nat
    decreases es.len(),
{
    if es.len() == 0 {
        0
    } else {
        memory_bytes(es.drop_last()) + byte_len(es.last().1)
    }
}

/// The token estimate of memory entries: a quarter of each entry's
/// bytes, rounded down, summed.
pub open spec fn memory_tokens(es: Seq<(Seq<char>, Seq<char>)>) -> nat
    decreases es.len(),
{
    if es.len() == 0 {
        0
    } else {
        memory_tokens(es.drop_last()) + byte_len(es.last().1) / 4
    }
}

fn sum_bytes_and_tokens(es: &Vec<MemoryEntry>) -> (r: (u128, u128))
    ensures
        r.0 == memory_bytes(memory_views(es@)),
        r.1 == memory_tokens(memory_views(es@)),
        r.1 < 0x4000_0000_0000_0000_0000_0000_0000_0000u128,
{
    let ghost mv = memory_views(es@);
    let mut bytes: u128 = 0;
    let mut tokens: u128 = 0;
    let mut i: usize = 0;
    while i < es.len()
        invariant
            i <= es.len(),
            mv == memory_views(es@),
            bytes == memory_bytes(mv.take(i as int)),
            tokens == memory_tokens(mv.take(i as int)),
            bytes <= i * 0xFFFF_FFFF_FFFF_FFFFu128,
            tokens * 4 <= bytes,
        decreases es.len() - i,
    {
        proof {
            assert(mv.take(i + 1).drop_last() =~= mv.take(i as int));
            assert(mv.take(i + 1).last() == mv[i as int]);
            assert(mv[i as int].1 == es@[i as int].content@);
        }
        let n = str_byte_len(es[i].content.as_str());
        bytes = bytes + n as u128;
        tokens = tokens + (n / 4) as u128;
        i += 1;
    }
    assert(mv.take(es.len() as int) =~= mv);
    proof {
        let c: int = 0xFFFF_FFFF_FFFF_FFFF;
        let k: int = i as int;
        assert(k <= c);
        assert(k * c <= c * c) by (nonlinear_arith)
            requires
                0 <= k <= c,
        ;
    }
    (bytes, tokens)
}

/// A memory context after filtering: its two halves and its token
/// estimate.
pub struct FilteredMemory {
    pub working: Vec<MemoryEntry>,
    pub long_term: Vec<MemoryEntry>,
    pub total_tokens: u128,
}

/// Whether a memory context holds enough to be filtered.
pub fn memory_context_worth_filtering(working: &Vec<MemoryEntry>, long_term: &Vec<MemoryEntry>) -> (r: bool)
    ensures
        r == (memory_bytes(memory_views(working@)) + memory_bytes(memory_views(long_term@))
            >= MIN_MEMORY_CONTEXT_BYTES),
{
    let (a, _) = sum_bytes_and_tokens(working);
    let (b, _) = sum_bytes_and_tokens(long_term);
    a >= MIN_MEMORY_CONTEXT_BYTES as u128 || b >= MIN_MEMORY_CONTEXT_BYTES as u128 - a
}

/// Keep the memory entries whose key (see [`memory_context_pairs`])
/// the filter kept, and recount the tokens of what is left.
pub fn retain_memory_context(working: Vec<MemoryEntry>, long_term: Vec<MemoryEntry>, kept: &Vec<String>) -> (r: FilteredMemory)
    ensures
        memory_views(r.working@) == retained_views(working@, false, string_views(kept@)),
        memory_views(r.long_term@) == retained_views(long_term@, true, string_views(kept@)),
        r.total_tokens == memory_tokens(retained_views(working@, false, string_views(kept@))) + memory_tokens(
            retained_views(long_term@, true, string_views(kept@)),
        ),
{
    let w = retain_kept(working, false, kept);
    let l = retain_kept(long_term, true, kept);
    let (_, tw) = sum_bytes_and_tokens(&w);
    let (_, tl) = sum_bytes_and_tokens(&l);
    FilteredMemory { working: w, long_term: l, total_tokens: tw + tl }
}

} // verus!
