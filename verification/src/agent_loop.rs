//! The control of the agent's loops, as state machines.
//!
//! The engine streams a model's reply, runs tools and talks to the
//! consumer; those are outside work. The decisions between them live
//! here: when the tool loop stops and what it tells the model when it
//! ran out of rounds, when the goal loop starts another turn and when it
//! stops, and how an endpoint chain moves on after a failure. The engine
//! does the work, reports what happened, and follows the step it gets
//! back.

use vstd::prelude::*;
use crate::render::{append_round_text, appended_round, declares_goal_met, reply_declares_goal_met};
use crate::text::{decimal, owned, push_decimal, push_str, trim, trim_string};

verus! {

/// Tool rounds run per reply at most.
pub const MAX_TOOL_ROUNDS: usize = 40;

/// Turns of the goal loop at most.
pub const MAX_GOAL_TURNS: usize = 6;

/// What the model is told when the tool rounds ran out.
pub const TOOL_ROUNDS_EXHAUSTED_NOTE: &'static str = "\n\n[tool-round limit reached — no further tool calls will run this turn. Summarize what has been done so far and what remains.]";

// ---------------------------------------------------------------------
// The tool loop
// ---------------------------------------------------------------------

/// What the tool loop does after a round was streamed.
#[derive(Debug, PartialEq, Eq, Structural)]
pub enum RoundStep {
    /// The first round went off track: drop what was shown and let the
    /// caller try the next endpoint.
    Reset,
    /// The reply is complete.
    Finish,
    /// Run the round's tool calls, then stream another round.
    RunTools,
}

/// What the tool loop does before streaming a round.
#[derive(Debug, PartialEq, Eq, Structural)]
pub enum RoundStart {
    /// Stream the round.
    Stream,
    /// A cancel was requested for the transcript: the reply ends with
    /// the error [`CANCELLED_BY_USER`].
    Cancelled,
    /// No round is left: the loop stopped or used its rounds.
    Stop,
}

/// The error a reply ends with when a cancel stops its loop.
pub const CANCELLED_BY_USER: &'static str = "cancelled by user";

/// The tool loop of one reply: rounds of streaming, each either ending
/// the reply or asking for tool calls.
pub struct ToolLoop {
    round: usize,
    text: String,
    calls: usize,
    finished: bool,
}

impl ToolLoop {
    /// Rounds streamed so far.
    pub closed spec fn rounds(&self) -> nat {
        self.round as nat
    }

    /// The reply's text so far, rounds separated by a blank line.
    pub closed spec fn reply(&self) -> Seq<char> {
        self.text@
    }

    /// Tool calls made so far.
    pub closed spec fn calls_made(&self) -> nat {
        self.calls as nat
    }

    /// Whether the loop has stopped.
    pub closed spec fn is_finished(&self) -> bool {
        self.finished
    }

    /// A loop that has streamed nothing.
    pub fn new() -> (l: Self)
        ensures
            l.rounds() == 0,
            l.reply() == Seq::<char>::empty(),
            l.calls_made() == 0,
            !l.is_finished(),
    {
        ToolLoop { round: 0, text: String::new(), calls: 0, finished: false }
    }

    /// Whether another round may be streamed: the loop has not stopped
    /// and fewer than [`MAX_TOOL_ROUNDS`] rounds ran.
    pub fn may_stream(&self) -> (r: bool)
        ensures
            r == (!self.is_finished() && self.rounds() < MAX_TOOL_ROUNDS),
    {
        !self.finished && self.round < MAX_TOOL_ROUNDS
    }

    /// Before a round, with `cancelled` telling whether a cancel was
    /// requested for the transcript. Cancels are looked at only here,
    /// between rounds: a loop that may stream another round stops for a
    /// cancel instead, and stays stopped.
    pub fn before_round(&mut self, cancelled: bool) -> (r: RoundStart)
        ensures
            r == if old(self).is_finished() || old(self).rounds() >= MAX_TOOL_ROUNDS {
                RoundStart::Stop
            } else if cancelled {
                RoundStart::Cancelled
            } else {
                RoundStart::Stream
            },
            final(self).is_finished() == (old(self).is_finished() || r == RoundStart::Cancelled),
            final(self).rounds() == old(self).rounds(),
            final(self).reply() == old(self).reply(),
            final(self).calls_made() == old(self).calls_made(),
    {
        if self.finished || self.round >= MAX_TOOL_ROUNDS {
            return RoundStart::Stop;
        }
        if cancelled {
            self.finished = true;
            return RoundStart::Cancelled;
        }
        RoundStart::Stream
    }

    /// A round was streamed with `text` and `call_count` tool calls;
    /// `off_track` says the advisor judged it off track.
    pub fn round_streamed(&mut self, text: &str, call_count: usize, off_track: bool) -> (step: RoundStep)
        requires
            old(self).rounds() < MAX_TOOL_ROUNDS,
            !old(self).is_finished(),
            old(self).calls_made() + call_count <= usize::MAX,
        ensures
            step == if off_track && old(self).rounds() == 0 {
                RoundStep::Reset
            } else if call_count == 0 {
                RoundStep::Finish
            } else {
                RoundStep::RunTools
            },
            step == RoundStep::Reset ==> final(self).reply() == Seq::<char>::empty()
                && final(self).calls_made() == 0 && final(self).is_finished(),
            step != RoundStep::Reset ==> final(self).reply() == appended_round(old(self).reply(), text@)
                && final(self).calls_made() == old(self).calls_made() + call_count
                && final(self).is_finished() == (step == RoundStep::Finish),
            final(self).rounds() == old(self).rounds() + 1,
    {
        self.round = self.round + 1;
        if off_track && self.round == 1 {
            self.text = String::new();
            self.calls = 0;
            self.finished = true;
            return RoundStep::Reset;
        }
        append_round_text(&mut self.text, text);
        self.calls = self.calls + call_count;
        if call_count == 0 {
            self.finished = true;
            RoundStep::Finish
        } else {
            RoundStep::RunTools
        }
    }

    /// The round's tools ran; whether to send a blank-line separator
    /// before the next round (when the reply already has text).
    pub fn tools_ran(&self) -> (separator: bool)
        ensures
            separator == (self.reply().len() > 0),
    {
        !self.text.as_str().is_empty()
    }

    /// The reply's text.
    pub fn reply_text(&self) -> (r: &str)
        ensures
            r@ == self.reply(),
    {
        self.text.as_str()
    }

    /// After the loop: when tools ran but the reply has no text, the note
    /// the model gets ([`TOOL_ROUNDS_EXHAUSTED_NOTE`]) and the line shown
    /// to the user.
    pub fn exhausted_notice(&self) -> (r: Option<(String, String)>)
        ensures
            match r {
                Some((note, line)) => trim(self.reply()).len() == 0 && self.calls_made() > 0
                    && note@ == TOOL_ROUNDS_EXHAUSTED_NOTE@ && line@ == "\n\n[tool-round limit ("@
                    + decimal(MAX_TOOL_ROUNDS as nat) + ") reached — summarising progress]\n"@,
                None => !(trim(self.reply()).len() == 0 && self.calls_made() > 0),
            },
    {
        if trim_string(self.text.as_str()).as_str().is_empty() && self.calls > 0 {
            let mut line = owned("\n\n[tool-round limit (");
            push_decimal(&mut line, MAX_TOOL_ROUNDS as u64);
            push_str(&mut line, ") reached — summarising progress]\n");
            Some((owned(TOOL_ROUNDS_EXHAUSTED_NOTE), line))
        } else {
            None
        }
    }
}

// ---------------------------------------------------------------------
// The goal loop
// ---------------------------------------------------------------------

/// The instructions a goal adds to the system prompt.
pub open spec fn goal_block(goal: Seq<char>) -> Seq<char> {
    "\n## Goal\n\n"@ + goal
        + "\n\nWork turn by turn toward this goal using tools. Do not ask the user for confirmation — act. When the goal is fully reached, end your reply with a line containing exactly GOAL MET and summarize what was done. If a tool errors, work around it and keep going.\n"@
}

/// The goal block for `goal`.
pub fn goal_prompt_block(goal: &str) -> (r: String)
    ensures
        r@ == goal_block(goal@),
{
    let mut out = owned("\n## Goal\n\n");
    push_str(&mut out, goal);
    push_str(
        &mut out,
        "\n\nWork turn by turn toward this goal using tools. Do not ask the user for confirmation — act. When the goal is fully reached, end your reply with a line containing exactly GOAL MET and summarize what was done. If a tool errors, work around it and keep going.\n",
    );
    out
}

/// The message that asks the model to go on after the first turn.
pub open spec fn goal_nudge() -> Seq<char> {
    "Continue working toward the goal above. If it is now fully reached, reply with GOAL MET plus a short summary instead of calling more tools."@
}

/// The note added when the goal loop stops on its turn limit.
pub open spec fn goal_limit_note() -> Seq<char> {
    "\n\n(Goal loop stopped after maximum turns — progress above. Refine with /goal or /steer.)"@
}

/// How a turn of the goal loop opens: after the first, a separator shown
/// to the user and a nudge for the model.
pub struct TurnOpening {
    pub turn: usize,
    pub separator: Option<String>,
    pub nudge: Option<String>,
}

/// The text gathered by the goal loop after a turn with `text`: a blank
/// line between turns when both sides have text.
pub open spec fn gathered(all: Seq<char>, text: Seq<char>) -> Seq<char> {
    if all.len() > 0 && trim(text).len() > 0 {
        all + "\n\n"@ + text
    } else {
        all + text
    }
}

/// The goal loop: turns of the tool loop until a reply declares the goal
/// met or [`MAX_GOAL_TURNS`] turns ran.
pub struct GoalLoop {
    turn: usize,
    text: String,
    done: bool,
    met: bool,
}

impl GoalLoop {
    /// Turns opened so far.
    pub closed spec fn turns(&self) -> nat {
        self.turn as nat
    }

    /// The text of all turns so far.
    pub closed spec fn gathered_text(&self) -> Seq<char> {
        self.text@
    }

    /// Whether the loop has stopped.
    pub closed spec fn stopped(&self) -> bool {
        self.done
    }

    /// Whether a reply declared the goal met.
    pub closed spec fn goal_met(&self) -> bool {
        self.met
    }

    /// The loop's invariant: it has opened at most [`MAX_GOAL_TURNS`]
    /// turns, and it has stopped when that many ran or the goal was met.
    pub closed spec fn wf(&self) -> bool {
        &&& self.turn <= MAX_GOAL_TURNS
        &&& self.met ==> self.done
    }

    /// A loop that has run no turn.
    pub fn new() -> (g: Self)
        ensures
            g.wf(),
            g.turns() == 0,
            g.gathered_text() == Seq::<char>::empty(),
            !g.stopped(),
            !g.goal_met(),
    {
        GoalLoop { turn: 0, text: String::new(), done: false, met: false }
    }

    /// Open the next turn, unless the loop stopped or used its turns.
    pub fn open_turn(&mut self) -> (r: Option<TurnOpening>)
        requires
            old(self).wf(),
        ensures
            final(self).wf(),
            final(self).gathered_text() == old(self).gathered_text(),
            final(self).stopped() == old(self).stopped(),
            final(self).goal_met() == old(self).goal_met(),
            match r {
                Some(o) => {
                    &&& !old(self).stopped() && old(self).turns() < MAX_GOAL_TURNS
                    &&& final(self).turns() == old(self).turns() + 1
                    &&& o.turn == final(self).turns()
                    &&& o.turn == 1 ==> o.separator is None && o.nudge is None
                    &&& o.turn > 1 ==> (o.separator matches Some(s) && s@ == "\n\n—— turn "@
                        + decimal(o.turn as nat) + " ——\n"@)
                    &&& o.turn > 1 ==> (o.nudge matches Some(n) && n@ == goal_nudge())
                },
                None => (old(self).stopped() || old(self).turns() >= MAX_GOAL_TURNS)
                    && final(self).turns() == old(self).turns(),
            },
    {
        if self.done || self.turn >= MAX_GOAL_TURNS {
            return None;
        }
        self.turn = self.turn + 1;
        if self.turn == 1 {
            return Some(TurnOpening { turn: 1, separator: None, nudge: None });
        }
        let mut sep = owned("\n\n—— turn ");
        push_decimal(&mut sep, self.turn as u64);
        push_str(&mut sep, " ——\n");
        let nudge = owned(
            "Continue working toward the goal above. If it is now fully reached, reply with GOAL MET plus a short summary instead of calling more tools.",
        );
        Some(TurnOpening { turn: self.turn, separator: Some(sep), nudge: Some(nudge) })
    }

    /// The opened turn ended with reply `text`; whether the loop stops.
    /// It stops when the reply declares the goal met, or when this was
    /// the last turn, in which case the limit note is added.
    pub fn turn_ended(&mut self, text: &str) -> (stop: bool)
        requires
            old(self).wf(),
            !old(self).stopped(),
            old(self).turns() > 0,
        ensures
            final(self).wf(),
            final(self).turns() == old(self).turns(),
            final(self).goal_met() == declares_goal_met(text@),
            stop == (declares_goal_met(text@) || old(self).turns() == MAX_GOAL_TURNS),
            final(self).stopped() == stop,
            final(self).gathered_text() == gathered(old(self).gathered_text(), text@) + if !declares_goal_met(
                text@,
            ) && old(self).turns() == MAX_GOAL_TURNS {
                goal_limit_note()
            } else {
                Seq::empty()
            },
    {
        if !self.text.as_str().is_empty() && !trim_string(text).as_str().is_empty() {
            push_str(&mut self.text, "\n\n");
        }
        push_str(&mut self.text, text);
        if reply_declares_goal_met(text) {
            self.met = true;
            self.done = true;
            return true;
        }
        if self.turn == MAX_GOAL_TURNS {
            push_str(
                &mut self.text,
                "\n\n(Goal loop stopped after maximum turns — progress above. Refine with /goal or /steer.)",
            );
            self.done = true;
            return true;
        }
        false
    }

    /// The opened turn ended in a cancel: the loop stops where it is,
    /// with no further turn and nothing added to its text.
    pub fn turn_cancelled(&mut self)
        requires
            old(self).wf(),
        ensures
            final(self).wf(),
            final(self).stopped(),
            final(self).turns() == old(self).turns(),
            final(self).gathered_text() == old(self).gathered_text(),
            final(self).goal_met() == old(self).goal_met(),
    {
        self.done = true;
    }

    /// The text of all turns.
    pub fn text(&self) -> (r: &str)
        ensures
            r@ == self.gathered_text(),
    {
        self.text.as_str()
    }
}

// ---------------------------------------------------------------------
// Endpoint fallback
// ---------------------------------------------------------------------

/// How an attempt on one endpoint of a chain went.
#[derive(Debug, PartialEq, Eq, Structural)]
pub enum Attempt {
    /// The endpoint answered.
    Answered,
    /// The endpoint could not be resolved to a provider.
    Unresolved,
    /// The provider failed; `retryable` for a transient failure.
    Failed { retryable: bool },
}

/// What to do after an attempt on endpoint `i` of a chain of `len`.
#[derive(Debug, PartialEq, Eq, Structural)]
pub enum ChainStep {
    /// Use the answer.
    Done,
    /// Try endpoint `i + 1` (when there is one; past the end the last
    /// error stands).
    Next,
    /// Give up with this error.
    Fail,
}

/// The step after an attempt on endpoint `i` of `len`: an unresolved
/// endpoint is skipped, a transient failure falls back to the next
/// endpoint when there is one, and any other failure ends the chain.
pub open spec fn chain_step(i: nat, len: nat, a: Attempt) -> ChainStep {
    match a {
        Attempt::Answered => ChainStep::Done,
        Attempt::Unresolved => ChainStep::Next,
        Attempt::Failed { retryable } => if retryable && i + 1 < len {
            ChainStep::Next
        } else {
            ChainStep::Fail
        },
    }
}

/// The step after an attempt on endpoint `i` of a chain of `len`.
pub fn next_in_chain(i: usize, len: usize, a: Attempt) -> (r: ChainStep)
    ensures
        r == chain_step(i as nat, len as nat, a),
{
    match a {
        Attempt::Answered => ChainStep::Done,
        Attempt::Unresolved => ChainStep::Next,
        Attempt::Failed { retryable } => if retryable && i < len && len - i > 1 {
            ChainStep::Next
        } else {
            ChainStep::Fail
        },
    }
}

/// The error a turn ends with when no LLM provider is configured.
pub const NO_PROVIDER_MESSAGE: &'static str = "No LLM provider configured. Install one with `engine.install_test_provider(Arc::new(provider))` before calling process — kod-cli and kod-tui do this automatically from ~/.config/kod/config.toml.";

/// The error a turn ends with when its chain gave no answer: the last
/// provider failure, or, when no endpoint resolved to a provider (an
/// empty chain included), that no provider is configured.
pub fn chain_failure(last_failure: Option<String>) -> (r: String)
    ensures
        r@ == match last_failure {
            Some(e) => e@,
            None => NO_PROVIDER_MESSAGE@,
        },
{
    match last_failure {
        Some(e) => e,
        None => owned(NO_PROVIDER_MESSAGE),
    }
}

// ---------------------------------------------------------------------
// Laws
// ---------------------------------------------------------------------

/// The goal loop never opens more than [`MAX_GOAL_TURNS`] turns, and a
/// loop whose goal was met has stopped.
pub proof fn law_goal_turns_are_bounded(g: GoalLoop)
    requires
        g.wf(),
    ensures
        g.turns() <= MAX_GOAL_TURNS,
        g.goal_met() ==> g.stopped(),
{
}

/// Rounds of text gathered into a reply keep every round's text in
/// order: appending a non-empty round keeps the reply so far as a prefix.
pub proof fn law_reply_keeps_earlier_rounds(reply: Seq<char>, text: Seq<char>)
    ensures
        appended_round(reply, text).take(reply.len() as int) == reply,
        appended_round(reply, text).skip(appended_round(reply, text).len() - text.len()) == text,
{
    assert(appended_round(reply, text).take(reply.len() as int) =~= reply);
    assert(appended_round(reply, text).skip(appended_round(reply, text).len() - text.len()) =~= text);
}

} // verus!
