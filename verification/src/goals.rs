//! Budgeted goals: one active objective per session, with a token budget
//! and a wall-clock budget.
//!
//! A goal's cost is the new work of its turns: input tokens not served
//! from the provider's cache, plus output tokens. When the accumulated
//! cost reaches either budget an `Active` goal flips to `BudgetLimited`,
//! and the caller emits one steer message for it, once. A terminal goal
//! (complete or dropped) never changes again.

use vstd::prelude::*;
use crate::text::{decimal, push_decimal, push_str, owned};

verus! {

/// The lifecycle of a goal.
#[derive(Debug, Clone, Copy, PartialEq, Eq, Structural)]
pub enum GoalStatus {
    /// Being worked on.
    Active,
    /// The token or time budget was exhausted; the runtime stops spending.
    BudgetLimited,
    /// The user paused it. Resuming clears the pause.
    Paused,
    /// The model declared it met.
    Complete,
    /// Replaced by a new goal, or explicitly dropped.
    Dropped,
}

/// `Complete` and `Dropped` are terminal.
pub open spec fn status_is_terminal(s: GoalStatus) -> bool {
    s == GoalStatus::Complete || s == GoalStatus::Dropped
}

/// The status as its `Debug` form prints it.
pub open spec fn status_name(s: GoalStatus) -> Seq<char> {
    match s {
        GoalStatus::Active => seq!['A', 'c', 't', 'i', 'v', 'e'],
        GoalStatus::BudgetLimited => seq![
            'B',
            'u',
            'd',
            'g',
            'e',
            't',
            'L',
            'i',
            'm',
            'i',
            't',
            'e',
            'd',
        ],
        GoalStatus::Paused => seq!['P', 'a', 'u', 's', 'e', 'd'],
        GoalStatus::Complete => seq!['C', 'o', 'm', 'p', 'l', 'e', 't', 'e'],
        GoalStatus::Dropped => seq!['D', 'r', 'o', 'p', 'p', 'e', 'd'],
    }
}

impl GoalStatus {
    /// `Complete` and `Dropped` are terminal.
    pub fn is_terminal(self) -> (r: bool)
        ensures
            r == status_is_terminal(self),
    {
        match self {
            GoalStatus::Complete | GoalStatus::Dropped => true,
            _ => false,
        }
    }

    /// Whether the goal should keep consuming turns.
    pub fn is_running(self) -> (r: bool)
        ensures
            r == (self == GoalStatus::Active),
    {
        match self {
            GoalStatus::Active => true,
            _ => false,
        }
    }

    /// The status's name, as `Debug` prints it.
    pub fn name(self) -> (r: String)
        ensures
            r@ == status_name(self),
    {
        let r = match self {
            GoalStatus::Active => owned("Active"),
            GoalStatus::BudgetLimited => owned("BudgetLimited"),
            GoalStatus::Paused => owned("Paused"),
            GoalStatus::Complete => owned("Complete"),
            GoalStatus::Dropped => owned("Dropped"),
        };
        proof {
            reveal_strlit("Active");
            reveal_strlit("BudgetLimited");
            reveal_strlit("Paused");
            reveal_strlit("Complete");
            reveal_strlit("Dropped");
        }
        assert(r@ =~= status_name(self));
        r
    }
}

/// One turn's token usage as the provider reports it.
#[derive(Debug, Clone, Copy, PartialEq, Eq, Structural)]
pub struct TokenUsage {
    /// The whole input window the provider processed.
    pub prompt_tokens: usize,
    pub completion_tokens: usize,
    pub total_tokens: usize,
    /// The part of the input served from the provider's cache.
    pub cache_read_tokens: Option<u64>,
    /// The part of the input written to the provider's cache.
    pub cache_creation_tokens: Option<u64>,
}

/// `(prompt − cache_read, floored at 0) + output`. Cache writes are not
/// added: a written token is already inside the new input.
pub open spec fn delta_of(u: TokenUsage) -> int {
    let cr: int = match u.cache_read_tokens {
        Some(c) => c as int,
        None => 0,
    };
    let new_input: int = if u.prompt_tokens as int >= cr {
        u.prompt_tokens as int - cr
    } else {
        0
    };
    new_input + u.completion_tokens as int
}

/// One objective.
#[derive(Debug, Clone)]
pub struct Goal {
    pub id: u64,
    /// The objective text, as the user stated it.
    pub objective: String,
    pub status: GoalStatus,
    /// `None` means no token cap.
    pub token_budget: Option<u64>,
    /// Accumulated across the goal's turns.
    pub tokens_used: u64,
    /// `None` means no wall-clock cap.
    pub time_budget_seconds: Option<u64>,
    pub time_used_seconds: u64,
    /// Whether the budget-limited steer has already been emitted.
    pub budget_steer_emitted: bool,
}

/// `a + b`, capped at `u64::MAX`.
pub open spec fn sat_add(a: u64, b: u64) -> u64 {
    if a + b > u64::MAX {
        u64::MAX
    } else {
        (a + b) as u64
    }
}

/// Whether either budget is used up.
pub open spec fn budget_spent(g: Goal) -> bool {
    ||| (g.token_budget matches Some(b) && g.tokens_used >= b)
    ||| (g.time_budget_seconds matches Some(b) && g.time_used_seconds >= b)
}

/// An `Active` goal whose budget is spent becomes `BudgetLimited`; any
/// other goal is unchanged.
pub open spec fn rechecked(g: Goal) -> Goal {
    if g.status == GoalStatus::Active && budget_spent(g) {
        Goal { status: GoalStatus::BudgetLimited, ..g }
    } else {
        g
    }
}

/// The goal after accounting one turn's usage.
pub open spec fn observed_usage(g: Goal, u: TokenUsage) -> Goal {
    if status_is_terminal(g.status) {
        g
    } else {
        rechecked(Goal { tokens_used: sat_add(g.tokens_used, delta_of(u) as u64), ..g })
    }
}

/// The goal after accounting `seconds` of wall time.
pub open spec fn observed_time(g: Goal, seconds: u64) -> Goal {
    if status_is_terminal(g.status) {
        g
    } else {
        rechecked(Goal { time_used_seconds: sat_add(g.time_used_seconds, seconds), ..g })
    }
}

/// The goal after asking for the budget steer, and the answer.
pub open spec fn steer_taken(g: Goal) -> (Goal, bool) {
    if g.status == GoalStatus::BudgetLimited && !g.budget_steer_emitted {
        (Goal { budget_steer_emitted: true, ..g }, true)
    } else {
        (g, false)
    }
}

/// A freshly created goal: active, no budgets, nothing used.
pub open spec fn is_fresh_goal(g: Goal, id: u64, objective: Seq<char>) -> bool {
    &&& g.id == id
    &&& g.objective@ == objective
    &&& g.status == GoalStatus::Active
    &&& g.token_budget is None
    &&& g.tokens_used == 0
    &&& g.time_budget_seconds is None
    &&& g.time_used_seconds == 0
    &&& !g.budget_steer_emitted
}

/// `"<used> / <budget> <unit>"`, or `"<used> <unit>"` without a budget.
pub open spec fn usage_part(used: u64, budget: Option<u64>, unit: Seq<char>) -> Seq<char> {
    match budget {
        Some(b) => decimal(used as nat) + seq![' ', '/', ' '] + decimal(b as nat) + seq![' '] + unit,
        None => decimal(used as nat) + seq![' '] + unit,
    }
}

/// `goal <Status>: <token part>, <time part>`.
pub open spec fn report_text(g: Goal) -> Seq<char> {
    seq!['g', 'o', 'a', 'l', ' '] + status_name(g.status) + seq![':', ' '] + usage_part(
        g.tokens_used,
        g.token_budget,
        seq!['t', 'o', 'k', 'e', 'n', 's'],
    ) + seq![',', ' '] + usage_part(g.time_used_seconds, g.time_budget_seconds, seq!['s'])
}

fn push_usage_part(out: &mut String, used: u64, budget: Option<u64>, unit: &str)
    ensures
        final(out)@ == old(out)@ + usage_part(used, budget, unit@),
{
    push_decimal(out, used);
    match budget {
        Some(b) => {
            push_str(out, " / ");
            push_decimal(out, b);
        },
        None => {},
    }
    push_str(out, " ");
    push_str(out, unit);
    proof {
        reveal_strlit(" / ");
        reveal_strlit(" ");
    }
    assert(out@ =~= old(out)@ + usage_part(used, budget, unit@));
}

impl Goal {
    /// A new active goal with no budgets.
    pub fn new(id: u64, objective: &str) -> (g: Goal)
        ensures
            is_fresh_goal(g, id, objective@),
    {
        Goal {
            id,
            objective: owned(objective),
            status: GoalStatus::Active,
            token_budget: None,
            tokens_used: 0,
            time_budget_seconds: None,
            time_used_seconds: 0,
            budget_steer_emitted: false,
        }
    }

    /// The same goal with a token budget.
    pub fn with_token_budget(self, tokens: u64) -> (g: Goal)
        ensures
            g == (Goal { token_budget: Some(tokens), ..self }),
    {
        let mut g = self;
        g.token_budget = Some(tokens);
        g
    }

    /// The same goal with a wall-clock budget.
    pub fn with_time_budget(self, seconds: u64) -> (g: Goal)
        ensures
            g == (Goal { time_budget_seconds: Some(seconds), ..self }),
    {
        let mut g = self;
        g.time_budget_seconds = Some(seconds);
        g
    }

    /// The new work one turn represents, in tokens:
    /// `(prompt − cache_read) + output`.
    pub fn delta_tokens(usage: &TokenUsage) -> (d: u64)
        requires
            delta_of(*usage) <= u64::MAX,
        ensures
            d == delta_of(*usage),
    {
        let cr = match usage.cache_read_tokens {
            Some(c) => c,
            None => 0,
        };
        let new_input = (usage.prompt_tokens as u64).saturating_sub(cr);
        new_input + usage.completion_tokens as u64
    }

    /// Account one turn's usage. A terminal goal ignores it.
    pub fn observe_usage(&mut self, usage: &TokenUsage)
        requires
            delta_of(*usage) <= u64::MAX,
        ensures
            *final(self) == observed_usage(*old(self), *usage),
    {
        if self.status.is_terminal() {
            return;
        }
        self.tokens_used = self.tokens_used.saturating_add(Self::delta_tokens(usage));
        self.recheck_budget();
    }

    /// Account `seconds` of wall time. A terminal goal ignores it.
    pub fn observe_time(&mut self, seconds: u64)
        ensures
            *final(self) == observed_time(*old(self), seconds),
    {
        if self.status.is_terminal() {
            return;
        }
        self.time_used_seconds = self.time_used_seconds.saturating_add(seconds);
        self.recheck_budget();
    }

    /// Flip an `Active` goal to `BudgetLimited` when either budget is
    /// spent. A paused goal is not affected.
    fn recheck_budget(&mut self)
        ensures
            *final(self) == rechecked(*old(self)),
    {
        if self.status != GoalStatus::Active {
            return;
        }
        let tokens_over = match self.token_budget {
            Some(b) => self.tokens_used >= b,
            None => false,
        };
        let time_over = match self.time_budget_seconds {
            Some(b) => self.time_used_seconds >= b,
            None => false,
        };
        if tokens_over || time_over {
            self.status = GoalStatus::BudgetLimited;
        }
    }

    /// Whether the caller should emit the budget-limited steer: true once
    /// per goal.
    pub fn take_budget_steer(&mut self) -> (r: bool)
        ensures
            (*final(self), r) == steer_taken(*old(self)),
    {
        if self.status == GoalStatus::BudgetLimited && !self.budget_steer_emitted {
            self.budget_steer_emitted = true;
            return true;
        }
        false
    }

    /// Whether the runtime wants a continuation turn: the goal is active.
    pub fn wants_continuation(&self) -> (r: bool)
        ensures
            r == (self.status == GoalStatus::Active),
    {
        self.status == GoalStatus::Active
    }

    /// A one-line budget report: `goal Complete: 600 / 1000 tokens, 0 s`.
    pub fn report(&self) -> (r: String)
        ensures
            r@ == report_text(*self),
    {
        let mut out = owned("goal ");
        let name = self.status.name();
        push_str(&mut out, name.as_str());
        push_str(&mut out, ": ");
        push_usage_part(&mut out, self.tokens_used, self.token_budget, "tokens");
        push_str(&mut out, ", ");
        push_usage_part(&mut out, self.time_used_seconds, self.time_budget_seconds, "s");
        proof {
            reveal_strlit("goal ");
            reveal_strlit(": ");
            reveal_strlit(", ");
            reveal_strlit("tokens");
            reveal_strlit("s");
        }
        assert(out@ =~= report_text(*self));
        out
    }
}

// ---------------------------------------------------------------------
// The runtime: at most one goal
// ---------------------------------------------------------------------

/// The session's goal runtime: at most one goal.
#[derive(Debug)]
pub struct GoalRuntime {
    current: Option<Goal>,
    next_id: u64,
}

/// The runtime's goal after `pause`.
pub open spec fn paused(cur: Option<Goal>) -> Option<Goal> {
    match cur {
        Some(g) => if g.status == GoalStatus::Active {
            Some(Goal { status: GoalStatus::Paused, ..g })
        } else {
            Some(g)
        },
        None => None,
    }
}

/// The runtime's goal after `resume`.
pub open spec fn resumed(cur: Option<Goal>) -> Option<Goal> {
    match cur {
        Some(g) => if g.status == GoalStatus::Paused {
            Some(Goal { status: GoalStatus::Active, ..g })
        } else {
            Some(g)
        },
        None => None,
    }
}

/// The runtime's goal after `complete`.
pub open spec fn completed(cur: Option<Goal>) -> Option<Goal> {
    match cur {
        Some(g) => if !status_is_terminal(g.status) {
            Some(Goal { status: GoalStatus::Complete, ..g })
        } else {
            Some(g)
        },
        None => None,
    }
}

/// The runtime's goal after `drop_current`.
pub open spec fn dropped(cur: Option<Goal>) -> Option<Goal> {
    match cur {
        Some(g) => Some(Goal { status: GoalStatus::Dropped, ..g }),
        None => None,
    }
}

/// Whether the runtime wants a continuation turn.
pub open spec fn runtime_wants_continuation(cur: Option<Goal>) -> bool {
    cur matches Some(g) && g.status == GoalStatus::Active
}

impl GoalRuntime {
    /// The current goal.
    pub closed spec fn current_goal(self) -> Option<Goal> {
        self.current
    }

    /// The id the next started goal receives.
    pub closed spec fn next_goal_id(self) -> u64 {
        self.next_id
    }

    /// A runtime with no goal; the first goal gets id 1.
    pub fn new() -> (rt: GoalRuntime)
        ensures
            rt.current_goal() is None,
            rt.next_goal_id() == 1,
    {
        GoalRuntime { current: None, next_id: 1 }
    }

    /// Start a new goal, replacing any previous one. Returns the new id.
    pub fn start(&mut self, objective: &str) -> (id: u64)
        requires
            old(self).next_goal_id() < u64::MAX,
        ensures
            id == old(self).next_goal_id(),
            final(self).next_goal_id() == id + 1,
            final(self).current_goal() matches Some(g) && is_fresh_goal(g, id, objective@),
    {
        if let Some(prev) = self.current.as_mut() {
            if !prev.status.is_terminal() {
                prev.status = GoalStatus::Dropped;
            }
        }
        let id = self.next_id;
        self.next_id = self.next_id + 1;
        self.current = Some(Goal::new(id, objective));
        id
    }

    /// The current goal, if any.
    pub fn current(&self) -> (r: Option<&Goal>)
        ensures
            r matches Some(g) ==> self.current_goal() == Some(*g),
            r is None <==> self.current_goal() is None,
    {
        self.current.as_ref()
    }

    /// The current goal, mutably, if any.
    pub fn current_mut(&mut self) -> (r: Option<&mut Goal>)
        ensures
            r is None <==> old(self).current_goal() is None,
            r is None ==> final(self).current_goal() is None,
            r matches Some(g) ==> old(self).current_goal() == Some(*g),
            r matches Some(g) ==> final(self).current_goal() == Some(*final(g)),
            final(self).next_goal_id() == old(self).next_goal_id(),
    {
        self.current.as_mut()
    }

    /// Account a turn's usage against the current goal; no-op without one.
    pub fn observe_usage(&mut self, usage: &TokenUsage)
        requires
            delta_of(*usage) <= u64::MAX,
        ensures
            final(self).next_goal_id() == old(self).next_goal_id(),
            final(self).current_goal() == match old(self).current_goal() {
                Some(g) => Some(observed_usage(g, *usage)),
                None => None,
            },
    {
        if let Some(g) = self.current.as_mut() {
            g.observe_usage(usage);
        }
    }

    /// Account wall time against the current goal; no-op without one.
    pub fn observe_time(&mut self, seconds: u64)
        ensures
            final(self).next_goal_id() == old(self).next_goal_id(),
            final(self).current_goal() == match old(self).current_goal() {
                Some(g) => Some(observed_time(g, seconds)),
                None => None,
            },
    {
        if let Some(g) = self.current.as_mut() {
            g.observe_time(seconds);
        }
    }

    /// Pause an active goal; no-op otherwise.
    pub fn pause(&mut self)
        ensures
            final(self).next_goal_id() == old(self).next_goal_id(),
            final(self).current_goal() == paused(old(self).current_goal()),
    {
        if let Some(g) = self.current.as_mut() {
            if g.status == GoalStatus::Active {
                g.status = GoalStatus::Paused;
            }
        }
    }

    /// Resume a paused goal; no-op otherwise.
    pub fn resume(&mut self)
        ensures
            final(self).next_goal_id() == old(self).next_goal_id(),
            final(self).current_goal() == resumed(old(self).current_goal()),
    {
        if let Some(g) = self.current.as_mut() {
            if g.status == GoalStatus::Paused {
                g.status = GoalStatus::Active;
            }
        }
    }

    /// Mark a non-terminal goal complete.
    pub fn complete(&mut self)
        ensures
            final(self).next_goal_id() == old(self).next_goal_id(),
            final(self).current_goal() == completed(old(self).current_goal()),
    {
        if let Some(g) = self.current.as_mut() {
            if !g.status.is_terminal() {
                g.status = GoalStatus::Complete;
            }
        }
    }

    /// Drop the current goal.
    pub fn drop_current(&mut self)
        ensures
            final(self).next_goal_id() == old(self).next_goal_id(),
            final(self).current_goal() == dropped(old(self).current_goal()),
    {
        if let Some(g) = self.current.as_mut() {
            g.status = GoalStatus::Dropped;
        }
    }

    /// Whether a continuation turn should fire: a goal exists and is active.
    pub fn wants_continuation(&self) -> (r: bool)
        ensures
            r == runtime_wants_continuation(self.current_goal()),
    {
        match &self.current {
            Some(g) => g.wants_continuation(),
            None => false,
        }
    }
}

impl Default for GoalRuntime {
    /// A runtime with no goal and a zero id counter.
    fn default() -> (rt: GoalRuntime)
        ensures
            rt.current_goal() is None,
            rt.next_goal_id() == 0,
    {
        GoalRuntime { current: None, next_id: 0 }
    }
}

// ---------------------------------------------------------------------
// Laws
// ---------------------------------------------------------------------

/// A complete or dropped goal does not change when usage or time is
/// observed.
pub proof fn law_terminal_goal_ignores_observations(g: Goal, u: TokenUsage, seconds: u64)
    requires
        status_is_terminal(g.status),
    ensures
        observed_usage(g, u) == g,
        observed_time(g, seconds) == g,
{
}

/// The budget steer fires at most once per goal: asking twice in a row
/// never answers yes the second time.
pub proof fn law_budget_steer_fires_once(g: Goal)
    ensures
        !steer_taken(steer_taken(g).0).1,
{
}

/// Observing usage or time changes a status only from `Active` to
/// `BudgetLimited`; every other status stays as it was.
pub proof fn law_observation_only_limits_active_goals(g: Goal, u: TokenUsage, seconds: u64)
    ensures
        observed_usage(g, u).status == g.status || (g.status == GoalStatus::Active
            && observed_usage(g, u).status == GoalStatus::BudgetLimited),
        observed_time(g, seconds).status == g.status || (g.status == GoalStatus::Active
            && observed_time(g, seconds).status == GoalStatus::BudgetLimited),
{
}

/// A goal without budgets is never budget-limited.
pub proof fn law_no_budget_never_limits(g: Goal, u: TokenUsage, seconds: u64)
    requires
        g.token_budget is None,
        g.time_budget_seconds is None,
    ensures
        observed_usage(g, u).status == g.status,
        observed_time(g, seconds).status == g.status,
{
}

/// Accounted tokens and seconds never decrease.
pub proof fn law_usage_is_monotone(g: Goal, u: TokenUsage, seconds: u64)
    requires
        delta_of(u) <= u64::MAX,
    ensures
        observed_usage(g, u).tokens_used >= g.tokens_used,
        observed_time(g, seconds).time_used_seconds >= g.time_used_seconds,
{
}

/// An active goal whose token budget is reached after an observation is
/// budget-limited.
pub proof fn law_reaching_the_token_budget_limits(g: Goal, u: TokenUsage)
    requires
        g.status == GoalStatus::Active,
        g.token_budget matches Some(b) && sat_add(g.tokens_used, delta_of(u) as u64) >= b,
    ensures
        observed_usage(g, u).status == GoalStatus::BudgetLimited,
{
}

/// Pausing an active goal and resuming it gives the same goal back.
pub proof fn law_pause_then_resume_restores(cur: Option<Goal>)
    requires
        cur matches Some(g) && g.status == GoalStatus::Active,
    ensures
        resumed(paused(cur)) == cur,
{
    let g = cur->0;
    assert(resumed(paused(cur))->0 == g);
}

/// Resuming does nothing unless the goal is paused.
pub proof fn law_resume_only_affects_paused(cur: Option<Goal>)
    requires
        !(cur matches Some(g) && g.status == GoalStatus::Paused),
    ensures
        resumed(cur) == cur,
{
}

/// A continuation is wanted exactly while the goal is active: never
/// after pausing, completing or dropping it.
pub proof fn law_continuation_only_while_active(cur: Option<Goal>)
    ensures
        !runtime_wants_continuation(paused(cur)),
        !runtime_wants_continuation(completed(cur)),
        !runtime_wants_continuation(dropped(cur)),
        runtime_wants_continuation(cur) <==> (cur matches Some(g) && g.status
            == GoalStatus::Active),
{
}

/// Completing is final: completing again, pausing or resuming leaves a
/// completed goal as it is.
pub proof fn law_complete_is_final(cur: Option<Goal>)
    requires
        cur is Some,
    ensures
        completed(cur) matches Some(g) && status_is_terminal(g.status),
        completed(completed(cur)) == completed(cur),
        paused(completed(cur)) == completed(cur),
        resumed(completed(cur)) == completed(cur),
{
}

} // verus!
