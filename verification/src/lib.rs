//! Verified core of the KOD agent engine: the streaming marker protocol,
//! budgeted goals, the transcript and its budget, the agent and goal
//! loops, tool-round decisions, tool-result shaping and triage, the
//! decision-model advisor, endpoint routing, `@path` references, hook
//! selection, and the replay-fixture identity hash.

use vstd::prelude::*;

pub mod advisor;
pub mod agent_loop;
pub mod at_refs;
pub mod diagnostics;
pub mod fixture;
pub mod goals;
pub mod history;
pub mod hooks;
pub mod jev;
pub mod json;
pub mod lifecycle;
pub mod markers;
pub mod plan;
pub mod render;
pub mod round;
pub mod round_run;
pub mod routing;
pub mod session;
pub mod summary;
pub mod triage;
pub mod text;

verus! {

} // verus!
