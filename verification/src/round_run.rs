//! The order a tool round runs its calls in.
//!
//! A round that holds any mutating call (one that writes files or runs
//! commands) runs serially, in call order, so that `[write_file(a),
//! read_file(a)]` cannot race and the read observes the write. So does a
//! round while pre-tool hooks are configured. Any other round runs its
//! calls concurrently.
//!
//! Running a call is the application's work. [`RoundRun`] holds what the
//! round decides: which calls to run next, and the results in call
//! order. The application asks for the next action, runs the calls it
//! names, reports each result, and asks again until the round is
//! finished. A call whose result was settled before the round started
//! (a hook or policy refusal) is never handed out.

use vstd::prelude::*;
use crate::summary::ToolResult;

verus! {

/// Whether a round runs serially: when pre-tool hooks are configured, or
/// when any of its calls mutates (`mutating[i]` for call `i`).
pub fn round_runs_serially(mutating: &Vec<bool>, pre_hooks_enabled: bool) -> (r: bool)
    ensures
        r == (pre_hooks_enabled || exists|i: int| 0 <= i < mutating@.len() && mutating@[i]),
{
    if pre_hooks_enabled {
        return true;
    }
    let mut i: usize = 0;
    while i < mutating.len()
        invariant
            i <= mutating.len(),
            forall|j: int| 0 <= j < i ==> !mutating@[j],
        decreases mutating.len() - i,
    {
        if mutating[i] {
            return true;
        }
        i += 1;
    }
    false
}

/// What the application does next for a round.
#[derive(Debug)]
pub enum RoundAction {
    /// Run these calls, given by index in call order, and report each
    /// result. More than one may run concurrently.
    Run(Vec<usize>),
    /// Every call has its result.
    Finished,
}

/// A round being run: each call's result once it has one, whether the
/// round is serial, and which calls are running.
pub struct RoundRun {
    slots: Vec<Option<ToolResult>>,
    serial: bool,
    running: Vec<bool>,
}

/// Call `i` has no result and is not running.
pub open spec fn waiting(slots: Seq<Option<ToolResult>>, running: Seq<bool>, i: int) -> bool {
    0 <= i < slots.len() && slots[i] is None && !running[i]
}

/// `v` holds distinct call indices in increasing order.
pub open spec fn increasing(v: Seq<usize>) -> bool {
    forall|a: int, b: int| 0 <= a < b < v.len() ==> v[a] < v[b]
}

impl RoundRun {
    /// The results so far: `Some` for a call that has one.
    pub closed spec fn slots(&self) -> Seq<Option<ToolResult>> {
        self.slots@
    }

    /// Whether the round runs one call at a time.
    pub closed spec fn is_serial(&self) -> bool {
        self.serial
    }

    /// Which calls are running.
    pub closed spec fn running(&self) -> Seq<bool> {
        self.running@
    }

    /// One flag per call, and no running call has a result.
    pub open spec fn wf(&self) -> bool {
        &&& self.running().len() == self.slots().len()
        &&& forall|i: int| 0 <= i < self.slots().len() && #[trigger] self.running()[i] ==> self.slots()[i] is None
    }

    /// No call is running.
    pub open spec fn idle(&self) -> bool {
        forall|i: int| 0 <= i < self.running().len() ==> !#[trigger] self.running()[i]
    }

    /// Every call has its result.
    pub open spec fn complete(&self) -> bool {
        forall|i: int| 0 <= i < self.slots().len() ==> #[trigger] self.slots()[i] is Some
    }

    /// Start a round. `settled[i]` is call `i`'s result where it was
    /// decided before the round (a refusal), else `None`: the call is to
    /// be run.
    pub fn new(settled: Vec<Option<ToolResult>>, serial: bool) -> (r: RoundRun)
        ensures
            r.wf(),
            r.idle(),
            r.slots() == settled@,
            r.is_serial() == serial,
    {
        let mut running: Vec<bool> = Vec::new();
        let mut i: usize = 0;
        while i < settled.len()
            invariant
                i <= settled.len(),
                running@.len() == i,
                forall|j: int| 0 <= j < i ==> !running@[j],
            decreases settled.len() - i,
        {
            running.push(false);
            i += 1;
        }
        RoundRun { slots: settled, serial, running }
    }

    /// The next thing to do, asked when no call is running. A serial
    /// round hands out the first waiting call alone; a concurrent round
    /// hands out every waiting call at once. When no call waits, the
    /// round is finished. The calls handed out are marked running.
    pub fn next_action(&mut self) -> (a: RoundAction)
        requires
            old(self).wf(),
            old(self).idle(),
        ensures
            final(self).wf(),
            final(self).slots() == old(self).slots(),
            final(self).is_serial() == old(self).is_serial(),
            match a {
                RoundAction::Finished => {
                    &&& old(self).complete()
                    &&& final(self).running() == old(self).running()
                },
                RoundAction::Run(v) => {
                    &&& v@.len() >= 1
                    &&& increasing(v@)
                    &&& forall|k: int|
                        0 <= k < v@.len() ==> waiting(old(self).slots(), old(self).running(), #[trigger] v@[k] as int)
                    &&& old(self).is_serial() ==> v@.len() == 1 && forall|j: int|
                        0 <= j < v@[0] ==> #[trigger] old(self).slots()[j] is Some
                    &&& !old(self).is_serial() ==> forall|j: int|
                        #[trigger] waiting(old(self).slots(), old(self).running(), j) ==> v@.contains(j as usize)
                    &&& forall|j: int|
                        0 <= j < final(self).running().len() ==> #[trigger] final(self).running()[j] == v@.contains(j as usize)
                },
            },
    {
        let n = self.slots.len();
        let mut picked: Vec<usize> = Vec::new();
        let mut i: usize = 0;
        while i < n
            invariant
                n == self.slots@.len() == self.running@.len(),
                self.slots@ == old(self).slots@,
                self.running@ == old(self).running@,
                self.serial == old(self).serial,
                forall|j: int| 0 <= j < n ==> !#[trigger] self.running@[j],
                i <= n,
                increasing(picked@),
                forall|k: int| 0 <= k < picked@.len() ==> picked@[k] < i,
                forall|k: int|
                    0 <= k < picked@.len() ==> waiting(self.slots@, self.running@, #[trigger] picked@[k] as int),
                self.serial ==> picked@.len() <= 1,
                self.serial && picked@.len() == 0 ==> forall|j: int| 0 <= j < i ==> #[trigger] self.slots@[j] is Some,
                self.serial && picked@.len() == 1 ==> forall|j: int| 0 <= j < picked@[0] ==> #[trigger] self.slots@[j] is Some,
                self.serial && picked@.len() == 1 ==> i == n,
                !self.serial ==> forall|j: int|
                    0 <= j < i && #[trigger] waiting(self.slots@, self.running@, j) ==> picked@.contains(j as usize),
            decreases n - i,
        {
            if self.slots[i].is_none() {
                let ghost before = picked@;
                picked.push(i);
                proof {
                    assert(picked@ =~= before.push(i));
                    assert(picked@[before.len() as int] == i);
                    assert(!self.running@[i as int]);
                    assert forall|j: int| 0 <= j <= i && #[trigger] waiting(self.slots@, self.running@, j)
                        && !self.serial implies picked@.contains(j as usize) by {
                        if j < i {
                            let w = choose|w: int| 0 <= w < before.len() && #[trigger] before[w] == j as usize;
                            assert(picked@[w] == j as usize);
                        } else {
                            assert(picked@[before.len() as int] == j as usize);
                        }
                    }
                }
                if self.serial {
                    i = n;
                } else {
                    i += 1;
                }
            } else {
                i += 1;
            }
        }
        if picked.len() == 0 {
            proof {
                if !self.serial {
                    assert forall|j: int| 0 <= j < n implies #[trigger] self.slots@[j] is Some by {
                        if self.slots@[j] is None {
                            assert(waiting(self.slots@, self.running@, j));
                            assert(picked@.contains(j as usize));
                        }
                    }
                }
            }
            return RoundAction::Finished;
        }
        let mut k: usize = 0;
        while k < picked.len()
            invariant
                n == self.slots@.len() == self.running@.len(),
                self.slots@ == old(self).slots@,
                self.serial == old(self).serial,
                k <= picked@.len(),
                increasing(picked@),
                forall|m: int| 0 <= m < picked@.len() ==> picked@[m] < n,
                forall|j: int|
                    0 <= j < n ==> #[trigger] self.running@[j] == picked@.take(k as int).contains(j as usize),
            decreases picked@.len() - k,
        {
            let j = picked[k];
            let ghost prev = self.running@;
            self.running.set(j, true);
            proof {
                assert forall|x: int| 0 <= x < n implies #[trigger] self.running@[x] == picked@.take(
                    k + 1,
                ).contains(x as usize) by {
                    assert(picked@.take(k + 1) =~= picked@.take(k as int).push(j));
                    if x == j as int {
                        assert(picked@.take(k + 1)[k as int] == j);
                    } else {
                        assert(prev[x] == picked@.take(k as int).contains(x as usize));
                        if picked@.take(k + 1).contains(x as usize) {
                            let w = choose|w: int| 0 <= w < k + 1 && #[trigger] picked@.take(k + 1)[w] == x as usize;
                            assert(w < k);
                            assert(picked@.take(k as int)[w] == x as usize);
                        }
                    }
                }
            }
            k += 1;
        }
        proof {
            assert(picked@.take(k as int) =~= picked@);
        }
        RoundAction::Run(picked)
    }

    /// Report the result of running call `i`.
    pub fn record(&mut self, i: usize, result: ToolResult)
        requires
            old(self).wf(),
            i < old(self).slots().len(),
            old(self).running()[i as int],
        ensures
            final(self).wf(),
            final(self).slots() == old(self).slots().update(i as int, Some(result)),
            final(self).running() == old(self).running().update(i as int, false),
            final(self).is_serial() == old(self).is_serial(),
    {
        self.slots.set(i, Some(result));
        self.running.set(i, false);
    }

    /// Whether a call is running.
    pub fn is_running(&self, i: usize) -> (r: bool)
        requires
            self.wf(),
        ensures
            r == (i < self.slots().len() && self.running()[i as int]),
    {
        i < self.running.len() && self.running[i]
    }

    /// The results, in call order, once every call has one.
    pub fn into_results(self) -> (r: Vec<ToolResult>)
        requires
            self.complete(),
        ensures
            r@.len() == self.slots().len(),
            forall|i: int| 0 <= i < r@.len() ==> Some(#[trigger] r@[i]) == self.slots()[i],
    {
        let ghost all = self.slots@;
        let mut slots = self.slots;
        let mut out: Vec<ToolResult> = Vec::new();
        while slots.len() > 0
            invariant
                out@.len() + slots@.len() == all.len(),
                slots@ == all.skip(out@.len() as int),
                forall|i: int| 0 <= i < all.len() ==> #[trigger] all[i] is Some,
                forall|i: int| 0 <= i < out@.len() ==> Some(#[trigger] out@[i]) == all[i],
            decreases slots@.len(),
        {
            let ghost done: int = out@.len() as int;
            let s = slots.remove(0);
            proof {
                assert(s == all[done]);
                assert(slots@ =~= all.skip(done + 1));
            }
            match s {
                Some(res) => {
                    out.push(res);
                },
                None => {
                    proof {
                        assert(all[done] is Some);
                    }
                },
            }
        }
        out
    }
}

} // verus!
