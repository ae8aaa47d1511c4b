//! The diagnostics report appended after a round that wrote files: the
//! language server's diagnostics verbatim, or the compiler's compared
//! with the baseline captured before the write, so the model sees the
//! errors its write introduced rather than the ones that were already
//! there.
//!
//! Two diagnostics are the same error when file, code and message agree;
//! line and column are ignored, since an edit that moves a later error
//! down a line did not create it.

use vstd::prelude::*;
use crate::text::{chars_of, copy_range, decimal, owned, push_chars, push_decimal, push_one, push_str, str_eq};

verus! {

/// Diagnostics listed in full before the rest are counted.
pub const MAX_LISTED_DIAGNOSTICS: usize = 20;

/// Characters of a diagnostic's message shown before it is cut.
pub const MAX_DIAGNOSTIC_MESSAGE_CHARS: usize = 160;

/// One diagnostic from a compiler or language server.
#[derive(Debug)]
pub struct Diagnostic {
    pub file: String,
    pub line: usize,
    pub column: usize,
    pub severity: String,
    pub code: Option<String>,
    pub message: String,
}

/// What identifies a diagnostic across two runs.
pub type DiagKey = (Seq<char>, Option<Seq<char>>, Seq<char>);

/// The identity of `d`: file, code and message.
pub open spec fn diag_key(d: Diagnostic) -> DiagKey {
    (
        d.file@,
        match d.code {
            Some(c) => Some(c@),
            None => None,
        },
        d.message@,
    )
}

/// Whether some diagnostic of `ds` has key `k`.
pub open spec fn has_key(ds: Seq<Diagnostic>, k: DiagKey) -> bool {
    exists|i: int| 0 <= i < ds.len() && diag_key(#[trigger] ds[i]) == k
}

/// A message cut to [`MAX_DIAGNOSTIC_MESSAGE_CHARS`] characters with an
/// ellipsis when longer.
pub open spec fn short_message(m: Seq<char>) -> Seq<char> {
    if m.len() > MAX_DIAGNOSTIC_MESSAGE_CHARS {
        m.take(MAX_DIAGNOSTIC_MESSAGE_CHARS as int).push('…')
    } else {
        m
    }
}

/// One listed diagnostic: `  severity [code] file:line:col — message`.
pub open spec fn diag_line(d: Diagnostic) -> Seq<char> {
    "  "@ + d.severity@ + " "@ + match d.code {
        Some(c) => "["@ + c@ + "]"@,
        None => Seq::empty(),
    } + " "@ + d.file@ + ":"@ + decimal(d.line as nat) + ":"@ + decimal(d.column as nat)
        + " — "@ + short_message(d.message@) + "\n"@
}

/// The lines of a list of diagnostics.
pub open spec fn diag_lines(ds: Seq<Diagnostic>) -> Seq<char>
    decreases ds.len(),
{
    if ds.len() == 0 {
        Seq::empty()
    } else {
        diag_lines(ds.drop_last()) + diag_line(ds.last())
    }
}

/// The first `max` diagnostics, one per line, then a count of the rest.
pub open spec fn listed_diagnostics(ds: Seq<Diagnostic>, max: nat) -> Seq<char> {
    if ds.len() > max {
        diag_lines(ds.take(max as int)) + "  … and "@ + decimal((ds.len() - max) as nat)
            + " more.\n"@
    } else {
        diag_lines(ds)
    }
}

/// The indices of the diagnostics of `ds` whose key no diagnostic of
/// `baseline` has, in order.
pub open spec fn unseen_indices(ds: Seq<Diagnostic>, baseline: Seq<Diagnostic>) -> Seq<int>
    decreases ds.len(),
{
    if ds.len() == 0 {
        Seq::empty()
    } else if has_key(baseline, diag_key(ds.last())) {
        unseen_indices(ds.drop_last(), baseline)
    } else {
        unseen_indices(ds.drop_last(), baseline).push(ds.len() - 1)
    }
}

/// How many distinct keys of `baseline` no diagnostic of `current` has.
pub open spec fn resolved_count(baseline: Seq<Diagnostic>, current: Seq<Diagnostic>) -> nat
    decreases baseline.len(),
{
    if baseline.len() == 0 {
        0
    } else {
        let rest = baseline.drop_last();
        let k = diag_key(baseline.last());
        resolved_count(rest, current) + if !has_key(current, k) && !has_key(rest, k) {
            1nat
        } else {
            0nat
        }
    }
}

/// The `## LSP diagnostics` block for a language server's answer.
pub open spec fn lsp_report(source: Seq<char>, ds: Seq<Diagnostic>) -> Seq<char> {
    "\n## LSP diagnostics\n\n"@ + if ds.len() == 0 {
        "`"@ + source + "`: no diagnostics on this file.\n"@
    } else {
        "`"@ + source + "` reported "@ + decimal(ds.len()) + " diagnostic(s) on this file:\n\n"@
            + listed_diagnostics(ds, MAX_LISTED_DIAGNOSTICS as nat)
    }
}

/// The `## Auto-check` block for a compiler run. `fresh` are the
/// diagnostics judged new against the baseline (when there is one).
pub open spec fn check_report(
    source: Seq<char>,
    ds: Seq<Diagnostic>,
    baseline: Option<Seq<Diagnostic>>,
    fresh: Seq<Diagnostic>,
) -> Seq<char> {
    "\n## Auto-check\n\n"@ + match baseline {
        None => if ds.len() == 0 {
            "`"@ + source + "` is clean.\n"@
        } else {
            "`"@ + source + "` reported "@ + decimal(ds.len())
                + " diagnostic(s). (No baseline was captured, so all are shown — some may pre-date this write.)\n\n"@
                + listed_diagnostics(ds, MAX_LISTED_DIAGNOSTICS as nat)
        },
        Some(b) => {
            let resolved = resolved_count(b, ds);
            if fresh.len() > 0 {
                "`"@ + source + "` reported "@ + decimal(fresh.len())
                    + " NEW diagnostic(s) from this write:\n\n"@ + listed_diagnostics(
                    fresh,
                    MAX_LISTED_DIAGNOSTICS as nat,
                ) + (if resolved > 0 {
                    "\n("@ + decimal(resolved) + " pre-existing diagnostic(s) resolved.)\n"@
                } else {
                    Seq::empty()
                }) + "\nFix the new errors before continuing.\n"@
            } else if resolved > 0 {
                "`"@ + source + "`: your write introduced no new errors and resolved "@ + decimal(
                    resolved,
                ) + " pre-existing diagnostic(s).\n"@
            } else if ds.len() == 0 {
                "`"@ + source + "` is clean.\n"@
            } else {
                "`"@ + source + "`: your write introduced no new errors. "@ + decimal(ds.len())
                    + " pre-existing diagnostic(s) remain, unrelated to this change.\n"@
            }
        },
    }
}


// ---------------------------------------------------------------------
// Comparing diagnostics
// ---------------------------------------------------------------------

fn same_key(a: &Diagnostic, b: &Diagnostic) -> (r: bool)
    ensures
        r == (diag_key(*a) == diag_key(*b)),
{
    if !str_eq(a.file.as_str(), b.file.as_str()) || !str_eq(a.message.as_str(), b.message.as_str()) {
        return false;
    }
    match (&a.code, &b.code) {
        (None, None) => true,
        (Some(x), Some(y)) => str_eq(x.as_str(), y.as_str()),
        _ => false,
    }
}

/// Whether a diagnostic of `ds[..n]` has `d`'s key.
fn has_key_before(ds: &Vec<Diagnostic>, n: usize, d: &Diagnostic) -> (r: bool)
    requires
        n <= ds.len(),
    ensures
        r == has_key(ds@.take(n as int), diag_key(*d)),
{
    let mut i: usize = 0;
    while i < n
        invariant
            i <= n <= ds.len(),
            forall|j: int| 0 <= j < i ==> diag_key(ds@[j]) != diag_key(*d),
        decreases n - i,
    {
        if same_key(&ds[i], d) {
            assert(ds@.take(n as int)[i as int] == ds@[i as int]);
            return true;
        }
        i += 1;
    }
    assert forall|j: int| 0 <= j < n implies diag_key(#[trigger] ds@.take(n as int)[j]) != diag_key(*d) by {
        assert(ds@.take(n as int)[j] == ds@[j]);
    }
    false
}

fn has_key_in(ds: &Vec<Diagnostic>, d: &Diagnostic) -> (r: bool)
    ensures
        r == has_key(ds@, diag_key(*d)),
{
    assert(ds@.take(ds.len() as int) =~= ds@);
    has_key_before(ds, ds.len(), d)
}

/// The indices of the diagnostics of `ds` that are not in `baseline`.
pub fn unseen_diagnostics(ds: &Vec<Diagnostic>, baseline: &Vec<Diagnostic>) -> (r: Vec<usize>)
    ensures
        r@.map_values(|i: usize| i as int) == unseen_indices(ds@, baseline@),
{
    let mut r: Vec<usize> = Vec::new();
    let mut i: usize = 0;
    assert(ds@.take(0) =~= Seq::<Diagnostic>::empty());
    while i < ds.len()
        invariant
            i <= ds.len(),
            r@.map_values(|i: usize| i as int) == unseen_indices(ds@.take(i as int), baseline@),
        decreases ds.len() - i,
    {
        let ghost before = r@.map_values(|i: usize| i as int);
        proof {
            assert(ds@.take(i + 1).drop_last() =~= ds@.take(i as int));
            assert(ds@.take(i + 1).last() == ds@[i as int]);
        }
        if !has_key_in(baseline, &ds[i]) {
            r.push(i);
            assert(r@.map_values(|i: usize| i as int) =~= before.push(i as int));
        }
        i += 1;
    }
    assert(ds@.take(i as int) =~= ds@);
    r
}

/// How many distinct keys of `baseline` no diagnostic of `current` has.
pub fn count_resolved(baseline: &Vec<Diagnostic>, current: &Vec<Diagnostic>) -> (n: usize)
    ensures
        n == resolved_count(baseline@, current@),
{
    let mut n: usize = 0;
    let mut i: usize = 0;
    assert(baseline@.take(0) =~= Seq::<Diagnostic>::empty());
    while i < baseline.len()
        invariant
            i <= baseline.len(),
            n <= i,
            n == resolved_count(baseline@.take(i as int), current@),
        decreases baseline.len() - i,
    {
        proof {
            assert(baseline@.take(i + 1).drop_last() =~= baseline@.take(i as int));
            assert(baseline@.take(i + 1).last() == baseline@[i as int]);
        }
        if !has_key_in(current, &baseline[i]) && !has_key_before(baseline, i, &baseline[i]) {
            n += 1;
        }
        i += 1;
    }
    assert(baseline@.take(i as int) =~= baseline@);
    n
}

// ---------------------------------------------------------------------
// Rendering
// ---------------------------------------------------------------------

fn push_short_message(out: &mut String, m: &str)
    ensures
        final(out)@ == old(out)@ + short_message(m@),
{
    let v = chars_of(m);
    if v.len() > MAX_DIAGNOSTIC_MESSAGE_CHARS {
        let head = copy_range(v.as_slice(), 0, MAX_DIAGNOSTIC_MESSAGE_CHARS);
        push_chars(out, head.as_slice());
        push_one(out, '…');
        assert(head@ =~= m@.take(MAX_DIAGNOSTIC_MESSAGE_CHARS as int));
        assert(final(out)@ =~= old(out)@ + short_message(m@));
    } else {
        push_str(out, m);
    }
}

fn push_diag_line(out: &mut String, d: &Diagnostic)
    ensures
        final(out)@ == old(out)@ + diag_line(*d),
{
    push_str(out, "  ");
    push_str(out, d.severity.as_str());
    push_str(out, " ");
    let ghost before_code = out@;
    match &d.code {
        Some(c) => {
            push_str(out, "[");
            push_str(out, c.as_str());
            push_str(out, "]");
        },
        None => {},
    }
    push_str(out, " ");
    push_str(out, d.file.as_str());
    push_str(out, ":");
    push_decimal(out, d.line as u64);
    push_str(out, ":");
    push_decimal(out, d.column as u64);
    push_str(out, " — ");
    push_short_message(out, d.message.as_str());
    push_str(out, "\n");
    assert(final(out)@ =~= old(out)@ + diag_line(*d));
}

/// Append the first `max` diagnostics of `diags` to `block`, one per
/// line as `  severity [code] file:line:col — message`, then a count of
/// the rest.
pub fn render_diagnostics(block: &mut String, diags: &Vec<Diagnostic>, max: usize)
    ensures
        final(block)@ == old(block)@ + listed_diagnostics(diags@, max as nat),
{
    let n = if diags.len() < max {
        diags.len()
    } else {
        max
    };
    let mut i: usize = 0;
    assert(diags@.take(0) =~= Seq::<Diagnostic>::empty());
    while i < n
        invariant
            i <= n <= diags.len(),
            block@ == old(block)@ + diag_lines(diags@.take(i as int)),
        decreases n - i,
    {
        proof {
            assert(diags@.take(i + 1).drop_last() =~= diags@.take(i as int));
            assert(diags@.take(i + 1).last() == diags@[i as int]);
        }
        push_diag_line(block, &diags[i]);
        i += 1;
    }
    if diags.len() > max {
        push_str(block, "  … and ");
        push_decimal(block, (diags.len() - max) as u64);
        push_str(block, " more.\n");
    } else {
        assert(diags@.take(n as int) =~= diags@);
    }
}

/// The `## LSP diagnostics` block for `source`'s answer on one file.
pub fn lsp_report_text(source: &str, diags: &Vec<Diagnostic>) -> (r: String)
    ensures
        r@ == lsp_report(source@, diags@),
{
    let mut out = owned("\n## LSP diagnostics\n\n");
    push_str(&mut out, "`");
    push_str(&mut out, source);
    if diags.len() == 0 {
        push_str(&mut out, "`: no diagnostics on this file.\n");
    } else {
        push_str(&mut out, "` reported ");
        push_decimal(&mut out, diags.len() as u64);
        push_str(&mut out, " diagnostic(s) on this file:\n\n");
        render_diagnostics(&mut out, diags, MAX_LISTED_DIAGNOSTICS);
    }
    assert(out@ =~= lsp_report(source@, diags@));
    out
}

/// The `## Auto-check` block for a compiler run by `source` that
/// reported `diags`, against `baseline` when one was captured; `fresh`
/// are the diagnostics judged new.
pub fn check_report_text(
    source: &str,
    diags: &Vec<Diagnostic>,
    baseline: Option<&Vec<Diagnostic>>,
    fresh: &Vec<Diagnostic>,
) -> (r: String)
    ensures
        r@ == check_report(
            source@,
            diags@,
            match baseline {
                Some(b) => Some(b@),
                None => None,
            },
            fresh@,
        ),
{
    let mut out = owned("\n## Auto-check\n\n");
    push_str(&mut out, "`");
    push_str(&mut out, source);
    match baseline {
        None => {
            if diags.len() == 0 {
                push_str(&mut out, "` is clean.\n");
            } else {
                push_str(&mut out, "` reported ");
                push_decimal(&mut out, diags.len() as u64);
                push_str(
                    &mut out,
                    " diagnostic(s). (No baseline was captured, so all are shown — some may pre-date this write.)\n\n",
                );
                render_diagnostics(&mut out, diags, MAX_LISTED_DIAGNOSTICS);
            }
        },
        Some(b) => {
            let resolved = count_resolved(b, diags);
            if fresh.len() > 0 {
                push_str(&mut out, "` reported ");
                push_decimal(&mut out, fresh.len() as u64);
                push_str(&mut out, " NEW diagnostic(s) from this write:\n\n");
                render_diagnostics(&mut out, fresh, MAX_LISTED_DIAGNOSTICS);
                if resolved > 0 {
                    push_str(&mut out, "\n(");
                    push_decimal(&mut out, resolved as u64);
                    push_str(&mut out, " pre-existing diagnostic(s) resolved.)\n");
                }
                push_str(&mut out, "\nFix the new errors before continuing.\n");
            } else if resolved > 0 {
                push_str(&mut out, "`: your write introduced no new errors and resolved ");
                push_decimal(&mut out, resolved as u64);
                push_str(&mut out, " pre-existing diagnostic(s).\n");
            } else if diags.len() == 0 {
                push_str(&mut out, "` is clean.\n");
            } else {
                push_str(&mut out, "`: your write introduced no new errors. ");
                push_decimal(&mut out, diags.len() as u64);
                push_str(&mut out, " pre-existing diagnostic(s) remain, unrelated to this change.\n");
            }
        },
    }
    assert(out@ =~= check_report(
        source@,
        diags@,
        match baseline {
            Some(b) => Some(b@),
            None => None,
        },
        fresh@,
    ));
    out
}

// ---------------------------------------------------------------------
// Laws
// ---------------------------------------------------------------------

/// Call `i` is among the unseen indices exactly when no baseline
/// diagnostic has its key.
proof fn lemma_unseen_indices(ds: Seq<Diagnostic>, baseline: Seq<Diagnostic>, i: int)
    requires
        0 <= i < ds.len(),
    ensures
        unseen_indices(ds, baseline).contains(i) <==> !has_key(baseline, diag_key(ds[i])),
        forall|k: int| 0 <= k < unseen_indices(ds, baseline).len() ==> 0 <= #[trigger] unseen_indices(ds, baseline)[k] < ds.len(),
    decreases ds.len(),
{
    let rest = ds.drop_last();
    let u = unseen_indices(ds, baseline);
    let ur = unseen_indices(rest, baseline);
    if i < ds.len() - 1 {
        lemma_unseen_indices(rest, baseline, i);
        assert(rest[i] == ds[i]);
        if has_key(baseline, diag_key(ds.last())) {
            assert(u == ur);
        } else {
            assert(u == ur.push(ds.len() - 1));
            if u.contains(i) {
                let k = choose|k: int| 0 <= k < u.len() && u[k] == i;
                if k < ur.len() {
                    assert(ur[k] == i);
                }
            }
            if ur.contains(i) {
                let k = choose|k: int| 0 <= k < ur.len() && ur[k] == i;
                assert(u[k] == i);
            }
        }
    } else {
        if rest.len() > 0 {
            lemma_unseen_indices(rest, baseline, 0);
        }
        if has_key(baseline, diag_key(ds.last())) {
            assert(u == ur);
            if u.contains(i) {
                let k = choose|k: int| 0 <= k < u.len() && u[k] == i;
                assert(ur[k] < rest.len());
            }
        } else {
            assert(u == ur.push(ds.len() - 1));
            assert(u[ur.len() as int] == i);
        }
    }
    if rest.len() > 0 {
        lemma_unseen_indices(rest, baseline, 0);
    }
    assert forall|k: int| 0 <= k < u.len() implies 0 <= #[trigger] u[k] < ds.len() by {
        if k < ur.len() {
            assert(u[k] == ur[k]);
        }
    }
}

/// A diagnostic in a file where the baseline had no diagnostic is new:
/// diagnostics in different files never count as the same, whatever
/// their codes and messages.
pub proof fn law_diagnostic_in_a_new_file_is_unseen(ds: Seq<Diagnostic>, baseline: Seq<Diagnostic>, i: int)
    requires
        0 <= i < ds.len(),
        forall|j: int| 0 <= j < baseline.len() ==> (#[trigger] baseline[j]).file@ != ds[i].file@,
    ensures
        unseen_indices(ds, baseline).contains(i),
{
    lemma_unseen_indices(ds, baseline, i);
    if has_key(baseline, diag_key(ds[i])) {
        let j = choose|j: int| 0 <= j < baseline.len() && diag_key(#[trigger] baseline[j]) == diag_key(ds[i]);
        assert(baseline[j].file@ == ds[i].file@);
    }
}

/// A diagnostic the baseline already had, with the same file, code and
/// message, is not new.
pub proof fn law_repeated_diagnostic_is_seen(ds: Seq<Diagnostic>, baseline: Seq<Diagnostic>, i: int, j: int)
    requires
        0 <= i < ds.len(),
        0 <= j < baseline.len(),
        baseline[j].file@ == ds[i].file@,
        baseline[j].message@ == ds[i].message@,
        baseline[j].code is None <==> ds[i].code is None,
        baseline[j].code is Some ==> baseline[j].code->0@ == ds[i].code->0@,
    ensures
        !unseen_indices(ds, baseline).contains(i),
{
    lemma_unseen_indices(ds, baseline, i);
    assert(diag_key(baseline[j]) == diag_key(ds[i]));
}

} // verus!
