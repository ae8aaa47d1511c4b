//! What the engine does with a relevance model's answers.
//!
//! Several steps ask a model a yes/no question per item — is this line of
//! a file, this search hit, this diff hunk relevant to the request, does
//! the request need the history section — and compare each probability
//! with a threshold. That comparison is the model's part. What follows
//! from the answers is the engine's: which items are kept, how the
//! dropped ones are marked, and how the prompt budget is shared out.
//! Each function here takes one flag per item (`true`: keep or wanted)
//! and does that part. An item the model did not answer is kept.

use vstd::prelude::*;
use crate::json::{
    clone_json, count_value, get_array, get_array_of, get_str, get_str_of, json_count, json_set, set_field,
    Json, JsonValue,
};
use crate::text::{
    chars_of, decimal, has_prefix_at, join, lines, lines_of, push_chars, push_decimal, push_joined,
    push_str, starts_with, string_of,
};

verus! {

// ---------------------------------------------------------------------
// Prompt budget shares
// ---------------------------------------------------------------------

/// How a prompt's budget is shared between its sections.
#[derive(Debug, Clone, Copy, PartialEq, Eq, Structural)]
pub struct Allocation {
    pub request: usize,
    pub history: usize,
    pub skills: usize,
    pub memory: usize,
    pub repomap: usize,
}

/// The shares that can move: history, skills, memory and repository map.
pub open spec fn movable(a: Allocation) -> int {
    a.history + a.skills + a.memory + a.repomap
}

/// How many of the four sections are wanted.
pub open spec fn wanted_count(history: bool, skills: bool, memory: bool, repomap: bool) -> nat {
    (if history { 1nat } else { 0nat }) + (if skills { 1nat } else { 0nat }) + (if memory {
        1nat
    } else {
        0nat
    }) + (if repomap { 1nat } else { 0nat })
}

/// The movable total shared evenly among the wanted sections, in the
/// order history, skills, memory, repository map; the remainder of the
/// division goes one unit each to the first wanted sections; an
/// unwanted section gets nothing. With nothing wanted or no movable
/// total the allocation is kept.
pub open spec fn reshared(a: Allocation, history: bool, skills: bool, memory: bool, repomap: bool) -> Allocation {
    let total = movable(a);
    let n = wanted_count(history, skills, memory, repomap) as int;
    if total == 0 || n == 0 {
        a
    } else {
        let per = total / n;
        let extra = total % n;
        // The position of each section among the wanted ones.
        let ps = if history { 1int } else { 0int };
        let pm = ps + if skills { 1int } else { 0int };
        let pr = pm + if memory { 1int } else { 0int };
        Allocation {
            request: a.request,
            history: if history { (per + if 0 < extra { 1int } else { 0int }) as usize } else { 0 },
            skills: if skills { (per + if ps < extra { 1int } else { 0int }) as usize } else { 0 },
            memory: if memory { (per + if pm < extra { 1int } else { 0int }) as usize } else { 0 },
            repomap: if repomap { (per + if pr < extra { 1int } else { 0int }) as usize } else { 0 },
        }
    }
}

/// Share the movable budget among the sections a request needs: the
/// flags say whether it needs the conversation history, skill
/// instructions, memory and the repository map.
#[verifier::rlimit(40)]
pub fn reshare_budget(base: Allocation, history: bool, skills: bool, memory: bool, repomap: bool) -> (r: Allocation)
    requires
        movable(base) <= u32::MAX,
    ensures
        r == reshared(base, history, skills, memory, repomap),
{
    let total: u32 = (base.history + base.skills + base.memory + base.repomap) as u32;
    let n: u32 = (if history { 1u32 } else { 0u32 }) + (if skills { 1u32 } else { 0u32 }) + (
    if memory {
        1u32
    } else {
        0u32
    }) + (if repomap { 1u32 } else { 0u32 });
    if total == 0 || n == 0 {
        return base;
    }
    let per = total / n;
    proof {
        assert(per * n <= total && total - per * n < n && per <= total) by (nonlinear_arith)
            requires
                per == total / n,
                n > 0,
        ;
    }
    let mut leftover = total - per * n;
    proof {
        assert(leftover == (total as int) % (n as int) && per == (total as int) / (n as int)) by (nonlinear_arith)
            requires
                per == total / n,
                leftover == total - per * n,
                n > 0,
        ;
        assert(leftover > 0 ==> per + 1 <= total) by (nonlinear_arith)
            requires
                leftover == total - per * n,
                n > 0,
        ;
    }
    let mut out = Allocation { request: base.request, history: 0, skills: 0, memory: 0, repomap: 0 };
    if history {
        out.history = (per + if leftover > 0 { 1u32 } else { 0u32 }) as usize;
        if leftover > 0 {
            leftover -= 1;
        }
    }
    if skills {
        out.skills = (per + if leftover > 0 { 1u32 } else { 0u32 }) as usize;
        if leftover > 0 {
            leftover -= 1;
        }
    }
    if memory {
        out.memory = (per + if leftover > 0 { 1u32 } else { 0u32 }) as usize;
        if leftover > 0 {
            leftover -= 1;
        }
    }
    if repomap {
        out.repomap = (per + if leftover > 0 { 1u32 } else { 0u32 }) as usize;
    }
    out
}

/// The allocation for a request: reshared by the model's answers (whether
/// the request needs history, skills, memory and the repository map), or
/// the base allocation when there are no answers or the request is under
/// 20 bytes.
pub fn reallocate(base: Allocation, request: &str, needs: Option<(bool, bool, bool, bool)>) -> (r: Allocation)
    requires
        movable(base) <= u32::MAX,
    ensures
        r == match needs {
            Some((h, s, m, p)) => if crate::text::byte_len(request@) < 20 {
                base
            } else {
                reshared(base, h, s, m, p)
            },
            None => base,
        },
{
    if crate::text::str_byte_len(request) < 20 {
        return base;
    }
    match needs {
        Some((h, s, m, p)) => reshare_budget(base, h, s, m, p),
        None => base,
    }
}

/// Resharing keeps the request's share and the movable total, gives an
/// unwanted section nothing, and gives any two wanted sections shares
/// that differ by at most one.
#[verifier::rlimit(80)]
pub proof fn law_resharing_keeps_the_total(
    a: Allocation,
    history: bool,
    skills: bool,
    memory: bool,
    repomap: bool,
)
    requires
        movable(a) <= u32::MAX,
        history || skills || memory || repomap,
    ensures
        reshared(a, history, skills, memory, repomap).request == a.request,
        movable(reshared(a, history, skills, memory, repomap)) == movable(a),
        movable(a) > 0 ==> {
            let r = reshared(a, history, skills, memory, repomap);
            let per = movable(a) / (wanted_count(history, skills, memory, repomap) as int);
            &&& !history ==> r.history == 0
            &&& !skills ==> r.skills == 0
            &&& !memory ==> r.memory == 0
            &&& !repomap ==> r.repomap == 0
            &&& history ==> per <= r.history <= per + 1
            &&& skills ==> per <= r.skills <= per + 1
            &&& memory ==> per <= r.memory <= per + 1
            &&& repomap ==> per <= r.repomap <= per + 1
        },
{
    let total = movable(a);
    let n = wanted_count(history, skills, memory, repomap) as int;
    if total > 0 {
        let per = total / n;
        let extra = total % n;
        assert(total == per * n + extra && 0 <= extra < n && 0 <= per) by (nonlinear_arith)
            requires
                n > 0,
                total > 0,
                per == total / n,
                extra == total % n,
        ;
        assert(extra > 0 ==> per + 1 <= total) by (nonlinear_arith)
            requires
                total == per * n + extra,
                n >= 1,
                per >= 0,
        ;
        lemma_small_product(per, n);
        if history {
            if skills {
                if memory {
                    if repomap {} else {}
                } else {
                    if repomap {} else {}
                }
            } else {
                if memory {
                    if repomap {} else {}
                } else {
                    if repomap {} else {}
                }
            }
        } else {
            if skills {
                if memory {
                    if repomap {} else {}
                } else {
                    if repomap {} else {}
                }
            } else {
                if memory {
                    if repomap {} else {}
                } else {
                    if repomap {} else {}
                }
            }
        }
    }
}

proof fn lemma_small_product(per: int, n: int)
    requires
        1 <= n <= 4,
    ensures
        per * n == if n == 1 {
            per
        } else if n == 2 {
            per + per
        } else if n == 3 {
            per + per + per
        } else {
            per + per + per + per
        },
{
    if n == 1 {
        assert(per * 1 == per);
    } else if n == 2 {
        assert(per * 2 == per + per);
    } else if n == 3 {
        assert(per * 3 == per + per + per);
    } else {
        assert(per * 4 == per + per + per + per);
    }
}

// ---------------------------------------------------------------------
// Eliding irrelevant lines of a file
// ---------------------------------------------------------------------

/// A file read is compressed only from this many lines on.
pub const MIN_LINES_TO_COMPRESS: usize = 60;

/// Lines the model is asked about; later lines are kept.
pub const MAX_LINES_TO_SCORE: usize = 200;

/// Fewer dropped lines than this is not worth the substitution.
pub const MIN_LINES_DROPPED: usize = 10;

/// Whether line `i` is kept: past the scored window, unanswered, or
/// judged relevant.
pub open spec fn line_kept(relevant: Seq<bool>, i: int) -> bool {
    i >= MAX_LINES_TO_SCORE || i >= relevant.len() || relevant[i]
}

/// The line that stands for a run of `n` dropped lines.
pub open spec fn elision_marker(n: nat) -> Seq<char> {
    "… "@ + decimal(n) + " lines elided by Jev"@
}

/// The lines from `i` on, with each run of dropped lines replaced by
/// one marker; `run` dropped lines come just before `i`.
pub open spec fn elide_from(ls: Seq<Seq<char>>, relevant: Seq<bool>, i: int, run: nat) -> Seq<Seq<char>>
    decreases ls.len() - i,
{
    if i >= ls.len() {
        if run > 0 {
            seq![elision_marker(run)]
        } else {
            Seq::empty()
        }
    } else if line_kept(relevant, i) {
        (if run > 0 {
            seq![elision_marker(run)]
        } else {
            Seq::empty()
        }) + seq![ls[i]] + elide_from(ls, relevant, i + 1, 0)
    } else {
        elide_from(ls, relevant, i + 1, run + 1)
    }
}

/// How many of the lines from `i` to `n` are dropped.
pub open spec fn dropped_from(n: int, relevant: Seq<bool>, i: int) -> nat
    decreases n - i,
{
    if i >= n {
        0
    } else {
        (if line_kept(relevant, i) { 0nat } else { 1nat }) + dropped_from(n, relevant, i + 1)
    }
}

/// A file's text with its irrelevant lines elided, and how many were
/// dropped; nothing when the file is short or too little would go.
pub open spec fn compressed(content: Seq<char>, relevant: Seq<bool>) -> Option<(Seq<char>, nat)> {
    let ls = lines(content);
    let d = dropped_from(ls.len() as int, relevant, 0);
    if ls.len() < MIN_LINES_TO_COMPRESS || d < MIN_LINES_DROPPED {
        None
    } else {
        Some((join(elide_from(ls, relevant, 0, 0), "\n"@), d))
    }
}

fn is_kept(relevant: &Vec<bool>, i: usize) -> (r: bool)
    ensures
        r == line_kept(relevant@, i as int),
{
    i >= MAX_LINES_TO_SCORE || i >= relevant.len() || relevant[i]
}

fn marker_line(n: usize) -> (r: Vec<char>)
    ensures
        r@ == elision_marker(n as nat),
{
    let mut s = crate::text::owned("… ");
    push_decimal(&mut s, n as u64);
    push_str(&mut s, " lines elided by Jev");
    chars_of(s.as_str())
}

/// Elide the lines of `content` the model judged irrelevant:
/// `relevant[i]` answers for line `i`. Gives the new text and the number
/// of dropped lines, or nothing when the file has fewer than
/// [`MIN_LINES_TO_COMPRESS`] lines or fewer than [`MIN_LINES_DROPPED`]
/// would be dropped.
pub fn compress_lines(content: &str, relevant: &Vec<bool>) -> (r: Option<(String, usize)>)
    ensures
        match r {
            Some((t, d)) => compressed(content@, relevant@) == Some((t@, d as nat)),
            None => compressed(content@, relevant@) is None,
        },
{
    let v = chars_of(content);
    let ls = lines_of(v.as_slice());
    let ghost lv = ls@.map_values(|l: Vec<char>| l@);
    let n = ls.len();
    let mut dropped: usize = 0;
    let mut i: usize = n;
    while i > 0
        invariant
            i <= n,
            dropped <= n - i,
            dropped == dropped_from(n as int, relevant@, i as int),
        decreases i,
    {
        i -= 1;
        if !is_kept(relevant, i) {
            dropped += 1;
        }
    }
    if n < MIN_LINES_TO_COMPRESS || dropped < MIN_LINES_DROPPED {
        return None;
    }
    let mut out: Vec<Vec<char>> = Vec::new();
    let mut run: usize = 0;
    let mut j: usize = 0;
    assert(out@.map_values(|l: Vec<char>| l@) + elide_from(lv, relevant@, 0, 0) =~= elide_from(lv, relevant@, 0, 0));
    while j < n
        invariant
            j <= n == ls@.len(),
            lv == ls@.map_values(|l: Vec<char>| l@),
            run <= j,
            out@.map_values(|l: Vec<char>| l@) + elide_from(lv, relevant@, j as int, run as nat)
                == elide_from(lv, relevant@, 0, 0),
        decreases n - j,
    {
        let ghost before = out@.map_values(|l: Vec<char>| l@);
        if is_kept(relevant, j) {
            if run > 0 {
                out.push(marker_line(run));
            }
            out.push(crate::text::copy_range(ls[j].as_slice(), 0, ls[j].len()));
            proof {
                assert(ls@[j as int]@.subrange(0, ls@[j as int]@.len() as int) =~= ls@[j as int]@);
                let m: Seq<Seq<char>> = if run > 0 {
                    seq![elision_marker(run as nat)]
                } else {
                    Seq::empty()
                };
                assert(out@.map_values(|l: Vec<char>| l@) =~= before + m + seq![lv[j as int]]);
            }
            run = 0;
        } else {
            run += 1;
        }
        j += 1;
    }
    if run > 0 {
        let ghost before = out@.map_values(|l: Vec<char>| l@);
        out.push(marker_line(run));
        assert(out@.map_values(|l: Vec<char>| l@) =~= before + seq![elision_marker(run as nat)]);
    } else {
        assert(out@.map_values(|l: Vec<char>| l@) + Seq::<Seq<char>>::empty() =~= out@.map_values(
            |l: Vec<char>| l@,
        ));
    }
    let mut text = String::new();
    push_joined(&mut text, &out, "\n");
    Some((text, dropped))
}


// ---------------------------------------------------------------------
// Dropping context-only hunks of a diff
// ---------------------------------------------------------------------

/// Hunks the model is asked about; later hunks are kept.
pub const MAX_HUNKS: usize = 20;

/// A line that opens a hunk.
pub open spec fn opens_hunk(l: Seq<char>) -> bool {
    starts_with(l, "@@"@)
}

/// A diff's lines split into the header (the lines before the first
/// hunk) and the hunks (each an opening `@@` line and the lines up to
/// the next one).
pub open spec fn split_lines(ls: Seq<Seq<char>>) -> (Seq<Seq<char>>, Seq<Seq<Seq<char>>>)
    decreases ls.len(),
{
    if ls.len() == 0 {
        (Seq::empty(), Seq::empty())
    } else {
        let (h, hs) = split_lines(ls.drop_last());
        let l = ls.last();
        if opens_hunk(l) {
            (h, hs.push(seq![l]))
        } else if hs.len() > 0 {
            (h, hs.update(hs.len() - 1, hs.last().push(l)))
        } else {
            (h.push(l), hs)
        }
    }
}

/// Whether hunk `i` is kept: past the asked window, unanswered, or
/// judged relevant.
pub open spec fn hunk_kept(relevant: Seq<bool>, i: int) -> bool {
    i >= MAX_HUNKS || i >= relevant.len() || relevant[i]
}

/// The lines of the dropped hunks among the first `n`.
pub open spec fn elided_hunk_lines(hs: Seq<Seq<Seq<char>>>, relevant: Seq<bool>, n: int) -> nat
    decreases n,
{
    if n <= 0 {
        0
    } else {
        elided_hunk_lines(hs, relevant, n - 1) + if hunk_kept(relevant, n - 1) {
            0nat
        } else {
            hs[n - 1].len()
        }
    }
}

/// The kept hunks among the first `n`, each on a new line.
pub open spec fn kept_hunks_text(hs: Seq<Seq<Seq<char>>>, relevant: Seq<bool>, n: int) -> Seq<char>
    decreases n,
{
    if n <= 0 {
        Seq::empty()
    } else {
        kept_hunks_text(hs, relevant, n - 1) + if hunk_kept(relevant, n - 1) {
            "\n"@ + join(hs[n - 1], "\n"@)
        } else {
            Seq::empty()
        }
    }
}

/// A diff with its context-only hunks dropped and a note of how many
/// lines went; nothing for an empty diff, a diff of fewer than two
/// hunks, or when no hunk is dropped.
pub open spec fn triaged_diff(diff: Seq<char>, relevant: Seq<bool>) -> Option<Seq<char>> {
    let (h, hs) = split_lines(lines(diff));
    let e = elided_hunk_lines(hs, relevant, hs.len() as int);
    if diff.len() == 0 || hs.len() < 2 || e == 0 {
        None
    } else {
        Some(join(h, "\n"@) + kept_hunks_text(hs, relevant, hs.len() as int) + "\n… ("@ + decimal(
            e,
        ) + " lines of context-only hunks elided by Jev)"@)
    }
}

/// The number of lines of a list of hunks.
pub open spec fn hunk_total(hs: Seq<Seq<Seq<char>>>) -> nat
    decreases hs.len(),
{
    if hs.len() == 0 {
        0
    } else {
        hunk_total(hs.drop_last()) + hs.last().len()
    }
}

proof fn lemma_split_total(ls: Seq<Seq<char>>)
    ensures
        split_lines(ls).0.len() + hunk_total(split_lines(ls).1) == ls.len(),
    decreases ls.len(),
{
    if ls.len() > 0 {
        lemma_split_total(ls.drop_last());
        let (h, hs) = split_lines(ls.drop_last());
        let l = ls.last();
        if opens_hunk(l) {
            assert(hs.push(seq![l]).drop_last() =~= hs);
        } else if hs.len() > 0 {
            let u = hs.update(hs.len() - 1, hs.last().push(l));
            assert(u.drop_last() =~= hs.drop_last());
        }
    }
}

proof fn lemma_hunk_total_prefix(hs: Seq<Seq<Seq<char>>>, i: int, n: int)
    requires
        0 <= i <= n <= hs.len(),
    ensures
        hunk_total(hs.take(i)) <= hunk_total(hs.take(n)),
    decreases n - i,
{
    if i < n {
        lemma_hunk_total_prefix(hs, i + 1, n);
        assert(hs.take(i + 1).drop_last() =~= hs.take(i));
    }
}

/// A diff's header lines and hunks.
pub struct DiffParts {
    pub header: Vec<Vec<char>>,
    pub hunks: Vec<Vec<Vec<char>>>,
}

/// The views of a list of hunks.
pub open spec fn hunk_views(hs: Seq<Vec<Vec<char>>>) -> Seq<Seq<Seq<char>>> {
    hs.map_values(|h: Vec<Vec<char>>| h@.map_values(|l: Vec<char>| l@))
}

fn copy_line(l: &Vec<char>) -> (r: Vec<char>)
    ensures
        r@ == l@,
{
    let r = crate::text::copy_range(l.as_slice(), 0, l.len());
    assert(l@.subrange(0, l@.len() as int) =~= l@);
    r
}

/// Split a diff into its header and hunks.
pub fn split_diff(diff: &str) -> (r: DiffParts)
    ensures
        (r.header@.map_values(|l: Vec<char>| l@), hunk_views(r.hunks@)) == split_lines(lines(diff@)),
        lines(diff@).len() <= usize::MAX,
{
    let v = chars_of(diff);
    let ls = lines_of(v.as_slice());
    let ghost lv = ls@.map_values(|l: Vec<char>| l@);
    let mut header: Vec<Vec<char>> = Vec::new();
    let mut hunks: Vec<Vec<Vec<char>>> = Vec::new();
    let at: Vec<char> = chars_of("@@");
    let mut i: usize = 0;
    assert(lv.take(0) =~= Seq::<Seq<char>>::empty());
    assert(header@.map_values(|l: Vec<char>| l@) =~= Seq::<Seq<char>>::empty());
    assert(hunk_views(hunks@) =~= Seq::<Seq<Seq<char>>>::empty());
    while i < ls.len()
        invariant
            i <= ls@.len(),
            lv == ls@.map_values(|l: Vec<char>| l@),
            at@ == "@@"@,
            (header@.map_values(|l: Vec<char>| l@), hunk_views(hunks@)) == split_lines(lv.take(i as int)),
        decreases ls.len() - i,
    {
        let ghost hv = header@.map_values(|l: Vec<char>| l@);
        let ghost hsv = hunk_views(hunks@);
        proof {
            assert(lv.take(i + 1).drop_last() =~= lv.take(i as int));
            assert(lv.take(i + 1).last() == ls@[i as int]@);
            assert(ls@[i as int]@.skip(0) =~= ls@[i as int]@);
        }
        let l = copy_line(&ls[i]);
        if has_prefix_at(ls[i].as_slice(), 0, at.as_slice()) {
            let mut h: Vec<Vec<char>> = Vec::new();
            h.push(l);
            hunks.push(h);
            proof {
                assert(hunk_views(hunks@) =~~= hsv.push(seq![ls@[i as int]@]));
            }
        } else if hunks.len() > 0 {
            let mut h = hunks.pop().unwrap();
            let ghost hv_last = h@.map_values(|x: Vec<char>| x@);
            h.push(l);
            hunks.push(h);
            proof {
                assert(hunk_views(hunks@) =~~= hsv.update(hsv.len() - 1, hsv.last().push(ls@[i as int]@)));
            }
        } else {
            header.push(l);
            proof {
                assert(header@.map_values(|x: Vec<char>| x@) =~= hv.push(ls@[i as int]@));
            }
        }
        i += 1;
    }
    assert(lv.take(i as int) =~= lv);
    assert(lv.len() == ls@.len());
    DiffParts { header, hunks }
}

/// Drop the hunks the model judged context-only: `relevant[i]` answers
/// for hunk `i`. Gives the new diff text, or nothing for an empty diff, a
/// diff of fewer than two hunks, or when no hunk is dropped.
pub fn triage_diff(diff: &str, relevant: &Vec<bool>) -> (r: Option<String>)
    ensures
        match r {
            Some(t) => triaged_diff(diff@, relevant@) == Some(t@),
            None => triaged_diff(diff@, relevant@) is None,
        },
{
    if diff.is_empty() {
        return None;
    }
    let parts = split_diff(diff);
    let ghost hs = hunk_views(parts.hunks@);
    let n = parts.hunks.len();
    if n < 2 {
        return None;
    }
    proof {
        lemma_split_total(lines(diff@));
        assert(hs.take(0) =~= Seq::<Seq<Seq<char>>>::empty());
        assert(hs.take(n as int) =~= hs);
    }
    let mut out = String::new();
    push_joined(&mut out, &parts.header, "\n");
    let ghost head = out@;
    let mut elided: usize = 0;
    let mut i: usize = 0;
    while i < n
        invariant
            i <= n == parts.hunks@.len(),
            hs == hunk_views(parts.hunks@),
            out@ == head + kept_hunks_text(hs, relevant@, i as int),
            elided == elided_hunk_lines(hs, relevant@, i as int),
            elided <= hunk_total(hs.take(i as int)),
            hunk_total(hs.take(n as int)) <= usize::MAX,
        decreases n - i,
    {
        assert(hs[i as int] == parts.hunks@[i as int]@.map_values(|l: Vec<char>| l@));
        proof {
            assert(hs.take(i + 1).drop_last() =~= hs.take(i as int));
            assert(hs.take(i + 1).last() == hs[i as int]);
            lemma_hunk_total_prefix(hs, i as int + 1, n as int);
        }
        if i >= MAX_HUNKS || i >= relevant.len() || relevant[i] {
            push_str(&mut out, "\n");
            push_joined(&mut out, &parts.hunks[i], "\n");
        } else {
            elided = elided + parts.hunks[i].len();
        }
        i += 1;
    }
    if elided == 0 {
        return None;
    }
    push_str(&mut out, "\n… (");
    push_decimal(&mut out, elided as u64);
    push_str(&mut out, " lines of context-only hunks elided by Jev)");
    Some(out)
}


// ---------------------------------------------------------------------
// Dropping irrelevant search hits
// ---------------------------------------------------------------------

/// A search is ranked only from this many hits on.
pub const MIN_RESULTS_TO_RANK: usize = 20;

/// Hits the model is asked about; later hits are kept.
pub const MAX_RESULTS_TO_RANK: usize = 60;

/// Whether hit `i` is kept.
pub open spec fn hit_kept(relevant: Seq<bool>, i: int) -> bool {
    i >= MAX_RESULTS_TO_RANK || i >= relevant.len() || relevant[i]
}

/// The kept hits among the first `n`, in order.
pub open spec fn kept_hits(hits: Seq<Json>, relevant: Seq<bool>, n: int) -> Seq<Json>
    decreases n,
{
    if n <= 0 {
        Seq::empty()
    } else {
        kept_hits(hits, relevant, n - 1) + if hit_kept(relevant, n - 1) {
            seq![hits[n - 1]]
        } else {
            Seq::empty()
        }
    }
}

proof fn lemma_kept_hits_len(hits: Seq<Json>, relevant: Seq<bool>, n: int)
    requires
        0 <= n,
    ensures
        kept_hits(hits, relevant, n).len() <= n,
    decreases n,
{
    if n > 0 {
        lemma_kept_hits_len(hits, relevant, n - 1);
    }
}

// ---------------------------------------------------------------------
// Results rewritten with the model's answers
// ---------------------------------------------------------------------

/// A `read_file` result with its irrelevant lines elided: `content`
/// replaced and `lines_elided_by_jev` set; nothing when there is no
/// string content or [`compressed`] gives nothing.
pub open spec fn compressed_read(v: Json, relevant: Seq<bool>) -> Option<Json> {
    match get_str(v, "content"@) {
        Some(c) => match compressed(c, relevant) {
            Some((t, d)) => Some(
                json_set(json_set(v, "content"@, Json::Str(t)), "lines_elided_by_jev"@, json_count(d as u64)),
            ),
            None => None,
        },
        None => None,
    }
}

/// Rewrite a `read_file` result with its irrelevant lines elided.
pub fn compress_read_result(v: &JsonValue, relevant: &Vec<bool>) -> (r: Option<JsonValue>)
    ensures
        match r {
            Some(x) => compressed_read(v@, relevant@) == Some(x@),
            None => compressed_read(v@, relevant@) is None,
        },
{
    let content = match get_str_of(v, "content") {
        Some(c) => c,
        None => return None,
    };
    match compress_lines(content, relevant) {
        Some((t, d)) => {
            let x = set_field(clone_json(v), "content", JsonValue::String(t));
            Some(set_field(x, "lines_elided_by_jev", count_value(d as u64)))
        },
        None => None,
    }
}

/// A write's result with the context-only hunks of its `diff` dropped;
/// nothing when there is no string diff or [`triaged_diff`] gives
/// nothing.
pub open spec fn triaged_write(v: Json, relevant: Seq<bool>) -> Option<Json> {
    match get_str(v, "diff"@) {
        Some(d) => match triaged_diff(d, relevant) {
            Some(t) => Some(json_set(v, "diff"@, Json::Str(t))),
            None => None,
        },
        None => None,
    }
}

/// Rewrite a write's result with the context-only hunks of its diff
/// dropped.
pub fn triage_write_result(v: &JsonValue, relevant: &Vec<bool>) -> (r: Option<JsonValue>)
    ensures
        match r {
            Some(x) => triaged_write(v@, relevant@) == Some(x@),
            None => triaged_write(v@, relevant@) is None,
        },
{
    let diff = match get_str_of(v, "diff") {
        Some(d) => d,
        None => return None,
    };
    match triage_diff(diff, relevant) {
        Some(t) => Some(set_field(clone_json(v), "diff", JsonValue::String(t))),
        None => None,
    }
}

/// A search result with its irrelevant hits dropped: `results` replaced
/// by the kept hits and `ranked_by_jev` set to the counts; nothing when
/// there is no `results` array, it has fewer than
/// [`MIN_RESULTS_TO_RANK`] hits, or no hit is dropped.
pub open spec fn ranked_search(v: Json, relevant: Seq<bool>) -> Option<Json> {
    match get_array(v, "results"@) {
        Some(hits) => {
            let kept = kept_hits(hits, relevant, hits.len() as int);
            let dropped = hits.len() - kept.len();
            if hits.len() < MIN_RESULTS_TO_RANK || dropped == 0 {
                None
            } else {
                Some(
                    json_set(
                        json_set(v, "results"@, Json::Array(kept)),
                        "ranked_by_jev"@,
                        Json::Object(
                            seq![
                                ("dropped"@, json_count(dropped as u64)),
                                ("kept"@, json_count(kept.len() as u64)),
                            ],
                        ),
                    ),
                )
            }
        },
        None => None,
    }
}

/// Rewrite a search result with its irrelevant hits dropped.
pub fn rank_search_result(v: &JsonValue, relevant: &Vec<bool>) -> (r: Option<JsonValue>)
    ensures
        match r {
            Some(x) => ranked_search(v@, relevant@) == Some(x@),
            None => ranked_search(v@, relevant@) is None,
        },
{
    let hits = match get_array_of(v, "results") {
        Some(a) => a,
        None => return None,
    };
    let ghost hv = JsonValue::Array(*hits)@->Array_0;
    proof {
        crate::summary::lemma_array_model(*hits);
    }
    if hits.len() < MIN_RESULTS_TO_RANK {
        return None;
    }
    let mut kept: Vec<JsonValue> = Vec::new();
    let mut i: usize = 0;
    while i < hits.len()
        invariant
            i <= hits.len(),
            hv == JsonValue::Array(*hits)@->Array_0,
            hv.len() == hits@.len(),
            forall|j: int| 0 <= j < hits@.len() ==> #[trigger] hv[j] == hits@[j]@,
            JsonValue::Array(kept)@->Array_0 == kept_hits(hv, relevant@, i as int),
            kept@.len() <= i,
        decreases hits.len() - i,
    {
        let ghost before = JsonValue::Array(kept)@->Array_0;
        if i >= MAX_RESULTS_TO_RANK || i >= relevant.len() || relevant[i] {
            kept.push(clone_json(&hits[i]));
            proof {
                crate::summary::lemma_array_model(kept);
                assert(JsonValue::Array(kept)@->Array_0 =~= before + seq![hv[i as int]]);
            }
        } else {
            assert(before + Seq::<Json>::empty() =~= before);
        }
        i += 1;
    }
    proof {
        crate::summary::lemma_array_model(kept);
    }
    let dropped = hits.len() - kept.len();
    if dropped == 0 {
        return None;
    }
    let n_kept = kept.len();
    let mut counts: Vec<(String, JsonValue)> = Vec::new();
    counts.push((crate::text::owned("dropped"), count_value(dropped as u64)));
    counts.push((crate::text::owned("kept"), count_value(n_kept as u64)));
    let ranked = JsonValue::Object(counts);
    proof {
        crate::summary::lemma_object_entries(counts);
        assert(ranked@->Object_0 =~= seq![
            ("dropped"@, json_count(dropped as u64)),
            ("kept"@, json_count(n_kept as u64)),
        ]);
    }
    let x = set_field(clone_json(v), "results", JsonValue::Array(kept));
    Some(set_field(x, "ranked_by_jev", ranked))
}

} // verus!
