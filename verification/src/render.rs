//! Text shaping used by the agent loop: byte-safe truncation, line caps,
//! short paths, joining the text of several rounds, stripping the
//! transcript tail off a system prompt, and reading the goal-met signal.

use vstd::prelude::*;
use crate::text::{
    byte_cut, byte_len, byte_prefix, chars_of, decimal, find_seq, find_seq_in, is_byte_cut, is_ws, is_ws_char,
    join, lemma_byte_cut_unique, lines, lines_of, owned, path_segments, push_chars, push_decimal,
    push_joined_first, push_str, segments_of, string_of, trim, trim_end, trim_end_by,
    trim_end_index, trim_start_by, trim_start_index, ws_pred,
};

verus! {

// ---------------------------------------------------------------------
// Truncation
// ---------------------------------------------------------------------

/// Truncate `s` to at most `max` bytes, rounding down to a character
/// boundary. `s` is returned whole when it fits.
pub fn truncate_chars(s: &str, max: usize) -> (r: &str)
    ensures
        r@ == byte_prefix(s@, max as nat),
        r@ == s@.take(r@.len() as int),
        is_byte_cut(s@, max as nat, r@.len() as int),
        byte_len(r@) <= max,
        byte_len(s@) <= max ==> r@ == s@,
{
    let v = chars_of(s);
    let k = byte_cut(v.as_slice(), max);
    proof {
        crate::text::lemma_byte_prefix(s@, max as nat, k as int);
        if byte_len(s@) <= max {
            assert(s@.take(s@.len() as int) =~= s@);
            lemma_byte_cut_unique(s@, max as nat, k as int, s@.len() as int);
        }
    }
    s.substring_char(0, k)
}

// ---------------------------------------------------------------------
// Joining round texts
// ---------------------------------------------------------------------

/// The accumulated text after appending one round's text.
pub open spec fn appended_round(buf: Seq<char>, text: Seq<char>) -> Seq<char> {
    if text.len() == 0 {
        buf
    } else if buf.len() == 0 {
        text
    } else {
        buf + seq!['\n', '\n'] + text
    }
}

/// Append a round's text, with a blank line before it when `buf`
/// already holds text. Empty text adds nothing.
pub fn append_round_text(buf: &mut String, text: &str)
    ensures
        final(buf)@ == appended_round(old(buf)@, text@),
{
    if text.is_empty() {
        return;
    }
    let had_text = !buf.as_str().is_empty();
    if had_text {
        push_str(buf, "\n\n");
    }
    push_str(buf, text);
    proof {
        reveal_strlit("\n\n");
    }
}

// ---------------------------------------------------------------------
// Line caps and short paths
// ---------------------------------------------------------------------

/// The first `max` lines, with an explicit remainder counter when more
/// lines follow; the text itself when it has at most `max` lines.
pub open spec fn capped_lines(text: Seq<char>, max: nat) -> Seq<char> {
    let ls = lines(text);
    if ls.len() <= max {
        text
    } else {
        join(ls.take(max as int), seq!['\n']) + "\n… and "@ + decimal((ls.len() - max) as nat)
            + " more lines"@
    }
}

/// Keep the first `max` lines; append `… and N more lines` when cut.
pub fn cap_lines(text: &str, max: usize) -> (r: String)
    ensures
        r@ == capped_lines(text@, max as nat),
{
    let v = chars_of(text);
    let ls = lines_of(v.as_slice());
    if ls.len() <= max {
        return owned(text);
    }
    let mut out = String::new();
    push_joined_first(&mut out, &ls, max, "\n");
    push_str(&mut out, "\n… and ");
    push_decimal(&mut out, (ls.len() - max) as u64);
    push_str(&mut out, " more lines");
    proof {
        reveal_strlit("\n");
        assert("\n"@ =~= seq!['\n']);
    }
    assert(out@ =~= capped_lines(text@, max as nat));
    out
}

/// A path of more than two segments as `…/<second-last>/<last>`;
/// shorter paths unchanged.
pub open spec fn shortened_path(p: Seq<char>) -> Seq<char> {
    let segs = path_segments(p);
    if segs.len() <= 2 {
        p
    } else {
        seq!['…', '/'] + segs[segs.len() - 2] + seq!['/'] + segs[segs.len() - 1]
    }
}

/// Keep the tail of a long path: `/a/b/c` → `…/b/c`.
pub fn shorten_path(path: &str) -> (r: String)
    ensures
        r@ == shortened_path(path@),
{
    let v = chars_of(path);
    let segs = segments_of(v.as_slice());
    if segs.len() <= 2 {
        return owned(path);
    }
    let n = segs.len();
    let mut out = owned("…/");
    push_chars(&mut out, segs[n - 2].as_slice());
    push_str(&mut out, "/");
    push_chars(&mut out, segs[n - 1].as_slice());
    proof {
        reveal_strlit("…/");
        reveal_strlit("/");
        assert(segs@.map_values(|l: Vec<char>| l@)[n - 2] == segs@[n - 2]@);
        assert(segs@.map_values(|l: Vec<char>| l@)[n - 1] == segs@[n - 1]@);
    }
    out
}

// ---------------------------------------------------------------------
// System prompt tail
// ---------------------------------------------------------------------

/// The heading the router's plan puts before the transcript.
pub open spec fn conversation_heading() -> Seq<char> {
    "## Conversation so far"@
}

/// The text before the first transcript heading, without trailing
/// whitespace; the whole text when there is no heading.
pub open spec fn without_conversation_tail(text: Seq<char>) -> Seq<char> {
    match find_seq(text, conversation_heading()) {
        Some(i) => trim_end(text.take(i)),
        None => text,
    }
}

/// Strip the `## Conversation so far` section (and everything after
/// it) from a system prompt.
pub fn strip_conversation_tail(system_text: &str) -> (r: String)
    ensures
        r@ == without_conversation_tail(system_text@),
{
    let v = chars_of(system_text);
    let m = chars_of("## Conversation so far");
    match find_seq_in(v.as_slice(), m.as_slice()) {
        Some(i) => {
            proof {
                crate::text::lemma_find_seq(v@, m@);
            }
            let e = trim_end_index(v.as_slice(), 0, i, Ghost(ws_pred()), |c: char| -> (b: bool)
                ensures b == is_ws(c)
                { is_ws_char(c) });
            let piece = crate::text::copy_range(v.as_slice(), 0, e);
            proof {
                assert(v@.subrange(0, i as int) =~= v@.take(i as int));
            }
            string_of(piece.as_slice())
        },
        None => owned(system_text),
    }
}

/// The heading before which a system prompt is byte-stable and may be
/// cached.
pub open spec fn volatile_heading() -> Seq<char> {
    "## Volatile suffix"@
}

/// A system prompt head split into its cacheable prefix (trailing
/// whitespace trimmed) and its volatile tail, at the first volatile
/// heading; all of it is volatile when there is none.
pub open spec fn cache_split(head: Seq<char>) -> (Seq<char>, Seq<char>) {
    match find_seq(head, volatile_heading()) {
        Some(i) => (trim_end(head.take(i)), head.skip(i)),
        None => (Seq::empty(), head),
    }
}

/// Split a system prompt head into its cacheable prefix and its
/// volatile tail.
pub fn split_cacheable(head: &str) -> (r: (String, String))
    ensures
        (r.0@, r.1@) == cache_split(head@),
{
    let v = chars_of(head);
    let m = chars_of("## Volatile suffix");
    match find_seq_in(v.as_slice(), m.as_slice()) {
        Some(i) => {
            proof {
                crate::text::lemma_find_seq(v@, m@);
            }
            let e = trim_end_index(v.as_slice(), 0, i, Ghost(ws_pred()), |c: char| -> (b: bool)
                ensures b == is_ws(c)
                { is_ws_char(c) });
            let piece = crate::text::copy_range(v.as_slice(), 0, e);
            let rest = crate::text::copy_range(v.as_slice(), i, v.len());
            proof {
                assert(v@.subrange(0, i as int) =~= v@.take(i as int));
                assert(rest@ =~= v@.skip(i as int));
            }
            (string_of(piece.as_slice()), string_of(rest.as_slice()))
        },
        None => (String::new(), owned(head)),
    }
}

/// The environment block appended to a system prompt.
pub open spec fn environment_block(working_dir: Seq<char>, os: Seq<char>) -> Seq<char> {
    "\n## Environment\n\n- Working directory: "@ + working_dir + "\n- OS: "@ + os + "\n"@
}

/// One line of the tool inventory: `- name: description`.
pub open spec fn tool_line(name: Seq<char>, description: Seq<char>) -> Seq<char> {
    "- "@ + name + ": "@ + description
}

/// The tool inventory and trust boundary appended to a system prompt
/// that offers tools; nothing when it offers none.
pub open spec fn tool_block(tools: Seq<(Seq<char>, Seq<char>)>, trust_invariant: Seq<char>) -> Seq<char> {
    if tools.len() == 0 {
        Seq::empty()
    } else {
        "\n## Tool use\n\nYou have these tools (function calls, rooted at the working directory above):\n"@
            + join(Seq::new(tools.len(), |i: int| tool_line(tools[i].0, tools[i].1)), "\n"@)
            + "\nCall them when you need facts from this machine instead of guessing. Tool outputs return as `## Tool results` blocks — then answer the user.\n"@
            + "\n## Trust boundary\n\n"@ + trust_invariant + "\n"@
    }
}

/// A system prompt grounded in its environment: the working directory
/// and OS, the plan's block when there is a plan, and the tool inventory
/// with the trust boundary when tools are offered.
pub open spec fn grounded(
    prompt: Seq<char>,
    working_dir: Seq<char>,
    os: Seq<char>,
    plan_block: Option<Seq<char>>,
    tools: Seq<(Seq<char>, Seq<char>)>,
    trust_invariant: Seq<char>,
) -> Seq<char> {
    prompt + environment_block(working_dir, os) + match plan_block {
        Some(b) => "\n\n"@ + b,
        None => Seq::empty(),
    } + tool_block(tools, trust_invariant)
}

/// Ground a system prompt in its environment. `tools` are the offered
/// tools, `(name, description)`; `trust_invariant` is the statement of
/// the trust boundary injected with them.
#[verifier::spinoff_prover]
#[verifier::rlimit(40)]
pub fn ground_prompt(
    prompt: String,
    working_dir: &str,
    os: &str,
    plan_block: Option<&str>,
    tools: &Vec<(String, String)>,
    trust_invariant: &str,
) -> (r: String)
    ensures
        r@ == grounded(
            prompt@,
            working_dir@,
            os@,
            match plan_block {
                Some(b) => Some(b@),
                None => None,
            },
            tools@.map_values(|t: (String, String)| (t.0@, t.1@)),
            trust_invariant@,
        ),
{
    let mut out = prompt;
    let ghost p0 = out@;
    push_str(&mut out, "\n## Environment\n\n- Working directory: ");
    push_str(&mut out, working_dir);
    push_str(&mut out, "\n- OS: ");
    push_str(&mut out, os);
    push_str(&mut out, "\n");
    let ghost p1 = out@;
    match plan_block {
        Some(b) => {
            push_str(&mut out, "\n\n");
            push_str(&mut out, b);
        },
        None => {},
    }
    let ghost p2 = out@;
    let ghost tv = tools@.map_values(|t: (String, String)| (t.0@, t.1@));
    if tools.len() > 0 {
        push_str(&mut out, "\n## Tool use\n\nYou have these tools (function calls, rooted at the working directory above):\n");
        let ghost start = out@;
        let ghost ls = Seq::new(tv.len(), |i: int| tool_line(tv[i].0, tv[i].1));
        let mut i: usize = 0;
        while i < tools.len()
            invariant
                i <= tools.len(),
                tv == tools@.map_values(|t: (String, String)| (t.0@, t.1@)),
                ls == Seq::new(tv.len(), |i: int| tool_line(tv[i].0, tv[i].1)),
                out@ == start + join(ls.take(i as int), "\n"@),
            decreases tools.len() - i,
        {
            if i > 0 {
                push_str(&mut out, "\n");
            }
            push_str(&mut out, "- ");
            push_str(&mut out, tools[i].0.as_str());
            push_str(&mut out, ": ");
            push_str(&mut out, tools[i].1.as_str());
            proof {
                assert(ls.take(i + 1).drop_last() =~= ls.take(i as int));
                if i == 0 {
                    assert(ls.take(1) =~= seq![ls[0]]);
                }
                assert(out@ =~= start + join(ls.take(i + 1), "\n"@));
            }
            i += 1;
        }
        assert(ls.take(tools.len() as int) =~= ls);
        push_str(&mut out, "\nCall them when you need facts from this machine instead of guessing. Tool outputs return as `## Tool results` blocks — then answer the user.\n");
        push_str(&mut out, "\n## Trust boundary\n\n");
        push_str(&mut out, trust_invariant);
        push_str(&mut out, "\n");
    }
    proof {
        if tools.len() == 0 {
            assert(tv.len() == 0);
        }
        assert(out@ =~= grounded(
            p0,
            working_dir@,
            os@,
            match plan_block {
                Some(b) => Some(b@),
                None => None,
            },
            tv,
            trust_invariant@,
        ));
    }
    out
}

// ---------------------------------------------------------------------
// The goal-met signal
// ---------------------------------------------------------------------

/// The last line that holds more than whitespace, trimmed.
pub open spec fn last_content_line(ls: Seq<Seq<char>>) -> Option<Seq<char>>
    decreases ls.len(),
{
    if ls.len() == 0 {
        None
    } else if trim(ls.last()).len() > 0 {
        Some(trim(ls.last()))
    } else {
        last_content_line(ls.drop_last())
    }
}

/// Emphasis and list decoration trimmed from both ends.
pub open spec fn decoration() -> spec_fn(char) -> bool {
    |c: char| is_ws(c) || c == '*' || c == '`' || c == '>' || c == '-'
}

/// Dash and colon lead-ins trimmed from the start.
pub open spec fn lead_in() -> spec_fn(char) -> bool {
    |c: char| is_ws(c) || c == '—' || c == ':'
}

/// Closing punctuation trimmed from the end.
pub open spec fn closing() -> spec_fn(char) -> bool {
    |c: char| is_ws(c) || c == '.' || c == '!' || c == ':'
}

/// The line with its decoration, lead-in and closing punctuation removed.
pub open spec fn bare_signal(line: Seq<char>) -> Seq<char> {
    trim_end_by(
        trim_start_by(trim_start_by(trim_end_by(line, decoration()), decoration()), lead_in()),
        closing(),
    )
}

/// ASCII lower-casing, as a code point.
pub open spec fn ascii_lower(c: char) -> u32 {
    if 65 <= (c as u32) <= 90 {
        (c as u32 + 32) as u32
    } else {
        c as u32
    }
}

/// `eq_ignore_ascii_case`.
pub open spec fn eq_ignore_ascii_case(a: Seq<char>, b: Seq<char>) -> bool {
    a.len() == b.len() && forall|i: int| 0 <= i < a.len() ==> ascii_lower(a[i]) == ascii_lower(b[i])
}

/// The reply declares the goal met: its last non-blank line, stripped of
/// decoration, reads `GOAL MET` in any ASCII case.
pub open spec fn declares_goal_met(text: Seq<char>) -> bool {
    match last_content_line(lines(text)) {
        None => false,
        Some(line) => eq_ignore_ascii_case(bare_signal(line), "GOAL MET"@),
    }
}

fn lower_code(c: char) -> (r: u32)
    ensures
        r == ascii_lower(c),
{
    let u = c as u32;
    if 65 <= u && u <= 90 {
        u + 32
    } else {
        u
    }
}

fn eq_ignore_case(a: &[char], b: &[char]) -> (r: bool)
    ensures
        r == eq_ignore_ascii_case(a@, b@),
{
    if a.len() != b.len() {
        return false;
    }
    let mut i: usize = 0;
    while i < a.len()
        invariant
            a.len() == b.len(),
            i <= a.len(),
            forall|j: int| 0 <= j < i ==> ascii_lower(a@[j]) == ascii_lower(b@[j]),
        decreases a.len() - i,
    {
        if lower_code(a[i]) != lower_code(b[i]) {
            return false;
        }
        i += 1;
    }
    true
}

/// `trim` of `v[from..to]`, as indices.
fn trim_indices(v: &[char], from: usize, to: usize) -> (r: (usize, usize))
    requires
        from <= to <= v.len(),
    ensures
        from <= r.0 <= r.1 <= to,
        v@.subrange(r.0 as int, r.1 as int) == trim(v@.subrange(from as int, to as int)),
{
    let e = trim_end_index(v, from, to, Ghost(ws_pred()), |c: char| -> (b: bool)
        ensures b == is_ws(c)
        { is_ws_char(c) });
    let b = trim_start_index(v, from, e, Ghost(ws_pred()), |c: char| -> (b: bool)
        ensures b == is_ws(c)
        { is_ws_char(c) });
    (b, e)
}

/// Does this reply declare the goal met? Only the last non-blank line
/// counts; a mention of the phrase elsewhere is not a completion.
pub fn reply_declares_goal_met(text: &str) -> (r: bool)
    ensures
        r == declares_goal_met(text@),
{
    let v = chars_of(text);
    let ls = lines_of(v.as_slice());
    let ghost lsv = ls@.map_values(|l: Vec<char>| l@);
    let mut n = ls.len();
    let mut found: Option<(usize, usize)> = None;
    assert(lsv.take(n as int) =~= lsv);
    while n > 0 && found.is_none()
        invariant
            n <= ls.len(),
            lsv == ls@.map_values(|l: Vec<char>| l@),
            found is None ==> last_content_line(lsv) == last_content_line(lsv.take(n as int)),
            found matches Some((b, e)) ==> n < ls.len() && b <= e <= ls@[n as int]@.len()
                && last_content_line(lsv) == Some(ls@[n as int]@.subrange(b as int, e as int)),
        decreases n,
    {
        let idx = n - 1;
        let line = &ls[idx];
        let (b, e) = trim_indices(line.as_slice(), 0, line.len());
        proof {
            assert(line@.subrange(0, line@.len() as int) =~= line@);
            assert(lsv.take(n as int).last() == line@);
            assert(lsv.take(n as int).drop_last() =~= lsv.take(idx as int));
        }
        if b < e {
            found = Some((b, e));
        }
        n = idx;
    }
    let (li, b, e) = match found {
        None => {
            proof {
                assert(lsv.take(0) =~= Seq::<Seq<char>>::empty());
            }
            return false;
        },
        Some((b, e)) => (n, b, e),
    };
    let line = &ls[li];
    let d1 = trim_end_index(line.as_slice(), b, e, Ghost(decoration()), |c: char| -> (r: bool)
        ensures r == (is_ws(c) || c == '*' || c == '`' || c == '>' || c == '-')
        { is_ws_char(c) || c == '*' || c == '`' || c == '>' || c == '-' });
    let d0 = trim_start_index(line.as_slice(), b, d1, Ghost(decoration()), |c: char| -> (r: bool)
        ensures r == (is_ws(c) || c == '*' || c == '`' || c == '>' || c == '-')
        { is_ws_char(c) || c == '*' || c == '`' || c == '>' || c == '-' });
    let l0 = trim_start_index(line.as_slice(), d0, d1, Ghost(lead_in()), |c: char| -> (r: bool)
        ensures r == (is_ws(c) || c == '—' || c == ':')
        { is_ws_char(c) || c == '—' || c == ':' });
    let c1 = trim_end_index(line.as_slice(), l0, d1, Ghost(closing()), |c: char| -> (r: bool)
        ensures r == (is_ws(c) || c == '.' || c == '!' || c == ':')
        { is_ws_char(c) || c == '.' || c == '!' || c == ':' });
    let bare = crate::text::copy_range(line.as_slice(), l0, c1);
    let target = chars_of("GOAL MET");
    eq_ignore_case(bare.as_slice(), target.as_slice())
}

} // verus!
