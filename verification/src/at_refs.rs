//! `@path` references in a prompt.
//!
//! A reference is an `@` at a word boundary (start of input, or after a
//! space, tab, newline or carriage return) followed by a path-shaped
//! token: everything up to the next ASCII whitespace, non-empty, and
//! containing `/` or `.`, or starting with `~`. Each such token is a
//! candidate; the application resolves candidates against the working
//! directory (reading files is I/O), and the prompt is then rebuilt with
//! every successfully resolved candidate — at most [`MAX_AT_REFS`] of
//! them — replaced by its file block. Unresolved candidates, and all
//! other text, are kept character for character.

use vstd::prelude::*;
use crate::text::{
    byte_cut, byte_len, chars_of, copy_range, decimal, is_byte_cut, push_chars, push_decimal,
    push_one, push_str, owned, string_of,
};

verus! {

/// Bytes of one referenced file kept in its block.
pub const MAX_AT_REF_BYTES: usize = 65536;

/// References expanded per prompt.
pub const MAX_AT_REFS: usize = 10;

/// Characters after which an `@` starts a reference.
pub open spec fn is_word_gap(c: char) -> bool {
    c == ' ' || c == '\t' || c == '\n' || c == '\r'
}

/// `u8::is_ascii_whitespace`: space, tab, newline, form feed, return.
pub open spec fn is_ascii_ws(c: char) -> bool {
    c == ' ' || c == '\t' || c == '\n' || c == '\x0C' || c == '\r'
}

/// The end of the token that starts at `j`: the next ASCII whitespace,
/// or the end of the text.
pub open spec fn token_end(c: Seq<char>, j: int) -> int
    decreases c.len() - j,
{
    if 0 <= j < c.len() && !is_ascii_ws(c[j]) {
        token_end(c, j + 1)
    } else {
        j
    }
}

/// Whether `t` holds the character `x`.
pub open spec fn holds(t: Seq<char>, x: char) -> bool {
    exists|i: int| 0 <= i < t.len() && t[i] == x
}

/// A token looks like a path: non-empty, with a `/` or a `.`, or
/// starting with `~`.
pub open spec fn path_like(t: Seq<char>) -> bool {
    t.len() > 0 && (holds(t, '/') || holds(t, '.') || t[0] == '~')
}

/// The token after an `@` at `i`.
pub open spec fn token_at(c: Seq<char>, i: int) -> Seq<char> {
    c.subrange(i + 1, token_end(c, i + 1))
}

/// An `@` at a word boundary followed by a path-like token.
pub open spec fn is_candidate(c: Seq<char>, i: int) -> bool {
    &&& 0 <= i < c.len()
    &&& c[i] == '@'
    &&& (i == 0 || is_word_gap(c[i - 1]))
    &&& path_like(token_at(c, i))
}

/// The candidate tokens from position `i` on, in order.
pub open spec fn candidates_from(c: Seq<char>, i: int) -> Seq<Seq<char>>
    decreases c.len() - i,
{
    if i < 0 || i >= c.len() {
        Seq::empty()
    } else if is_candidate(c, i) {
        seq![token_at(c, i)] + candidates_from(c, i + 1)
    } else {
        candidates_from(c, i + 1)
    }
}

/// The text from position `i` on, rebuilt. `k` counts the candidates
/// already passed (it indexes `res`, the resolution of each candidate in
/// order) and `ins` the blocks already inserted.
pub open spec fn expanded_from(
    c: Seq<char>,
    i: int,
    k: int,
    ins: int,
    res: Seq<Option<Seq<char>>>,
) -> Seq<char>
    decreases c.len() - i,
{
    if i < 0 || i >= c.len() {
        Seq::empty()
    } else if is_candidate(c, i) {
        if ins < MAX_AT_REFS && 0 <= k < res.len() && res[k] is Some {
            proof {
                lemma_token_end_bounds(c, i + 1);
            }
            res[k]->0 + expanded_from(c, token_end(c, i + 1), k + 1, ins + 1, res)
        } else {
            seq![c[i]] + expanded_from(c, i + 1, k + 1, ins, res)
        }
    } else {
        seq![c[i]] + expanded_from(c, i + 1, k, ins, res)
    }
}

/// The whole prompt rebuilt from the resolutions of its candidates.
pub open spec fn expanded(c: Seq<char>, res: Seq<Option<Seq<char>>>) -> Seq<char> {
    expanded_from(c, 0, 0, 0, res)
}

pub proof fn lemma_token_end_bounds(c: Seq<char>, j: int)
    requires
        0 <= j <= c.len(),
    ensures
        j <= token_end(c, j) <= c.len(),
        forall|m: int| j <= m < token_end(c, j) ==> !is_ascii_ws(c[m]),
        token_end(c, j) < c.len() ==> is_ascii_ws(c[token_end(c, j)]),
    decreases c.len() - j,
{
    if j < c.len() && !is_ascii_ws(c[j]) {
        lemma_token_end_bounds(c, j + 1);
    }
}

// ---------------------------------------------------------------------
// Scanning
// ---------------------------------------------------------------------

fn is_word_gap_char(c: char) -> (r: bool)
    ensures
        r == is_word_gap(c),
{
    c == ' ' || c == '\t' || c == '\n' || c == '\r'
}

fn is_ascii_ws_char(c: char) -> (r: bool)
    ensures
        r == is_ascii_ws(c),
{
    c == ' ' || c == '\t' || c == '\n' || c == '\x0C' || c == '\r'
}

fn find_token_end(v: &[char], j: usize) -> (e: usize)
    requires
        j <= v.len(),
    ensures
        e == token_end(v@, j as int),
{
    let mut e = j;
    while e < v.len() && !is_ascii_ws_char(v[e])
        invariant
            j <= e <= v.len(),
            token_end(v@, j as int) == token_end(v@, e as int),
        decreases v.len() - e,
    {
        e += 1;
    }
    e
}

fn slice_holds(v: &[char], from: usize, to: usize, x: char) -> (r: bool)
    requires
        from <= to <= v.len(),
    ensures
        r == holds(v@.subrange(from as int, to as int), x),
{
    let mut i = from;
    while i < to
        invariant
            from <= i <= to <= v.len(),
            forall|m: int| from <= m < i ==> v@[m] != x,
        decreases to - i,
    {
        if v[i] == x {
            assert(v@.subrange(from as int, to as int)[i - from] == x);
            return true;
        }
        i += 1;
    }
    assert forall|m: int| 0 <= m < to - from implies v@.subrange(from as int, to as int)[m] != x by {
        assert(v@.subrange(from as int, to as int)[m] == v@[from + m]);
    }
    false
}

/// Whether `v[i]` starts a candidate, and the end of its token.
fn candidate_at(v: &[char], i: usize) -> (r: (bool, usize))
    requires
        i < v.len(),
    ensures
        r.0 == is_candidate(v@, i as int),
        r.1 == token_end(v@, i + 1),
{
    let e = find_token_end(v, i + 1);
    if v[i] != '@' {
        return (false, e);
    }
    if i > 0 && !is_word_gap_char(v[i - 1]) {
        return (false, e);
    }
    proof {
        lemma_token_end_bounds(v@, i + 1);
    }
    if e == i + 1 {
        return (false, e);
    }
    let looks = slice_holds(v, i + 1, e, '/') || slice_holds(v, i + 1, e, '.') || v[i + 1] == '~';
    (looks, e)
}

/// The candidate `@path` tokens of `input`, in order, without the `@`.
pub fn at_reference_candidates(input: &str) -> (r: Vec<String>)
    ensures
        r@.map_values(|s: String| s@) == candidates_from(input@, 0),
{
    let v = chars_of(input);
    let mut out: Vec<String> = Vec::new();
    let mut i: usize = 0;
    assert(out@.map_values(|s: String| s@) + candidates_from(v@, 0) =~= candidates_from(v@, 0));
    while i < v.len()
        invariant
            i <= v.len(),
            v@ == input@,
            candidates_from(v@, 0) == out@.map_values(|s: String| s@) + candidates_from(v@, i as int),
        decreases v.len() - i,
    {
        let ghost before = out@.map_values(|s: String| s@);
        let (cand, e) = candidate_at(v.as_slice(), i);
        if cand {
            proof {
                lemma_token_end_bounds(v@, i + 1);
            }
            let t = copy_range(v.as_slice(), i + 1, e);
            out.push(string_of(t.as_slice()));
            proof {
                assert(out@.map_values(|s: String| s@) =~= before.push(token_at(v@, i as int)));
                assert(before + (seq![token_at(v@, i as int)] + candidates_from(v@, i + 1))
                    =~= before.push(token_at(v@, i as int)) + candidates_from(v@, i + 1));
            }
        }
        i += 1;
    }
    out
}

/// Rebuild `input`, replacing the `k`-th candidate by `resolved[k]` when
/// that is `Some` and fewer than [`MAX_AT_REFS`] blocks were inserted
/// before it. A missing or `None` resolution keeps the token as typed.
pub fn expand_at_references(input: &str, resolved: &Vec<Option<String>>) -> (r: String)
    ensures
        r@ == expanded(
            input@,
            resolved@.map_values(
                |o: Option<String>|
                    match o {
                        Some(s) => Some(s@),
                        None => None,
                    },
            ),
        ),
{
    let ghost res = resolved@.map_values(
        |o: Option<String>|
            match o {
                Some(s) => Some(s@),
                None => None,
            },
    );
    let v = chars_of(input);
    let mut out = String::new();
    let mut i: usize = 0;
    let mut k: usize = 0;
    let mut ins: usize = 0;
    assert(out@ + expanded_from(v@, 0, 0, 0, res) =~= expanded_from(v@, 0, 0, 0, res));
    while i < v.len()
        invariant
            i <= v.len(),
            k <= i,
            ins <= MAX_AT_REFS,
            v@ == input@,
            res == resolved@.map_values(
                |o: Option<String>|
                    match o {
                        Some(s) => Some(s@),
                        None => None,
                    },
            ),
            expanded_from(v@, 0, 0, 0, res) == out@ + expanded_from(
                v@,
                i as int,
                k as int,
                ins as int,
                res,
            ),
        decreases v.len() - i,
    {
        let ghost before = out@;
        let (cand, e) = candidate_at(v.as_slice(), i);
        if cand {
            proof {
                lemma_token_end_bounds(v@, i + 1);
            }
            let mut done = false;
            if ins < MAX_AT_REFS && k < resolved.len() {
                match &resolved[k] {
                    Some(text) => {
                        push_str(&mut out, text.as_str());
                        proof {
                            assert(res[k as int] == Some(text@));
                            assert(before + (text@ + expanded_from(
                                v@,
                                e as int,
                                k + 1,
                                ins + 1,
                                res,
                            )) =~= out@ + expanded_from(v@, e as int, k + 1, ins + 1, res));
                        }
                        ins = ins + 1;
                        k = k + 1;
                        i = e;
                        done = true;
                    },
                    None => {
                        proof {
                            assert(res[k as int] is None);
                        }
                    },
                }
            }
            if !done {
                push_one(&mut out, v[i]);
                proof {
                    assert(before + (seq![v@[i as int]] + expanded_from(
                        v@,
                        i + 1,
                        k + 1,
                        ins as int,
                        res,
                    )) =~= out@ + expanded_from(v@, i + 1, k + 1, ins as int, res));
                }
                k = k + 1;
                i = i + 1;
            }
        } else {
            push_one(&mut out, v[i]);
            proof {
                assert(before + (seq![v@[i as int]] + expanded_from(
                    v@,
                    i + 1,
                    k as int,
                    ins as int,
                    res,
                )) =~= out@ + expanded_from(v@, i + 1, k as int, ins as int, res));
            }
            i = i + 1;
        }
    }
    assert(out@ + expanded_from(v@, i as int, k as int, ins as int, res) =~= out@);
    out
}

// ---------------------------------------------------------------------
// File blocks
// ---------------------------------------------------------------------

/// The block that replaces a reference, set off by a blank line on each
/// side: the file's text cut to at most `max_bytes` bytes on a character
/// boundary, with a notice when cut.
pub open spec fn file_block(path: Seq<char>, text: Seq<char>, max_bytes: nat, cut: int) -> Seq<char> {
    "\n\n<file path=\""@ + path + "\">\n"@ + text.take(cut) + (if byte_len(text) > max_bytes {
        "\n[truncated at "@ + decimal(max_bytes) + " bytes]"@
    } else {
        Seq::empty()
    }) + "\n</file>\n\n"@
}

/// Build the block for a resolved reference; `path` is the resolved
/// path as displayed.
pub fn at_ref_block(path: &str, text: &str, max_bytes: usize) -> (r: String)
    ensures
        exists|cut: int| is_byte_cut(text@, max_bytes as nat, cut) && r@ == file_block(
            path@,
            text@,
            max_bytes as nat,
            cut,
        ),
{
    let v = chars_of(text);
    let cut = byte_cut(v.as_slice(), max_bytes);
    let mut out = owned("\n\n<file path=\"");
    push_str(&mut out, path);
    push_str(&mut out, "\">\n");
    let body = copy_range(v.as_slice(), 0, cut);
    push_chars(&mut out, body.as_slice());
    let truncated = cut < v.len();
    proof {
        if !truncated {
            assert(v@.take(cut as int) =~= v@);
        } else {
            crate::text::lemma_byte_len_prefix_mono(v@, cut + 1, v@.len() as int);
            assert(v@.take(v@.len() as int) =~= v@);
        }
        assert(body@ =~= v@.take(cut as int));
    }
    if truncated {
        push_str(&mut out, "\n[truncated at ");
        push_decimal(&mut out, max_bytes as u64);
        push_str(&mut out, " bytes]");
    }
    push_str(&mut out, "\n</file>\n\n");
    assert(out@ =~= file_block(path@, text@, max_bytes as nat, cut as int));
    out
}

proof fn lemma_unresolved_rest(c: Seq<char>, i: int, k: int, ins: int, res: Seq<Option<Seq<char>>>)
    requires
        0 <= i <= c.len(),
        forall|j: int| 0 <= j < res.len() ==> res[j] is None,
    ensures
        expanded_from(c, i, k, ins, res) == c.skip(i),
    decreases c.len() - i,
{
    if i < c.len() {
        if is_candidate(c, i) {
            lemma_unresolved_rest(c, i + 1, k + 1, ins, res);
        } else {
            lemma_unresolved_rest(c, i + 1, k, ins, res);
        }
        assert(seq![c[i]] + c.skip(i + 1) =~= c.skip(i));
    } else {
        assert(c.skip(i) =~= Seq::<char>::empty());
    }
}

/// A reference that cannot be read is left as the user typed it: when
/// no candidate resolves, the prompt comes back unchanged.
pub proof fn law_unresolved_references_leave_the_prompt_unchanged(c: Seq<char>, res: Seq<Option<Seq<char>>>)
    requires
        forall|j: int| 0 <= j < res.len() ==> res[j] is None,
    ensures
        expanded(c, res) == c,
{
    lemma_unresolved_rest(c, 0, 0, 0, res);
    assert(c.skip(0) =~= c);
}

} // verus!
