//! The in-band marker protocol of the streaming chunk channel.
//!
//! The engine sends control frames down the same channel as chat text,
//! framed by NUL characters that ordinary text does not carry:
//!
//! * `\0kod-stream-reset\0` — drop the current attempt's text;
//! * `\0kod-tool:<name>\0` — a tool started;
//! * `\0kod-args:<display>\0` — the started tool's one-line arguments;
//! * `\0kod-done:<header>\0<summary>\0<duration_ms>` — a tool finished;
//! * `\0kod-thinking\0` — the model is reasoning again;
//! * `\0kod-approval:<id>:<json>\0` and
//!   `\0kod-approval-batch:<id>:<json>\0` — approval requests.
//!
//! Every builder has a parser, and every parser gives back what its
//! builder framed (see the `law_*` proof functions below).

use vstd::prelude::*;
use crate::text::{
    chars_of, decimal, decimal_string, digit_char, find_char, has_prefix_at, index_of_char_from,
    lemma_decimal, owned, parse_u64, parse_u64_from, parse_u64_str, push_decimal, push_one, push_str,
    starts_with, str_eq,
};

verus! {

/// Sent when the engine abandons the current endpoint mid-stream.
pub const STREAM_RESET_MARKER: &'static str = "\0kod-stream-reset\0";

/// Prefix of a tool-start notice: `\0kod-tool:<name>\0`.
pub const TOOL_START_MARKER: &'static str = "\0kod-tool:";

/// Prefix of a tool-argument excerpt: `\0kod-args:<display>\0`.
pub const TOOL_ARGS_MARKER: &'static str = "\0kod-args:";

/// Prefix of a tool completion: `\0kod-done:<header>\0<summary>\0<ms>`.
pub const TOOL_DONE_MARKER: &'static str = "\0kod-done:";

/// Sent when tool results were reinjected and the model reasons again.
pub const THINKING_MARKER: &'static str = "\0kod-thinking\0";

/// Prefix of an approval request: `\0kod-approval:<id>:<json>\0`.
pub const TOOL_APPROVAL_MARKER: &'static str = "\0kod-approval:";

/// Prefix of a batch of approval requests:
/// `\0kod-approval-batch:<batch_id>:<json>\0`.
pub const TOOL_APPROVAL_BATCH_MARKER: &'static str = "\0kod-approval-batch:";

/// What the consumer decides about an approval request.
#[derive(Debug, Clone, Copy, PartialEq, Eq, Structural)]
pub enum ApprovalDecision {
    Approve,
    Deny,
    /// Same as `Deny` in this version; kept so that a later "remember my
    /// choice" does not change the wire format.
    DenyAlways,
}

// ---------------------------------------------------------------------
// Specification
// ---------------------------------------------------------------------

/// `s` with every NUL replaced by a space.
pub open spec fn clean_nul(s: Seq<char>) -> Seq<char> {
    s.map_values(|c: char| if c == '\0' { ' ' } else { c })
}

/// `prefix + payload + "\0"`.
pub open spec fn framed(prefix: Seq<char>, payload: Seq<char>) -> Seq<char> {
    prefix + payload + seq!['\0']
}

/// The payload of a chunk framed as `prefix + payload + "\0"`:
/// `strip_prefix(prefix)` followed by `strip_suffix('\0')`.
pub open spec fn unframe(c: Seq<char>, prefix: Seq<char>) -> Option<Seq<char>> {
    if starts_with(c, prefix) && c.len() >= prefix.len() + 1 && c.last() == '\0' {
        Some(c.subrange(prefix.len() as int, c.len() - 1))
    } else {
        None
    }
}

/// The text of a tool-done marker.
pub open spec fn tool_done_text(header: Seq<char>, summary: Seq<char>, ms: u64) -> Seq<char> {
    TOOL_DONE_MARKER@ + clean_nul(header) + seq!['\0'] + clean_nul(summary) + seq!['\0'] + decimal(
        ms as nat,
    )
}

/// `parse_tool_done`: after the prefix, the text splits at the first two
/// NULs into header, summary and duration; a duration that does not parse
/// as a `u64` reads as 0.
pub open spec fn spec_parse_tool_done(c: Seq<char>) -> Option<(Seq<char>, Seq<char>, u64)> {
    let p = TOOL_DONE_MARKER@;
    if !starts_with(c, p) {
        None
    } else {
        let rest = c.skip(p.len() as int);
        match find_char(rest, '\0') {
            None => None,
            Some(i) => {
                let after = rest.skip(i + 1);
                match find_char(after, '\0') {
                    None => None,
                    Some(j) => Some(
                        (
                            rest.take(i),
                            after.take(j),
                            match parse_u64(after.skip(j + 1)) {
                                Some(ms) => ms,
                                None => 0,
                            },
                        ),
                    ),
                }
            },
        }
    }
}

/// The text of an (approval or batch) marker with an id and a JSON body.
pub open spec fn id_marker_text(prefix: Seq<char>, id: u64, json: Seq<char>) -> Seq<char> {
    framed(prefix, decimal(id as nat) + seq![':'] + clean_nul(json))
}

/// Parse `prefix + "<id>:<json>" + "\0"`: the body splits at its first
/// `:`; the part before it must parse as a `u64`.
pub open spec fn spec_parse_id_marker(c: Seq<char>, prefix: Seq<char>) -> Option<(u64, Seq<char>)> {
    match unframe(c, prefix) {
        None => None,
        Some(body) => match find_char(body, ':') {
            None => None,
            Some(k) => match parse_u64(body.take(k)) {
                None => None,
                Some(id) => Some((id, body.skip(k + 1))),
            },
        },
    }
}

// ---------------------------------------------------------------------
// Helpers
// ---------------------------------------------------------------------

/// Appends `s` with every NUL turned into a space.
fn push_clean(out: &mut String, s: &str)
    ensures
        final(out)@ == old(out)@ + clean_nul(s@),
{
    let v = chars_of(s);
    let mut i: usize = 0;
    while i < v.len()
        invariant
            i <= v.len(),
            v@ == s@,
            out@ == old(out)@ + clean_nul(v@.take(i as int)),
        decreases v.len() - i,
    {
        let c = if v[i] == '\0' {
            ' '
        } else {
            v[i]
        };
        push_one(out, c);
        assert(clean_nul(v@.take(i as int + 1)) =~= clean_nul(v@.take(i as int)).push(c));
        i += 1;
    }
    assert(v@.take(v.len() as int) =~= v@);
}

/// The payload of `chunk` when it is `prefix + payload + "\0"`.
fn unframe_str<'a>(chunk: &'a str, prefix: &str) -> (r: Option<&'a str>)
    ensures
        r matches Some(p) ==> unframe(chunk@, prefix@) == Some(p@),
        r is None ==> unframe(chunk@, prefix@) is None,
{
    let v = chars_of(chunk);
    let p = chars_of(prefix);
    if has_prefix_at(v.as_slice(), 0, p.as_slice()) && v.len() > p.len() && v[v.len() - 1]
        == '\0' {
        proof {
            assert(v@.skip(0) =~= v@);
        }
        Some(chunk.substring_char(p.len(), v.len() - 1))
    } else {
        proof {
            assert(v@.skip(0) =~= v@);
        }
        None
    }
}

fn literal(s: &'static str) -> (r: String)
    ensures
        r@ == s@,
{
    owned(s)
}

// ---------------------------------------------------------------------
// Builders and parsers
// ---------------------------------------------------------------------

/// The reset-marker chunk.
pub fn stream_reset_marker() -> (r: String)
    ensures
        r@ == STREAM_RESET_MARKER@,
{
    literal(STREAM_RESET_MARKER)
}

/// True for exactly the reset marker.
pub fn is_stream_reset_marker(chunk: &str) -> (r: bool)
    ensures
        r == (chunk@ == STREAM_RESET_MARKER@),
{
    str_eq(chunk, STREAM_RESET_MARKER)
}

/// Build a tool-start marker chunk for `name`.
pub fn tool_start_marker(name: &str) -> (r: String)
    ensures
        r@ == framed(TOOL_START_MARKER@, name@),
{
    let mut out = literal(TOOL_START_MARKER);
    push_str(&mut out, name);
    push_one(&mut out, '\0');
    out
}

/// If `chunk` is a tool-start marker, the tool name.
pub fn parse_tool_start(chunk: &str) -> (r: Option<&str>)
    ensures
        r matches Some(n) ==> unframe(chunk@, TOOL_START_MARKER@) == Some(n@),
        r is None ==> unframe(chunk@, TOOL_START_MARKER@) is None,
{
    unframe_str(chunk, TOOL_START_MARKER)
}

/// Build a tool-args marker chunk carrying a one-line display string.
pub fn tool_args_marker(display: &str) -> (r: String)
    ensures
        r@ == framed(TOOL_ARGS_MARKER@, display@),
{
    let mut out = literal(TOOL_ARGS_MARKER);
    push_str(&mut out, display);
    push_one(&mut out, '\0');
    out
}

/// If `chunk` is a tool-args marker, the one-line display string.
pub fn parse_tool_args(chunk: &str) -> (r: Option<&str>)
    ensures
        r matches Some(d) ==> unframe(chunk@, TOOL_ARGS_MARKER@) == Some(d@),
        r is None ==> unframe(chunk@, TOOL_ARGS_MARKER@) is None,
{
    unframe_str(chunk, TOOL_ARGS_MARKER)
}

/// Build a tool-done marker chunk for one finished call. NULs in the
/// header and summary become spaces.
pub fn tool_done_marker(header: &str, summary: &str, duration_ms: u64) -> (r: String)
    ensures
        r@ == tool_done_text(header@, summary@, duration_ms),
{
    let mut out = literal(TOOL_DONE_MARKER);
    push_clean(&mut out, header);
    push_one(&mut out, '\0');
    push_clean(&mut out, summary);
    push_one(&mut out, '\0');
    push_decimal(&mut out, duration_ms);
    out
}

/// If `chunk` is a tool-done marker, `(header, summary, duration_ms)`.
/// A malformed duration degrades to 0 rather than dropping the row.
pub fn parse_tool_done(chunk: &str) -> (r: Option<(&str, &str, u64)>)
    ensures
        r matches Some((h, s, ms)) ==> spec_parse_tool_done(chunk@) == Some((h@, s@, ms)),
        r is None ==> spec_parse_tool_done(chunk@) is None,
{
    let v = chars_of(chunk);
    let p = chars_of(TOOL_DONE_MARKER);
    proof {
        assert(v@.skip(0) =~= v@);
    }
    if !has_prefix_at(v.as_slice(), 0, p.as_slice()) {
        return None;
    }
    let plen = p.len();
    let ghost rest = v@.skip(plen as int);
    let i = match index_of_char_from(v.as_slice(), '\0', plen) {
        None => return None,
        Some(i) => i,
    };
    let ghost after = rest.skip(i - plen + 1);
    proof {
        assert(after =~= v@.skip(i + 1));
    }
    let j = match index_of_char_from(v.as_slice(), '\0', i + 1) {
        None => return None,
        Some(j) => j,
    };
    let header = chunk.substring_char(plen, i);
    let summary = chunk.substring_char(i + 1, j);
    let ms = match parse_u64_from(v.as_slice(), j + 1) {
        Some(ms) => ms,
        None => 0,
    };
    proof {
        assert(header@ =~= rest.take(i - plen));
        assert(summary@ =~= after.take(j - (i + 1)));
        assert(v@.skip(j + 1) =~= after.skip(j - (i + 1) + 1));
    }
    Some((header, summary, ms))
}

/// The exponent of `ms / 1000` as an `f64`, for `1000 <= ms < 64000`.
pub open spec fn seconds_exponent(ms: nat) -> nat {
    if ms < 2000 {
        0
    } else if ms < 4000 {
        1
    } else if ms < 8000 {
        2
    } else if ms < 16000 {
        3
    } else if ms < 32000 {
        4
    } else {
        5
    }
}

/// `2^k`.
pub open spec fn two_pow(k: nat) -> nat
    decreases k,
{
    if k == 0 {
        1
    } else {
        2 * two_pow((k - 1) as nat)
    }
}

/// `ms / 1000` seconds rounded to tenths the way `{:.1}` rounds the `f64`
/// nearest to `ms / 1000.0`: away from a real tie by nearness; on a
/// real tie (`ms % 100 == 50`) the `f64` is exact when `125` divides `ms`
/// and the digit rounds to even, otherwise the `f64` lies above the tie
/// exactly when the dropped part of its 52-bit mantissa is at least a
/// half.
pub open spec fn duration_tenths(ms: nat) -> nat {
    let t = ms / 100;
    let r = ms % 100;
    if r < 50 {
        t
    } else if r > 50 {
        t + 1
    } else if ms % 125 == 0 {
        if t % 2 == 0 {
            t
        } else {
            t + 1
        }
    } else if (ms * two_pow((52 - seconds_exponent(ms)) as nat)) % 1000 >= 500 {
        t + 1
    } else {
        t
    }
}

/// `"{:.1}s"` of `ms / 1000` seconds, for `1000 <= ms < 60000`.
pub open spec fn seconds_text(ms: nat) -> Seq<char> {
    let t = duration_tenths(ms);
    decimal(t / 10) + seq!['.', digit_char(t % 10), 's']
}

/// Short human duration for tool rows: `340ms`, `1.2s`, `1m05s`.
pub fn format_duration_ms(ms: u64) -> (r: String)
    ensures
        ms < 1000 ==> r@ == decimal(ms as nat) + seq!['m', 's'],
        1000 <= ms < 60_000 ==> r@ == seconds_text(ms as nat),
        ms >= 60_000 ==> r@ == decimal((ms / 60_000) as nat) + seq!['m'] + two_digits(
            ((ms % 60_000) / 1000) as nat,
        ) + seq!['s'],
{
    if ms < 1000 {
        let mut out = decimal_string(ms);
        push_one(&mut out, 'm');
        push_one(&mut out, 's');
        out
    } else if ms < 60_000 {
        let t = tenths_exec(ms);
        let mut out = decimal_string(t / 10);
        push_one(&mut out, '.');
        push_decimal(&mut out, t % 10);
        push_one(&mut out, 's');
        proof {
            lemma_decimal((t % 10) as nat);
            lemma_small_decimal((t % 10) as nat);
        }
        assert(out@ =~= seconds_text(ms as nat));
        out
    } else {
        let mut out = decimal_string(ms / 60_000);
        push_one(&mut out, 'm');
        let secs = (ms % 60_000) / 1000;
        if secs < 10 {
            push_one(&mut out, '0');
        }
        push_decimal(&mut out, secs);
        push_one(&mut out, 's');
        assert(out@ =~= decimal((ms / 60_000) as nat) + seq!['m'] + two_digits(secs as nat) + seq![
            's',
        ]);
        out
    }
}

proof fn lemma_small_decimal(d: nat)
    requires
        d < 10,
    ensures
        decimal(d) == seq![digit_char(d)],
{
}

fn tenths_exec(ms: u64) -> (t: u64)
    requires
        1000 <= ms < 60_000,
    ensures
        t == duration_tenths(ms as nat),
        t < 1000,
{
    let t = ms / 100;
    let r = ms % 100;
    if r < 50 {
        t
    } else if r > 50 {
        t + 1
    } else if ms % 125 == 0 {
        if t % 2 == 0 {
            t
        } else {
            t + 1
        }
    } else {
        let e: u64 = if ms < 2000 {
            0
        } else if ms < 4000 {
            1
        } else if ms < 8000 {
            2
        } else if ms < 16000 {
            3
        } else if ms < 32000 {
            4
        } else {
            5
        };
        let k = 52 - e;
        let mut p: u128 = 1;
        let mut i: u64 = 0;
        while i < k
            invariant
                i <= k <= 52,
                p == two_pow(i as nat),
                p <= 0x10_0000_0000_0000,
            decreases k - i,
        {
            proof {
                assert(two_pow((i + 1) as nat) == 2 * two_pow(i as nat));
                lemma_two_pow_bound(i as nat);
            }
            p = p * 2;
            i = i + 1;
        }
        assert(ms * p <= 60_000 * 0x10_0000_0000_0000) by (nonlinear_arith)
            requires
                ms < 60_000,
                p <= 0x10_0000_0000_0000,
        ;
        let prod: u128 = (ms as u128) * p;
        if prod % 1000 >= 500 {
            t + 1
        } else {
            t
        }
    }
}

proof fn lemma_two_pow_bound(i: nat)
    requires
        i < 52,
    ensures
        2 * two_pow(i) <= 0x10_0000_0000_0000,
{
    lemma_two_pow_mono(i, 51);
    reveal_with_fuel(two_pow, 52);
    assert(two_pow(51) == 0x8_0000_0000_0000);
}

proof fn lemma_two_pow_mono(i: nat, j: nat)
    requires
        i <= j,
    ensures
        two_pow(i) <= two_pow(j),
    decreases j - i,
{
    if i < j {
        lemma_two_pow_mono(i, (j - 1) as nat);
    }
}

/// `{:02}` of a value below 100: one leading zero below 10.
pub open spec fn two_digits(n: nat) -> Seq<char> {
    if n < 10 {
        seq!['0'] + decimal(n)
    } else {
        decimal(n)
    }
}

/// The thinking-marker chunk.
pub fn thinking_marker() -> (r: String)
    ensures
        r@ == THINKING_MARKER@,
{
    literal(THINKING_MARKER)
}

/// True for exactly the thinking marker.
pub fn is_thinking_marker(chunk: &str) -> (r: bool)
    ensures
        r == (chunk@ == THINKING_MARKER@),
{
    str_eq(chunk, THINKING_MARKER)
}

fn id_marker(prefix: &'static str, id: u64, json: &str) -> (r: String)
    ensures
        r@ == id_marker_text(prefix@, id, json@),
{
    let mut out = literal(prefix);
    push_decimal(&mut out, id);
    push_one(&mut out, ':');
    push_clean(&mut out, json);
    push_one(&mut out, '\0');
    assert(out@ =~= id_marker_text(prefix@, id, json@));
    out
}

fn parse_id_marker<'a>(chunk: &'a str, prefix: &'static str) -> (r: Option<(u64, &'a str)>)
    ensures
        r matches Some((id, j)) ==> spec_parse_id_marker(chunk@, prefix@) == Some((id, j@)),
        r is None ==> spec_parse_id_marker(chunk@, prefix@) is None,
{
    let body = match unframe_str(chunk, prefix) {
        None => return None,
        Some(b) => b,
    };
    let v = chars_of(body);
    proof {
        assert(v@.skip(0) =~= v@);
    }
    let k = match index_of_char_from(v.as_slice(), ':', 0) {
        None => return None,
        Some(k) => k,
    };
    let id_text = body.substring_char(0, k);
    let id = match parse_u64_str(id_text) {
        None => return None,
        Some(id) => id,
    };
    let json = body.substring_char(k + 1, v.len());
    proof {
        assert(id_text@ =~= v@.take(k as int));
        assert(json@ =~= v@.skip(k + 1));
    }
    Some((id, json))
}

/// Build an approval-request chunk: `\0kod-approval:<id>:<json>\0`, NULs
/// in the JSON turned into spaces.
pub fn tool_approval_marker(id: u64, request_json: &str) -> (r: String)
    ensures
        r@ == id_marker_text(TOOL_APPROVAL_MARKER@, id, request_json@),
{
    id_marker(TOOL_APPROVAL_MARKER, id, request_json)
}

/// If `chunk` is an approval-request marker, `(id, json)`.
pub fn parse_tool_approval(chunk: &str) -> (r: Option<(u64, &str)>)
    ensures
        r matches Some((id, j)) ==> spec_parse_id_marker(chunk@, TOOL_APPROVAL_MARKER@) == Some(
            (id, j@),
        ),
        r is None ==> spec_parse_id_marker(chunk@, TOOL_APPROVAL_MARKER@) is None,
{
    parse_id_marker(chunk, TOOL_APPROVAL_MARKER)
}

/// Build a batch-approval chunk: `\0kod-approval-batch:<id>:<json>\0`.
pub fn tool_approval_batch_marker(batch_id: u64, batch_json: &str) -> (r: String)
    ensures
        r@ == id_marker_text(TOOL_APPROVAL_BATCH_MARKER@, batch_id, batch_json@),
{
    id_marker(TOOL_APPROVAL_BATCH_MARKER, batch_id, batch_json)
}

/// If `chunk` is a batch-approval marker, `(batch_id, json)`.
pub fn parse_tool_approval_batch(chunk: &str) -> (r: Option<(u64, &str)>)
    ensures
        r matches Some((id, j)) ==> spec_parse_id_marker(chunk@, TOOL_APPROVAL_BATCH_MARKER@)
            == Some((id, j@)),
        r is None ==> spec_parse_id_marker(chunk@, TOOL_APPROVAL_BATCH_MARKER@) is None,
{
    parse_id_marker(chunk, TOOL_APPROVAL_BATCH_MARKER)
}

// ---------------------------------------------------------------------
// Laws
// ---------------------------------------------------------------------

/// A cleaned text holds no NUL.
pub proof fn lemma_clean_nul_has_no_nul(s: Seq<char>)
    ensures
        find_char(clean_nul(s), '\0') is None,
        clean_nul(s).len() == s.len(),
{
    crate::text::lemma_find_char_none(clean_nul(s), '\0');
}

/// Framing a payload and unframing it gives the payload back.
pub proof fn lemma_unframe_framed(prefix: Seq<char>, payload: Seq<char>)
    ensures
        unframe(framed(prefix, payload), prefix) == Some(payload),
{
    let c = framed(prefix, payload);
    assert(c.take(prefix.len() as int) =~= prefix);
    assert(c.subrange(prefix.len() as int, c.len() - 1) =~= payload);
}

/// A tool-start marker parses back to exactly the name it carries, for
/// every name.
pub proof fn law_tool_start_roundtrip(name: Seq<char>)
    ensures
        unframe(framed(TOOL_START_MARKER@, name), TOOL_START_MARKER@) == Some(name),
{
    lemma_unframe_framed(TOOL_START_MARKER@, name);
}

/// A tool-args marker parses back to exactly the display it carries.
pub proof fn law_tool_args_roundtrip(display: Seq<char>)
    ensures
        unframe(framed(TOOL_ARGS_MARKER@, display), TOOL_ARGS_MARKER@) == Some(display),
{
    lemma_unframe_framed(TOOL_ARGS_MARKER@, display);
}

/// A tool-done marker parses back to its header and summary with NULs
/// turned into spaces, and to its duration.
pub proof fn law_tool_done_roundtrip(header: Seq<char>, summary: Seq<char>, ms: u64)
    ensures
        spec_parse_tool_done(tool_done_text(header, summary, ms)) == Some(
            (clean_nul(header), clean_nul(summary), ms),
        ),
{
    let p = TOOL_DONE_MARKER@;
    let h = clean_nul(header);
    let s = clean_nul(summary);
    let d = decimal(ms as nat);
    let c = tool_done_text(header, summary, ms);
    assert(c.take(p.len() as int) =~= p);
    let rest = c.skip(p.len() as int);
    assert(rest =~= h + seq!['\0'] + s + seq!['\0'] + d);
    lemma_clean_nul_has_no_nul(header);
    lemma_clean_nul_has_no_nul(summary);
    crate::text::lemma_find_char(h, '\0');
    crate::text::lemma_find_char_at(rest, '\0', h.len() as int);
    let after = rest.skip(h.len() as int + 1);
    assert(after =~= s + seq!['\0'] + d);
    crate::text::lemma_find_char(s, '\0');
    crate::text::lemma_find_char_at(after, '\0', s.len() as int);
    assert(rest.take(h.len() as int) =~= h);
    assert(after.take(s.len() as int) =~= s);
    assert(after.skip(s.len() as int + 1) =~= d);
    crate::text::lemma_parse_decimal(ms);
}

/// A tool-start marker is never read as a tool completion.
pub proof fn law_start_marker_is_not_done(name: Seq<char>)
    ensures
        spec_parse_tool_done(framed(TOOL_START_MARKER@, name)) is None,
{
    reveal_strlit("\0kod-tool:");
    reveal_strlit("\0kod-done:");
    let c = framed(TOOL_START_MARKER@, name);
    assert(c[5] == 't');
    assert(TOOL_DONE_MARKER@[5] == 'd');
    assert(c.take(TOOL_DONE_MARKER@.len() as int)[5] != TOOL_DONE_MARKER@[5]);
}

/// An id marker parses back to its id and its JSON with NULs turned
/// into spaces.
pub proof fn law_id_marker_roundtrip(prefix: Seq<char>, id: u64, json: Seq<char>)
    ensures
        spec_parse_id_marker(id_marker_text(prefix, id, json), prefix) == Some(
            (id, clean_nul(json)),
        ),
{
    let d = decimal(id as nat);
    let body = d + seq![':'] + clean_nul(json);
    lemma_unframe_framed(prefix, body);
    crate::text::lemma_decimal_has_no(id as nat, ':');
    crate::text::lemma_find_char(d, ':');
    crate::text::lemma_find_char_at(body, ':', d.len() as int);
    assert(body.take(d.len() as int) =~= d);
    assert(body.skip(d.len() as int + 1) =~= clean_nul(json));
    crate::text::lemma_parse_decimal(id);
}

/// An approval-request marker parses back to its id and cleaned JSON.
pub proof fn law_tool_approval_roundtrip(id: u64, json: Seq<char>)
    ensures
        spec_parse_id_marker(id_marker_text(TOOL_APPROVAL_MARKER@, id, json), TOOL_APPROVAL_MARKER@)
            == Some((id, clean_nul(json))),
{
    law_id_marker_roundtrip(TOOL_APPROVAL_MARKER@, id, json);
}

/// A batch-approval marker parses back to its id and cleaned JSON.
pub proof fn law_tool_approval_batch_roundtrip(id: u64, json: Seq<char>)
    ensures
        spec_parse_id_marker(
            id_marker_text(TOOL_APPROVAL_BATCH_MARKER@, id, json),
            TOOL_APPROVAL_BATCH_MARKER@,
        ) == Some((id, clean_nul(json))),
{
    law_id_marker_roundtrip(TOOL_APPROVAL_BATCH_MARKER@, id, json);
}

} // verus!
