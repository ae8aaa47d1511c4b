//! Deterministic fixture replay: the request shape a round is identified
//! by, its FNV-1a hash, and the comparison of two recorded sessions.

use vstd::prelude::*;
use crate::jev::{fnv_feed, fnv_fold, lemma_fnv_fold_concat, FNV_OFFSET};
use crate::json::JsonValue;
use crate::text::{
    byte_len, decimal, decimal_string, join, lemma_text_lt_irreflexive, lemma_text_lt_total,
    lemma_text_lt_transitive, owned, push_decimal, push_joined, push_str, str_byte_len, str_eq,
    text_less, text_lt,
};

verus! {

/// The pieces of a request that participate in the hash and in
/// human-readable diffs.
#[derive(Debug, Clone)]
pub struct RequestSummary {
    pub system_chars: usize,
    pub message_count: usize,
    pub tool_names: Vec<String>,
    pub model: String,
    pub endpoint: String,
}

/// Token usage recorded with a round.
#[derive(Debug, Clone, Copy, PartialEq, Eq, Structural)]
pub struct UsageFixture {
    pub prompt_tokens: usize,
    pub completion_tokens: usize,
}

/// The UTF-8 bytes of a character sequence.
pub open spec fn utf8(s: Seq<char>) -> Seq<u8> {
    vstd::utf8::encode_utf8(s)
}

/// Each tool name's bytes followed by a 0 byte.
pub open spec fn tool_name_bytes(names: Seq<String>) -> Seq<u8>
    decreases names.len(),
{
    if names.len() == 0 {
        Seq::empty()
    } else {
        tool_name_bytes(names.drop_last()) + utf8(names.last()@) + seq![0u8]
    }
}

/// The bytes the summary hash is taken over: the two counts in decimal,
/// each tool name, the model and the endpoint, separated by 0 bytes.
pub open spec fn summary_bytes(s: RequestSummary) -> Seq<u8> {
    utf8(decimal(s.system_chars as nat)) + seq![0u8] + utf8(decimal(s.message_count as nat)) + seq![
        0u8,
    ] + tool_name_bytes(s.tool_names@) + utf8(s.model@) + seq![0u8] + utf8(s.endpoint@)
}

/// The lowercase hex digit for `d < 16`.
pub open spec fn hex_char(d: nat) -> char {
    if d < 10 {
        crate::text::digit_char(d)
    } else if d == 10 {
        'a'
    } else if d == 11 {
        'b'
    } else if d == 12 {
        'c'
    } else if d == 13 {
        'd'
    } else if d == 14 {
        'e'
    } else {
        'f'
    }
}

/// The low `k` hex digits of `h`, most significant first.
pub open spec fn hex_digits(h: nat, k: nat) -> Seq<char>
    decreases k,
{
    if k == 0 {
        Seq::empty()
    } else {
        hex_digits(h / 16, (k - 1) as nat).push(hex_char(h % 16))
    }
}

/// `{:016x}`: sixteen lowercase hex digits.
pub open spec fn hex16(h: u64) -> Seq<char> {
    hex_digits(h as nat, 16)
}

/// The summary's hash as it is stored in a fixture.
pub open spec fn summary_hash(s: RequestSummary) -> Seq<char> {
    hex16(crate::jev::fnv1a(summary_bytes(s)))
}

fn hex_char_of(d: u64) -> (c: char)
    requires
        d < 16,
    ensures
        c == hex_char(d as nat),
{
    if d < 10 {
        let s = decimal_string(d);
        let v = crate::text::chars_of(s.as_str());
        proof {
            crate::text::lemma_decimal(d as nat);
        }
        v[0]
    } else if d == 10 {
        'a'
    } else if d == 11 {
        'b'
    } else if d == 12 {
        'c'
    } else if d == 13 {
        'd'
    } else if d == 14 {
        'e'
    } else {
        'f'
    }
}

fn push_hex_digits(out: &mut String, h: u64, k: u64)
    requires
        k <= 16,
    ensures
        final(out)@ == old(out)@ + hex_digits(h as nat, k as nat),
    decreases k,
{
    if k > 0 {
        push_hex_digits(out, h / 16, k - 1);
        crate::text::push_one(out, hex_char_of(h % 16));
        assert(final(out)@ =~= old(out)@ + hex_digits(h as nat, k as nat));
    }
}

/// Feed a string's bytes into a running hash.
fn feed_str(h: u64, s: &str) -> (r: u64)
    ensures
        r == fnv_fold(h, utf8(s@)),
{
    fnv_feed(h, s.as_bytes())
}

fn feed_zero(h: u64) -> (r: u64)
    ensures
        r == fnv_fold(h, seq![0u8]),
{
    let z: [u8; 1] = [0u8];
    let r = fnv_feed(h, z.as_slice());
    assert(z@ =~= seq![0u8]);
    r
}

/// The identity a memory-retrieval log entry records for a query, so
/// the log need not hold the query's text: FNV-1a over its bytes, as 16
/// lowercase hex digits.
pub fn query_hash(query: &str) -> (r: String)
    ensures
        r@ == hex16(crate::jev::fnv1a(utf8(query@))),
{
    let h = feed_str(FNV_OFFSET, query);
    let mut out = String::new();
    push_hex_digits(&mut out, h, 16);
    assert(out@ =~= hex16(h));
    out
}

impl RequestSummary {
    /// FNV-1a over the summary fields, as 16 lowercase hex digits.
    pub fn hash(&self) -> (r: String)
        ensures
            r@ == summary_hash(*self),
    {
        let sc = decimal_string(self.system_chars as u64);
        let mc = decimal_string(self.message_count as u64);
        let mut h = feed_str(FNV_OFFSET, sc.as_str());
        h = feed_zero(h);
        h = feed_str(h, mc.as_str());
        h = feed_zero(h);
        let ghost front = utf8(decimal(self.system_chars as nat)) + seq![0u8] + utf8(
            decimal(self.message_count as nat),
        ) + seq![0u8];
        proof {
            let a = utf8(decimal(self.system_chars as nat));
            let b = utf8(decimal(self.message_count as nat));
            lemma_fnv_fold_concat(FNV_OFFSET, a, seq![0u8]);
            lemma_fnv_fold_concat(FNV_OFFSET, a + seq![0u8], b);
            lemma_fnv_fold_concat(FNV_OFFSET, a + seq![0u8] + b, seq![0u8]);
        }
        assert(h == fnv_fold(FNV_OFFSET, front));
        let mut i: usize = 0;
        while i < self.tool_names.len()
            invariant
                i <= self.tool_names.len(),
                h == fnv_fold(FNV_OFFSET, front + tool_name_bytes(self.tool_names@.take(i as int))),
            decreases self.tool_names.len() - i,
        {
            let ghost before = front + tool_name_bytes(self.tool_names@.take(i as int));
            let name = &self.tool_names[i];
            h = feed_str(h, name.as_str());
            h = feed_zero(h);
            proof {
                let nb = utf8(self.tool_names@[i as int]@);
                lemma_fnv_fold_concat(FNV_OFFSET, before, nb);
                lemma_fnv_fold_concat(FNV_OFFSET, before + nb, seq![0u8]);
                assert(self.tool_names@.take(i as int + 1).drop_last() =~= self.tool_names@.take(
                    i as int,
                ));
                assert(front + tool_name_bytes(self.tool_names@.take(i as int + 1)) =~= before + nb
                    + seq![0u8]);
            }
            i += 1;
        }
        assert(self.tool_names@.take(i as int) =~= self.tool_names@);
        let ghost mid = front + tool_name_bytes(self.tool_names@);
        h = feed_str(h, self.model.as_str());
        h = feed_zero(h);
        h = feed_str(h, self.endpoint.as_str());
        proof {
            let m = utf8(self.model@);
            let e = utf8(self.endpoint@);
            lemma_fnv_fold_concat(FNV_OFFSET, mid, m);
            lemma_fnv_fold_concat(FNV_OFFSET, mid + m, seq![0u8]);
            lemma_fnv_fold_concat(FNV_OFFSET, mid + m + seq![0u8], e);
            assert(summary_bytes(*self) =~= mid + m + seq![0u8] + e);
        }
        let mut out = String::new();
        push_hex_digits(&mut out, h, 16);
        assert(out@ =~= summary_hash(*self));
        out
    }
}


// ---------------------------------------------------------------------
// Building a summary from a request
// ---------------------------------------------------------------------

/// `a` orders no later than `b`.
pub open spec fn text_le(a: Seq<char>, b: Seq<char>) -> bool {
    a == b || text_lt(a, b)
}

/// Ordered by `text_le`.
pub open spec fn texts_sorted(s: Seq<Seq<char>>) -> bool {
    forall|i: int, j: int| 0 <= i < j < s.len() ==> text_le(#[trigger] s[i], #[trigger] s[j])
}

/// The views of a list of strings.
pub open spec fn string_views(v: Seq<String>) -> Seq<Seq<char>> {
    v.map_values(|s: String| s@)
}

proof fn lemma_text_le_facts()
    ensures
        forall|a: Seq<char>, b: Seq<char>, c: Seq<char>|
            #![trigger text_le(a, b), text_le(b, c)]
            text_le(a, b) && text_le(b, c) ==> text_le(a, c),
        forall|a: Seq<char>, b: Seq<char>| #![trigger text_le(a, b)] #![trigger text_le(b, a)]
            text_le(a, b) || text_le(b, a),
{
    assert forall|a: Seq<char>, b: Seq<char>, c: Seq<char>|
        #![trigger text_le(a, b), text_le(b, c)]
        text_le(a, b) && text_le(b, c) implies text_le(a, c) by {
        if text_lt(a, b) && text_lt(b, c) {
            lemma_text_lt_transitive(a, b, c);
        }
    }
    assert forall|a: Seq<char>, b: Seq<char>| #![trigger text_le(a, b)] #![trigger text_le(b, a)]
        text_le(a, b) || text_le(b, a) by {
        lemma_text_lt_total(a, b);
    }
}

proof fn lemma_insert_multiset(s: Seq<Seq<char>>, j: int, x: Seq<char>)
    requires
        0 <= j <= s.len(),
    ensures
        s.insert(j, x).to_multiset() == s.to_multiset().insert(x),
{
    broadcast use vstd::seq_lib::group_to_multiset_ensures;
    broadcast use vstd::multiset::group_multiset_axioms;

    let t = s.insert(j, x);
    assert(t.remove(j) =~= s);
    assert(t[j] == x);
    assert(t.contains(x));
    assert(t.to_multiset().count(x) > 0);
    assert(t.to_multiset() =~= s.to_multiset().insert(x));
}

/// Sort strings in `str` order.
fn sorted_strings(v: &Vec<String>) -> (r: Vec<String>)
    ensures
        texts_sorted(string_views(r@)),
        string_views(r@).to_multiset() == string_views(v@).to_multiset(),
{
    broadcast use vstd::seq_lib::group_to_multiset_ensures;

    let mut out: Vec<String> = Vec::new();
    let mut i: usize = 0;
    assert(string_views(v@).take(0) =~= Seq::<Seq<char>>::empty());
    assert(string_views(out@) =~= Seq::<Seq<char>>::empty());
    while i < v.len()
        invariant
            i <= v.len(),
            texts_sorted(string_views(out@)),
            string_views(out@).to_multiset() == string_views(v@).take(i as int).to_multiset(),
        decreases v.len() - i,
    {
        proof {
            lemma_text_le_facts();
        }
        let x = v[i].clone();
        let mut j: usize = 0;
        while j < out.len() && !text_less(x.as_str(), out[j].as_str())
            invariant
                j <= out@.len(),
                forall|m: int| 0 <= m < j ==> text_le(#[trigger] string_views(out@)[m], x@),
            decreases out.len() - j,
        {
            proof {
                lemma_text_lt_total(x@, out@[j as int]@);
            }
            j += 1;
        }
        let ghost before = string_views(out@);
        out.insert(j, x);
        proof {
            let now = string_views(out@);
            assert(now =~= before.insert(j as int, x@));
            if j < before.len() {
                assert(text_lt(x@, before[j as int]));
            }
            assert forall|a: int, b: int| 0 <= a < b < now.len() implies text_le(#[trigger] now[a], #[trigger] now[b]) by {
                if b < j {
                    assert(now[a] == before[a] && now[b] == before[b]);
                } else if b == j {
                    assert(now[a] == before[a] && now[b] == x@);
                    assert(text_le(before[a], x@));
                } else if a < j {
                    assert(now[a] == before[a] && now[b] == before[b - 1]);
                    assert(text_le(before[a], x@));
                    assert(text_le(x@, before[j as int]));
                    assert(text_le(before[a], before[j as int]));
                    if b - 1 > j {
                        assert(text_le(before[j as int], before[b - 1]));
                        assert(text_le(before[a], before[b - 1]));
                    }
                } else if a == j {
                    assert(now[a] == x@ && now[b] == before[b - 1]);
                    assert(text_le(x@, before[j as int]));
                    if b - 1 > j {
                        assert(text_le(before[j as int], before[b - 1]));
                    }
                } else {
                    assert(now[a] == before[a - 1] && now[b] == before[b - 1]);
                    assert(text_le(before[a - 1], before[b - 1]));
                }
            }
            lemma_insert_multiset(before, j as int, x@);
            let tk = string_views(v@).take(i as int);
            assert(string_views(v@).take(i + 1) =~= tk.push(x@));
            tk.to_multiset_ensures();
            assert(tk.push(x@).to_multiset() =~= tk.to_multiset().insert(x@));
        }
        i += 1;
    }
    assert(string_views(v@).take(i as int) =~= string_views(v@));
    out
}

impl RequestSummary {
    /// The summary of a request: the byte length of its rendered system
    /// prompt, its message count, its tool names in `str` order, and the
    /// model and endpoint it is addressed to.
    pub fn from_request(
        system_text: &str,
        message_count: usize,
        tool_names: &Vec<String>,
        model: &str,
        endpoint: &str,
    ) -> (r: RequestSummary)
        ensures
            r.system_chars == byte_len(system_text@),
            r.message_count == message_count,
            texts_sorted(string_views(r.tool_names@)),
            string_views(r.tool_names@).to_multiset() == string_views(tool_names@).to_multiset(),
            r.model@ == model@,
            r.endpoint@ == endpoint@,
    {
        RequestSummary {
            system_chars: str_byte_len(system_text),
            message_count,
            tool_names: sorted_strings(tool_names),
            model: owned(model),
            endpoint: owned(endpoint),
        }
    }
}

// ---------------------------------------------------------------------
// Recorded sessions
// ---------------------------------------------------------------------

/// The version recorded in new fixtures.
pub const ENGINE_VERSION: &'static str = "0.1.0";

/// One tool call a model made.
#[derive(Debug)]
pub struct ToolCallFixture {
    pub id: Option<String>,
    pub name: String,
    pub arguments: JsonValue,
}

/// One tool result captured with a round. `value` is a success's JSON,
/// or an error's message as a JSON string.
#[derive(Debug)]
pub struct ToolResultFixture {
    pub tool_name: String,
    pub is_error: bool,
    pub value: JsonValue,
}

/// What the model returned for one round.
#[derive(Debug)]
pub struct ResponseFixture {
    pub text: String,
    pub tool_calls: Vec<ToolCallFixture>,
    pub usage: Option<UsageFixture>,
    pub tool_results: Vec<ToolResultFixture>,
}

/// One round's captured request and response.
#[derive(Debug)]
pub struct RoundFixture {
    pub seq: u32,
    pub user_prompt: String,
    pub request_hash: String,
    pub request_summary: RequestSummary,
    pub response: ResponseFixture,
    pub at_ms: u64,
}

/// One recorded session: its rounds in playback order.
#[derive(Debug)]
pub struct Fixture {
    pub name: String,
    pub created_at_ms: u64,
    pub engine_version: String,
    pub rounds: Vec<RoundFixture>,
}

/// Milliseconds since the Unix epoch by `std::time::SystemTime::now`,
/// 0 for a clock before the epoch. Nothing is stated of the value: it
/// is the time.
#[verifier::external_body]
fn now_ms() -> u64 {
    std::time::SystemTime::now().duration_since(std::time::UNIX_EPOCH).map(|d| d.as_millis() as u64).unwrap_or(0)
}

/// The request hashes of a list of rounds.
pub open spec fn round_hashes(rounds: Seq<RoundFixture>) -> Seq<Seq<char>> {
    rounds.map_values(|r: RoundFixture| r.request_hash@)
}

/// The first round at which two recordings differ: the first index
/// below both lengths whose hashes differ, else the shorter length when
/// the lengths differ, else none.
pub open spec fn divergence(a: Seq<Seq<char>>, b: Seq<Seq<char>>) -> Option<int> {
    let n = if a.len() < b.len() { a.len() } else { b.len() };
    if exists|i: int| 0 <= i < n && a[i] != b[i] {
        Some(choose|i: int| 0 <= i < n && a[i] != b[i] && forall|k: int| 0 <= k < i ==> a[k] == b[k])
    } else if a.len() != b.len() {
        Some(n as int)
    } else {
        None
    }
}

impl Fixture {
    /// An empty recording named `name`, stamped with the current time and
    /// [`ENGINE_VERSION`].
    pub fn new(name: &str) -> (f: Fixture)
        ensures
            f.name@ == name@,
            f.engine_version@ == ENGINE_VERSION@,
            f.rounds@.len() == 0,
    {
        Fixture {
            name: owned(name),
            created_at_ms: now_ms(),
            engine_version: owned(ENGINE_VERSION),
            rounds: Vec::new(),
        }
    }

    /// The first round at which `other` diverges from this recording.
    pub fn first_divergence(&self, other: &Fixture) -> (r: Option<usize>)
        ensures
            match r {
                Some(i) => divergence(round_hashes(self.rounds@), round_hashes(other.rounds@)) == Some(i as int),
                None => divergence(round_hashes(self.rounds@), round_hashes(other.rounds@)) is None,
            },
    {
        let ghost a = round_hashes(self.rounds@);
        let ghost b = round_hashes(other.rounds@);
        let n = if self.rounds.len() < other.rounds.len() {
            self.rounds.len()
        } else {
            other.rounds.len()
        };
        let mut i: usize = 0;
        while i < n
            invariant
                i <= n,
                n == if a.len() < b.len() { a.len() } else { b.len() },
                a == round_hashes(self.rounds@),
                b == round_hashes(other.rounds@),
                forall|k: int| 0 <= k < i ==> a[k] == b[k],
            decreases n - i,
        {
            if !str_eq(self.rounds[i].request_hash.as_str(), other.rounds[i].request_hash.as_str()) {
                proof {
                    assert(a[i as int] != b[i as int]);
                    let c = choose|c: int| 0 <= c < n && a[c] != b[c] && forall|k: int| 0 <= k < c ==> a[k] == b[k];
                    assert(c == i) by {
                        if c < i {
                            assert(a[c] == b[c]);
                        }
                        if c > i {
                            assert(a[i as int] == b[i as int]);
                        }
                    }
                }
                return Some(i);
            }
            i += 1;
        }
        if self.rounds.len() != other.rounds.len() {
            return Some(n);
        }
        None
    }
}

/// The diff line for one changed tool list.
pub open spec fn tools_line(expected: Seq<String>, actual: Seq<String>) -> Seq<char> {
    if string_views(expected) == string_views(actual) {
        Seq::empty()
    } else {
        "  tools: "@ + join(string_views(expected), ", "@) + " → "@ + join(string_views(actual), ", "@)
            + "\n"@
    }
}

/// The human-readable diff of one round between a recording and a
/// replay: the hashes, the counts, the model, and the tool lists when
/// they differ.
pub open spec fn round_diff(e: RoundFixture, a: RoundFixture) -> Seq<char> {
    "Round "@ + decimal(e.seq as nat) + " request hash: expected "@ + e.request_hash@ + " got "@
        + a.request_hash@ + "\n"@ + "  system_chars:  "@ + decimal(
        e.request_summary.system_chars as nat,
    ) + " → "@ + decimal(a.request_summary.system_chars as nat) + "\n"@ + "  message_count: "@
        + decimal(e.request_summary.message_count as nat) + " → "@ + decimal(
        a.request_summary.message_count as nat,
    ) + "\n"@ + "  model:         "@ + e.request_summary.model@ + " → "@ + a.request_summary.model@
        + "\n"@ + tools_line(e.request_summary.tool_names@, a.request_summary.tool_names@)
}

fn strings_eq(a: &Vec<String>, b: &Vec<String>) -> (r: bool)
    ensures
        r == (string_views(a@) == string_views(b@)),
{
    if a.len() != b.len() {
        assert(string_views(a@).len() != string_views(b@).len());
        return false;
    }
    let mut i: usize = 0;
    while i < a.len()
        invariant
            i <= a.len() == b.len(),
            forall|k: int| 0 <= k < i ==> a@[k]@ == b@[k]@,
        decreases a.len() - i,
    {
        if !str_eq(a[i].as_str(), b[i].as_str()) {
            assert(string_views(a@)[i as int] != string_views(b@)[i as int]);
            return false;
        }
        i += 1;
    }
    assert(string_views(a@) =~= string_views(b@));
    true
}

fn char_lists(v: &Vec<String>) -> (r: Vec<Vec<char>>)
    ensures
        r@.map_values(|l: Vec<char>| l@) == string_views(v@),
{
    let mut r: Vec<Vec<char>> = Vec::new();
    let mut i: usize = 0;
    while i < v.len()
        invariant
            i <= v.len(),
            r@.map_values(|l: Vec<char>| l@) == string_views(v@).take(i as int),
        decreases v.len() - i,
    {
        let ghost before = r@.map_values(|l: Vec<char>| l@);
        r.push(crate::text::chars_of(v[i].as_str()));
        assert(r@.map_values(|l: Vec<char>| l@) =~= before.push(v@[i as int]@));
        assert(string_views(v@).take(i + 1) =~= string_views(v@).take(i as int).push(v@[i as int]@));
        i += 1;
    }
    assert(string_views(v@).take(i as int) =~= string_views(v@));
    r
}

/// Diff a round between a recording and a fresh replay.
pub fn diff_rounds(expected: &RoundFixture, actual: &RoundFixture) -> (r: String)
    ensures
        r@ == round_diff(*expected, *actual),
{
    let mut out = owned("Round ");
    push_decimal(&mut out, expected.seq as u64);
    push_str(&mut out, " request hash: expected ");
    push_str(&mut out, expected.request_hash.as_str());
    push_str(&mut out, " got ");
    push_str(&mut out, actual.request_hash.as_str());
    push_str(&mut out, "\n");
    push_str(&mut out, "  system_chars:  ");
    push_decimal(&mut out, expected.request_summary.system_chars as u64);
    push_str(&mut out, " → ");
    push_decimal(&mut out, actual.request_summary.system_chars as u64);
    push_str(&mut out, "\n");
    push_str(&mut out, "  message_count: ");
    push_decimal(&mut out, expected.request_summary.message_count as u64);
    push_str(&mut out, " → ");
    push_decimal(&mut out, actual.request_summary.message_count as u64);
    push_str(&mut out, "\n");
    push_str(&mut out, "  model:         ");
    push_str(&mut out, expected.request_summary.model.as_str());
    push_str(&mut out, " → ");
    push_str(&mut out, actual.request_summary.model.as_str());
    push_str(&mut out, "\n");
    let ghost head = out@;
    if !strings_eq(&expected.request_summary.tool_names, &actual.request_summary.tool_names) {
        push_str(&mut out, "  tools: ");
        push_joined(&mut out, &char_lists(&expected.request_summary.tool_names), ", ");
        push_str(&mut out, " → ");
        push_joined(&mut out, &char_lists(&actual.request_summary.tool_names), ", ");
        push_str(&mut out, "\n");
    }
    assert(out@ =~= round_diff(*expected, *actual));
    out
}

proof fn lemma_sorted_max_last(s: Seq<Seq<char>>, x: Seq<char>)
    requires
        texts_sorted(s),
        s.contains(x),
    ensures
        text_le(x, s.last()),
{
    let k = choose|k: int| 0 <= k < s.len() && s[k] == x;
    if k < s.len() - 1 {
        assert(text_le(s[k], s[s.len() - 1]));
    }
}

/// Two ordered lists of texts holding the same texts are the same list.
proof fn lemma_sorted_permutations_equal(a: Seq<Seq<char>>, b: Seq<Seq<char>>)
    requires
        texts_sorted(a),
        texts_sorted(b),
        a.to_multiset() == b.to_multiset(),
    ensures
        a == b,
    decreases a.len(),
{
    broadcast use vstd::seq_lib::group_to_multiset_ensures;
    broadcast use vstd::multiset::group_multiset_axioms;

    a.to_multiset_ensures();
    b.to_multiset_ensures();
    assert(a.len() == b.len());
    if a.len() > 0 {
        let x = a.last();
        let y = b.last();
        assert(a.contains(x));
        assert(a.to_multiset().count(x) > 0);
        assert(b.contains(x));
        assert(b.contains(y));
        assert(a.to_multiset().count(y) > 0);
        assert(a.contains(y));
        lemma_sorted_max_last(b, x);
        lemma_sorted_max_last(a, y);
        if x != y {
            assert(text_lt(x, y) && text_lt(y, x));
            lemma_text_lt_transitive(x, y, x);
            lemma_text_lt_irreflexive(x);
        }
        let a0 = a.drop_last();
        let b0 = b.drop_last();
        assert(a0.push(x) =~= a);
        assert(b0.push(x) =~= b);
        assert(a0.to_multiset().insert(x) =~= b0.to_multiset().insert(x));
        assert(a0.to_multiset() =~= b0.to_multiset()) by {
            assert forall|t: Seq<char>| a0.to_multiset().count(t) == b0.to_multiset().count(t) by {
                assert(a0.to_multiset().insert(x).count(t) == b0.to_multiset().insert(x).count(t));
            }
        }
        assert(texts_sorted(a0));
        assert(texts_sorted(b0));
        lemma_sorted_permutations_equal(a0, b0);
    }
}

proof fn lemma_tool_name_bytes_views(a: Seq<String>, b: Seq<String>)
    requires
        string_views(a) == string_views(b),
    ensures
        tool_name_bytes(a) == tool_name_bytes(b),
    decreases a.len(),
{
    assert(a.len() == string_views(a).len());
    if a.len() > 0 {
        assert(string_views(a.drop_last()) =~= string_views(a).drop_last());
        assert(string_views(b.drop_last()) =~= string_views(b).drop_last());
        lemma_tool_name_bytes_views(a.drop_last(), b.drop_last());
        assert(a.last()@ == string_views(a)[a.len() - 1]);
        assert(b.last()@ == string_views(b)[b.len() - 1]);
    }
}

/// A request's identity does not depend on the order its tools were
/// offered in: two summaries that agree but for the order of the same
/// tool names (which `from_request` keeps sorted) hash alike.
pub proof fn law_tool_order_does_not_change_identity(s1: RequestSummary, s2: RequestSummary)
    requires
        s1.system_chars == s2.system_chars,
        s1.message_count == s2.message_count,
        s1.model@ == s2.model@,
        s1.endpoint@ == s2.endpoint@,
        texts_sorted(string_views(s1.tool_names@)),
        texts_sorted(string_views(s2.tool_names@)),
        string_views(s1.tool_names@).to_multiset() == string_views(s2.tool_names@).to_multiset(),
    ensures
        summary_hash(s1) == summary_hash(s2),
{
    lemma_sorted_permutations_equal(string_views(s1.tool_names@), string_views(s2.tool_names@));
    lemma_tool_name_bytes_views(s1.tool_names@, s2.tool_names@);
    assert(summary_bytes(s1) == summary_bytes(s2));
}

/// A recording never diverges from itself.
pub proof fn law_a_fixture_matches_itself(rounds: Seq<RoundFixture>)
    ensures
        divergence(round_hashes(rounds), round_hashes(rounds)) is None,
{
}

} // verus!
