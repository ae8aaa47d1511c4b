//! Pure helpers of the Jev (TypeSafe System One) integration: the
//! decision-source labels, the wrapper's error type, the FNV-1a hash
//! behind the decision cache key, and text previews.

use vstd::prelude::*;
use crate::json::{compact_text, first_key, json_compact, Json, JsonValue};
use crate::text::{chars_of, owned, push_one, push_str, str_eq};
use std::collections::HashMap;

verus! {

/// Who produced a decision.
#[derive(Debug, Clone, Copy, PartialEq, Eq, Structural)]
pub enum DecisionSource {
    /// The decision came from a live (or cached) Jev call.
    Jev,
    /// Jev was disabled or failed, and the caller's fallback ran.
    Heuristic,
    /// The caller decided to use its LLM path instead of Jev.
    Llm,
}

/// The label written to the session log for each source.
pub open spec fn source_label(s: DecisionSource) -> Seq<char> {
    match s {
        DecisionSource::Jev => seq!['j', 'e', 'v'],
        DecisionSource::Heuristic => seq!['h', 'e', 'u', 'r', 'i', 's', 't', 'i', 'c'],
        DecisionSource::Llm => seq!['l', 'l', 'm'],
    }
}

impl DecisionSource {
    /// The stable string written to the session log.
    pub fn as_str(&self) -> (r: &'static str)
        ensures
            r@ == source_label(*self),
    {
        proof {
            reveal_strlit("jev");
            reveal_strlit("heuristic");
            reveal_strlit("llm");
        }
        match self {
            DecisionSource::Jev => "jev",
            DecisionSource::Heuristic => "heuristic",
            DecisionSource::Llm => "llm",
        }
    }
}

/// Errors of the Jev wrapper. The SDK's own error is kept as text.
#[derive(Debug, Clone, PartialEq, Eq)]
pub enum JevError {
    Disabled,
    Sdk(String),
    Malformed(String),
    CachePoisoned,
}

/// The message each error displays.
pub open spec fn jev_error_text(e: JevError) -> Seq<char> {
    match e {
        JevError::Disabled => "jev is not enabled"@,
        JevError::Sdk(m) => "typesafe sdk: "@ + m@,
        JevError::Malformed(m) => "malformed typesafe response: "@ + m@,
        JevError::CachePoisoned => "jev cache lock was poisoned"@,
    }
}

impl JevError {
    /// The error's message.
    pub fn message(&self) -> (r: String)
        ensures
            r@ == jev_error_text(*self),
    {
        match self {
            JevError::Disabled => owned("jev is not enabled"),
            JevError::Sdk(m) => {
                let mut out = owned("typesafe sdk: ");
                push_str(&mut out, m.as_str());
                out
            },
            JevError::Malformed(m) => {
                let mut out = owned("malformed typesafe response: ");
                push_str(&mut out, m.as_str());
                out
            },
            JevError::CachePoisoned => owned("jev cache lock was poisoned"),
        }
    }
}

// ---------------------------------------------------------------------
// FNV-1a
// ---------------------------------------------------------------------

/// The 64-bit FNV-1a offset basis.
pub const FNV_OFFSET: u64 = 0xcbf2_9ce4_8422_2325;

/// The 64-bit FNV-1a prime.
pub const FNV_PRIME: u64 = 0x0000_0100_0000_01b3;

/// One FNV-1a step: xor in the byte, multiply by the prime modulo 2^64.
pub open spec fn fnv_step(h: u64, b: u8) -> u64 {
    vstd::wrapping::u64_specs::wrapping_mul(h ^ (b as u64), FNV_PRIME)
}

/// FNV-1a over `bytes`, starting from state `h`.
pub open spec fn fnv_fold(h: u64, bytes: Seq<u8>) -> u64
    decreases bytes.len(),
{
    if bytes.len() == 0 {
        h
    } else {
        fnv_step(fnv_fold(h, bytes.drop_last()), bytes.last())
    }
}

/// The 64-bit FNV-1a hash of `bytes`.
pub open spec fn fnv1a(bytes: Seq<u8>) -> u64 {
    fnv_fold(FNV_OFFSET, bytes)
}

/// Feeding two byte strings one after the other is feeding their
/// concatenation.
pub proof fn lemma_fnv_fold_concat(h: u64, a: Seq<u8>, b: Seq<u8>)
    ensures
        fnv_fold(h, a + b) == fnv_fold(fnv_fold(h, a), b),
    decreases b.len(),
{
    if b.len() == 0 {
        assert(a + b =~= a);
    } else {
        assert((a + b).drop_last() =~= a + b.drop_last());
        lemma_fnv_fold_concat(h, a, b.drop_last());
    }
}

/// Continue an FNV-1a hash from state `h` over `bytes`.
pub fn fnv_feed(h: u64, bytes: &[u8]) -> (r: u64)
    ensures
        r == fnv_fold(h, bytes@),
{
    let mut hash = h;
    let mut i: usize = 0;
    while i < bytes.len()
        invariant
            i <= bytes.len(),
            hash == fnv_fold(h, bytes@.take(i as int)),
        decreases bytes.len() - i,
    {
        assert(bytes@.take(i as int + 1).drop_last() =~= bytes@.take(i as int));
        hash = (hash ^ bytes[i] as u64).wrapping_mul(FNV_PRIME);
        i += 1;
    }
    assert(bytes@.take(bytes.len() as int) =~= bytes@);
    hash
}

/// A 64-bit FNV-1a hash, used for the in-process decision-cache key.
pub fn fnv1a_64(bytes: &[u8]) -> (r: u64)
    ensures
        r == fnv1a(bytes@),
{
    fnv_feed(FNV_OFFSET, bytes)
}

// ---------------------------------------------------------------------
// Previews
// ---------------------------------------------------------------------

/// The first `max_chars` characters of `s`, with an ellipsis appended
/// when `s` was cut.
pub open spec fn preview_text(s: Seq<char>, max_chars: nat) -> Seq<char> {
    if s.len() <= max_chars {
        s
    } else {
        s.take(max_chars as int).push('…')
    }
}

/// Truncate `s` to `max_chars` characters for a preview, appending `…`
/// when cut. Counts characters, not bytes.
pub fn preview_chars(s: &str, max_chars: usize) -> (r: String)
    ensures
        r@ == preview_text(s@, max_chars as nat),
{
    let v = chars_of(s);
    let mut out = String::new();
    let mut i: usize = 0;
    while i < v.len()
        invariant
            i <= v.len(),
            i <= max_chars,
            v@ == s@,
            out@ == v@.take(i as int),
        decreases v.len() - i,
    {
        if i >= max_chars {
            push_one(&mut out, '…');
            return out;
        }
        push_one(&mut out, v[i]);
        assert(v@.take(i as int + 1) =~= v@.take(i as int).push(v@[i as int]));
        i += 1;
    }
    assert(v@.take(i as int) =~= v@);
    out
}

// ---------------------------------------------------------------------
// Decision state and cache key
// ---------------------------------------------------------------------

/// Object entries after setting `key` to `val`: an existing entry with
/// the key takes the new value in place; otherwise the entry is added.
pub open spec fn entry_set(es: Seq<(Seq<char>, Json)>, key: Seq<char>, val: Json) -> Seq<(Seq<char>, Json)> {
    match first_key(es, key) {
        Some(i) => es.update(i, (key, val)),
        None => es.push((key, val)),
    }
}

/// The metadata object's entries after setting each pair in order.
pub open spec fn metadata_entries(md: Seq<(Seq<char>, Seq<char>)>) -> Seq<(Seq<char>, Json)>
    decreases md.len(),
{
    if md.len() == 0 {
        Seq::empty()
    } else {
        entry_set(metadata_entries(md.drop_last()), md.last().0, Json::Str(md.last().1))
    }
}

/// The state of one Jev call: an object with the `text`, and a
/// `metadata` object of string values when any metadata is given.
pub open spec fn state_value(text: Seq<char>, md: Seq<(Seq<char>, Seq<char>)>) -> Json {
    if md.len() == 0 {
        Json::Object(seq![("text"@, Json::Str(text))])
    } else {
        Json::Object(seq![("text"@, Json::Str(text)), ("metadata"@, Json::Object(metadata_entries(md)))])
    }
}

proof fn lemma_entries_model(es: Vec<(String, JsonValue)>)
    ensures
        JsonValue::Object(es)@ matches Json::Object(m) && m.len() == es@.len() && (forall|i: int|
            0 <= i < es@.len() ==> #[trigger] m[i] == (es@[i].0@, es@[i].1@)),
{
}

fn set_entry(es: &mut Vec<(String, JsonValue)>, key: &str, val: &str)
    ensures
        JsonValue::Object(*final(es))@ == Json::Object(
            entry_set(JsonValue::Object(*old(es))@->Object_0, key@, Json::Str(val@)),
        ),
{
    let ghost m = JsonValue::Object(*es)@->Object_0;
    proof {
        lemma_entries_model(*es);
    }
    let mut i: usize = 0;
    while i < es.len()
        invariant
            i <= es.len(),
            m == JsonValue::Object(*old(es))@->Object_0,
            *es == *old(es),
            m.len() == es@.len(),
            forall|k: int| 0 <= k < es@.len() ==> #[trigger] m[k] == (es@[k].0@, es@[k].1@),
            forall|k: int| 0 <= k < i ==> m[k].0 != key@,
        decreases es.len() - i,
    {
        if str_eq(es[i].0.as_str(), key) {
            proof {
                assert(m[i as int].0 == key@);
                crate::json::lemma_first_key(m, key@);
                if let Some(f) = first_key(m, key@) {
                    if f < i {
                        assert(m[f].0 != key@);
                    } else if f > i {
                        assert(m[i as int].0 != key@);
                    }
                }
            }
            es.set(i, (owned(key), JsonValue::String(owned(val))));
            proof {
                lemma_entries_model(*es);
                assert(JsonValue::Object(*es)@->Object_0 =~= m.update(i as int, (key@, Json::Str(val@))));
            }
            return;
        }
        assert(m[i as int].0 != key@);
        i += 1;
    }
    proof {
        crate::json::lemma_first_key(m, key@);
        if let Some(f) = first_key(m, key@) {
            assert(m[f].0 != key@);
        }
    }
    es.push((owned(key), JsonValue::String(owned(val))));
    proof {
        lemma_entries_model(*es);
        assert(JsonValue::Object(*es)@->Object_0 =~= m.push((key@, Json::Str(val@))));
    }
}

/// Build the state value for one Jev call: `{"text": …}` plus a
/// `metadata` object of string pairs when any are given (a repeated key
/// keeps its last value).
pub fn build_state(text: &str, metadata: &[(&str, &str)]) -> (r: JsonValue)
    ensures
        r@ == state_value(text@, metadata@.map_values(|p: (&str, &str)| (p.0@, p.1@))),
{
    let ghost md = metadata@.map_values(|p: (&str, &str)| (p.0@, p.1@));
    let mut obj: Vec<(String, JsonValue)> = Vec::new();
    obj.push((owned("text"), JsonValue::String(owned(text))));
    if metadata.len() > 0 {
        let mut m: Vec<(String, JsonValue)> = Vec::new();
        let mut i: usize = 0;
        proof {
            lemma_entries_model(m);
            assert(JsonValue::Object(m)@->Object_0 =~= metadata_entries(md.take(0)));
        }
        while i < metadata.len()
            invariant
                i <= metadata.len(),
                md == metadata@.map_values(|p: (&str, &str)| (p.0@, p.1@)),
                JsonValue::Object(m)@->Object_0 == metadata_entries(md.take(i as int)),
            decreases metadata.len() - i,
        {
            let (k, v) = metadata[i];
            set_entry(&mut m, k, v);
            proof {
                assert(md.take(i as int + 1).drop_last() =~= md.take(i as int));
                assert(md.take(i as int + 1).last() == (k@, v@));
            }
            i += 1;
        }
        proof {
            assert(md.take(i as int) =~= md);
        }
        obj.push((owned("metadata"), JsonValue::Object(m)));
    }
    let r = JsonValue::Object(obj);
    proof {
        lemma_entries_model(obj);
        assert(r@->Object_0 =~= state_value(text@, md)->Object_0);
    }
    r
}

/// The bytes the decision-cache key hashes: the question kind, the
/// state's compact JSON text and the question, separated by 0 bytes.
pub open spec fn cache_key_bytes(kind: Seq<char>, state: Json, question: Seq<char>) -> Seq<u8> {
    vstd::utf8::encode_utf8(kind) + seq![0u8] + vstd::utf8::encode_utf8(json_compact(state))
        + seq![0u8] + vstd::utf8::encode_utf8(question)
}

/// The decision-cache key for a question about a state: "same question,
/// different state" is a different key.
pub fn cache_key(kind: &str, state: &JsonValue, question: &str) -> (r: u64)
    ensures
        r == fnv1a(cache_key_bytes(kind@, state@, question@)),
{
    let text = compact_text(state);
    let z: [u8; 1] = [0u8];
    assert(z@ =~= seq![0u8]);
    let mut h = fnv_feed(FNV_OFFSET, kind.as_bytes());
    h = fnv_feed(h, z.as_slice());
    h = fnv_feed(h, text.as_str().as_bytes());
    h = fnv_feed(h, z.as_slice());
    h = fnv_feed(h, question.as_bytes());
    proof {
        let a = vstd::utf8::encode_utf8(kind@);
        let b = vstd::utf8::encode_utf8(text@);
        let c = vstd::utf8::encode_utf8(question@);
        lemma_fnv_fold_concat(FNV_OFFSET, a, seq![0u8]);
        lemma_fnv_fold_concat(FNV_OFFSET, a + seq![0u8], b);
        lemma_fnv_fold_concat(FNV_OFFSET, a + seq![0u8] + b, seq![0u8]);
        lemma_fnv_fold_concat(FNV_OFFSET, a + seq![0u8] + b + seq![0u8], c);
    }
    h
}

// ---------------------------------------------------------------------
// Decision cache
// ---------------------------------------------------------------------

/// A cached answer, when it was cached (milliseconds on a monotonic
/// clock), and how long it stays good.
pub struct CacheEntry<V> {
    pub answer: V,
    pub cached_at_ms: u64,
    pub ttl_ms: u64,
}

/// Milliseconds from `then` to `now`, zero when `now` is earlier.
pub open spec fn elapsed_ms(then: u64, now: u64) -> nat {
    if now >= then {
        (now - then) as nat
    } else {
        0
    }
}

/// Whether an entry is still good at `now`.
pub open spec fn is_fresh<V>(e: CacheEntry<V>, now: u64) -> bool {
    elapsed_ms(e.cached_at_ms, now) < e.ttl_ms
}

/// What a lookup serves: the answer under `key` while it is fresh.
pub open spec fn cached<V>(m: Map<u64, CacheEntry<V>>, key: u64, now: u64) -> Option<V> {
    if m.contains_key(key) && is_fresh(m[key], now) {
        Some(m[key].answer)
    } else {
        None
    }
}

/// The cache after an answer is stored at `now` with a time to live of
/// `ttl_ms`; a zero time to live stores nothing.
pub open spec fn stored<V>(m: Map<u64, CacheEntry<V>>, key: u64, answer: V, now: u64, ttl_ms: u64) -> Map<u64, CacheEntry<V>> {
    if ttl_ms == 0 {
        m
    } else {
        m.insert(key, CacheEntry { answer, cached_at_ms: now, ttl_ms })
    }
}

/// The decision cache: answers by cache key, each good for its time to
/// live. The clock is the caller's.
pub struct DecisionCache<V> {
    entries: HashMap<u64, CacheEntry<V>>,
}

impl<V> DecisionCache<V> {
    /// The cached entries by key.
    pub closed spec fn view(&self) -> Map<u64, CacheEntry<V>> {
        self.entries@
    }

    /// An empty cache.
    pub fn new() -> (c: Self)
        ensures
            c.view() == Map::<u64, CacheEntry<V>>::empty(),
    {
        DecisionCache { entries: HashMap::new() }
    }

    /// The number of cached entries, stale ones included.
    pub fn len(&self) -> (n: usize)
        ensures
            n == self.view().len(),
    {
        broadcast use vstd::std_specs::hash::group_hash_axioms;
        self.entries.len()
    }

    /// Drop every cached entry.
    pub fn clear(&mut self)
        ensures
            final(self).view() == Map::<u64, CacheEntry<V>>::empty(),
    {
        self.entries.clear();
    }

    /// The answer cached under `key`, while it is fresh at `now_ms`.
    pub fn get(&self, key: u64, now_ms: u64) -> (r: Option<&V>)
        ensures
            match r {
                Some(a) => cached(self.view(), key, now_ms) == Some(*a),
                None => cached(self.view(), key, now_ms) is None,
            },
    {
        broadcast use vstd::std_specs::hash::group_hash_axioms;
        match self.entries.get(&key) {
            Some(e) => {
                let elapsed = if now_ms >= e.cached_at_ms { now_ms - e.cached_at_ms } else { 0 };
                if elapsed < e.ttl_ms {
                    Some(&e.answer)
                } else {
                    None
                }
            },
            None => None,
        }
    }

    /// Store an answer under `key` at `now_ms`, good for `ttl_ms`; a
    /// zero time to live (the cache is off) stores nothing.
    pub fn put(&mut self, key: u64, answer: V, now_ms: u64, ttl_ms: u64)
        ensures
            final(self).view() == stored(old(self).view(), key, answer, now_ms, ttl_ms),
    {
        broadcast use vstd::std_specs::hash::group_hash_axioms;
        if ttl_ms == 0 {
            return;
        }
        self.entries.insert(key, CacheEntry { answer, cached_at_ms: now_ms, ttl_ms });
    }
}

/// A stored answer is served back until its time to live runs out, and
/// not after; storing with a zero time to live changes nothing.
pub proof fn law_cached_answer_is_served_while_fresh<V>(
    m: Map<u64, CacheEntry<V>>,
    key: u64,
    answer: V,
    at: u64,
    ttl_ms: u64,
    now: u64,
)
    ensures
        ttl_ms > 0 && elapsed_ms(at, now) < ttl_ms ==> cached(stored(m, key, answer, at, ttl_ms), key, now)
            == Some(answer),
        ttl_ms > 0 && elapsed_ms(at, now) >= ttl_ms ==> cached(stored(m, key, answer, at, ttl_ms), key, now)
            is None,
        ttl_ms == 0 ==> stored(m, key, answer, at, ttl_ms) == m,
        forall|k: u64| k != key ==> cached(stored(m, key, answer, at, ttl_ms), k, now) == cached(m, k, now),
{
}

// ---------------------------------------------------------------------
// Status line
// ---------------------------------------------------------------------

/// `true` or `false`, as `bool` displays.
pub open spec fn bool_text(b: bool) -> Seq<char> {
    if b {
        "true"@
    } else {
        "false"@
    }
}

fn push_bool(out: &mut String, b: bool)
    ensures
        final(out)@ == old(out)@ + bool_text(b),
{
    proof {
        reveal_strlit("true");
        reveal_strlit("false");
    }
    if b {
        push_str(out, "true");
    } else {
        push_str(out, "false");
    }
}

/// The client's status line for `/jev`; the model defaults to
/// `jev-latest`.
pub open spec fn status_line(
    enabled: bool,
    model: Option<Seq<char>>,
    cache_ttl_secs: u64,
    cache_entries: usize,
    timeout_ms: u64,
    fail_open: bool,
    redact_paths: bool,
) -> Seq<char> {
    "enabled="@ + bool_text(enabled) + " model="@ + match model {
        Some(m) => m,
        None => "jev-latest"@,
    } + " cache_ttl="@ + crate::text::decimal(cache_ttl_secs as nat) + "s cache_entries="@
        + crate::text::decimal(cache_entries as nat) + " timeout="@ + crate::text::decimal(timeout_ms as nat)
        + "ms fail_open="@ + bool_text(fail_open) + " redact_paths="@ + bool_text(redact_paths)
}

/// The client's status line for `/jev`.
pub fn jev_status_line(
    enabled: bool,
    model: Option<&str>,
    cache_ttl_secs: u64,
    cache_entries: usize,
    timeout_ms: u64,
    fail_open: bool,
    redact_paths: bool,
) -> (r: String)
    ensures
        r@ == status_line(
            enabled,
            match model {
                Some(m) => Some(m@),
                None => None,
            },
            cache_ttl_secs,
            cache_entries,
            timeout_ms,
            fail_open,
            redact_paths,
        ),
{
    let mut out = owned("enabled=");
    push_bool(&mut out, enabled);
    push_str(&mut out, " model=");
    match model {
        Some(m) => push_str(&mut out, m),
        None => push_str(&mut out, "jev-latest"),
    }
    push_str(&mut out, " cache_ttl=");
    crate::text::push_decimal(&mut out, cache_ttl_secs);
    push_str(&mut out, "s cache_entries=");
    crate::text::push_decimal(&mut out, cache_entries as u64);
    push_str(&mut out, " timeout=");
    crate::text::push_decimal(&mut out, timeout_ms);
    push_str(&mut out, "ms fail_open=");
    push_bool(&mut out, fail_open);
    push_str(&mut out, " redact_paths=");
    push_bool(&mut out, redact_paths);
    out
}

} // verus!
