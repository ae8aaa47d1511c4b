//! Per-transcript session state kept beside the conversation history:
//! steering notes queued while a prompt runs, cancel flags, the working
//! directory and write set a transcript's tool calls run under, the
//! session's "never" rules, and the session a transcript's facts are
//! attributed to.
//!
//! Every keyed table is keyed by the transcript key (`""` for the
//! interactive session, `swarm:<id>` for a swarm agent); an operation on
//! one key leaves every other key as it was.

use vstd::prelude::*;
use vstd::hash_map::StringHashMap;
use vstd::hash_set::StringHashSet;
use crate::text::{
    after_prefix, lemma_text_lt_irreflexive, lemma_text_lt_total, lemma_text_lt_transitive, owned,
    push_str, str_eq, strip_prefix_str, text_less, text_lt, trim, trim_string,
};

verus! {

/// The interactive session's transcript key.
pub const DEFAULT_TRANSCRIPT_KEY: &'static str = "";

/// The views of a list of strings.
pub open spec fn texts(v: Seq<String>) -> Seq<Seq<char>> {
    v.map_values(|s: String| s@)
}

fn copy_strings(v: &Vec<String>) -> (r: Vec<String>)
    ensures
        r@ == v@,
{
    let mut r: Vec<String> = Vec::new();
    let mut i: usize = 0;
    while i < v.len()
        invariant
            i <= v.len(),
            r@ == v@.take(i as int),
        decreases v.len() - i,
    {
        r.push(v[i].clone());
        assert(r@ =~= v@.take(i + 1));
        i += 1;
    }
    assert(v@.take(v.len() as int) =~= v@);
    r
}

// ---------------------------------------------------------------------
// Steering notes
// ---------------------------------------------------------------------

/// The heading a steering note is delivered under.
pub open spec fn steer_heading() -> Seq<char> {
    "## User steer (new instruction — adjust course now, do not restart what already worked)\n"@
}

/// Steering notes queued per transcript, oldest first.
pub struct Steers {
    queued: StringHashMap<Vec<String>>,
}

impl Steers {
    /// The notes queued on `key`.
    pub closed spec fn queue(&self, key: Seq<char>) -> Seq<Seq<char>> {
        if self.queued@.contains_key(key) {
            texts(self.queued@[key]@)
        } else {
            Seq::empty()
        }
    }

    /// No notes anywhere.
    pub fn new() -> (s: Self)
        ensures
            forall|k: Seq<char>| #[trigger] s.queue(k) == Seq::<Seq<char>>::empty(),
    {
        Steers { queued: StringHashMap::new() }
    }

    /// Queue `note`, trimmed, on `key`; a blank note is ignored.
    pub fn steer_for(&mut self, key: &str, note: &str)
        ensures
            final(self).queue(key@) == if trim(note@).len() == 0 {
                old(self).queue(key@)
            } else {
                old(self).queue(key@).push(trim(note@))
            },
            forall|k: Seq<char>| k != key@ ==> #[trigger] final(self).queue(k) == old(self).queue(k),
    {
        let n = trim_string(note);
        if n.as_str().is_empty() {
            return;
        }
        let mut q: Vec<String> = match self.queued.get(key) {
            Some(v) => copy_strings(v),
            None => Vec::new(),
        };
        let ghost before = q@;
        q.push(n);
        assert(texts(q@) =~= texts(before).push(trim(note@)));
        self.queued.insert(owned(key), q);
    }

    /// Take the notes queued on `key`, oldest first; each is handed out
    /// once.
    pub fn take_steers_for(&mut self, key: &str) -> (r: Vec<String>)
        ensures
            texts(r@) == old(self).queue(key@),
            final(self).queue(key@) == Seq::<Seq<char>>::empty(),
            forall|k: Seq<char>| k != key@ ==> #[trigger] final(self).queue(k) == old(self).queue(k),
    {
        let r = match self.queued.get(key) {
            Some(v) => copy_strings(v),
            None => Vec::new(),
        };
        self.queued.remove(key);
        r
    }
}

/// The user message a steering note becomes.
pub fn steer_message(note: &str) -> (r: String)
    ensures
        r@ == steer_heading() + note@,
{
    let mut out = owned(
        "## User steer (new instruction — adjust course now, do not restart what already worked)\n",
    );
    push_str(&mut out, note);
    out
}

/// The block a steering note appends to the pending prompt text.
pub fn steer_prompt_block(note: &str) -> (r: String)
    ensures
        r@ == "\n\n"@ + steer_heading() + note@ + "\n"@,
{
    let mut out = owned("\n\n");
    push_str(&mut out, steer_message(note).as_str());
    push_str(&mut out, "\n");
    out
}

// ---------------------------------------------------------------------
// Cancel flags
// ---------------------------------------------------------------------

/// The transcripts whose running prompt was asked to stop.
pub struct Cancels {
    keys: StringHashSet,
}

impl Cancels {
    /// Whether `key` was asked to stop.
    pub closed spec fn cancelled(&self, key: Seq<char>) -> bool {
        self.keys@.contains(key)
    }

    /// No transcript asked to stop.
    pub fn new() -> (c: Self)
        ensures
            forall|k: Seq<char>| !#[trigger] c.cancelled(k),
    {
        Cancels { keys: StringHashSet::new() }
    }

    /// Ask `key`'s running prompt to stop at the next round boundary.
    pub fn request_cancel_for(&mut self, key: &str)
        ensures
            final(self).cancelled(key@),
            forall|k: Seq<char>| k != key@ ==> #[trigger] final(self).cancelled(k) == old(
                self,
            ).cancelled(k),
    {
        self.keys.insert(owned(key));
    }

    /// Clear `key`'s cancel flag.
    pub fn clear_cancel_for(&mut self, key: &str)
        ensures
            !final(self).cancelled(key@),
            forall|k: Seq<char>| k != key@ ==> #[trigger] final(self).cancelled(k) == old(
                self,
            ).cancelled(k),
    {
        self.keys.remove(key);
    }

    /// Whether `key` was asked to stop.
    pub fn is_cancelled_for(&self, key: &str) -> (r: bool)
        ensures
            r == self.cancelled(key@),
    {
        self.keys.contains(key)
    }
}

// ---------------------------------------------------------------------
// Working directories and write sets
// ---------------------------------------------------------------------

/// The working directory each transcript's tool calls run against: an
/// override per key, else the engine's root.
pub struct TranscriptDirs {
    root: String,
    overrides: StringHashMap<String>,
}

impl TranscriptDirs {
    /// The engine's root directory.
    pub closed spec fn root(&self) -> Seq<char> {
        self.root@
    }

    /// The override for `key`, if any.
    pub closed spec fn override_of(&self, key: Seq<char>) -> Option<Seq<char>> {
        if self.overrides@.contains_key(key) {
            Some(self.overrides@[key]@)
        } else {
            None
        }
    }

    /// No overrides, with `root` as the default.
    pub fn new(root: &str) -> (d: Self)
        ensures
            d.root() == root@,
            forall|k: Seq<char>| #[trigger] d.override_of(k) is None,
    {
        TranscriptDirs { root: owned(root), overrides: StringHashMap::new() }
    }

    /// Point `key` at `dir`; `None` clears its override.
    pub fn set_transcript_working_dir(&mut self, key: &str, dir: Option<String>)
        ensures
            final(self).override_of(key@) == match dir {
                Some(d) => Some(d@),
                None => None::<Seq<char>>,
            },
            final(self).root() == old(self).root(),
            forall|k: Seq<char>| k != key@ ==> #[trigger] final(self).override_of(k) == old(
                self,
            ).override_of(k),
    {
        match dir {
            Some(d) => {
                self.overrides.insert(owned(key), d);
            },
            None => {
                self.overrides.remove(key);
            },
        }
    }

    /// The directory `key`'s tool calls run against.
    pub fn working_dir_for(&self, key: &str) -> (r: String)
        ensures
            r@ == match self.override_of(key@) {
                Some(d) => d,
                None => self.root(),
            },
    {
        match self.overrides.get(key) {
            Some(d) => d.clone(),
            None => self.root.clone(),
        }
    }

    /// Clear `key`'s override.
    pub fn clear_transcript_working_dir(&mut self, key: &str)
        ensures
            final(self).override_of(key@) is None,
            final(self).root() == old(self).root(),
            forall|k: Seq<char>| k != key@ ==> #[trigger] final(self).override_of(k) == old(
                self,
            ).override_of(k),
    {
        self.overrides.remove(key);
    }
}

/// The write set each transcript's tool calls are restricted to, where
/// one is in force.
pub struct WriteGlobs {
    claims: StringHashMap<Vec<String>>,
}

impl WriteGlobs {
    /// The globs in force for `key`; `None` when no claim is.
    pub closed spec fn claim(&self, key: Seq<char>) -> Option<Seq<Seq<char>>> {
        if self.claims@.contains_key(key) {
            Some(texts(self.claims@[key]@))
        } else {
            None
        }
    }

    /// No claims.
    pub fn new() -> (w: Self)
        ensures
            forall|k: Seq<char>| #[trigger] w.claim(k) is None,
    {
        WriteGlobs { claims: StringHashMap::new() }
    }

    /// Restrict `key` to `globs`. An empty list and `None` both mean no
    /// claim.
    pub fn set_transcript_write_globs(&mut self, key: &str, globs: Option<Vec<String>>)
        ensures
            final(self).claim(key@) == match globs {
                Some(g) => if g@.len() > 0 {
                    Some(texts(g@))
                } else {
                    None
                },
                None => None,
            },
            forall|k: Seq<char>| k != key@ ==> #[trigger] final(self).claim(k) == old(self).claim(k),
    {
        match globs {
            Some(g) => {
                if g.len() > 0 {
                    self.claims.insert(owned(key), g);
                } else {
                    self.claims.remove(key);
                }
            },
            None => {
                self.claims.remove(key);
            },
        }
    }

    /// The globs in force for `key`.
    pub fn write_globs_for(&self, key: &str) -> (r: Option<Vec<String>>)
        ensures
            match r {
                Some(g) => self.claim(key@) == Some(texts(g@)),
                None => self.claim(key@) is None,
            },
    {
        match self.claims.get(key) {
            Some(g) => Some(copy_strings(g)),
            None => None,
        }
    }

    /// Drop `key`'s claim.
    pub fn clear_transcript_write_globs(&mut self, key: &str)
        ensures
            final(self).claim(key@) is None,
            forall|k: Seq<char>| k != key@ ==> #[trigger] final(self).claim(k) == old(self).claim(k),
    {
        self.claims.remove(key);
    }
}


// ---------------------------------------------------------------------
// Session deny rules
// ---------------------------------------------------------------------

/// A session-scoped "never" rule: calls of `tool` (on paths matching
/// `path_pattern`, when one is given) are denied without a prompt.
#[derive(Debug)]
pub struct SessionDeny {
    pub tool: String,
    pub path_pattern: Option<String>,
}

/// A rule as the values it is compared and ordered by.
pub type DenyKey = (Seq<char>, Option<Seq<char>>);

/// The key of a rule.
pub open spec fn deny_key(r: SessionDeny) -> DenyKey {
    (
        r.tool@,
        match r.path_pattern {
            Some(p) => Some(p@),
            None => None,
        },
    )
}

/// No pattern orders before any pattern; patterns order as texts.
pub open spec fn pattern_lt(a: Option<Seq<char>>, b: Option<Seq<char>>) -> bool {
    match (a, b) {
        (None, Some(_)) => true,
        (Some(x), Some(y)) => text_lt(x, y),
        _ => false,
    }
}

/// Rules order by tool, then by path pattern.
pub open spec fn key_lt(a: DenyKey, b: DenyKey) -> bool {
    text_lt(a.0, b.0) || (a.0 == b.0 && pattern_lt(a.1, b.1))
}

/// Strictly increasing in rule order.
pub open spec fn strictly_sorted(s: Seq<DenyKey>) -> bool {
    forall|i: int, j: int| 0 <= i < j < s.len() ==> key_lt(#[trigger] s[i], #[trigger] s[j])
}

/// The rules of a set in order: the one strictly increasing sequence
/// holding exactly the set's rules.
pub open spec fn ordered(rules: Set<DenyKey>) -> Seq<DenyKey> {
    choose|s: Seq<DenyKey>| strictly_sorted(s) && forall|k: DenyKey| #[trigger] s.contains(k) <==> rules.contains(k)
}

pub proof fn lemma_key_lt_order()
    ensures
        forall|a: DenyKey| !#[trigger] key_lt(a, a),
        forall|a: DenyKey, b: DenyKey, c: DenyKey|
            #![trigger key_lt(a, b), key_lt(b, c)]
            key_lt(a, b) && key_lt(b, c) ==> key_lt(a, c),
        forall|a: DenyKey, b: DenyKey| #![trigger key_lt(a, b)] #![trigger key_lt(b, a)]
            a == b || key_lt(a, b) || key_lt(b, a),
{
    assert forall|a: DenyKey| !#[trigger] key_lt(a, a) by {
        lemma_text_lt_irreflexive(a.0);
        if let Some(x) = a.1 {
            lemma_text_lt_irreflexive(x);
        }
    }
    assert forall|a: DenyKey, b: DenyKey, c: DenyKey|
        #![trigger key_lt(a, b), key_lt(b, c)]
        key_lt(a, b) && key_lt(b, c) implies key_lt(a, c) by {
        if text_lt(a.0, b.0) && text_lt(b.0, c.0) {
            lemma_text_lt_transitive(a.0, b.0, c.0);
        }
        if let (Some(x), Some(y), Some(z)) = (a.1, b.1, c.1) {
            if text_lt(x, y) && text_lt(y, z) {
                lemma_text_lt_transitive(x, y, z);
            }
        }
    }
    assert forall|a: DenyKey, b: DenyKey| #![trigger key_lt(a, b)] #![trigger key_lt(b, a)]
        a == b || key_lt(a, b) || key_lt(b, a) by {
        lemma_text_lt_total(a.0, b.0);
        if let (Some(x), Some(y)) = (a.1, b.1) {
            lemma_text_lt_total(x, y);
        }
    }
}

/// Two strictly sorted sequences holding the same rules are equal.
pub proof fn lemma_sorted_unique(a: Seq<DenyKey>, b: Seq<DenyKey>)
    requires
        strictly_sorted(a),
        strictly_sorted(b),
        forall|k: DenyKey| #[trigger] a.contains(k) <==> b.contains(k),
    ensures
        a == b,
    decreases a.len(),
{
    lemma_key_lt_order();
    if a.len() == 0 {
        if b.len() > 0 {
            assert(b.contains(b[0]));
            assert(a.contains(b[0]));
        }
        assert(a =~= b);
    } else {
        assert(a.contains(a[0]));
        assert(b.contains(a[0]));
        assert(b.contains(b[0]));
        assert(a.contains(b[0]));
        let ia = choose|i: int| 0 <= i < a.len() && a[i] == b[0];
        let ib = choose|i: int| 0 <= i < b.len() && b[i] == a[0];
        if a[0] != b[0] {
            assert(ia > 0 && key_lt(a[0], a[ia]));
            assert(ib > 0 && key_lt(b[0], b[ib]));
            assert(false);
        }
        let ra = a.skip(1);
        let rb = b.skip(1);
        assert forall|k: DenyKey| #[trigger] ra.contains(k) <==> rb.contains(k) by {
            if ra.contains(k) {
                let i = choose|i: int| 0 <= i < ra.len() && ra[i] == k;
                assert(a[i + 1] == k);
                assert(key_lt(a[0], a[i + 1]));
                assert(a.contains(k));
                assert(b.contains(k));
                let j = choose|j: int| 0 <= j < b.len() && b[j] == k;
                assert(j != 0);
                assert(rb[j - 1] == k);
            }
            if rb.contains(k) {
                let i = choose|i: int| 0 <= i < rb.len() && rb[i] == k;
                assert(b[i + 1] == k);
                assert(key_lt(b[0], b[i + 1]));
                assert(a.contains(k));
                let j = choose|j: int| 0 <= j < a.len() && a[j] == k;
                assert(j != 0);
                assert(ra[j - 1] == k);
            }
        }
        assert forall|i: int, j: int| 0 <= i < j < ra.len() implies key_lt(#[trigger] ra[i], #[trigger] ra[j]) by {
            assert(ra[i] == a[i + 1] && ra[j] == a[j + 1]);
        }
        assert forall|i: int, j: int| 0 <= i < j < rb.len() implies key_lt(#[trigger] rb[i], #[trigger] rb[j]) by {
            assert(rb[i] == b[i + 1] && rb[j] == b[j + 1]);
        }
        lemma_sorted_unique(ra, rb);
        assert(a =~= seq![a[0]] + ra);
        assert(b =~= seq![b[0]] + rb);
    }
}

/// `ordered` is that sequence, for any strictly sorted witness.
pub proof fn lemma_ordered_is(rules: Set<DenyKey>, s: Seq<DenyKey>)
    requires
        strictly_sorted(s),
        forall|k: DenyKey| #[trigger] s.contains(k) <==> rules.contains(k),
    ensures
        ordered(rules) == s,
{
    let o = ordered(rules);
    assert(strictly_sorted(o) && forall|k: DenyKey| #[trigger] o.contains(k) <==> rules.contains(k));
    lemma_sorted_unique(o, s);
}


/// The keys of a list of rules.
pub open spec fn keys_of(s: Seq<SessionDeny>) -> Seq<DenyKey> {
    s.map_values(|r: SessionDeny| deny_key(r))
}

fn rule_less(a: &SessionDeny, b: &SessionDeny) -> (r: bool)
    ensures
        r == key_lt(deny_key(*a), deny_key(*b)),
{
    if text_less(a.tool.as_str(), b.tool.as_str()) {
        return true;
    }
    if !str_eq(a.tool.as_str(), b.tool.as_str()) {
        return false;
    }
    match (&a.path_pattern, &b.path_pattern) {
        (None, Some(_)) => true,
        (Some(x), Some(y)) => text_less(x.as_str(), y.as_str()),
        _ => false,
    }
}

fn same_rule(a: &SessionDeny, b: &SessionDeny) -> (r: bool)
    ensures
        r == (deny_key(*a) == deny_key(*b)),
{
    if !str_eq(a.tool.as_str(), b.tool.as_str()) {
        return false;
    }
    match (&a.path_pattern, &b.path_pattern) {
        (None, None) => true,
        (Some(x), Some(y)) => str_eq(x.as_str(), y.as_str()),
        _ => false,
    }
}

fn copy_rule(r: &SessionDeny) -> (c: SessionDeny)
    ensures
        deny_key(c) == deny_key(*r),
{
    SessionDeny {
        tool: r.tool.clone(),
        path_pattern: match &r.path_pattern {
            Some(p) => Some(p.clone()),
            None => None,
        },
    }
}

fn copy_rules(v: &Vec<SessionDeny>) -> (r: Vec<SessionDeny>)
    ensures
        keys_of(r@) == keys_of(v@),
{
    let mut r: Vec<SessionDeny> = Vec::new();
    let mut i: usize = 0;
    while i < v.len()
        invariant
            i <= v.len(),
            keys_of(r@) == keys_of(v@).take(i as int),
        decreases v.len() - i,
    {
        let ghost before = keys_of(r@);
        r.push(copy_rule(&v[i]));
        assert(keys_of(r@) =~= before.push(keys_of(v@)[i as int]));
        assert(keys_of(v@).take(i + 1) =~= keys_of(v@).take(i as int).push(keys_of(v@)[i as int]));
        i += 1;
    }
    assert(keys_of(v@).take(v.len() as int) =~= keys_of(v@));
    r
}

/// The session's deny rules: a set, listed in rule order.
pub struct DenyRules {
    rules: Vec<SessionDeny>,
}

impl DenyRules {
    /// No two held rules have the same key.
    #[verifier::type_invariant]
    spec fn distinct(self) -> bool {
        keys_of(self.rules@).no_duplicates()
    }

    /// The rules in force.
    pub closed spec fn rules(&self) -> Set<DenyKey> {
        Set::new(|k: DenyKey| keys_of(self.rules@).contains(k))
    }

    /// The rules in rule order, as `deny_rules` lists them.
    pub open spec fn listing(&self) -> Seq<DenyKey> {
        ordered(self.rules())
    }

    /// No rules.
    pub fn new() -> (d: Self)
        ensures
            d.rules() == Set::<DenyKey>::empty(),
    {
        let d = DenyRules { rules: Vec::new() };
        assert(d.rules() =~= Set::<DenyKey>::empty());
        d
    }

    fn position_of(&self, rule: &SessionDeny) -> (r: Option<usize>)
        ensures
            match r {
                Some(i) => i < self.rules@.len() && keys_of(self.rules@)[i as int] == deny_key(*rule),
                None => !keys_of(self.rules@).contains(deny_key(*rule)),
            },
    {
        let mut i: usize = 0;
        while i < self.rules.len()
            invariant
                i <= self.rules@.len(),
                forall|j: int| 0 <= j < i ==> keys_of(self.rules@)[j] != deny_key(*rule),
            decreases self.rules.len() - i,
        {
            if same_rule(&self.rules[i], rule) {
                return Some(i);
            }
            i += 1;
        }
        None
    }

    /// Add a rule; adding one already in force changes nothing.
    pub fn add_deny_rule(&mut self, rule: SessionDeny)
        ensures
            final(self).rules() == old(self).rules().insert(deny_key(rule)),
    {
        proof {
            use_type_invariant(&*self);
        }
        match self.position_of(&rule) {
            Some(_) => {
                assert(old(self).rules().insert(deny_key(rule)) =~= old(self).rules());
            },
            None => {
                let ghost before = keys_of(self.rules@);
                let mut v = copy_rules(&self.rules);
                v.push(rule);
                proof {
                    assert(keys_of(v@) =~= before.push(deny_key(rule)));
                    assert(before.push(deny_key(rule)).no_duplicates());
                }
                self.rules = v;
                proof {
                    let now = keys_of(self.rules@);
                    assert forall|k: DenyKey| #[trigger] now.contains(k) <==> (before.contains(k)
                        || k == deny_key(rule)) by {
                        if now.contains(k) {
                            let q = choose|q: int| 0 <= q < now.len() && now[q] == k;
                            if q < before.len() {
                                assert(before[q] == k);
                            }
                        }
                        if before.contains(k) {
                            let q = choose|q: int| 0 <= q < before.len() && before[q] == k;
                            assert(now[q] == k);
                        }
                        if k == deny_key(rule) {
                            assert(now[before.len() as int] == k);
                        }
                    }
                    assert(self.rules() =~= old(self).rules().insert(deny_key(rule)));
                }
            },
        }
    }

    /// Drop a rule by value; whether it was in force.
    pub fn remove_deny_rule(&mut self, rule: &SessionDeny) -> (found: bool)
        ensures
            found == old(self).rules().contains(deny_key(*rule)),
            final(self).rules() == old(self).rules().remove(deny_key(*rule)),
    {
        proof {
            use_type_invariant(&*self);
        }
        match self.position_of(rule) {
            Some(i) => {
                let ghost before = keys_of(self.rules@);
                let mut v = copy_rules(&self.rules);
                assert(v@.len() == keys_of(v@).len() && keys_of(self.rules@).len() == self.rules@.len());
                v.remove(i);
                proof {
                    assert(keys_of(v@) =~= before.remove(i as int));
                    assert(before.remove(i as int).no_duplicates()) by {
                        let rm = before.remove(i as int);
                        assert forall|a: int, b: int| 0 <= a < b < rm.len() implies rm[a] != rm[b] by {
                            let a2 = if a < i { a } else { a + 1 };
                            let b2 = if b < i { b } else { b + 1 };
                            assert(rm[a] == before[a2] && rm[b] == before[b2]);
                        }
                    }
                }
                self.rules = v;
                proof {
                    assert forall|k: DenyKey| #[trigger] keys_of(self.rules@).contains(k) <==> (
                    before.contains(k) && k != deny_key(*rule)) by {
                        if keys_of(self.rules@).contains(k) {
                            let j = choose|j: int| 0 <= j < keys_of(self.rules@).len() && keys_of(
                                self.rules@,
                            )[j] == k;
                            if j < i {
                                assert(before[j] == k);
                            } else {
                                assert(before[j + 1] == k);
                            }
                        }
                        if before.contains(k) && k != deny_key(*rule) {
                            let j = choose|j: int| 0 <= j < before.len() && before[j] == k;
                            if j < i {
                                assert(keys_of(self.rules@)[j] == k);
                            } else {
                                assert(keys_of(self.rules@)[j - 1] == k);
                            }
                        }
                    }
                    assert(self.rules() =~= old(self).rules().remove(deny_key(*rule)));
                }
                true
            },
            None => {
                assert(old(self).rules().remove(deny_key(*rule)) =~= old(self).rules());
                false
            },
        }
    }

    /// The rules in rule order: by tool, then by path pattern, so that a
    /// rule's 1-based position names it.
    pub fn deny_rules(&self) -> (r: Vec<SessionDeny>)
        ensures
            keys_of(r@) == self.listing(),
            strictly_sorted(keys_of(r@)),
            forall|k: DenyKey| #[trigger] keys_of(r@).contains(k) <==> self.rules().contains(k),
    {
        proof {
            use_type_invariant(self);
            lemma_key_lt_order();
        }
        let ghost all = keys_of(self.rules@);
        let mut out: Vec<SessionDeny> = Vec::new();
        let mut i: usize = 0;
        while i < self.rules.len()
            invariant
                i <= self.rules@.len(),
                all == keys_of(self.rules@),
                all.no_duplicates(),
                strictly_sorted(keys_of(out@)),
                forall|k: DenyKey| #[trigger] keys_of(out@).contains(k) <==> all.take(i as int).contains(k),
            decreases self.rules.len() - i,
        {
            let x = copy_rule(&self.rules[i]);
            let ghost kx = deny_key(x);
            assert(kx == all[i as int]);
            let mut j: usize = 0;
            while j < out.len() && rule_less(&out[j], &x)
                invariant
                    j <= out@.len(),
                    kx == deny_key(x),
                    forall|m: int| 0 <= m < j ==> key_lt(#[trigger] keys_of(out@)[m], kx),
                decreases out.len() - j,
            {
                j += 1;
            }
            proof {
                lemma_key_lt_order();
                assert(!keys_of(out@).contains(kx)) by {
                    if keys_of(out@).contains(kx) {
                        let ti = all.take(i as int);
                        assert(ti.contains(kx));
                        let q = choose|q: int| 0 <= q < ti.len() && ti[q] == kx;
                        assert(all[q] == all[i as int]);
                    }
                }
                if j < out@.len() {
                    assert(!key_lt(keys_of(out@)[j as int], kx));
                    assert(keys_of(out@).contains(keys_of(out@)[j as int]));
                    assert(key_lt(kx, keys_of(out@)[j as int]));
                }
            }
            let ghost before = keys_of(out@);
            out.insert(j, x);
            proof {
                lemma_key_lt_order();
                let now = keys_of(out@);
                assert(now =~= before.insert(j as int, kx));
                assert forall|a: int, b: int| 0 <= a < b < now.len() implies key_lt(#[trigger] now[a], #[trigger] now[b]) by {
                    if b < j {
                        assert(now[a] == before[a] && now[b] == before[b]);
                    } else if b == j {
                        assert(now[a] == before[a]);
                    } else if a < j {
                        assert(now[a] == before[a] && now[b] == before[b - 1]);
                        assert(key_lt(kx, before[j as int]));
                        if b - 1 > j {
                            assert(key_lt(before[j as int], before[b - 1]));
                        }
                        assert(key_lt(before[a], kx));
                    } else if a == j {
                        assert(now[b] == before[b - 1]);
                        if b - 1 > j {
                            assert(key_lt(before[j as int], before[b - 1]));
                        }
                    } else {
                        assert(now[a] == before[a - 1] && now[b] == before[b - 1]);
                    }
                }
                let ti = all.take(i as int);
                let ti1 = all.take(i + 1);
                assert(ti1 =~= ti.push(kx));
                assert forall|k: DenyKey| #[trigger] now.contains(k) <==> ti1.contains(k) by {
                    if now.contains(k) {
                        let q = choose|q: int| 0 <= q < now.len() && now[q] == k;
                        if q < j {
                            assert(before[q] == k);
                            assert(before.contains(k));
                        } else if q > j {
                            assert(before[q - 1] == k);
                            assert(before.contains(k));
                        }
                        if k != kx {
                            assert(ti.contains(k));
                            let r = choose|r: int| 0 <= r < ti.len() && ti[r] == k;
                            assert(ti1[r] == k);
                        } else {
                            assert(ti1[i as int] == k);
                        }
                    }
                    if ti1.contains(k) {
                        let r = choose|r: int| 0 <= r < ti1.len() && ti1[r] == k;
                        if r == i {
                            assert(now[j as int] == k);
                        } else {
                            assert(ti[r] == k);
                            assert(ti.contains(k));
                            assert(before.contains(k));
                            let q = choose|q: int| 0 <= q < before.len() && before[q] == k;
                            if q < j {
                                assert(now[q] == k);
                            } else {
                                assert(now[q + 1] == k);
                            }
                        }
                    }
                }
            }
            i += 1;
        }
        proof {
            assert(all.take(i as int) =~= all);
            assert forall|k: DenyKey| #[trigger] keys_of(out@).contains(k) <==> self.rules().contains(k) by {}
            lemma_ordered_is(self.rules(), keys_of(out@));
        }
        out
    }

    /// The rule at 1-based position `n` of the listing; `None` for 0 or
    /// past the end.
    pub fn deny_rule_at(&self, n: usize) -> (r: Option<SessionDeny>)
        ensures
            match r {
                Some(x) => 1 <= n <= self.listing().len() && deny_key(x) == self.listing()[n - 1],
                None => n == 0 || n > self.listing().len(),
            },
    {
        if n == 0 {
            return None;
        }
        let mut all = self.deny_rules();
        if n > all.len() {
            return None;
        }
        let ghost ks = keys_of(all@);
        let x = all.remove(n - 1);
        assert(deny_key(x) == ks[n - 1]);
        Some(x)
    }
}


// ---------------------------------------------------------------------
// Session attribution
// ---------------------------------------------------------------------

/// The key prefix of a swarm agent's transcript.
pub const SWARM_KEY_PREFIX: &'static str = "swarm:";

/// The value of a hexadecimal digit, either case.
pub open spec fn hex_digit(c: char) -> Option<nat> {
    if '0' <= c && c <= '9' {
        Some((c as u32 - '0' as u32) as nat)
    } else if 'a' <= c && c <= 'f' {
        Some((c as u32 - 'a' as u32 + 10) as nat)
    } else if 'A' <= c && c <= 'F' {
        Some((c as u32 - 'A' as u32 + 10) as nat)
    } else {
        None
    }
}

/// The base-16 value of a string of hexadecimal digits, most significant
/// first; nothing when a character is not one.
pub open spec fn hex_value(s: Seq<char>) -> Option<nat>
    decreases s.len(),
{
    if s.len() == 0 {
        Some(0)
    } else {
        match (hex_value(s.drop_last()), hex_digit(s.last())) {
            (Some(high), Some(d)) => Some(high * 16 + d),
            _ => None,
        }
    }
}

/// A hyphenated UUID's 32 digits: 36 characters with hyphens at 8, 13,
/// 18 and 23.
pub open spec fn hyphenated_digits(s: Seq<char>) -> Option<Seq<char>> {
    if s.len() == 36 && s[8] == '-' && s[13] == '-' && s[18] == '-' && s[23] == '-' {
        Some(s.subrange(0, 8) + s.subrange(9, 13) + s.subrange(14, 18) + s.subrange(19, 23)
            + s.subrange(24, 36))
    } else {
        None
    }
}

/// An ASCII letter in lower case; any other character as it is.
pub open spec fn ascii_lower(c: char) -> char {
    if 'A' <= c && c <= 'Z' {
        ((c as u32) + 32) as char
    } else {
        c
    }
}

/// The 32 digits of a UUID text in any layout `uuid::Uuid::parse_str`
/// reads: 32 digits; the hyphenated form; the hyphenated form in braces;
/// or `urn:uuid:` (either case) and the hyphenated form.
pub open spec fn uuid_digits(s: Seq<char>) -> Option<Seq<char>> {
    if s.len() == 32 {
        Some(s)
    } else if s.len() == 36 {
        hyphenated_digits(s)
    } else if s.len() == 38 && s[0] == '{' && s[37] == '}' {
        hyphenated_digits(s.subrange(1, 37))
    } else if s.len() == 45 && forall|i: int| 0 <= i < 9 ==> ascii_lower(#[trigger] s[i]) == "urn:uuid:"@[i] {
        hyphenated_digits(s.skip(9))
    } else {
        None
    }
}

/// The UUID a text names, as a `u128` (its digits read most significant
/// first), or nothing when the text is not a UUID.
pub open spec fn uuid_value(s: Seq<char>) -> Option<u128> {
    match uuid_digits(s) {
        Some(d) => match hex_value(d) {
            Some(v) => Some(v as u128),
            None => None,
        },
        None => None,
    }
}

/// Calls `uuid::Uuid::parse_str` and hands back the UUID as
/// `Uuid::as_u128`, `None` on a parse error. The crate's parser takes
/// the four layouts of [`uuid_value`] (32 hex digits, hyphenated,
/// braced, `urn:uuid:`) and nothing else, and `as_u128` reads the 16
/// bytes big-endian, which is the digits in order.
#[verifier::external_body]
fn parse_uuid(s: &str) -> (r: Option<u128>)
    ensures
        r == uuid_value(s@),
{
    match uuid::Uuid::parse_str(s) {
        Ok(u) => Some(u.as_u128()),
        Err(_) => None,
    }
}

/// The session a swarm transcript's facts belong to: the agent's UUID
/// when one was parsed from its key, else the engine's own session.
pub fn session_id_from(own: u128, agent: Option<u128>) -> (r: u128)
    ensures
        r == match agent {
            Some(u) => u,
            None => own,
        },
{
    match agent {
        Some(u) => u,
        None => own,
    }
}

/// The session id transcript `key` attributes facts to: for
/// `swarm:<uuid>` the embedded UUID, for any other key (the interactive
/// session's `""` included) the engine's own id `own`.
pub fn session_id_for_holder(own: u128, key: &str) -> (r: u128)
    ensures
        r == match after_prefix(key@, SWARM_KEY_PREFIX@) {
            Some(rest) => match uuid_value(rest) {
                Some(u) => u,
                None => own,
            },
            None => own,
        },
{
    match strip_prefix_str(key, SWARM_KEY_PREFIX) {
        Some(rest) => session_id_from(own, parse_uuid(rest)),
        None => own,
    }
}

/// Session deny rules behave as a set: adding a rule that is already
/// there changes nothing, and removing a rule just added restores the
/// rules as they were before it.
pub proof fn law_deny_rules_form_a_set(rules: Set<DenyKey>, k: DenyKey)
    ensures
        rules.insert(k).insert(k) == rules.insert(k),
        !rules.contains(k) ==> rules.insert(k).remove(k) == rules,
        rules.insert(k).contains(k),
        !rules.remove(k).contains(k),
{
    assert(rules.insert(k).insert(k) =~= rules.insert(k));
    if !rules.contains(k) {
        assert(rules.insert(k).remove(k) =~= rules);
    }
}

} // verus!
