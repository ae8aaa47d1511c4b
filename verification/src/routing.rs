//! The endpoint chain a turn tries in order: the decision model's pick,
//! the routing table's endpoint for the task, then the fallback
//! endpoints, each registered endpoint once.

use vstd::prelude::*;
use crate::text::{owned, str_eq};

verus! {

/// An endpoint and the model to ask there.
#[derive(Debug)]
pub struct ModelRef {
    pub endpoint: String,
    pub model: String,
}

impl ModelRef {
    /// The value of a model reference.
    pub open spec fn view(&self) -> (Seq<char>, Seq<char>) {
        (self.endpoint@, self.model@)
    }

    /// A reference to `model` at `endpoint`.
    pub fn new(endpoint: &str, model: &str) -> (r: Self)
        ensures
            r.view() == (endpoint@, model@),
    {
        ModelRef { endpoint: owned(endpoint), model: owned(model) }
    }

    fn copy(&self) -> (r: Self)
        ensures
            r.view() == self.view(),
    {
        ModelRef::new(self.endpoint.as_str(), self.model.as_str())
    }
}

/// The registered endpoints, each with its default model.
pub type Registry = Vec<(String, String)>;

/// The default model of the first registered endpoint named `name`.
pub open spec fn default_model(reg: Seq<(Seq<char>, Seq<char>)>, name: Seq<char>) -> Option<Seq<char>>
    decreases reg.len(),
{
    if reg.len() == 0 {
        None
    } else if reg[0].0 == name {
        Some(reg[0].1)
    } else {
        default_model(reg.drop_first(), name)
    }
}

/// The views of a registry.
pub open spec fn registry_view(reg: Seq<(String, String)>) -> Seq<(Seq<char>, Seq<char>)> {
    reg.map_values(|e: (String, String)| (e.0@, e.1@))
}

/// The views of a chain.
pub open spec fn chain_view(c: Seq<ModelRef>) -> Seq<(Seq<char>, Seq<char>)> {
    c.map_values(|m: ModelRef| m.view())
}

/// The views of a list of names.
pub open spec fn name_views(v: Seq<String>) -> Seq<Seq<char>> {
    v.map_values(|s: String| s@)
}

/// The default model of a registered endpoint.
pub fn lookup_default_model(reg: &Registry, name: &str) -> (r: Option<String>)
    ensures
        match r {
            Some(m) => default_model(registry_view(reg@), name@) == Some(m@),
            None => default_model(registry_view(reg@), name@) is None,
        },
{
    let ghost rv = registry_view(reg@);
    let mut i: usize = 0;
    assert(rv.skip(0) =~= rv);
    while i < reg.len()
        invariant
            i <= reg.len(),
            rv == registry_view(reg@),
            default_model(rv, name@) == default_model(rv.skip(i as int), name@),
        decreases reg.len() - i,
    {
        proof {
            assert(rv.skip(i as int)[0] == rv[i as int]);
            assert(rv.skip(i as int).drop_first() =~= rv.skip(i + 1));
        }
        if str_eq(reg[i].0.as_str(), name) {
            return Some(owned(reg[i].1.as_str()));
        }
        i += 1;
    }
    None
}

/// The chain and the endpoints already seen, after the fallback
/// endpoints are walked: an endpoint already seen is skipped; any other
/// is marked seen and, when registered, joins the chain.
pub open spec fn with_fallback(
    reg: Seq<(Seq<char>, Seq<char>)>,
    chain: Seq<(Seq<char>, Seq<char>)>,
    seen: Set<Seq<char>>,
    fallback: Seq<Seq<char>>,
) -> (Seq<(Seq<char>, Seq<char>)>, Set<Seq<char>>)
    decreases fallback.len(),
{
    if fallback.len() == 0 {
        (chain, seen)
    } else {
        let (c, s) = with_fallback(reg, chain, seen, fallback.drop_last());
        let e = fallback.last();
        if s.contains(e) {
            (c, s)
        } else {
            match default_model(reg, e) {
                Some(m) => (c.push((e, m)), s.insert(e)),
                None => (c, s.insert(e)),
            }
        }
    }
}

/// The chain for a task. Without a registry, the current model alone.
/// Otherwise the decision model's pick, if any; then the routing table's
/// endpoint for the task, when registered and not already there; then
/// the fallback endpoints, each once; and the current model alone when
/// all of that left the chain empty.
pub open spec fn task_chain(
    reg: Option<Seq<(Seq<char>, Seq<char>)>>,
    current: (Seq<char>, Seq<char>),
    pick: Option<(Seq<char>, Seq<char>)>,
    primary: Option<Seq<char>>,
    fallback: Seq<Seq<char>>,
) -> Seq<(Seq<char>, Seq<char>)> {
    match reg {
        None => seq![current],
        Some(r) => {
            let (c0, s0) = match pick {
                Some(p) => (seq![p], set![p.0]),
                None => (Seq::<(Seq<char>, Seq<char>)>::empty(), Set::<Seq<char>>::empty()),
            };
            let (c1, s1) = match primary {
                Some(e) => match default_model(r, e) {
                    Some(m) => if !s0.contains(e) {
                        (c0.push((e, m)), s0.insert(e))
                    } else {
                        (c0, s0)
                    },
                    None => (c0, s0),
                },
                None => (c0, s0),
            };
            let c2 = with_fallback(r, c1, s1, fallback).0;
            if c2.len() == 0 {
                seq![current]
            } else {
                c2
            }
        },
    }
}

proof fn lemma_endpoints_empty()
    ensures
        endpoints(Seq::empty()) =~= Set::<Seq<char>>::empty(),
{
}

proof fn lemma_endpoints_push(c: Seq<(Seq<char>, Seq<char>)>, x: (Seq<char>, Seq<char>))
    ensures
        endpoints(c.push(x)) =~= endpoints(c).insert(x.0),
{
    assert forall|e: Seq<char>| endpoints(c.push(x)).contains(e) <==> endpoints(c).insert(x.0).contains(e) by {
        if endpoints(c).contains(e) {
            let k = choose|k: int| 0 <= k < c.len() && c[k].0 == e;
            assert(c.push(x)[k].0 == e);
        }
        if e == x.0 {
            assert(c.push(x)[c.len() as int].0 == e);
        }
        if endpoints(c.push(x)).contains(e) && e != x.0 {
            let k = choose|k: int| 0 <= k < c.push(x).len() && c.push(x)[k].0 == e;
            assert(c[k].0 == e);
        }
    }
}

fn chain_has(chain: &Vec<ModelRef>, e: &str) -> (r: bool)
    ensures
        r == (exists|k: int| 0 <= k < chain@.len() && #[trigger] chain@[k].endpoint@ == e@),
{
    let mut k: usize = 0;
    while k < chain.len()
        invariant
            k <= chain.len(),
            forall|j: int| 0 <= j < k ==> chain@[j].endpoint@ != e@,
        decreases chain.len() - k,
    {
        if str_eq(chain[k].endpoint.as_str(), e) {
            return true;
        }
        k += 1;
    }
    false
}

/// The endpoints of a chain.
pub open spec fn endpoints(c: Seq<(Seq<char>, Seq<char>)>) -> Set<Seq<char>> {
    Set::new(|e: Seq<char>| exists|k: int| 0 <= k < c.len() && c[k].0 == e)
}

/// The ordered chain of model references for a task. `pick` is the
/// decision model's choice of endpoint, resolved through the registry,
/// if it made one; `primary` the routing table's endpoint for the task;
/// `fallback` the table's fallback endpoints; `registry` the registered
/// endpoints, `None` where no registry is installed.
pub fn resolve_chain(
    registry: Option<&Registry>,
    current: &ModelRef,
    pick: Option<ModelRef>,
    primary: Option<&str>,
    fallback: &Vec<String>,
) -> (r: Vec<ModelRef>)
    ensures
        chain_view(r@) == task_chain(
            match registry {
                Some(g) => Some(registry_view(g@)),
                None => None,
            },
            current.view(),
            match pick {
                Some(p) => Some(p.view()),
                None => None,
            },
            match primary {
                Some(e) => Some(e@),
                None => None,
            },
            name_views(fallback@),
        ),
{
    let reg = match registry {
        Some(g) => g,
        None => {
            let mut c: Vec<ModelRef> = Vec::new();
            c.push(current.copy());
            assert(chain_view(c@) =~= seq![current.view()]);
            return c;
        },
    };
    let ghost rv = registry_view(reg@);
    let mut chain: Vec<ModelRef> = Vec::new();
    let ghost mut seen: Set<Seq<char>> = Set::empty();
    proof {
        lemma_endpoints_empty();
        assert(chain_view(chain@) =~= Seq::<(Seq<char>, Seq<char>)>::empty());
    }
    match pick {
        Some(p) => {
            proof {
                seen = set![p.endpoint@];
                lemma_endpoints_push(Seq::empty(), p.view());
                assert(Seq::<(Seq<char>, Seq<char>)>::empty().push(p.view()) =~= seq![p.view()]);
            }
            chain.push(p);
            proof {
                assert(chain_view(chain@) =~= seq![p.view()]);
                assert(seen =~= Set::<Seq<char>>::empty().insert(p.endpoint@));
            }
        },
        None => {},
    }
    assert(seen =~= endpoints(chain_view(chain@)));
    match primary {
        Some(e) => {
            match lookup_default_model(reg, e) {
                Some(m) => {
                    if !chain_has(&chain, e) {
                        let ghost before = chain_view(chain@);
                        chain.push(ModelRef { endpoint: owned(e), model: m });
                        proof {
                            assert(chain_view(chain@) =~= before.push((e@, default_model(rv, e@).unwrap())));
                            lemma_endpoints_push(before, (e@, default_model(rv, e@).unwrap()));
                            seen = seen.insert(e@);
                            assert(seen =~= endpoints(chain_view(chain@)));
                        }
                    }
                },
                None => {},
            }
        },
        None => {},
    }
    let ghost c1 = chain_view(chain@);
    let ghost s1 = seen;
    let ghost fv = name_views(fallback@);
    let mut marked: Vec<String> = Vec::new();
    let mut i: usize = 0;
    assert(fv.take(0) =~= Seq::<Seq<char>>::empty());
    while i < fallback.len()
        invariant
            i <= fallback.len(),
            rv == registry_view(reg@),
            fv == name_views(fallback@),
            with_fallback(rv, c1, s1, fv.take(i as int)) == (chain_view(chain@), seen),
            forall|e: Seq<char>| #[trigger] seen.contains(e) <==> (endpoints(chain_view(chain@)).contains(e)
                || name_views(marked@).contains(e)),
        decreases fallback.len() - i,
    {
        proof {
            assert(fv.take(i + 1).drop_last() =~= fv.take(i as int));
            assert(fv.take(i + 1).last() == fv[i as int]);
        }
        let e = fallback[i].as_str();
        let in_chain = chain_has(&chain, e);
        let dup = in_chain || contains_name(&marked, e);
        proof {
            if in_chain {
                let k = choose|k: int| 0 <= k < chain@.len() && #[trigger] chain@[k].endpoint@ == e@;
                assert(chain_view(chain@)[k].0 == e@);
                assert(endpoints(chain_view(chain@)).contains(e@));
            } else {
                assert forall|k: int| 0 <= k < chain_view(chain@).len() implies chain_view(chain@)[k].0 != e@ by {
                    assert(chain_view(chain@)[k] == chain@[k].view());
                }
                assert(!endpoints(chain_view(chain@)).contains(e@));
            }
            assert(dup == seen.contains(e@));
            assert(fv[i as int] == e@);
        }
        if !dup {
            let ghost before = chain_view(chain@);
            let ghost before_marked = name_views(marked@);
            match lookup_default_model(reg, e) {
                Some(m) => {
                    chain.push(ModelRef { endpoint: owned(e), model: m });
                    proof {
                        assert(chain_view(chain@) =~= before.push((e@, default_model(rv, e@).unwrap())));
                    }
                },
                None => {},
            }
            marked.push(owned(e));
            proof {
                assert(name_views(marked@) =~= before_marked.push(e@));
                seen = seen.insert(e@);
                assert forall|x: Seq<char>| #[trigger] seen.contains(x) <==> (endpoints(chain_view(chain@)).contains(x)
                    || name_views(marked@).contains(x)) by {
                    if name_views(marked@).contains(x) && x != e@ {
                        let k = choose|k: int| 0 <= k < name_views(marked@).len() && name_views(marked@)[k] == x;
                        assert(before_marked[k] == x);
                    }
                    if before_marked.contains(x) {
                        let k = choose|k: int| 0 <= k < before_marked.len() && before_marked[k] == x;
                        assert(name_views(marked@)[k] == x);
                    }
                    assert(name_views(marked@)[before_marked.len() as int] == e@);
                    if endpoints(chain_view(chain@)).contains(x) {
                        let k = choose|k: int| 0 <= k < chain_view(chain@).len() && chain_view(chain@)[k].0 == x;
                        if k < before.len() {
                            assert(before[k].0 == x);
                        }
                    }
                    if endpoints(before).contains(x) {
                        let k = choose|k: int| 0 <= k < before.len() && before[k].0 == x;
                        assert(chain_view(chain@)[k].0 == x);
                    }
                }
            }
        }
        i += 1;
    }
    assert(fv.take(fallback.len() as int) =~= fv);
    if chain.len() == 0 {
        chain.push(current.copy());
        assert(chain_view(chain@) =~= seq![current.view()]);
    }
    chain
}

fn contains_name(v: &Vec<String>, e: &str) -> (r: bool)
    ensures
        r == name_views(v@).contains(e@),
{
    let ghost nv = name_views(v@);
    let mut k: usize = 0;
    while k < v.len()
        invariant
            k <= v.len(),
            nv == name_views(v@),
            forall|j: int| 0 <= j < k ==> nv[j] != e@,
        decreases v.len() - k,
    {
        if str_eq(v[k].as_str(), e) {
            assert(nv[k as int] == e@);
            return true;
        }
        k += 1;
    }
    false
}

proof fn lemma_fallback_grows(
    reg: Seq<(Seq<char>, Seq<char>)>,
    chain: Seq<(Seq<char>, Seq<char>)>,
    seen: Set<Seq<char>>,
    fallback: Seq<Seq<char>>,
)
    ensures
        with_fallback(reg, chain, seen, fallback).0.len() >= chain.len(),
        with_fallback(reg, chain, seen, fallback).0.take(chain.len() as int) == chain,
    decreases fallback.len(),
{
    if fallback.len() > 0 {
        lemma_fallback_grows(reg, chain, seen, fallback.drop_last());
        let (c, s) = with_fallback(reg, chain, seen, fallback.drop_last());
        let e = fallback.last();
        if !s.contains(e) {
            if let Some(m) = default_model(reg, e) {
                assert(c.push((e, m)).take(chain.len() as int) =~= c.take(chain.len() as int));
            }
        }
    }
}

/// The chain for a turn whose primary endpoint was chosen by the caller:
/// that reference first, then the fallback endpoints, each registered
/// endpoint once; the primary alone without a routing table or a
/// registry.
pub open spec fn override_chain(
    primary: (Seq<char>, Seq<char>),
    reg: Option<Seq<(Seq<char>, Seq<char>)>>,
    fallback: Option<Seq<Seq<char>>>,
) -> Seq<(Seq<char>, Seq<char>)> {
    match (reg, fallback) {
        (Some(r), Some(f)) => with_fallback(r, seq![primary], set![primary.0], f).0,
        _ => seq![primary],
    }
}

/// The chain for a turn whose primary endpoint was chosen by the caller.
/// `fallback` is the routing table's fallback list, `None` without a
/// routing table.
pub fn streaming_chain(primary: &ModelRef, registry: Option<&Registry>, fallback: Option<&Vec<String>>) -> (r: Vec<ModelRef>)
    ensures
        chain_view(r@) == override_chain(
            primary.view(),
            match registry {
                Some(g) => Some(registry_view(g@)),
                None => None,
            },
            match fallback {
                Some(f) => Some(name_views(f@)),
                None => None,
            },
        ),
{
    match (registry, fallback) {
        (Some(g), Some(f)) => {
            let r = resolve_chain(Some(g), primary, Some(primary.copy()), None, f);
            proof {
                let rv = registry_view(g@);
                assert(set![primary.view().0] =~= Set::<Seq<char>>::empty().insert(primary.view().0));
                lemma_fallback_grows(rv, seq![primary.view()], set![primary.view().0], name_views(f@));
            }
            r
        },
        _ => {
            let mut c: Vec<ModelRef> = Vec::new();
            c.push(primary.copy());
            assert(chain_view(c@) =~= seq![primary.view()]);
            c
        },
    }
}

/// Whether no two entries of a chain name the same endpoint.
pub open spec fn distinct_endpoints(c: Seq<(Seq<char>, Seq<char>)>) -> bool {
    forall|i: int, j: int| 0 <= i < j < c.len() ==> c[i].0 != c[j].0
}

proof fn lemma_fallback_distinct(
    reg: Seq<(Seq<char>, Seq<char>)>,
    chain: Seq<(Seq<char>, Seq<char>)>,
    seen: Set<Seq<char>>,
    fallback: Seq<Seq<char>>,
)
    requires
        distinct_endpoints(chain),
        forall|k: int| 0 <= k < chain.len() ==> seen.contains(#[trigger] chain[k].0),
    ensures
        distinct_endpoints(with_fallback(reg, chain, seen, fallback).0),
        forall|k: int| 0 <= k < with_fallback(reg, chain, seen, fallback).0.len() ==> with_fallback(
            reg,
            chain,
            seen,
            fallback,
        ).1.contains(#[trigger] with_fallback(reg, chain, seen, fallback).0[k].0),
    decreases fallback.len(),
{
    if fallback.len() > 0 {
        lemma_fallback_distinct(reg, chain, seen, fallback.drop_last());
        let (c, s) = with_fallback(reg, chain, seen, fallback.drop_last());
        let e = fallback.last();
        if !s.contains(e) {
            if let Some(m) = default_model(reg, e) {
                let c2 = c.push((e, m));
                assert forall|i: int, j: int| 0 <= i < j < c2.len() implies c2[i].0 != c2[j].0 by {
                    if j == c.len() {
                        assert(s.contains(c[i].0));
                    } else {
                        assert(c2[i] == c[i] && c2[j] == c[j]);
                    }
                }
                assert forall|k: int| 0 <= k < c2.len() implies s.insert(e).contains(#[trigger] c2[k].0) by {
                    if k < c.len() {
                        assert(c2[k] == c[k]);
                    }
                }
            }
        }
    }
}

/// A task's chain never names an endpoint twice: the decision model's
/// pick, the routing table's endpoint and the fallback endpoints are
/// each added only when their endpoint is not there yet.
pub proof fn law_chain_names_each_endpoint_once(
    reg: Option<Seq<(Seq<char>, Seq<char>)>>,
    current: (Seq<char>, Seq<char>),
    pick: Option<(Seq<char>, Seq<char>)>,
    primary: Option<Seq<char>>,
    fallback: Seq<Seq<char>>,
)
    ensures
        distinct_endpoints(task_chain(reg, current, pick, primary, fallback)),
{
    if let Some(r) = reg {
        let (c0, s0) = match pick {
            Some(p) => (seq![p], set![p.0]),
            None => (Seq::<(Seq<char>, Seq<char>)>::empty(), Set::<Seq<char>>::empty()),
        };
        assert(forall|k: int| 0 <= k < c0.len() ==> s0.contains(#[trigger] c0[k].0));
        let (c1, s1) = match primary {
            Some(e) => match default_model(r, e) {
                Some(m) => if !s0.contains(e) {
                    (c0.push((e, m)), s0.insert(e))
                } else {
                    (c0, s0)
                },
                None => (c0, s0),
            },
            None => (c0, s0),
        };
        assert(distinct_endpoints(c1) && forall|k: int| 0 <= k < c1.len() ==> s1.contains(#[trigger] c1[k].0)) by {
            if c1.len() > c0.len() {
                assert forall|k: int| 0 <= k < c1.len() implies s1.contains(#[trigger] c1[k].0) by {
                    if k < c0.len() {
                        assert(c1[k] == c0[k]);
                    }
                }
                assert forall|i: int, j: int| 0 <= i < j < c1.len() implies c1[i].0 != c1[j].0 by {
                    assert(c1[i] == c0[i]);
                    assert(s0.contains(c0[i].0));
                }
            }
        }
        lemma_fallback_distinct(r, c1, s1, fallback);
    }
}

/// The decision model is asked to pick an endpoint only among at least
/// this many.
pub const MIN_ENDPOINTS_TO_PICK: usize = 2;

/// The reference for the endpoint the decision model picked: the
/// endpoint with its default model, when registered.
pub open spec fn picked(reg: Seq<(Seq<char>, Seq<char>)>, label: Seq<char>) -> Option<(Seq<char>, Seq<char>)> {
    match default_model(reg, label) {
        Some(m) => Some((label, m)),
        None => None,
    }
}

/// The reference for the endpoint the decision model picked.
pub fn picked_model_ref(reg: &Registry, label: &str) -> (r: Option<ModelRef>)
    ensures
        match r {
            Some(m) => picked(registry_view(reg@), label@) == Some(m.view()),
            None => picked(registry_view(reg@), label@) is None,
        },
{
    match lookup_default_model(reg, label) {
        Some(m) => Some(ModelRef { endpoint: owned(label), model: m }),
        None => None,
    }
}

/// The value under the first entry of a table keyed by `key`.
pub open spec fn table_get(table: Seq<(Seq<char>, Seq<char>)>, key: Seq<char>) -> Option<Seq<char>> {
    default_model(table, key)
}

/// The reference a routing table gives for `key` (a capability, or the
/// kind of a round): its endpoint with the endpoint's default model,
/// when both the entry and the endpoint exist. An empty key routes
/// nowhere.
pub open spec fn routed(table: Seq<(Seq<char>, Seq<char>)>, key: Seq<char>, reg: Seq<(Seq<char>, Seq<char>)>) -> Option<(Seq<char>, Seq<char>)> {
    if key.len() == 0 {
        None
    } else {
        match table_get(table, key) {
            Some(e) => picked(reg, e),
            None => None,
        }
    }
}

/// The reference a routing table gives for `key`.
pub fn routed_model_ref(table: &Vec<(String, String)>, key: &str, reg: &Registry) -> (r: Option<ModelRef>)
    ensures
        match r {
            Some(m) => routed(registry_view(table@), key@, registry_view(reg@)) == Some(m.view()),
            None => routed(registry_view(table@), key@, registry_view(reg@)) is None,
        },
{
    if key.is_empty() {
        return None;
    }
    match lookup_default_model(table, key) {
        Some(e) => picked_model_ref(reg, e.as_str()),
        None => None,
    }
}

} // verus!
