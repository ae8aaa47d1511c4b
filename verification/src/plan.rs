//! Step plans for complex requests: when one is asked for, the prompt
//! that asks for it, and reading the steps out of the model's reply.

use vstd::prelude::*;
use crate::json::{compact_text, json_compact, parse_json, parsed_json, Json, JsonValue};
use crate::text::{byte_len, chars_of, find_char, owned, push_str, str_byte_len, trim, trim_string};

verus! {

/// A request shorter than this, in bytes, gets no plan.
pub const MIN_PLAN_REQUEST_BYTES: usize = 30;

/// Whether a plan is made for a request: the task is complex or
/// multi-step, the transcript has no plan yet, and the request is long
/// enough to carry one.
pub fn wants_plan(complex: bool, has_plan: bool, request: &str) -> (r: bool)
    ensures
        r == (complex && !has_plan && byte_len(request@) >= MIN_PLAN_REQUEST_BYTES),
{
    complex && !has_plan && str_byte_len(request) >= MIN_PLAN_REQUEST_BYTES
}

/// The prompt that asks for a plan.
pub open spec fn plan_request(input: Seq<char>) -> Seq<char> {
    "Produce a concise, ordered plan for the request below.\nOutput ONLY a JSON array of strings, one per step.\nRules:\n- 3 to 8 steps.\n- Each step is one imperative sentence.\n- No explanations, no headers, no wrapping prose.\n\nRequest: "@
        + input
}

/// The prompt that asks for a plan for `input`.
pub fn plan_prompt(input: &str) -> (r: String)
    ensures
        r@ == plan_request(input@),
{
    let mut out = owned(
        "Produce a concise, ordered plan for the request below.\nOutput ONLY a JSON array of strings, one per step.\nRules:\n- 3 to 8 steps.\n- Each step is one imperative sentence.\n- No explanations, no headers, no wrapping prose.\n\nRequest: ",
    );
    push_str(&mut out, input);
    out
}

/// The index of the last `c` in `s`.
pub open spec fn rfind_char(s: Seq<char>, c: char) -> Option<int>
    decreases s.len(),
{
    if s.len() == 0 {
        None
    } else if s.last() == c {
        Some(s.len() - 1)
    } else {
        rfind_char(s.drop_last(), c)
    }
}

/// The text from the first `[` to the last `]`, when the `]` comes after
/// the `[`.
pub open spec fn plan_span(text: Seq<char>) -> Option<Seq<char>> {
    match (find_char(text, '['), rfind_char(text, ']')) {
        (Some(s), Some(e)) => if e > s {
            Some(text.subrange(s, e + 1))
        } else {
            None
        },
        _ => None,
    }
}

/// An array element as a step's text: a string as it is, any other
/// value as its compact JSON text.
pub open spec fn step_text(x: Json) -> Seq<char> {
    match x {
        Json::Str(s) => s,
        _ => json_compact(x),
    }
}

/// The non-blank texts of a JSON array's elements, in order.
pub open spec fn step_texts(a: Seq<Json>) -> Seq<Seq<char>>
    decreases a.len(),
{
    if a.len() == 0 {
        Seq::empty()
    } else {
        step_texts(a.drop_last()) + if trim(step_text(a.last())).len() > 0 {
            seq![step_text(a.last())]
        } else {
            Seq::empty()
        }
    }
}

/// The steps of a parsed reply: the non-blank texts of an array's
/// elements, each element coerced to a string; nothing for another value
/// or an array without any.
pub open spec fn plan_steps(v: Json) -> Option<Seq<Seq<char>>> {
    match v {
        Json::Array(a) => if step_texts(a).len() > 0 {
            Some(step_texts(a))
        } else {
            None
        },
        _ => None,
    }
}

/// The steps of a plan reply that may carry prose around its array.
pub open spec fn reply_steps(text: Seq<char>) -> Option<Seq<Seq<char>>> {
    match plan_span(text) {
        Some(span) => match parsed_json(span) {
            Some(v) => plan_steps(v),
            None => None,
        },
        None => None,
    }
}

proof fn lemma_rfind_char(s: Seq<char>, c: char)
    ensures
        rfind_char(s, c) matches Some(i) ==> 0 <= i < s.len() && s[i] == c,
    decreases s.len(),
{
    if s.len() > 0 && s.last() != c {
        lemma_rfind_char(s.drop_last(), c);
    }
}

fn rfind_char_in(v: &Vec<char>, c: char) -> (r: Option<usize>)
    ensures
        match r {
            Some(i) => rfind_char(v@, c) == Some(i as int),
            None => rfind_char(v@, c) is None,
        },
{
    let mut i = v.len();
    assert(v@.take(i as int) =~= v@);
    while i > 0
        invariant
            i <= v.len(),
            rfind_char(v@, c) == rfind_char(v@.take(i as int), c),
        decreases i,
    {
        assert(v@.take(i as int).last() == v@[i - 1]);
        assert(v@.take(i as int).drop_last() =~= v@.take(i - 1));
        if v[i - 1] == c {
            return Some(i - 1);
        }
        i -= 1;
    }
    None
}

pub(crate) fn find_char_in(v: &Vec<char>, c: char) -> (r: Option<usize>)
    ensures
        match r {
            Some(i) => find_char(v@, c) == Some(i as int),
            None => find_char(v@, c) is None,
        },
{
    assert(v@.skip(0) =~= v@);
    let r = crate::text::index_of_char_from(v.as_slice(), c, 0);
    proof {
        crate::text::lemma_find_char(v@, c);
    }
    r
}

/// The array text of a plan reply: from the first `[` to the last `]`.
pub fn plan_array_text(text: &str) -> (r: Option<&str>)
    ensures
        match r {
            Some(t) => plan_span(text@) == Some(t@),
            None => plan_span(text@) is None,
        },
{
    let v = chars_of(text);
    let s = match find_char_in(&v, '[') {
        Some(s) => s,
        None => return None,
    };
    let e = match rfind_char_in(&v, ']') {
        Some(e) => e,
        None => return None,
    };
    proof {
        lemma_rfind_char(v@, ']');
        crate::text::lemma_find_char(v@, '[');
        assert(rfind_char(v@, ']') == Some(e as int));
        assert(e < v@.len());
    }
    if e <= s {
        return None;
    }
    let n = v.len();
    assert(e < n);
    Some(text.substring_char(s, e + 1))
}

/// The steps of a parsed plan reply.
pub fn plan_steps_from(v: &JsonValue) -> (r: Option<Vec<String>>)
    ensures
        match r {
            Some(steps) => plan_steps(v@) == Some(steps@.map_values(|s: String| s@)),
            None => plan_steps(v@) is None,
        },
{
    match v {
        JsonValue::Array(a) => {
            let ghost m = v@->Array_0;
            proof {
                crate::summary::lemma_array_model(*a);
            }
            let mut out: Vec<String> = Vec::new();
            let mut i: usize = 0;
            assert(m.take(0) =~= Seq::<Json>::empty());
            while i < a.len()
                invariant
                    i <= a.len(),
                    m == JsonValue::Array(*a)@->Array_0,
                    m.len() == a@.len(),
                    forall|j: int| 0 <= j < a@.len() ==> #[trigger] m[j] == a@[j]@,
                    out@.map_values(|s: String| s@) == step_texts(m.take(i as int)),
                decreases a.len() - i,
            {
                let ghost before = out@.map_values(|s: String| s@);
                proof {
                    assert(m.take(i + 1).drop_last() =~= m.take(i as int));
                    assert(m.take(i + 1).last() == a@[i as int]@);
                }
                match &a[i] {
                    JsonValue::String(s) => {
                        if !trim_string(s.as_str()).as_str().is_empty() {
                            out.push(s.clone());
                            assert(out@.map_values(|s: String| s@) =~= before + seq![s@]);
                        } else {
                            assert(before + Seq::<Seq<char>>::empty() =~= before);
                        }
                    },
                    _ => {
                        let t = compact_text(&a[i]);
                        if !trim_string(t.as_str()).as_str().is_empty() {
                            out.push(t);
                            assert(out@.map_values(|s: String| s@) =~= before + seq![json_compact(a@[i as int]@)]);
                        } else {
                            assert(before + Seq::<Seq<char>>::empty() =~= before);
                        }
                    },
                }
                i += 1;
            }
            assert(m.take(i as int) =~= m);
            if out.len() == 0 {
                return None;
            }
            Some(out)
        },
        _ => None,
    }
}

/// Read the steps out of a plan reply: the array from the first `[` to
/// the last `]`, parsed as JSON, its elements coerced to strings and
/// the blank ones dropped; nothing when
/// there is no such array or no step.
pub fn parse_plan_steps(text: &str) -> (r: Option<Vec<String>>)
    ensures
        match r {
            Some(steps) => reply_steps(text@) == Some(steps@.map_values(|s: String| s@)),
            None => reply_steps(text@) is None,
        },
{
    let span = match plan_array_text(text) {
        Some(s) => s,
        None => return None,
    };
    match parse_json(span) {
        Some(v) => plan_steps_from(&v),
        None => None,
    }
}

} // verus!
