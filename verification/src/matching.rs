//! The match engine: resolving dotted paths against a JSON event and
//! evaluating a flag's match conditions.

use vstd::prelude::*;

use crate::config::{
    spec_conditions_view, spec_op_or_default, spec_strings_view, MatchCondition, MatchOperator,
    SpecMatchCondition,
};
use crate::json::{spec_get, JsonValue, SpecJson};
use crate::json_text::{spec_ser, to_json_text};
use crate::regexes::{regex_match, regex_valid};
use crate::text::{spec_is_prefix, str_eq, str_starts_with};

verus! {

// ---------------------------------------------------------------------------
// Dotted paths.
// ---------------------------------------------------------------------------

/// The segments of a dotted path, in order. An empty path yields one empty
/// segment.
pub open spec fn spec_split_path(s: Seq<char>) -> Seq<Seq<char>> {
    crate::text::spec_split_on(s, '.')
}

/// The value a segment path reaches by successive key lookup.
pub open spec fn spec_lookup_path(v: SpecJson, segs: Seq<Seq<char>>) -> Option<SpecJson>
    decreases segs.len(),
{
    if segs.len() == 0 {
        Some(v)
    } else {
        match spec_get(v, segs[0]) {
            Some(v2) => spec_lookup_path(v2, segs.drop_first()),
            None => None,
        }
    }
}

/// The value a dotted path reaches in a document.
pub open spec fn spec_get_nested(v: SpecJson, path: Seq<char>) -> Option<SpecJson> {
    spec_lookup_path(v, spec_split_path(path))
}

/// The segments of the dotted path `s`, in order.
pub fn split_path(s: &str) -> (r: Vec<String>)
    ensures
        spec_strings_view(r@) == spec_split_path(s@),
{
    let r = crate::text::split_on(s, '.');
    proof {
        assert(spec_strings_view(r@) =~= crate::text::spec_seq_view(r@));
    }
    r
}

/// The value the dotted `path` reaches in `obj` by successive key lookup in
/// objects; `None` where a step is missing.
pub fn get_nested_value<'a>(obj: &'a JsonValue, path: &str) -> (r: Option<&'a JsonValue>)
    ensures
        r is Some ==> spec_get_nested(obj@, path@) == Some(r->0@),
        r is None ==> spec_get_nested(obj@, path@) is None,
{
    let segs = split_path(path);
    let mut current: &'a JsonValue = obj;
    let mut i: usize = 0;
    let ghost ss = spec_split_path(path@);
    proof {
        assert(ss.skip(0) =~= ss);
    }
    while i < segs.len()
        invariant
            i <= segs@.len(),
            ss == spec_split_path(path@),
            spec_strings_view(segs@) == ss,
            spec_lookup_path(obj@, ss) == spec_lookup_path(current@, ss.skip(i as int)),
        decreases segs@.len() - i,
    {
        proof {
            assert(ss.skip(i as int)[0] == ss[i as int]);
            assert(ss[i as int] == segs@[i as int]@);
            assert(ss.skip(i as int).drop_first() =~= ss.skip(i + 1));
        }
        match current.get(segs[i].as_str()) {
            Some(v) => {
                current = v;
            },
            None => {
                return None;
            },
        }
        i += 1;
    }
    proof {
        assert(ss.skip(segs@.len() as int) =~= Seq::<Seq<char>>::empty());
        assert(spec_lookup_path(current@, Seq::<Seq<char>>::empty()) == Some(current@));
        assert(spec_lookup_path(obj@, ss) == Some(current@));
        assert(spec_get_nested(obj@, path@) == Some(current@));
    }
    let result = Some(current);
    proof {
        assert(match result {
            Some(v) => spec_get_nested(obj@, path@) == Some(v@),
            None => false,
        });
    }
    result
}

// ---------------------------------------------------------------------------
// Stringifying values and evaluating operators.
// ---------------------------------------------------------------------------

/// The textual form of a value under comparison: a string is itself; any
/// other value reads as its JSON text.
pub open spec fn spec_json_to_string(v: SpecJson) -> Seq<char> {
    match v {
        SpecJson::String(s) => s,
        _ => spec_ser(v),
    }
}

/// The textual form of `v` under comparison.
pub fn json_value_to_string(v: &JsonValue) -> (r: String)
    ensures
        r@ == spec_json_to_string(v@),
{
    match v {
        JsonValue::String(s) => s.clone(),
        _ => to_json_text(v),
    }
}

/// The comparison value of a condition: its `value` field, or empty.
pub open spec fn spec_value_or_empty(v: Option<Seq<char>>) -> Seq<char> {
    match v {
        Some(s) => s,
        None => Seq::empty(),
    }
}

/// Whether `actual` satisfies one operator with one comparison value. For
/// every operator but existence, a missing or null actual never matches.
pub open spec fn spec_match_operator(
    actual: Option<SpecJson>,
    op: MatchOperator,
    value: Option<Seq<char>>,
) -> bool {
    match op {
        MatchOperator::Exists => actual is Some && !(actual->0 is Null),
        MatchOperator::Eq => match actual {
            Some(v) => !(v is Null) && spec_json_to_string(v) == spec_value_or_empty(value),
            None => false,
        },
        MatchOperator::StartsWith => match actual {
            Some(v) => !(v is Null) && spec_is_prefix(
                spec_json_to_string(v),
                spec_value_or_empty(value),
            ),
            None => false,
        },
        MatchOperator::Regex => match actual {
            Some(v) => !(v is Null) && regex_valid(spec_value_or_empty(value)) && regex_match(
                spec_value_or_empty(value),
                spec_json_to_string(v),
            ),
            None => false,
        },
    }
}

/// Whether `actual` satisfies one operator with one comparison value.
fn match_operator(actual: Option<&JsonValue>, op: MatchOperator, value: Option<&String>) -> (r:
    bool)
    ensures
        r == spec_match_operator(
            match actual {
                Some(v) => Some(v@),
                None => None,
            },
            op,
            match value {
                Some(s) => Some(s@),
                None => None,
            },
        ),
{
    let empty_string = String::new();
    let value_str: &str = match value {
        Some(s) => s.as_str(),
        None => empty_string.as_str(),
    };
    match op {
        MatchOperator::Exists => match actual {
            Some(JsonValue::Null) => false,
            Some(_) => true,
            None => false,
        },
        MatchOperator::Eq => match actual {
            Some(JsonValue::Null) => false,
            Some(v) => {
                let s = json_value_to_string(v);
                str_eq(s.as_str(), value_str)
            },
            None => false,
        },
        MatchOperator::StartsWith => match actual {
            Some(JsonValue::Null) => false,
            Some(v) => {
                let s = json_value_to_string(v);
                str_starts_with(s.as_str(), value_str)
            },
            None => false,
        },
        MatchOperator::Regex => match actual {
            Some(JsonValue::Null) => false,
            Some(v) => {
                let s = json_value_to_string(v);
                crate::regexes::regex_search(value_str, s.as_str())
            },
            None => false,
        },
    }
}

/// Whether the event satisfies one condition.
pub open spec fn spec_condition_matches(event: SpecJson, c: SpecMatchCondition) -> bool {
    spec_match_operator(spec_get_nested(event, c.path), spec_op_or_default(c.operator), c.value)
}

/// Whether the event satisfies every condition.
pub open spec fn spec_matches(event: SpecJson, conds: Seq<SpecMatchCondition>) -> bool {
    forall|i: int| 0 <= i < conds.len() ==> spec_condition_matches(event, #[trigger] conds[i])
}

/// Whether the event satisfies every condition of the list: each resolved
/// path must pass its operator; an empty list always matches.
pub fn matches_conditions(event: &JsonValue, conditions: &Vec<MatchCondition>) -> (r: bool)
    ensures
        r == spec_matches(event@, spec_conditions_view(conditions@)),
{
    let ghost cs = spec_conditions_view(conditions@);
    let mut i: usize = 0;
    while i < conditions.len()
        invariant
            i <= conditions@.len(),
            cs == spec_conditions_view(conditions@),
            forall|j: int| 0 <= j < i ==> spec_condition_matches(event@, #[trigger] cs[j]),
        decreases conditions@.len() - i,
    {
        let c = &conditions[i];
        let actual = get_nested_value(event, c.path.as_str());
        let op = match c.operator {
            Some(op) => op,
            None => MatchOperator::Eq,
        };
        let ok = match_operator(actual, op, c.value.as_ref());
        proof {
            assert(cs[i as int] == conditions@[i as int]@);
        }
        if !ok {
            proof {
                assert(!spec_condition_matches(event@, cs[i as int]));
            }
            return false;
        }
        i += 1;
    }
    true
}

// ---------------------------------------------------------------------------
// Laws of matching.
// ---------------------------------------------------------------------------

/// An empty condition list matches every event.
pub proof fn lemma_matches_empty(event: SpecJson)
    ensures
        spec_matches(event, Seq::<SpecMatchCondition>::empty()),
{
}

/// A concatenated condition list matches exactly when both halves match.
pub proof fn lemma_matches_concat(
    event: SpecJson,
    a: Seq<SpecMatchCondition>,
    b: Seq<SpecMatchCondition>,
)
    ensures
        spec_matches(event, a + b) == (spec_matches(event, a) && spec_matches(event, b)),
{
    if spec_matches(event, a + b) {
        assert forall|i: int| 0 <= i < a.len() implies spec_condition_matches(
            event,
            #[trigger] a[i],
        ) by {
            assert((a + b)[i] == a[i]);
        }
        assert forall|i: int| 0 <= i < b.len() implies spec_condition_matches(
            event,
            #[trigger] b[i],
        ) by {
            assert((a + b)[a.len() + i] == b[i]);
        }
    }
    if spec_matches(event, a) && spec_matches(event, b) {
        assert forall|i: int| 0 <= i < (a + b).len() implies spec_condition_matches(
            event,
            #[trigger] (a + b)[i],
        ) by {
            if i < a.len() {
                assert((a + b)[i] == a[i]);
            } else {
                assert((a + b)[i] == b[i - a.len()]);
            }
        }
    }
}

} // verus!
