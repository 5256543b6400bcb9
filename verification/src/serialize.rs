//! Serializing a flag configuration back into a JSON document, and the
//! round trip: parsing a serialized valid configuration yields the
//! configuration back.

use vstd::prelude::*;

use crate::config::{
    spec_conditions_view, spec_config_mode, spec_cond_valid, spec_flag_of, spec_flag_ok,
    spec_config_valid, spec_flag_value_valid, spec_mode_name, spec_parse_flags, spec_parse_mode,
    spec_strings_view, FailureMode, FlagConfig, FlagValue, MatchCondition, MatchOperator,
    RawMembers, SpecFlagConfig, SpecFlagValue, SpecMatchCondition,
};
use crate::json::{spec_json_of_members, spec_json_of_seq, spec_member_lookup, JsonValue, SpecJson};

verus! {

/// At most one member: present exactly when the value is.
pub open spec fn spec_opt_member(name: Seq<char>, v: Option<SpecJson>) -> RawMembers {
    match v {
        Some(j) => seq![(name, j)],
        None => Seq::empty(),
    }
}

/// The configuration key of an operator.
pub open spec fn spec_op_name(op: MatchOperator) -> Seq<char> {
    match op {
        MatchOperator::Eq => "eq"@,
        MatchOperator::Exists => "exists"@,
        MatchOperator::StartsWith => "startsWith"@,
        MatchOperator::Regex => "regex"@,
    }
}

/// The document a condition serializes to.
pub open spec fn spec_ser_condition(c: SpecMatchCondition) -> SpecJson {
    SpecJson::Object(
        seq![("path"@, SpecJson::String(c.path))] + spec_opt_member(
            "value"@,
            match c.value {
                Some(v) => Some(SpecJson::String(v)),
                None => None,
            },
        ) + spec_opt_member(
            "operator"@,
            match c.operator {
                Some(op) => Some(SpecJson::String(spec_op_name(op))),
                None => None,
            },
        ),
    )
}

/// The array document a pattern list serializes to.
pub open spec fn spec_denylist_json(ps: Seq<Seq<char>>) -> SpecJson {
    SpecJson::Array(Seq::new(ps.len(), |i: int| SpecJson::String(ps[i])))
}

/// The array document a condition list serializes to.
pub open spec fn spec_conds_json(cs: Seq<SpecMatchCondition>) -> SpecJson {
    SpecJson::Array(Seq::new(cs.len(), |i: int| spec_ser_condition(cs[i])))
}

/// The members a flag serializes to: `enabled` always, every other field
/// exactly when set, numbers in thousandths.
pub open spec fn spec_ser_flag_members(f: SpecFlagValue) -> RawMembers {
    seq![("enabled"@, SpecJson::Bool(f.enabled))] + spec_opt_member(
        "percentage"@,
        match f.percentage {
            Some(p) => Some(SpecJson::Number(p as int * 1000)),
            None => None,
        },
    ) + spec_opt_member(
        "min_latency"@,
        match f.min_latency {
            Some(k) => Some(SpecJson::Number(k as int)),
            None => None,
        },
    ) + spec_opt_member(
        "max_latency"@,
        match f.max_latency {
            Some(k) => Some(SpecJson::Number(k as int)),
            None => None,
        },
    ) + spec_opt_member(
        "exception_msg"@,
        match f.exception_msg {
            Some(s) => Some(SpecJson::String(s)),
            None => None,
        },
    ) + spec_opt_member(
        "status_code"@,
        match f.status_code {
            Some(c) => Some(SpecJson::Number(c as int * 1000)),
            None => None,
        },
    ) + spec_opt_member(
        "disk_space"@,
        match f.disk_space {
            Some(d) => Some(SpecJson::Number(d as int * 1000)),
            None => None,
        },
    ) + spec_opt_member(
        "deny_list"@,
        match f.deny_list {
            Some(ps) => Some(spec_denylist_json(ps)),
            None => None,
        },
    ) + spec_opt_member(
        "timeout_buffer_ms"@,
        match f.timeout_buffer_ms {
            Some(k) => Some(SpecJson::Number(k as int)),
            None => None,
        },
    ) + spec_opt_member(
        "body"@,
        match f.body {
            Some(s) => Some(SpecJson::String(s)),
            None => None,
        },
    ) + spec_opt_member(
        "match"@,
        match f.match_conditions {
            Some(cs) => Some(spec_conds_json(cs)),
            None => None,
        },
    )
}

/// The document a configuration serializes to: one member per set flag, in
/// the canonical mode order.
pub open spec fn spec_serialize_config(c: SpecFlagConfig) -> SpecJson {
    SpecJson::Object(
        spec_mode_member(FailureMode::Latency, c.latency) + spec_mode_member(
            FailureMode::Timeout,
            c.timeout,
        ) + spec_mode_member(FailureMode::Diskspace, c.diskspace) + spec_mode_member(
            FailureMode::Denylist,
            c.denylist,
        ) + spec_mode_member(FailureMode::Statuscode, c.statuscode) + spec_mode_member(
            FailureMode::Exception,
            c.exception,
        ) + spec_mode_member(FailureMode::Corruption, c.corruption),
    )
}

/// The member a mode contributes: its serialized flag, when set.
pub open spec fn spec_mode_member(mode: FailureMode, f: Option<SpecFlagValue>) -> RawMembers {
    match f {
        Some(fv) => seq![(spec_mode_name(mode), SpecJson::Object(spec_ser_flag_members(fv)))],
        None => Seq::empty(),
    }
}

// ---------------------------------------------------------------------------
// The executable serializer.
// ---------------------------------------------------------------------------

/// Appends one member when the value is present.
fn push_opt_member(out: &mut Vec<(String, JsonValue)>, name: &str, v: Option<JsonValue>)
    ensures
        spec_json_of_members(final(out)@) == spec_json_of_members(old(out)@) + spec_opt_member(
            name@,
            match v {
                Some(j) => Some(j@),
                None => None,
            },
        ),
{
    let ghost before = spec_json_of_members(out@);
    match v {
        Some(j) => {
            out.push((String::from_str(name), j));
            proof {
                crate::json::lemma_spec_json_of_members(old(out)@);
                crate::json::lemma_spec_json_of_members(out@);
                assert(spec_json_of_members(out@) =~= before + spec_opt_member(
                    name@,
                    Some(j@),
                ));
            }
        },
        None => {
            proof {
                assert(spec_json_of_members(out@) =~= before + spec_opt_member(
                    name@,
                    None::<SpecJson>,
                ));
            }
        },
    }
}

/// The document one condition serializes to.
fn serialize_condition(c: &MatchCondition) -> (r: JsonValue)
    ensures
        r@ == spec_ser_condition(c@),
{
    let mut out: Vec<(String, JsonValue)> = Vec::new();
    proof {
        assert(spec_json_of_members(out@) =~= Seq::<(Seq<char>, SpecJson)>::empty());
    }
    push_opt_member(&mut out, "path", Some(JsonValue::String(c.path.clone())));
    push_opt_member(
        &mut out,
        "value",
        match &c.value {
            Some(v) => Some(JsonValue::String(v.clone())),
            None => None,
        },
    );
    push_opt_member(
        &mut out,
        "operator",
        match c.operator {
            Some(MatchOperator::Eq) => Some(JsonValue::String(String::from_str("eq"))),
            Some(MatchOperator::Exists) => Some(JsonValue::String(String::from_str("exists"))),
            Some(MatchOperator::StartsWith) => Some(
                JsonValue::String(String::from_str("startsWith")),
            ),
            Some(MatchOperator::Regex) => Some(JsonValue::String(String::from_str("regex"))),
            None => None,
        },
    );
    let r = JsonValue::Object(out);
    proof {
        assert(r@->Object_0 =~= spec_ser_condition(c@)->Object_0);
    }
    r
}

/// The document one flag serializes to.
#[verifier::rlimit(100)]
pub fn serialize_flag(f: &FlagValue) -> (r: JsonValue)
    ensures
        r@ == SpecJson::Object(spec_ser_flag_members(f@)),
{
    let mut out: Vec<(String, JsonValue)> = Vec::new();
    proof {
        assert(spec_json_of_members(out@) =~= Seq::<(Seq<char>, SpecJson)>::empty());
    }
    push_opt_member(&mut out, "enabled", Some(JsonValue::Bool(f.enabled)));
    push_opt_member(
        &mut out,
        "percentage",
        match f.percentage {
            Some(p) => Some(JsonValue::Number(p as i64 * 1000)),
            None => None,
        },
    );
    push_opt_member(
        &mut out,
        "min_latency",
        match f.min_latency {
            Some(k) => Some(JsonValue::Number(k)),
            None => None,
        },
    );
    push_opt_member(
        &mut out,
        "max_latency",
        match f.max_latency {
            Some(k) => Some(JsonValue::Number(k)),
            None => None,
        },
    );
    push_opt_member(
        &mut out,
        "exception_msg",
        match &f.exception_msg {
            Some(s) => Some(JsonValue::String(s.clone())),
            None => None,
        },
    );
    push_opt_member(
        &mut out,
        "status_code",
        match f.status_code {
            Some(c) => Some(JsonValue::Number(c as i64 * 1000)),
            None => None,
        },
    );
    push_opt_member(
        &mut out,
        "disk_space",
        match f.disk_space {
            Some(d) => Some(JsonValue::Number(d as i64 * 1000)),
            None => None,
        },
    );
    let deny: Option<JsonValue> = match &f.deny_list {
        Some(ps) => {
            let mut items: Vec<JsonValue> = Vec::new();
            let mut i: usize = 0;
            while i < ps.len()
                invariant
                    i <= ps@.len(),
                    items@.len() == i,
                    forall|j: int|
                        0 <= j < i ==> #[trigger] items@[j].spec_json() == SpecJson::String(
                            ps@[j]@,
                        ),
                decreases ps@.len() - i,
            {
                items.push(JsonValue::String(ps[i].clone()));
                i += 1;
            }
            proof {
                crate::json::lemma_spec_json_of_seq(items@);
                assert(spec_json_of_seq(items@) =~= Seq::new(
                    spec_strings_view(ps@).len(),
                    |i: int| SpecJson::String(spec_strings_view(ps@)[i]),
                ));
            }
            Some(JsonValue::Array(items))
        },
        None => None,
    };
    push_opt_member(&mut out, "deny_list", deny);
    push_opt_member(
        &mut out,
        "timeout_buffer_ms",
        match f.timeout_buffer_ms {
            Some(k) => Some(JsonValue::Number(k)),
            None => None,
        },
    );
    push_opt_member(
        &mut out,
        "body",
        match &f.body {
            Some(s) => Some(JsonValue::String(s.clone())),
            None => None,
        },
    );
    let conds: Option<JsonValue> = match &f.match_conditions {
        Some(cs) => {
            let mut items: Vec<JsonValue> = Vec::new();
            let mut i: usize = 0;
            while i < cs.len()
                invariant
                    i <= cs@.len(),
                    items@.len() == i,
                    forall|j: int|
                        0 <= j < i ==> #[trigger] items@[j].spec_json() == spec_ser_condition(
                            cs@[j]@,
                        ),
                decreases cs@.len() - i,
            {
                items.push(serialize_condition(&cs[i]));
                i += 1;
            }
            proof {
                crate::json::lemma_spec_json_of_seq(items@);
                assert(spec_json_of_seq(items@) =~= Seq::new(
                    spec_conditions_view(cs@).len(),
                    |i: int| spec_ser_condition(spec_conditions_view(cs@)[i]),
                ));
            }
            Some(JsonValue::Array(items))
        },
        None => None,
    };
    push_opt_member(&mut out, "match", conds);
    let r = JsonValue::Object(out);
    proof {
        assert(r@->Object_0 =~= spec_ser_flag_members(f@));
    }
    r
}

/// The document a configuration serializes to: one member per set flag, in
/// the canonical mode order.
pub fn serialize_config(c: &FlagConfig) -> (r: JsonValue)
    ensures
        r@ == spec_serialize_config(c@),
{
    let mut out: Vec<(String, JsonValue)> = Vec::new();
    proof {
        assert(spec_json_of_members(out@) =~= Seq::<(Seq<char>, SpecJson)>::empty());
    }
    push_opt_member(
        &mut out,
        "latency",
        match &c.latency {
            Some(f) => Some(serialize_flag(f)),
            None => None,
        },
    );
    push_opt_member(
        &mut out,
        "timeout",
        match &c.timeout {
            Some(f) => Some(serialize_flag(f)),
            None => None,
        },
    );
    push_opt_member(
        &mut out,
        "diskspace",
        match &c.diskspace {
            Some(f) => Some(serialize_flag(f)),
            None => None,
        },
    );
    push_opt_member(
        &mut out,
        "denylist",
        match &c.denylist {
            Some(f) => Some(serialize_flag(f)),
            None => None,
        },
    );
    push_opt_member(
        &mut out,
        "statuscode",
        match &c.statuscode {
            Some(f) => Some(serialize_flag(f)),
            None => None,
        },
    );
    push_opt_member(
        &mut out,
        "exception",
        match &c.exception {
            Some(f) => Some(serialize_flag(f)),
            None => None,
        },
    );
    push_opt_member(
        &mut out,
        "corruption",
        match &c.corruption {
            Some(f) => Some(serialize_flag(f)),
            None => None,
        },
    );
    let r = JsonValue::Object(out);
    proof {
        assert(r@->Object_0 =~= spec_serialize_config(c@)->Object_0);
    }
    r
}

// ---------------------------------------------------------------------------
// The round trip: parsing a serialized valid configuration gives it back.
// ---------------------------------------------------------------------------

/// The flag field names differ pairwise.
proof fn lemma_field_names_distinct()
    ensures
        "enabled"@ != "percentage"@,
        "enabled"@ != "min_latency"@,
        "percentage"@ != "min_latency"@,
        "enabled"@ != "max_latency"@,
        "percentage"@ != "max_latency"@,
        "min_latency"@ != "max_latency"@,
        "enabled"@ != "exception_msg"@,
        "percentage"@ != "exception_msg"@,
        "min_latency"@ != "exception_msg"@,
        "max_latency"@ != "exception_msg"@,
        "enabled"@ != "status_code"@,
        "percentage"@ != "status_code"@,
        "min_latency"@ != "status_code"@,
        "max_latency"@ != "status_code"@,
        "exception_msg"@ != "status_code"@,
        "enabled"@ != "disk_space"@,
        "percentage"@ != "disk_space"@,
        "min_latency"@ != "disk_space"@,
        "max_latency"@ != "disk_space"@,
        "exception_msg"@ != "disk_space"@,
        "status_code"@ != "disk_space"@,
        "enabled"@ != "deny_list"@,
        "percentage"@ != "deny_list"@,
        "min_latency"@ != "deny_list"@,
        "max_latency"@ != "deny_list"@,
        "exception_msg"@ != "deny_list"@,
        "status_code"@ != "deny_list"@,
        "disk_space"@ != "deny_list"@,
        "enabled"@ != "timeout_buffer_ms"@,
        "percentage"@ != "timeout_buffer_ms"@,
        "min_latency"@ != "timeout_buffer_ms"@,
        "max_latency"@ != "timeout_buffer_ms"@,
        "exception_msg"@ != "timeout_buffer_ms"@,
        "status_code"@ != "timeout_buffer_ms"@,
        "disk_space"@ != "timeout_buffer_ms"@,
        "deny_list"@ != "timeout_buffer_ms"@,
        "enabled"@ != "body"@,
        "percentage"@ != "body"@,
        "min_latency"@ != "body"@,
        "max_latency"@ != "body"@,
        "exception_msg"@ != "body"@,
        "status_code"@ != "body"@,
        "disk_space"@ != "body"@,
        "deny_list"@ != "body"@,
        "timeout_buffer_ms"@ != "body"@,
        "enabled"@ != "match"@,
        "percentage"@ != "match"@,
        "min_latency"@ != "match"@,
        "max_latency"@ != "match"@,
        "exception_msg"@ != "match"@,
        "status_code"@ != "match"@,
        "disk_space"@ != "match"@,
        "deny_list"@ != "match"@,
        "timeout_buffer_ms"@ != "match"@,
        "body"@ != "match"@,
{
    reveal_strlit("enabled");
    reveal_strlit("percentage");
    reveal_strlit("min_latency");
    reveal_strlit("max_latency");
    reveal_strlit("exception_msg");
    reveal_strlit("status_code");
    reveal_strlit("disk_space");
    reveal_strlit("deny_list");
    reveal_strlit("timeout_buffer_ms");
    reveal_strlit("body");
    reveal_strlit("match");
    assert("enabled"@[0] != "percentage"@[0]);
    assert("enabled"@[0] != "min_latency"@[0]);
    assert("percentage"@[0] != "min_latency"@[0]);
    assert("enabled"@[0] != "max_latency"@[0]);
    assert("percentage"@[0] != "max_latency"@[0]);
    assert("min_latency"@[1] != "max_latency"@[1]);
    assert("enabled"@[1] != "exception_msg"@[1]);
    assert("percentage"@[0] != "exception_msg"@[0]);
    assert("min_latency"@[0] != "exception_msg"@[0]);
    assert("max_latency"@[0] != "exception_msg"@[0]);
    assert("enabled"@[0] != "status_code"@[0]);
    assert("percentage"@[0] != "status_code"@[0]);
    assert("min_latency"@[0] != "status_code"@[0]);
    assert("max_latency"@[0] != "status_code"@[0]);
    assert("exception_msg"@[0] != "status_code"@[0]);
    assert("enabled"@[0] != "disk_space"@[0]);
    assert("percentage"@[0] != "disk_space"@[0]);
    assert("min_latency"@[0] != "disk_space"@[0]);
    assert("max_latency"@[0] != "disk_space"@[0]);
    assert("exception_msg"@[0] != "disk_space"@[0]);
    assert("status_code"@[0] != "disk_space"@[0]);
    assert("enabled"@[0] != "deny_list"@[0]);
    assert("percentage"@[0] != "deny_list"@[0]);
    assert("min_latency"@[0] != "deny_list"@[0]);
    assert("max_latency"@[0] != "deny_list"@[0]);
    assert("exception_msg"@[0] != "deny_list"@[0]);
    assert("status_code"@[0] != "deny_list"@[0]);
    assert("disk_space"@[1] != "deny_list"@[1]);
    assert("enabled"@[0] != "timeout_buffer_ms"@[0]);
    assert("percentage"@[0] != "timeout_buffer_ms"@[0]);
    assert("min_latency"@[0] != "timeout_buffer_ms"@[0]);
    assert("max_latency"@[0] != "timeout_buffer_ms"@[0]);
    assert("exception_msg"@[0] != "timeout_buffer_ms"@[0]);
    assert("status_code"@[0] != "timeout_buffer_ms"@[0]);
    assert("disk_space"@[0] != "timeout_buffer_ms"@[0]);
    assert("deny_list"@[0] != "timeout_buffer_ms"@[0]);
    assert("enabled"@[0] != "body"@[0]);
    assert("percentage"@[0] != "body"@[0]);
    assert("min_latency"@[0] != "body"@[0]);
    assert("max_latency"@[0] != "body"@[0]);
    assert("exception_msg"@[0] != "body"@[0]);
    assert("status_code"@[0] != "body"@[0]);
    assert("disk_space"@[0] != "body"@[0]);
    assert("deny_list"@[0] != "body"@[0]);
    assert("timeout_buffer_ms"@[0] != "body"@[0]);
    assert("enabled"@[0] != "match"@[0]);
    assert("percentage"@[0] != "match"@[0]);
    assert("min_latency"@[1] != "match"@[1]);
    assert("max_latency"@[2] != "match"@[2]);
    assert("exception_msg"@[0] != "match"@[0]);
    assert("status_code"@[0] != "match"@[0]);
    assert("disk_space"@[0] != "match"@[0]);
    assert("deny_list"@[0] != "match"@[0]);
    assert("timeout_buffer_ms"@[0] != "match"@[0]);
    assert("body"@[0] != "match"@[0]);
}

/// The mode names differ pairwise.
proof fn lemma_mode_names_distinct()
    ensures
        "latency"@ != "timeout"@,
        "latency"@ != "diskspace"@,
        "timeout"@ != "diskspace"@,
        "latency"@ != "denylist"@,
        "timeout"@ != "denylist"@,
        "diskspace"@ != "denylist"@,
        "latency"@ != "statuscode"@,
        "timeout"@ != "statuscode"@,
        "diskspace"@ != "statuscode"@,
        "denylist"@ != "statuscode"@,
        "latency"@ != "exception"@,
        "timeout"@ != "exception"@,
        "diskspace"@ != "exception"@,
        "denylist"@ != "exception"@,
        "statuscode"@ != "exception"@,
        "latency"@ != "corruption"@,
        "timeout"@ != "corruption"@,
        "diskspace"@ != "corruption"@,
        "denylist"@ != "corruption"@,
        "statuscode"@ != "corruption"@,
        "exception"@ != "corruption"@,
{
    reveal_strlit("latency");
    reveal_strlit("timeout");
    reveal_strlit("diskspace");
    reveal_strlit("denylist");
    reveal_strlit("statuscode");
    reveal_strlit("exception");
    reveal_strlit("corruption");
    assert("latency"@[0] != "timeout"@[0]);
    assert("latency"@[0] != "diskspace"@[0]);
    assert("timeout"@[0] != "diskspace"@[0]);
    assert("latency"@[0] != "denylist"@[0]);
    assert("timeout"@[0] != "denylist"@[0]);
    assert("diskspace"@[1] != "denylist"@[1]);
    assert("latency"@[0] != "statuscode"@[0]);
    assert("timeout"@[0] != "statuscode"@[0]);
    assert("diskspace"@[0] != "statuscode"@[0]);
    assert("denylist"@[0] != "statuscode"@[0]);
    assert("latency"@[0] != "exception"@[0]);
    assert("timeout"@[0] != "exception"@[0]);
    assert("diskspace"@[0] != "exception"@[0]);
    assert("denylist"@[0] != "exception"@[0]);
    assert("statuscode"@[0] != "exception"@[0]);
    assert("latency"@[0] != "corruption"@[0]);
    assert("timeout"@[0] != "corruption"@[0]);
    assert("diskspace"@[0] != "corruption"@[0]);
    assert("denylist"@[0] != "corruption"@[0]);
    assert("statuscode"@[0] != "corruption"@[0]);
    assert("exception"@[0] != "corruption"@[0]);
}

/// The condition field and operator names differ pairwise.
proof fn lemma_condition_names_distinct()
    ensures
        "path"@ != "value"@,
        "path"@ != "operator"@,
        "value"@ != "operator"@,
        "path"@ != "eq"@,
        "value"@ != "eq"@,
        "operator"@ != "eq"@,
        "path"@ != "exists"@,
        "value"@ != "exists"@,
        "operator"@ != "exists"@,
        "eq"@ != "exists"@,
        "path"@ != "startsWith"@,
        "value"@ != "startsWith"@,
        "operator"@ != "startsWith"@,
        "eq"@ != "startsWith"@,
        "exists"@ != "startsWith"@,
        "path"@ != "regex"@,
        "value"@ != "regex"@,
        "operator"@ != "regex"@,
        "eq"@ != "regex"@,
        "exists"@ != "regex"@,
        "startsWith"@ != "regex"@,
{
    reveal_strlit("path");
    reveal_strlit("value");
    reveal_strlit("operator");
    reveal_strlit("eq");
    reveal_strlit("exists");
    reveal_strlit("startsWith");
    reveal_strlit("regex");
    assert("path"@[0] != "value"@[0]);
    assert("path"@[0] != "operator"@[0]);
    assert("value"@[0] != "operator"@[0]);
    assert("path"@[0] != "eq"@[0]);
    assert("value"@[0] != "eq"@[0]);
    assert("operator"@[0] != "eq"@[0]);
    assert("path"@[0] != "exists"@[0]);
    assert("value"@[0] != "exists"@[0]);
    assert("operator"@[0] != "exists"@[0]);
    assert("eq"@[1] != "exists"@[1]);
    assert("path"@[0] != "startsWith"@[0]);
    assert("value"@[0] != "startsWith"@[0]);
    assert("operator"@[0] != "startsWith"@[0]);
    assert("eq"@[0] != "startsWith"@[0]);
    assert("exists"@[0] != "startsWith"@[0]);
    assert("path"@[0] != "regex"@[0]);
    assert("value"@[0] != "regex"@[0]);
    assert("operator"@[0] != "regex"@[0]);
    assert("eq"@[0] != "regex"@[0]);
    assert("exists"@[0] != "regex"@[0]);
    assert("startsWith"@[0] != "regex"@[0]);
}

/// Looking a key up in a concatenation tries the right part first: a later
/// duplicate shadows an earlier one.
proof fn lemma_lookup_concat(a: RawMembers, b: RawMembers, k: Seq<char>)
    ensures
        spec_member_lookup(a + b, k) == (match spec_member_lookup(b, k) {
            Some(v) => Some(v),
            None => spec_member_lookup(a, k),
        }),
    decreases b.len(),
{
    if b.len() == 0 {
        assert(a + b =~= a);
    } else {
        assert((a + b).last() == b.last());
        assert((a + b).drop_last() =~= a + b.drop_last());
        lemma_lookup_concat(a, b.drop_last(), k);
    }
}

/// Looking a key up among an optional member finds it exactly on its name.
proof fn lemma_lookup_opt_member(name: Seq<char>, v: Option<SpecJson>, k: Seq<char>)
    ensures
        spec_member_lookup(spec_opt_member(name, v), k) == (if k == name {
            v
        } else {
            None::<SpecJson>
        }),
{
    reveal_with_fuel(crate::json::spec_member_lookup, 3);
    match v {
        Some(j) => {
            let s = seq![(name, j)];
            assert(s.drop_last().len() == 0);
            assert(spec_member_lookup(s.drop_last(), k) is None);
        },
        None => {},
    }
}

/// What each key finds among a serialized flag's members.
#[verifier::rlimit(100)]
proof fn lemma_flag_members_lookup(f: SpecFlagValue, k: Seq<char>)
    ensures
        spec_member_lookup(spec_ser_flag_members(f), k) == (if k == "enabled"@ {
            Some(SpecJson::Bool(f.enabled))
        } else if k == "percentage"@ {
            match f.percentage {
                Some(p) => Some(SpecJson::Number(p as int * 1000)),
                None => None,
            }
        } else if k == "min_latency"@ {
            match f.min_latency {
                Some(v) => Some(SpecJson::Number(v as int)),
                None => None,
            }
        } else if k == "max_latency"@ {
            match f.max_latency {
                Some(v) => Some(SpecJson::Number(v as int)),
                None => None,
            }
        } else if k == "exception_msg"@ {
            match f.exception_msg {
                Some(s) => Some(SpecJson::String(s)),
                None => None,
            }
        } else if k == "status_code"@ {
            match f.status_code {
                Some(c) => Some(SpecJson::Number(c as int * 1000)),
                None => None,
            }
        } else if k == "disk_space"@ {
            match f.disk_space {
                Some(d) => Some(SpecJson::Number(d as int * 1000)),
                None => None,
            }
        } else if k == "deny_list"@ {
            match f.deny_list {
                Some(ps) => Some(spec_denylist_json(ps)),
                None => None,
            }
        } else if k == "timeout_buffer_ms"@ {
            match f.timeout_buffer_ms {
                Some(v) => Some(SpecJson::Number(v as int)),
                None => None,
            }
        } else if k == "body"@ {
            match f.body {
                Some(s) => Some(SpecJson::String(s)),
                None => None,
            }
        } else if k == "match"@ {
            match f.match_conditions {
                Some(cs) => Some(spec_conds_json(cs)),
                None => None,
            }
        } else {
            None
        }),
{
    reveal_strlit("enabled");
    reveal_strlit("percentage");
    reveal_strlit("min_latency");
    reveal_strlit("max_latency");
    reveal_strlit("exception_msg");
    reveal_strlit("status_code");
    reveal_strlit("disk_space");
    reveal_strlit("deny_list");
    reveal_strlit("timeout_buffer_ms");
    reveal_strlit("body");
    reveal_strlit("match");
    let e = seq![("enabled"@, SpecJson::Bool(f.enabled))];
    let o1 = spec_opt_member(
        "percentage"@,
        match f.percentage {
            Some(p) => Some(SpecJson::Number(p as int * 1000)),
            None => None,
        },
    );
    let o2 = spec_opt_member(
        "min_latency"@,
        match f.min_latency {
            Some(k0) => Some(SpecJson::Number(k0 as int)),
            None => None,
        },
    );
    let o3 = spec_opt_member(
        "max_latency"@,
        match f.max_latency {
            Some(k0) => Some(SpecJson::Number(k0 as int)),
            None => None,
        },
    );
    let o4 = spec_opt_member(
        "exception_msg"@,
        match f.exception_msg {
            Some(s) => Some(SpecJson::String(s)),
            None => None,
        },
    );
    let o5 = spec_opt_member(
        "status_code"@,
        match f.status_code {
            Some(c) => Some(SpecJson::Number(c as int * 1000)),
            None => None,
        },
    );
    let o6 = spec_opt_member(
        "disk_space"@,
        match f.disk_space {
            Some(d) => Some(SpecJson::Number(d as int * 1000)),
            None => None,
        },
    );
    let o7 = spec_opt_member(
        "deny_list"@,
        match f.deny_list {
            Some(ps) => Some(spec_denylist_json(ps)),
            None => None,
        },
    );
    let o8 = spec_opt_member(
        "timeout_buffer_ms"@,
        match f.timeout_buffer_ms {
            Some(k0) => Some(SpecJson::Number(k0 as int)),
            None => None,
        },
    );
    let o9 = spec_opt_member(
        "body"@,
        match f.body {
            Some(s) => Some(SpecJson::String(s)),
            None => None,
        },
    );
    let o10 = spec_opt_member(
        "match"@,
        match f.match_conditions {
            Some(cs) => Some(spec_conds_json(cs)),
            None => None,
        },
    );
    lemma_lookup_concat(e + o1 + o2 + o3 + o4 + o5 + o6 + o7 + o8 + o9, o10, k);
    lemma_lookup_concat(e + o1 + o2 + o3 + o4 + o5 + o6 + o7 + o8, o9, k);
    lemma_lookup_concat(e + o1 + o2 + o3 + o4 + o5 + o6 + o7, o8, k);
    lemma_lookup_concat(e + o1 + o2 + o3 + o4 + o5 + o6, o7, k);
    lemma_lookup_concat(e + o1 + o2 + o3 + o4 + o5, o6, k);
    lemma_lookup_concat(e + o1 + o2 + o3 + o4, o5, k);
    lemma_lookup_concat(e + o1 + o2 + o3, o4, k);
    lemma_lookup_concat(e + o1 + o2, o3, k);
    lemma_lookup_concat(e + o1, o2, k);
    lemma_lookup_concat(e, o1, k);
    reveal_with_fuel(crate::json::spec_member_lookup, 3);
    assert(e.drop_last().len() == 0);
    assert(spec_member_lookup(e.drop_last(), k) is None);
    lemma_field_names_distinct();
    lemma_lookup_opt_member(
        "percentage"@,
        match f.percentage {
            Some(p) => Some(SpecJson::Number(p as int * 1000)),
            None => None,
        },
        k,
    );
    lemma_lookup_opt_member(
        "min_latency"@,
        match f.min_latency {
            Some(k0) => Some(SpecJson::Number(k0 as int)),
            None => None,
        },
        k,
    );
    lemma_lookup_opt_member(
        "max_latency"@,
        match f.max_latency {
            Some(k0) => Some(SpecJson::Number(k0 as int)),
            None => None,
        },
        k,
    );
    lemma_lookup_opt_member(
        "exception_msg"@,
        match f.exception_msg {
            Some(s) => Some(SpecJson::String(s)),
            None => None,
        },
        k,
    );
    lemma_lookup_opt_member(
        "status_code"@,
        match f.status_code {
            Some(c) => Some(SpecJson::Number(c as int * 1000)),
            None => None,
        },
        k,
    );
    lemma_lookup_opt_member(
        "disk_space"@,
        match f.disk_space {
            Some(d) => Some(SpecJson::Number(d as int * 1000)),
            None => None,
        },
        k,
    );
    lemma_lookup_opt_member(
        "deny_list"@,
        match f.deny_list {
            Some(ps) => Some(spec_denylist_json(ps)),
            None => None,
        },
        k,
    );
    lemma_lookup_opt_member(
        "timeout_buffer_ms"@,
        match f.timeout_buffer_ms {
            Some(k0) => Some(SpecJson::Number(k0 as int)),
            None => None,
        },
        k,
    );
    lemma_lookup_opt_member(
        "body"@,
        match f.body {
            Some(s) => Some(SpecJson::String(s)),
            None => None,
        },
        k,
    );
    lemma_lookup_opt_member(
        "match"@,
        match f.match_conditions {
            Some(cs) => Some(spec_conds_json(cs)),
            None => None,
        },
        k,
    );
    if k == "enabled"@ {
        assert(spec_member_lookup(spec_ser_flag_members(f), k) == Some(
            SpecJson::Bool(f.enabled),
        ));
    } else if k == "percentage"@ {
        assert(spec_member_lookup(spec_ser_flag_members(f), k) == (match f.percentage {
            Some(p) => Some(SpecJson::Number(p as int * 1000)),
            None => None,
        }));
    } else if k == "min_latency"@ {
        assert(spec_member_lookup(spec_ser_flag_members(f), k) == (match f.min_latency {
            Some(v) => Some(SpecJson::Number(v as int)),
            None => None,
        }));
    } else if k == "max_latency"@ {
        assert(spec_member_lookup(spec_ser_flag_members(f), k) == (match f.max_latency {
            Some(v) => Some(SpecJson::Number(v as int)),
            None => None,
        }));
    } else if k == "exception_msg"@ {
        assert(spec_member_lookup(spec_ser_flag_members(f), k) == (match f.exception_msg {
            Some(s) => Some(SpecJson::String(s)),
            None => None,
        }));
    } else if k == "status_code"@ {
        assert(spec_member_lookup(spec_ser_flag_members(f), k) == (match f.status_code {
            Some(c0) => Some(SpecJson::Number(c0 as int * 1000)),
            None => None,
        }));
    } else if k == "disk_space"@ {
        assert(spec_member_lookup(spec_ser_flag_members(f), k) == (match f.disk_space {
            Some(d) => Some(SpecJson::Number(d as int * 1000)),
            None => None,
        }));
    } else if k == "deny_list"@ {
        assert(spec_member_lookup(spec_ser_flag_members(f), k) == (match f.deny_list {
            Some(ps) => Some(spec_denylist_json(ps)),
            None => None,
        }));
    } else if k == "timeout_buffer_ms"@ {
        assert(spec_member_lookup(spec_ser_flag_members(f), k) == (match f.timeout_buffer_ms {
            Some(v) => Some(SpecJson::Number(v as int)),
            None => None,
        }));
    } else if k == "body"@ {
        assert(spec_member_lookup(spec_ser_flag_members(f), k) == (match f.body {
            Some(s) => Some(SpecJson::String(s)),
            None => None,
        }));
    } else if k == "match"@ {
        assert(spec_member_lookup(spec_ser_flag_members(f), k) == (match f.match_conditions {
            Some(cs) => Some(spec_conds_json(cs)),
            None => None,
        }));
    } else {
        assert(spec_member_lookup(spec_ser_flag_members(f), k) is None);
    }
}

/// A thousandfold value is integral, and division recovers it.
proof fn lemma_times_thousand(p: int)
    requires
        p >= 0,
    ensures
        (p * 1000) % 1000 == 0,
        (p * 1000) / 1000 == p,
{
    assert((p * 1000) % 1000 == 0 && (p * 1000) / 1000 == p) by (nonlinear_arith)
        requires
            p >= 0,
    ;
}

/// A serialized valid condition is typed, and parses back to itself.
proof fn lemma_ser_condition_rt(c: SpecMatchCondition)
    requires
        spec_cond_valid(c),
    ensures
        crate::config::spec_cond_typed(spec_ser_condition(c)),
        crate::config::spec_cond_of(spec_ser_condition(c)) == c,
{
    reveal_strlit("path");
    reveal_strlit("value");
    reveal_strlit("operator");
    reveal_strlit("eq");
    reveal_strlit("exists");
    reveal_strlit("startsWith");
    reveal_strlit("regex");
    let p = seq![("path"@, SpecJson::String(c.path))];
    let ov = spec_opt_member(
        "value"@,
        match c.value {
            Some(v) => Some(SpecJson::String(v)),
            None => None,
        },
    );
    let oo = spec_opt_member(
        "operator"@,
        match c.operator {
            Some(op) => Some(SpecJson::String(spec_op_name(op))),
            None => None,
        },
    );
    lemma_condition_names_distinct();
    let m = spec_ser_condition(c)->Object_0;
    assert(m == p + ov + oo);
    reveal_with_fuel(crate::json::spec_member_lookup, 3);
    assert(p.drop_last().len() == 0);
    assert(spec_member_lookup(p.drop_last(), "path"@) is None);
    assert(spec_member_lookup(p.drop_last(), "value"@) is None);
    assert(spec_member_lookup(p.drop_last(), "operator"@) is None);
    lemma_lookup_concat(p + ov, oo, "path"@);
    lemma_lookup_concat(p, ov, "path"@);
    lemma_lookup_concat(p + ov, oo, "value"@);
    lemma_lookup_concat(p, ov, "value"@);
    lemma_lookup_concat(p + ov, oo, "operator"@);
    lemma_lookup_concat(p, ov, "operator"@);
    lemma_lookup_opt_member(
        "value"@,
        match c.value {
            Some(v) => Some(SpecJson::String(v)),
            None => None,
        },
        "path"@,
    );
    lemma_lookup_opt_member(
        "value"@,
        match c.value {
            Some(v) => Some(SpecJson::String(v)),
            None => None,
        },
        "value"@,
    );
    lemma_lookup_opt_member(
        "value"@,
        match c.value {
            Some(v) => Some(SpecJson::String(v)),
            None => None,
        },
        "operator"@,
    );
    lemma_lookup_opt_member(
        "operator"@,
        match c.operator {
            Some(op) => Some(SpecJson::String(spec_op_name(op))),
            None => None,
        },
        "path"@,
    );
    lemma_lookup_opt_member(
        "operator"@,
        match c.operator {
            Some(op) => Some(SpecJson::String(spec_op_name(op))),
            None => None,
        },
        "value"@,
    );
    lemma_lookup_opt_member(
        "operator"@,
        match c.operator {
            Some(op) => Some(SpecJson::String(spec_op_name(op))),
            None => None,
        },
        "operator"@,
    );
    match c.operator {
        Some(op) => {
            match op {
                MatchOperator::Eq => {},
                MatchOperator::Exists => {},
                MatchOperator::StartsWith => {},
                MatchOperator::Regex => {},
            }
        },
        None => {},
    }
}

/// A serialized valid flag passes every check for its mode, and parses
/// back to itself.
#[verifier::rlimit(100)]
proof fn lemma_ser_flag_rt(mode: FailureMode, f: SpecFlagValue)
    requires
        spec_flag_value_valid(mode, f),
    ensures
        spec_flag_ok(mode, spec_ser_flag_members(f)),
        spec_flag_of(spec_ser_flag_members(f)) == f,
{
    let m = spec_ser_flag_members(f);
    lemma_flag_members_lookup(f, "enabled"@);
    lemma_flag_members_lookup(f, "percentage"@);
    lemma_flag_members_lookup(f, "min_latency"@);
    lemma_flag_members_lookup(f, "max_latency"@);
    lemma_flag_members_lookup(f, "exception_msg"@);
    lemma_flag_members_lookup(f, "status_code"@);
    lemma_flag_members_lookup(f, "disk_space"@);
    lemma_flag_members_lookup(f, "deny_list"@);
    lemma_flag_members_lookup(f, "timeout_buffer_ms"@);
    lemma_flag_members_lookup(f, "body"@);
    lemma_flag_members_lookup(f, "match"@);
    lemma_field_names_distinct();
    reveal_strlit("enabled");
    reveal_strlit("percentage");
    reveal_strlit("min_latency");
    reveal_strlit("max_latency");
    reveal_strlit("exception_msg");
    reveal_strlit("status_code");
    reveal_strlit("disk_space");
    reveal_strlit("deny_list");
    reveal_strlit("timeout_buffer_ms");
    reveal_strlit("body");
    reveal_strlit("match");
    match f.percentage {
        Some(p) => {
            lemma_times_thousand(p as int);
        },
        None => {},
    }
    match f.status_code {
        Some(c) => {
            lemma_times_thousand(c as int);
        },
        None => {},
    }
    match f.disk_space {
        Some(d) => {
            lemma_times_thousand(d as int);
        },
        None => {},
    }
    match f.deny_list {
        Some(ps) => {
            let items = spec_denylist_json(ps)->Array_0;
            assert(forall|i: int| 0 <= i < items.len() ==> (#[trigger] items[i]) is String);
            let got = crate::config::spec_denylist_of(m);
            assert(got is Some);
            assert(got->0 =~= ps);
        },
        None => {},
    }
    match f.match_conditions {
        Some(cs) => {
            let items = spec_conds_json(cs)->Array_0;
            assert forall|i: int|
                0 <= i < items.len() implies crate::config::spec_cond_typed(#[trigger] items[i])
                && spec_cond_valid(crate::config::spec_cond_of(items[i])) && crate::config::spec_cond_of(
                items[i],
            ) == cs[i] by {
                assert(cs[i] == f.match_conditions->0[i]);
                lemma_ser_condition_rt(cs[i]);
            }
            let got = crate::config::spec_conds_of(m);
            assert(got is Some);
            assert(got->0 =~= cs);
        },
        None => {},
    }
    assert(spec_flag_of(m) == f);
}

/// What each mode's key finds among a serialized configuration's members.
proof fn lemma_config_members_lookup(c: SpecFlagConfig, mode: FailureMode)
    ensures
        spec_member_lookup(spec_serialize_config(c)->Object_0, spec_mode_name(mode)) == (match
            spec_config_mode(c, mode) {
            Some(f) => Some(SpecJson::Object(spec_ser_flag_members(f))),
            None => None,
        }),
{
    reveal_strlit("latency");
    reveal_strlit("timeout");
    reveal_strlit("diskspace");
    reveal_strlit("denylist");
    reveal_strlit("statuscode");
    reveal_strlit("exception");
    reveal_strlit("corruption");
    let s0 = spec_mode_member(FailureMode::Latency, c.latency);
    let s1 = spec_mode_member(FailureMode::Timeout, c.timeout);
    let s2 = spec_mode_member(FailureMode::Diskspace, c.diskspace);
    let s3 = spec_mode_member(FailureMode::Denylist, c.denylist);
    let s4 = spec_mode_member(FailureMode::Statuscode, c.statuscode);
    let s5 = spec_mode_member(FailureMode::Exception, c.exception);
    let s6 = spec_mode_member(FailureMode::Corruption, c.corruption);
    let k = spec_mode_name(mode);
    let m = spec_serialize_config(c)->Object_0;
    assert(m == s0 + s1 + s2 + s3 + s4 + s5 + s6);
    lemma_lookup_concat(s0 + s1 + s2 + s3 + s4 + s5, s6, k);
    lemma_lookup_concat(s0 + s1 + s2 + s3 + s4, s5, k);
    lemma_lookup_concat(s0 + s1 + s2 + s3, s4, k);
    lemma_lookup_concat(s0 + s1 + s2, s3, k);
    lemma_lookup_concat(s0 + s1, s2, k);
    lemma_lookup_concat(s0, s1, k);
    lemma_lookup_mode_member(FailureMode::Latency, c.latency, k);
    lemma_lookup_mode_member(FailureMode::Timeout, c.timeout, k);
    lemma_lookup_mode_member(FailureMode::Diskspace, c.diskspace, k);
    lemma_lookup_mode_member(FailureMode::Denylist, c.denylist, k);
    lemma_lookup_mode_member(FailureMode::Statuscode, c.statuscode, k);
    lemma_lookup_mode_member(FailureMode::Exception, c.exception, k);
    lemma_lookup_mode_member(FailureMode::Corruption, c.corruption, k);
    lemma_mode_names_distinct();
    match mode {
        FailureMode::Latency => {
            assert(spec_mode_name(mode) == "latency"@);
            assert(spec_config_mode(c, mode) == c.latency);
            assert(spec_member_lookup(s1, k) is None);
            assert(spec_member_lookup(s2, k) is None);
            assert(spec_member_lookup(s3, k) is None);
            assert(spec_member_lookup(s4, k) is None);
            assert(spec_member_lookup(s5, k) is None);
            assert(spec_member_lookup(s6, k) is None);
            assert(spec_member_lookup(m, k) == (match c.latency {
                Some(fv) => Some(SpecJson::Object(spec_ser_flag_members(fv))),
                None => None,
            }));
        },
        FailureMode::Timeout => {
            assert(spec_mode_name(mode) == "timeout"@);
            assert(spec_config_mode(c, mode) == c.timeout);
            assert(spec_member_lookup(s0, k) is None);
            assert(spec_member_lookup(s2, k) is None);
            assert(spec_member_lookup(s3, k) is None);
            assert(spec_member_lookup(s4, k) is None);
            assert(spec_member_lookup(s5, k) is None);
            assert(spec_member_lookup(s6, k) is None);
            assert(spec_member_lookup(m, k) == (match c.timeout {
                Some(fv) => Some(SpecJson::Object(spec_ser_flag_members(fv))),
                None => None,
            }));
        },
        FailureMode::Diskspace => {
            assert(spec_mode_name(mode) == "diskspace"@);
            assert(spec_config_mode(c, mode) == c.diskspace);
            assert(spec_member_lookup(s0, k) is None);
            assert(spec_member_lookup(s1, k) is None);
            assert(spec_member_lookup(s3, k) is None);
            assert(spec_member_lookup(s4, k) is None);
            assert(spec_member_lookup(s5, k) is None);
            assert(spec_member_lookup(s6, k) is None);
            assert(spec_member_lookup(m, k) == (match c.diskspace {
                Some(fv) => Some(SpecJson::Object(spec_ser_flag_members(fv))),
                None => None,
            }));
        },
        FailureMode::Denylist => {
            assert(spec_mode_name(mode) == "denylist"@);
            assert(spec_config_mode(c, mode) == c.denylist);
            assert(spec_member_lookup(s0, k) is None);
            assert(spec_member_lookup(s1, k) is None);
            assert(spec_member_lookup(s2, k) is None);
            assert(spec_member_lookup(s4, k) is None);
            assert(spec_member_lookup(s5, k) is None);
            assert(spec_member_lookup(s6, k) is None);
            assert(spec_member_lookup(m, k) == (match c.denylist {
                Some(fv) => Some(SpecJson::Object(spec_ser_flag_members(fv))),
                None => None,
            }));
        },
        FailureMode::Statuscode => {
            assert(spec_mode_name(mode) == "statuscode"@);
            assert(spec_config_mode(c, mode) == c.statuscode);
            assert(spec_member_lookup(s0, k) is None);
            assert(spec_member_lookup(s1, k) is None);
            assert(spec_member_lookup(s2, k) is None);
            assert(spec_member_lookup(s3, k) is None);
            assert(spec_member_lookup(s5, k) is None);
            assert(spec_member_lookup(s6, k) is None);
            assert(spec_member_lookup(m, k) == (match c.statuscode {
                Some(fv) => Some(SpecJson::Object(spec_ser_flag_members(fv))),
                None => None,
            }));
        },
        FailureMode::Exception => {
            assert(spec_mode_name(mode) == "exception"@);
            assert(spec_config_mode(c, mode) == c.exception);
            assert(spec_member_lookup(s0, k) is None);
            assert(spec_member_lookup(s1, k) is None);
            assert(spec_member_lookup(s2, k) is None);
            assert(spec_member_lookup(s3, k) is None);
            assert(spec_member_lookup(s4, k) is None);
            assert(spec_member_lookup(s6, k) is None);
            assert(spec_member_lookup(m, k) == (match c.exception {
                Some(fv) => Some(SpecJson::Object(spec_ser_flag_members(fv))),
                None => None,
            }));
        },
        FailureMode::Corruption => {
            assert(spec_mode_name(mode) == "corruption"@);
            assert(spec_config_mode(c, mode) == c.corruption);
            assert(spec_member_lookup(s0, k) is None);
            assert(spec_member_lookup(s1, k) is None);
            assert(spec_member_lookup(s2, k) is None);
            assert(spec_member_lookup(s3, k) is None);
            assert(spec_member_lookup(s4, k) is None);
            assert(spec_member_lookup(s5, k) is None);
            assert(spec_member_lookup(m, k) == (match c.corruption {
                Some(fv) => Some(SpecJson::Object(spec_ser_flag_members(fv))),
                None => None,
            }));
        },
    }
}

/// Looking a key up among a mode's member finds it exactly on the mode's
/// name, when the flag is set.
proof fn lemma_lookup_mode_member(mode: FailureMode, f: Option<SpecFlagValue>, k: Seq<char>)
    ensures
        spec_member_lookup(spec_mode_member(mode, f), k) == (if k == spec_mode_name(mode) {
            match f {
                Some(fv) => Some(SpecJson::Object(spec_ser_flag_members(fv))),
                None => None,
            }
        } else {
            None::<SpecJson>
        }),
{
    reveal_with_fuel(crate::json::spec_member_lookup, 3);
    match f {
        Some(fv) => {
            let s = seq![(spec_mode_name(mode), SpecJson::Object(spec_ser_flag_members(fv)))];
            assert(s.drop_last().len() == 0);
            assert(spec_member_lookup(s.drop_last(), k) is None);
        },
        None => {},
    }
}

/// The round trip: parsing a serialized configuration whose flags are all
/// valid yields the configuration back.
pub proof fn lemma_parse_serialize_config(c: SpecFlagConfig)
    requires
        spec_config_valid(c),
    ensures
        spec_parse_flags(spec_serialize_config(c)) == c,
{
    assert forall|mode: FailureMode|
        #[trigger] spec_parse_mode(mode, spec_serialize_config(c)->Object_0) == spec_config_mode(
        c,
        mode,
    ) by {
        lemma_config_members_lookup(c, mode);
        match spec_config_mode(c, mode) {
            Some(f) => {
                assert(spec_flag_value_valid(mode, f));
                lemma_ser_flag_rt(mode, f);
            },
            None => {},
        }
    }
    assert(spec_parse_mode(FailureMode::Latency, spec_serialize_config(c)->Object_0) == c.latency);
    assert(spec_parse_mode(FailureMode::Timeout, spec_serialize_config(c)->Object_0) == c.timeout);
    assert(spec_parse_mode(FailureMode::Diskspace, spec_serialize_config(c)->Object_0)
        == c.diskspace);
    assert(spec_parse_mode(FailureMode::Denylist, spec_serialize_config(c)->Object_0)
        == c.denylist);
    assert(spec_parse_mode(FailureMode::Statuscode, spec_serialize_config(c)->Object_0)
        == c.statuscode);
    assert(spec_parse_mode(FailureMode::Exception, spec_serialize_config(c)->Object_0)
        == c.exception);
    assert(spec_parse_mode(FailureMode::Corruption, spec_serialize_config(c)->Object_0)
        == c.corruption);
}

} // verus!
