//! The flag configuration: the failure modes, a flag's parameters, the
//! field-by-field validation of raw JSON, and the resolution of enabled
//! flags into the canonical execution order.
//!
//! Numeric flag fields hold JSON numbers in the document model's fixed
//! point: a signed count of thousandths.

use vstd::prelude::*;

use crate::json::{spec_member_lookup, JsonValue, SpecJson};
use crate::regexes::regex_valid;

verus! {

/// The failure modes, in their canonical execution order.
#[derive(Clone, Copy, Debug, PartialEq, Eq, Structural)]
pub enum FailureMode {
    Latency,
    Timeout,
    Diskspace,
    Denylist,
    Statuscode,
    Exception,
    Corruption,
}

/// The position of a mode in the canonical execution order.
pub open spec fn spec_mode_index(m: FailureMode) -> int {
    match m {
        FailureMode::Latency => 0,
        FailureMode::Timeout => 1,
        FailureMode::Diskspace => 2,
        FailureMode::Denylist => 3,
        FailureMode::Statuscode => 4,
        FailureMode::Exception => 5,
        FailureMode::Corruption => 6,
    }
}

/// The name of a mode, as it appears as a configuration key.
pub open spec fn spec_mode_name(m: FailureMode) -> Seq<char> {
    match m {
        FailureMode::Latency => "latency"@,
        FailureMode::Timeout => "timeout"@,
        FailureMode::Diskspace => "diskspace"@,
        FailureMode::Denylist => "denylist"@,
        FailureMode::Statuscode => "statuscode"@,
        FailureMode::Exception => "exception"@,
        FailureMode::Corruption => "corruption"@,
    }
}

impl FailureMode {
    /// The mode's configuration key.
    pub fn name(&self) -> (r: String)
        ensures
            r@ == spec_mode_name(*self),
    {
        match self {
            FailureMode::Latency => String::from_str("latency"),
            FailureMode::Timeout => String::from_str("timeout"),
            FailureMode::Diskspace => String::from_str("diskspace"),
            FailureMode::Denylist => String::from_str("denylist"),
            FailureMode::Statuscode => String::from_str("statuscode"),
            FailureMode::Exception => String::from_str("exception"),
            FailureMode::Corruption => String::from_str("corruption"),
        }
    }
}

/// Match operators for event-based targeting.
#[derive(Clone, Copy, Debug, PartialEq, Eq, Structural)]
pub enum MatchOperator {
    Eq,
    Exists,
    StartsWith,
    Regex,
}

impl Default for MatchOperator {
    /// The default operator is equality.
    fn default() -> (r: Self)
        ensures
            r == MatchOperator::Eq,
    {
        MatchOperator::Eq
    }
}

/// Condition for event-based targeting.
pub struct MatchCondition {
    /// A dotted key path into the event.
    pub path: String,
    /// The value the operator compares against.
    pub value: Option<String>,
    /// The operator; `None` stands for equality.
    pub operator: Option<MatchOperator>,
}

/// The abstraction of a [`MatchCondition`].
pub struct SpecMatchCondition {
    pub path: Seq<char>,
    pub value: Option<Seq<char>>,
    pub operator: Option<MatchOperator>,
}

impl View for MatchCondition {
    type V = SpecMatchCondition;

    open spec fn view(&self) -> SpecMatchCondition {
        SpecMatchCondition {
            path: self.path@,
            value: match self.value {
                Some(v) => Some(v@),
                None => None,
            },
            operator: self.operator,
        }
    }
}

impl MatchCondition {
    /// A copy with the same abstraction.
    pub fn duplicate(&self) -> (r: Self)
        ensures
            r@ == self@,
    {
        MatchCondition {
            path: self.path.clone(),
            value: match &self.value {
                Some(v) => Some(v.clone()),
                None => None,
            },
            operator: self.operator,
        }
    }
}

/// A single feature flag's parameters.
pub struct FlagValue {
    /// Whether the failure mode is on.
    pub enabled: bool,
    /// The injection probability, in percent.
    pub percentage: Option<u32>,
    /// Least added latency, in thousandths of a millisecond.
    pub min_latency: Option<i64>,
    /// Greatest added latency, in thousandths of a millisecond.
    pub max_latency: Option<i64>,
    /// The injected error's message.
    pub exception_msg: Option<String>,
    /// The injected HTTP status code.
    pub status_code: Option<u16>,
    /// How many megabytes to write, for disk exhaustion.
    pub disk_space: Option<u32>,
    /// Hostname patterns to deny.
    pub deny_list: Option<Vec<String>>,
    /// The timeout margin, in thousandths of a millisecond.
    pub timeout_buffer_ms: Option<i64>,
    /// The replacement response body, for corruption.
    pub body: Option<String>,
    /// Conditions the event must meet.
    pub match_conditions: Option<Vec<MatchCondition>>,
}

/// The abstraction of a [`FlagValue`].
pub struct SpecFlagValue {
    pub enabled: bool,
    pub percentage: Option<u32>,
    pub min_latency: Option<i64>,
    pub max_latency: Option<i64>,
    pub exception_msg: Option<Seq<char>>,
    pub status_code: Option<u16>,
    pub disk_space: Option<u32>,
    pub deny_list: Option<Seq<Seq<char>>>,
    pub timeout_buffer_ms: Option<i64>,
    pub body: Option<Seq<char>>,
    pub match_conditions: Option<Seq<SpecMatchCondition>>,
}

/// The abstraction of each string in a vector.
pub open spec fn spec_strings_view(v: Seq<String>) -> Seq<Seq<char>> {
    Seq::new(v.len(), |i: int| v[i]@)
}

/// The abstraction of each condition in a vector.
pub open spec fn spec_conditions_view(v: Seq<MatchCondition>) -> Seq<SpecMatchCondition> {
    Seq::new(v.len(), |i: int| v[i]@)
}

impl View for FlagValue {
    type V = SpecFlagValue;

    open spec fn view(&self) -> SpecFlagValue {
        SpecFlagValue {
            enabled: self.enabled,
            percentage: self.percentage,
            min_latency: self.min_latency,
            max_latency: self.max_latency,
            exception_msg: match self.exception_msg {
                Some(s) => Some(s@),
                None => None,
            },
            status_code: self.status_code,
            disk_space: self.disk_space,
            deny_list: match self.deny_list {
                Some(v) => Some(spec_strings_view(v@)),
                None => None,
            },
            timeout_buffer_ms: self.timeout_buffer_ms,
            body: match self.body {
                Some(s) => Some(s@),
                None => None,
            },
            match_conditions: match self.match_conditions {
                Some(v) => Some(spec_conditions_view(v@)),
                None => None,
            },
        }
    }
}

impl Default for FlagValue {
    /// A flag with nothing set: disabled, every field absent.
    fn default() -> (r: Self)
        ensures
            r@ == spec_default_flag(),
    {
        FlagValue {
            enabled: false,
            percentage: None,
            min_latency: None,
            max_latency: None,
            exception_msg: None,
            status_code: None,
            disk_space: None,
            deny_list: None,
            timeout_buffer_ms: None,
            body: None,
            match_conditions: None,
        }
    }
}

/// The abstraction of the flag with nothing set.
pub open spec fn spec_default_flag() -> SpecFlagValue {
    SpecFlagValue {
        enabled: false,
        percentage: None,
        min_latency: None,
        max_latency: None,
        exception_msg: None,
        status_code: None,
        disk_space: None,
        deny_list: None,
        timeout_buffer_ms: None,
        body: None,
        match_conditions: None,
    }
}

impl FlagValue {
    /// A copy with the same abstraction.
    pub fn duplicate(&self) -> (r: Self)
        ensures
            r@ == self@,
    {
        let deny_list: Option<Vec<String>> = match &self.deny_list {
            Some(v) => {
                let mut c: Vec<String> = Vec::new();
                let mut i: usize = 0;
                while i < v.len()
                    invariant
                        i <= v@.len(),
                        c@.len() == i,
                        forall|j: int| 0 <= j < i ==> #[trigger] c@[j]@ == v@[j]@,
                    decreases v@.len() - i,
                {
                    c.push(v[i].clone());
                    i += 1;
                }
                proof {
                    assert(spec_strings_view(c@) =~= spec_strings_view(v@));
                }
                Some(c)
            },
            None => None,
        };
        let match_conditions: Option<Vec<MatchCondition>> = match &self.match_conditions {
            Some(v) => {
                let mut c: Vec<MatchCondition> = Vec::new();
                let mut i: usize = 0;
                while i < v.len()
                    invariant
                        i <= v@.len(),
                        c@.len() == i,
                        forall|j: int| 0 <= j < i ==> #[trigger] c@[j]@ == v@[j]@,
                    decreases v@.len() - i,
                {
                    c.push(v[i].duplicate());
                    i += 1;
                }
                proof {
                    assert(spec_conditions_view(c@) =~= spec_conditions_view(v@));
                }
                Some(c)
            },
            None => None,
        };
        FlagValue {
            enabled: self.enabled,
            percentage: self.percentage,
            min_latency: self.min_latency,
            max_latency: self.max_latency,
            exception_msg: match &self.exception_msg {
                Some(s) => Some(s.clone()),
                None => None,
            },
            status_code: self.status_code,
            disk_space: self.disk_space,
            deny_list,
            timeout_buffer_ms: self.timeout_buffer_ms,
            body: match &self.body {
                Some(s) => Some(s.clone()),
                None => None,
            },
            match_conditions,
        }
    }
}

/// The full configuration: at most one flag per failure mode.
pub struct FlagConfig {
    pub latency: Option<FlagValue>,
    pub timeout: Option<FlagValue>,
    pub diskspace: Option<FlagValue>,
    pub denylist: Option<FlagValue>,
    pub statuscode: Option<FlagValue>,
    pub exception: Option<FlagValue>,
    pub corruption: Option<FlagValue>,
}

/// The abstraction of a [`FlagConfig`].
pub struct SpecFlagConfig {
    pub latency: Option<SpecFlagValue>,
    pub timeout: Option<SpecFlagValue>,
    pub diskspace: Option<SpecFlagValue>,
    pub denylist: Option<SpecFlagValue>,
    pub statuscode: Option<SpecFlagValue>,
    pub exception: Option<SpecFlagValue>,
    pub corruption: Option<SpecFlagValue>,
}

/// The abstraction of an optional flag.
pub open spec fn spec_opt_flag_view(f: Option<FlagValue>) -> Option<SpecFlagValue> {
    match f {
        Some(v) => Some(v@),
        None => None,
    }
}

impl View for FlagConfig {
    type V = SpecFlagConfig;

    open spec fn view(&self) -> SpecFlagConfig {
        SpecFlagConfig {
            latency: spec_opt_flag_view(self.latency),
            timeout: spec_opt_flag_view(self.timeout),
            diskspace: spec_opt_flag_view(self.diskspace),
            denylist: spec_opt_flag_view(self.denylist),
            statuscode: spec_opt_flag_view(self.statuscode),
            exception: spec_opt_flag_view(self.exception),
            corruption: spec_opt_flag_view(self.corruption),
        }
    }
}

impl FlagConfig {
    /// The configuration with no flag set.
    pub fn empty() -> (r: Self)
        ensures
            r@ == spec_empty_config(),
    {
        FlagConfig {
            latency: None,
            timeout: None,
            diskspace: None,
            denylist: None,
            statuscode: None,
            exception: None,
            corruption: None,
        }
    }

    /// How many flags are set.
    pub fn len(&self) -> (n: usize)
        ensures
            n == spec_config_len(self@),
    {
        let mut n: usize = 0;
        if self.latency.is_some() {
            n += 1;
        }
        if self.timeout.is_some() {
            n += 1;
        }
        if self.diskspace.is_some() {
            n += 1;
        }
        if self.denylist.is_some() {
            n += 1;
        }
        if self.statuscode.is_some() {
            n += 1;
        }
        if self.exception.is_some() {
            n += 1;
        }
        if self.corruption.is_some() {
            n += 1;
        }
        n
    }

    /// Whether no flag is set.
    pub fn is_empty(&self) -> (r: bool)
        ensures
            r == (spec_config_len(self@) == 0),
    {
        self.len() == 0
    }

    /// The flag for `mode`, if set.
    pub fn get_mode(&self, mode: FailureMode) -> (r: &Option<FlagValue>)
        ensures
            spec_opt_flag_view(*r) == spec_config_mode(self@, mode),
    {
        match mode {
            FailureMode::Latency => &self.latency,
            FailureMode::Timeout => &self.timeout,
            FailureMode::Diskspace => &self.diskspace,
            FailureMode::Denylist => &self.denylist,
            FailureMode::Statuscode => &self.statuscode,
            FailureMode::Exception => &self.exception,
            FailureMode::Corruption => &self.corruption,
        }
    }
}

impl FlagConfig {
    /// A copy with the same abstraction.
    pub fn duplicate(&self) -> (r: Self)
        ensures
            r@ == self@,
    {
        FlagConfig {
            latency: dup_opt_flag(&self.latency),
            timeout: dup_opt_flag(&self.timeout),
            diskspace: dup_opt_flag(&self.diskspace),
            denylist: dup_opt_flag(&self.denylist),
            statuscode: dup_opt_flag(&self.statuscode),
            exception: dup_opt_flag(&self.exception),
            corruption: dup_opt_flag(&self.corruption),
        }
    }
}

/// A copy of an optional flag with the same abstraction.
fn dup_opt_flag(f: &Option<FlagValue>) -> (r: Option<FlagValue>)
    ensures
        spec_opt_flag_view(r) == spec_opt_flag_view(*f),
{
    match f {
        Some(v) => Some(v.duplicate()),
        None => None,
    }
}

/// The abstraction of the configuration with no flag set.
pub open spec fn spec_empty_config() -> SpecFlagConfig {
    SpecFlagConfig {
        latency: None,
        timeout: None,
        diskspace: None,
        denylist: None,
        statuscode: None,
        exception: None,
        corruption: None,
    }
}

/// The flag a configuration holds for `mode`.
pub open spec fn spec_config_mode(c: SpecFlagConfig, mode: FailureMode) -> Option<SpecFlagValue> {
    match mode {
        FailureMode::Latency => c.latency,
        FailureMode::Timeout => c.timeout,
        FailureMode::Diskspace => c.diskspace,
        FailureMode::Denylist => c.denylist,
        FailureMode::Statuscode => c.statuscode,
        FailureMode::Exception => c.exception,
        FailureMode::Corruption => c.corruption,
    }
}

// ---------------------------------------------------------------------------
// Field validation on raw JSON, and the abstraction it accepts.
// ---------------------------------------------------------------------------

/// The raw members of a flag object.
pub type RawMembers = Seq<(Seq<char>, SpecJson)>;

/// Whether the required `enabled` field is present and boolean.
pub open spec fn spec_enabled_ok(m: RawMembers) -> bool {
    match spec_member_lookup(m, "enabled"@) {
        Some(SpecJson::Bool(_)) => true,
        _ => false,
    }
}

/// The `enabled` field's value.
pub open spec fn spec_enabled_of(m: RawMembers) -> bool {
    spec_member_lookup(m, "enabled"@)->0 == SpecJson::Bool(true)
}

/// Whether `percentage`, if present, is an integer between zero and one
/// hundred.
pub open spec fn spec_pct_ok(m: RawMembers) -> bool {
    match spec_member_lookup(m, "percentage"@) {
        None => true,
        Some(SpecJson::Number(k)) => k % 1000 == 0 && 0 <= k <= 100000,
        Some(_) => false,
    }
}

/// The `percentage` field's value.
pub open spec fn spec_pct_of(m: RawMembers) -> Option<u32> {
    match spec_member_lookup(m, "percentage"@) {
        Some(SpecJson::Number(k)) => Some((k / 1000) as u32),
        _ => None,
    }
}

/// Whether the named field, if present, is a number.
pub open spec fn spec_num_ok(m: RawMembers, name: Seq<char>) -> bool {
    match spec_member_lookup(m, name) {
        None => true,
        Some(SpecJson::Number(_)) => true,
        Some(_) => false,
    }
}

/// The named number field's value, in thousandths.
pub open spec fn spec_num_of(m: RawMembers, name: Seq<char>) -> Option<i64> {
    match spec_member_lookup(m, name) {
        Some(SpecJson::Number(k)) => Some(k as i64),
        _ => None,
    }
}

/// Whether the named field, if present, is a string or null.
pub open spec fn spec_str_ok(m: RawMembers, name: Seq<char>) -> bool {
    match spec_member_lookup(m, name) {
        None => true,
        Some(SpecJson::String(_)) => true,
        Some(SpecJson::Null) => true,
        Some(_) => false,
    }
}

/// The named string field's value; null counts as absent.
pub open spec fn spec_str_of(m: RawMembers, name: Seq<char>) -> Option<Seq<char>> {
    match spec_member_lookup(m, name) {
        Some(SpecJson::String(s)) => Some(s),
        _ => None,
    }
}

/// Whether `status_code`, if present, is an integer that fits a status
/// code's width.
pub open spec fn spec_code_ok(m: RawMembers) -> bool {
    match spec_member_lookup(m, "status_code"@) {
        None => true,
        Some(SpecJson::Number(k)) => k % 1000 == 0 && 0 <= k <= 65535000,
        Some(_) => false,
    }
}

/// The `status_code` field's value.
pub open spec fn spec_code_of(m: RawMembers) -> Option<u16> {
    match spec_member_lookup(m, "status_code"@) {
        Some(SpecJson::Number(k)) => Some((k / 1000) as u16),
        _ => None,
    }
}

/// Whether `disk_space`, if present, is a non-negative integer that fits
/// thirty-two bits.
pub open spec fn spec_disk_ok(m: RawMembers) -> bool {
    match spec_member_lookup(m, "disk_space"@) {
        None => true,
        Some(SpecJson::Number(k)) => k % 1000 == 0 && 0 <= k <= 4294967295000,
        Some(_) => false,
    }
}

/// The `disk_space` field's value.
pub open spec fn spec_disk_of(m: RawMembers) -> Option<u32> {
    match spec_member_lookup(m, "disk_space"@) {
        Some(SpecJson::Number(k)) => Some((k / 1000) as u32),
        _ => None,
    }
}

/// Whether `deny_list`, if present, is an array of strings.
pub open spec fn spec_denylist_ok(m: RawMembers) -> bool {
    match spec_member_lookup(m, "deny_list"@) {
        None => true,
        Some(SpecJson::Array(items)) => forall|i: int|
            0 <= i < items.len() ==> (#[trigger] items[i]) is String,
        Some(_) => false,
    }
}

/// The `deny_list` field's patterns.
pub open spec fn spec_denylist_of(m: RawMembers) -> Option<Seq<Seq<char>>> {
    match spec_member_lookup(m, "deny_list"@) {
        Some(SpecJson::Array(items)) => Some(
            Seq::new(items.len(), |i: int| items[i]->String_0),
        ),
        _ => None,
    }
}

/// A condition's operator, with equality as the default.
pub open spec fn spec_op_or_default(o: Option<MatchOperator>) -> MatchOperator {
    match o {
        Some(op) => op,
        None => MatchOperator::Eq,
    }
}

/// Whether one raw condition is an object whose fields have the right
/// types: a string `path`, a string-or-null `value`, and an `operator`
/// among the known names.
pub open spec fn spec_cond_typed(o: SpecJson) -> bool {
    match o {
        SpecJson::Object(cm) => (match spec_member_lookup(cm, "path"@) {
            Some(SpecJson::String(_)) => true,
            _ => false,
        }) && spec_str_ok(cm, "value"@) && (match spec_member_lookup(cm, "operator"@) {
            None => true,
            Some(SpecJson::Null) => true,
            Some(SpecJson::String(s)) => s == "eq"@ || s == "exists"@ || s == "startsWith"@ || s
                == "regex"@,
            Some(_) => false,
        }),
        _ => false,
    }
}

/// The condition a raw condition object denotes.
pub open spec fn spec_cond_of(o: SpecJson) -> SpecMatchCondition {
    let cm = o->Object_0;
    SpecMatchCondition {
        path: spec_member_lookup(cm, "path"@)->0->String_0,
        value: spec_str_of(cm, "value"@),
        operator: match spec_member_lookup(cm, "operator"@) {
            Some(SpecJson::String(s)) => if s == "eq"@ {
                Some(MatchOperator::Eq)
            } else if s == "exists"@ {
                Some(MatchOperator::Exists)
            } else if s == "startsWith"@ {
                Some(MatchOperator::StartsWith)
            } else {
                Some(MatchOperator::Regex)
            },
            _ => None,
        },
    }
}

/// Whether a condition passes validation: a non-empty path, a value for
/// every operator but existence, and a compiling pattern for the regular
/// expression operator.
pub open spec fn spec_cond_valid(c: SpecMatchCondition) -> bool {
    c.path.len() > 0 && (spec_op_or_default(c.operator) != MatchOperator::Exists ==> c.value
        is Some) && ((spec_op_or_default(c.operator) == MatchOperator::Regex && c.value is Some)
        ==> regex_valid(c.value->0))
}

/// Whether `match`, if present, is an array of typed, valid conditions.
pub open spec fn spec_conds_ok(m: RawMembers) -> bool {
    match spec_member_lookup(m, "match"@) {
        None => true,
        Some(SpecJson::Array(items)) => forall|i: int|
            0 <= i < items.len() ==> spec_cond_typed(#[trigger] items[i]) && spec_cond_valid(
                spec_cond_of(items[i]),
            ),
        Some(_) => false,
    }
}

/// The conditions the `match` field denotes.
pub open spec fn spec_conds_of(m: RawMembers) -> Option<Seq<SpecMatchCondition>> {
    match spec_member_lookup(m, "match"@) {
        Some(SpecJson::Array(items)) => Some(Seq::new(items.len(), |i: int| spec_cond_of(items[i]))),
        _ => None,
    }
}

/// Whether a raw flag object passes every check for `mode`: each field well
/// typed, and the mode's own ranges respected.
pub open spec fn spec_flag_ok(mode: FailureMode, m: RawMembers) -> bool {
    spec_enabled_ok(m) && spec_pct_ok(m) && spec_num_ok(m, "min_latency"@) && spec_num_ok(
        m,
        "max_latency"@,
    ) && spec_num_ok(m, "timeout_buffer_ms"@) && spec_str_ok(m, "exception_msg"@) && spec_str_ok(
        m,
        "body"@,
    ) && spec_code_ok(m) && spec_disk_ok(m) && spec_denylist_ok(m) && spec_conds_ok(m) && (mode
        == FailureMode::Latency ==> spec_latency_ranges_ok(m)) && (mode == FailureMode::Statuscode
        ==> (match spec_code_of(m) {
        Some(c) => 100 <= c <= 599,
        None => true,
    })) && (mode == FailureMode::Diskspace ==> (match spec_disk_of(m) {
        Some(d) => 1 <= d <= 10240,
        None => true,
    })) && (mode == FailureMode::Denylist ==> (match spec_denylist_of(m) {
        Some(ps) => forall|i: int| 0 <= i < ps.len() ==> regex_valid(#[trigger] ps[i]),
        None => true,
    })) && (mode == FailureMode::Timeout ==> (match spec_num_of(m, "timeout_buffer_ms"@) {
        Some(b) => b >= 0,
        None => true,
    }))
}

/// The latency bounds: non-negative, and the least at most the greatest.
pub open spec fn spec_latency_ranges_ok(m: RawMembers) -> bool {
    (match spec_num_of(m, "min_latency"@) {
        Some(v) => v >= 0,
        None => true,
    }) && (match spec_num_of(m, "max_latency"@) {
        Some(v) => v >= 0,
        None => true,
    }) && (match (spec_num_of(m, "min_latency"@), spec_num_of(m, "max_latency"@)) {
        (Some(lo), Some(hi)) => lo <= hi,
        _ => true,
    })
}

/// The flag a raw flag object denotes.
pub open spec fn spec_flag_of(m: RawMembers) -> SpecFlagValue {
    SpecFlagValue {
        enabled: spec_enabled_of(m),
        percentage: spec_pct_of(m),
        min_latency: spec_num_of(m, "min_latency"@),
        max_latency: spec_num_of(m, "max_latency"@),
        exception_msg: spec_str_of(m, "exception_msg"@),
        status_code: spec_code_of(m),
        disk_space: spec_disk_of(m),
        deny_list: spec_denylist_of(m),
        timeout_buffer_ms: spec_num_of(m, "timeout_buffer_ms"@),
        body: spec_str_of(m, "body"@),
        match_conditions: spec_conds_of(m),
    }
}

/// The flag the configuration object's `mode` entry denotes: present and
/// valid, or dropped.
pub open spec fn spec_parse_mode(mode: FailureMode, m: RawMembers) -> Option<SpecFlagValue> {
    match spec_member_lookup(m, spec_mode_name(mode)) {
        Some(SpecJson::Object(fm)) => if spec_flag_ok(mode, fm) {
            Some(spec_flag_of(fm))
        } else {
            None
        },
        _ => None,
    }
}

/// The configuration a raw document denotes: empty unless the document is
/// an object; each known key kept only if its flag passes validation;
/// unknown keys dropped.
pub open spec fn spec_parse_flags(raw: SpecJson) -> SpecFlagConfig {
    match raw {
        SpecJson::Object(m) => SpecFlagConfig {
            latency: spec_parse_mode(FailureMode::Latency, m),
            timeout: spec_parse_mode(FailureMode::Timeout, m),
            diskspace: spec_parse_mode(FailureMode::Diskspace, m),
            denylist: spec_parse_mode(FailureMode::Denylist, m),
            statuscode: spec_parse_mode(FailureMode::Statuscode, m),
            exception: spec_parse_mode(FailureMode::Exception, m),
            corruption: spec_parse_mode(FailureMode::Corruption, m),
        },
        _ => spec_empty_config(),
    }
}

// ---------------------------------------------------------------------------
// The executable parser and validator.
// ---------------------------------------------------------------------------

/// The condition a raw condition denotes, when it is typed and valid.
fn parse_condition(o: &JsonValue) -> (r: Option<MatchCondition>)
    ensures
        match r {
            Some(c) => spec_cond_typed(o@) && spec_cond_valid(spec_cond_of(o@)) && c@
                == spec_cond_of(o@),
            None => !(spec_cond_typed(o@) && spec_cond_valid(spec_cond_of(o@))),
        },
{
    let cm = match o {
        JsonValue::Object(cm) => cm,
        _ => {
            return None;
        },
    };
    let path: String = match crate::json::object_get(cm, "path") {
        Some(JsonValue::String(s)) => s.clone(),
        _ => {
            return None;
        },
    };
    let value: Option<String> = match crate::json::object_get(cm, "value") {
        None => None,
        Some(JsonValue::String(s)) => Some(s.clone()),
        Some(JsonValue::Null) => None,
        Some(_) => {
            return None;
        },
    };
    let operator: Option<MatchOperator> = match crate::json::object_get(cm, "operator") {
        None => None,
        Some(JsonValue::Null) => None,
        Some(JsonValue::String(s)) => {
            if crate::text::str_eq(s.as_str(), "eq") {
                Some(MatchOperator::Eq)
            } else if crate::text::str_eq(s.as_str(), "exists") {
                Some(MatchOperator::Exists)
            } else if crate::text::str_eq(s.as_str(), "startsWith") {
                Some(MatchOperator::StartsWith)
            } else if crate::text::str_eq(s.as_str(), "regex") {
                Some(MatchOperator::Regex)
            } else {
                return None;
            }
        },
        Some(_) => {
            return None;
        },
    };
    if path.as_str().is_empty() {
        return None;
    }
    let op = match operator {
        Some(op) => op,
        None => MatchOperator::Eq,
    };
    if op != MatchOperator::Exists && value.is_none() {
        return None;
    }
    if op == MatchOperator::Regex {
        match &value {
            Some(v) => {
                if !crate::regexes::regex_compiles(v.as_str()) {
                    return None;
                }
            },
            None => {},
        }
    }
    Some(MatchCondition { path, value, operator })
}

/// The flag a raw flag object denotes for `mode`, when every field check
/// passes.
#[verifier::rlimit(100)]
#[verifier::loop_isolation(false)]
fn parse_mode_flag(mode: FailureMode, fm: &Vec<(String, JsonValue)>) -> (r: Option<FlagValue>)
    ensures
        ({
            let m = crate::json::spec_json_of_members(fm@);
            match r {
                Some(f) => spec_flag_ok(mode, m) && f@ == spec_flag_of(m),
                None => !spec_flag_ok(mode, m),
            }
        }),
{
    let ghost m = crate::json::spec_json_of_members(fm@);
    let enabled: bool = match crate::json::object_get(fm, "enabled") {
        Some(JsonValue::Bool(b)) => *b,
        _ => {
            return None;
        },
    };
    let percentage: Option<u32> = match crate::json::object_get(fm, "percentage") {
        None => None,
        Some(JsonValue::Number(k)) => {
            if *k % 1000 == 0 && *k >= 0 && *k <= 100000 {
                Some((*k / 1000) as u32)
            } else {
                return None;
            }
        },
        Some(_) => {
            return None;
        },
    };
    let min_latency: Option<i64> = match crate::json::object_get(fm, "min_latency") {
        None => None,
        Some(JsonValue::Number(k)) => Some(*k),
        Some(_) => {
            return None;
        },
    };
    let max_latency: Option<i64> = match crate::json::object_get(fm, "max_latency") {
        None => None,
        Some(JsonValue::Number(k)) => Some(*k),
        Some(_) => {
            return None;
        },
    };
    let timeout_buffer_ms: Option<i64> = match crate::json::object_get(fm, "timeout_buffer_ms") {
        None => None,
        Some(JsonValue::Number(k)) => Some(*k),
        Some(_) => {
            return None;
        },
    };
    let exception_msg: Option<String> = match crate::json::object_get(fm, "exception_msg") {
        None => None,
        Some(JsonValue::String(s)) => Some(s.clone()),
        Some(JsonValue::Null) => None,
        Some(_) => {
            return None;
        },
    };
    let body: Option<String> = match crate::json::object_get(fm, "body") {
        None => None,
        Some(JsonValue::String(s)) => Some(s.clone()),
        Some(JsonValue::Null) => None,
        Some(_) => {
            return None;
        },
    };
    let status_code: Option<u16> = match crate::json::object_get(fm, "status_code") {
        None => None,
        Some(JsonValue::Number(k)) => {
            if *k % 1000 == 0 && *k >= 0 && *k <= 65535000 {
                Some((*k / 1000) as u16)
            } else {
                return None;
            }
        },
        Some(_) => {
            return None;
        },
    };
    let disk_space: Option<u32> = match crate::json::object_get(fm, "disk_space") {
        None => None,
        Some(JsonValue::Number(k)) => {
            if *k % 1000 == 0 && *k >= 0 && *k <= 4294967295000i64 {
                Some((*k / 1000) as u32)
            } else {
                return None;
            }
        },
        Some(_) => {
            return None;
        },
    };
    let deny_list: Option<Vec<String>> = match crate::json::object_get(fm, "deny_list") {
        None => None,
        Some(JsonValue::Array(items)) => {
            let mut out: Vec<String> = Vec::new();
            let mut i: usize = 0;
            while i < items.len()
                invariant
                    spec_member_lookup(m, "deny_list"@) == Some(
                        SpecJson::Array(crate::json::spec_json_of_seq(items@)),
                    ),
                    i <= items@.len(),
                    out@.len() == i,
                    forall|j: int| 0 <= j < i ==> (#[trigger] items@[j].spec_json()) is String,
                    forall|j: int|
                        0 <= j < i ==> #[trigger] out@[j]@ == items@[j].spec_json()->String_0,
                decreases items@.len() - i,
            {
                match &items[i] {
                    JsonValue::String(s) => {
                        out.push(s.clone());
                    },
                    _ => {
                        proof {
                            crate::json::lemma_spec_json_of_seq(items@);
                            let abs = crate::json::spec_json_of_seq(items@);
                            assert(spec_member_lookup(m, "deny_list"@) == Some(
                                SpecJson::Array(abs),
                            ));
                            assert(abs[i as int] == items@[i as int].spec_json());
                            assert(!(abs[i as int] is String));
                            assert(!spec_denylist_ok(m));
                            assert(!spec_flag_ok(mode, m));
                        }
                        return None;
                    },
                }
                i += 1;
            }
            proof {
                crate::json::lemma_spec_json_of_seq(items@);
                let abs = crate::json::spec_json_of_seq(items@);
                assert forall|j: int| 0 <= j < abs.len() implies (#[trigger] abs[j]) is String by {
                    assert(abs[j] == items@[j].spec_json());
                }
                assert(spec_strings_view(out@) =~= Seq::new(
                    abs.len(),
                    |i: int| abs[i]->String_0,
                ));
            }
            Some(out)
        },
        Some(_) => {
            return None;
        },
    };
    let match_conditions: Option<Vec<MatchCondition>> = match crate::json::object_get(fm, "match") {
        None => None,
        Some(JsonValue::Array(items)) => {
            let mut out: Vec<MatchCondition> = Vec::new();
            let mut i: usize = 0;
            while i < items.len()
                invariant
                    spec_member_lookup(m, "match"@) == Some(
                        SpecJson::Array(crate::json::spec_json_of_seq(items@)),
                    ),
                    i <= items@.len(),
                    out@.len() == i,
                    forall|j: int|
                        0 <= j < i ==> spec_cond_typed(#[trigger] items@[j].spec_json())
                            && spec_cond_valid(spec_cond_of(items@[j].spec_json())),
                    forall|j: int| 0 <= j < i ==> #[trigger] out@[j]@ == spec_cond_of(
                        items@[j].spec_json(),
                    ),
                decreases items@.len() - i,
            {
                match parse_condition(&items[i]) {
                    Some(c) => {
                        out.push(c);
                    },
                    None => {
                        proof {
                            crate::json::lemma_spec_json_of_seq(items@);
                            let abs = crate::json::spec_json_of_seq(items@);
                            assert(spec_member_lookup(m, "match"@) == Some(SpecJson::Array(abs)));
                            assert(abs[i as int] == items@[i as int].spec_json());
                            assert(!(spec_cond_typed(abs[i as int]) && spec_cond_valid(
                                spec_cond_of(abs[i as int]),
                            )));
                            assert(!spec_conds_ok(m));
                            assert(!spec_flag_ok(mode, m));
                        }
                        return None;
                    },
                }
                i += 1;
            }
            proof {
                crate::json::lemma_spec_json_of_seq(items@);
                let abs = crate::json::spec_json_of_seq(items@);
                assert forall|j: int| 0 <= j < abs.len() implies spec_cond_typed(
                    #[trigger] abs[j],
                ) && spec_cond_valid(spec_cond_of(abs[j])) by {
                    assert(abs[j] == items@[j].spec_json());
                }
                assert(spec_conditions_view(out@) =~= Seq::new(
                    abs.len(),
                    |i: int| spec_cond_of(abs[i]),
                ));
            }
            Some(out)
        },
        Some(_) => {
            return None;
        },
    };
    // Mode-specific range checks.
    match mode {
        FailureMode::Latency => {
            match min_latency {
                Some(v) => {
                    if v < 0 {
                        return None;
                    }
                },
                None => {},
            }
            match max_latency {
                Some(v) => {
                    if v < 0 {
                        return None;
                    }
                },
                None => {},
            }
            match (min_latency, max_latency) {
                (Some(lo), Some(hi)) => {
                    if lo > hi {
                        return None;
                    }
                },
                _ => {},
            }
        },
        FailureMode::Statuscode => {
            match status_code {
                Some(c) => {
                    if c < 100 || c > 599 {
                        return None;
                    }
                },
                None => {},
            }
        },
        FailureMode::Diskspace => {
            match disk_space {
                Some(d) => {
                    if d < 1 || d > 10240 {
                        return None;
                    }
                },
                None => {},
            }
        },
        FailureMode::Denylist => {
            match &deny_list {
                Some(ps) => {
                    let mut i: usize = 0;
                    while i < ps.len()
                        invariant
                            i <= ps@.len(),
                            spec_denylist_of(m) == Some(spec_strings_view(ps@)),
                            forall|j: int| 0 <= j < i ==> regex_valid(#[trigger] ps@[j]@),
                        decreases ps@.len() - i,
                    {
                        if !crate::regexes::regex_compiles(ps[i].as_str()) {
                            proof {
                                assert(spec_strings_view(ps@)[i as int] == ps@[i as int]@);
                                assert(!regex_valid(spec_strings_view(ps@)[i as int]));
                                assert(spec_denylist_of(m) == Some(spec_strings_view(ps@)));
                                assert(!(match spec_denylist_of(m) {
                                    Some(ps2) => forall|j: int|
                                        0 <= j < ps2.len() ==> regex_valid(#[trigger] ps2[j]),
                                    None => true,
                                }));
                                assert(!spec_flag_ok(mode, m));
                            }
                            return None;
                        }
                        i += 1;
                    }
                    proof {
                        assert forall|j: int|
                            0 <= j < spec_strings_view(ps@).len() implies regex_valid(
                            #[trigger] spec_strings_view(ps@)[j],
                        ) by {
                            assert(spec_strings_view(ps@)[j] == ps@[j]@);
                        }
                    }
                },
                None => {},
            }
        },
        FailureMode::Timeout => {
            match timeout_buffer_ms {
                Some(b) => {
                    if b < 0 {
                        return None;
                    }
                },
                None => {},
            }
        },
        _ => {},
    }
    Some(
        FlagValue {
            enabled,
            percentage,
            min_latency,
            max_latency,
            exception_msg,
            status_code,
            disk_space,
            deny_list,
            timeout_buffer_ms,
            body,
            match_conditions,
        },
    )
}

/// The flag a configuration entry denotes for `mode`: the entry must be an
/// object and pass validation, or the mode is dropped.
fn parse_mode_entry(mode: FailureMode, entry: Option<&JsonValue>, Ghost(m): Ghost<RawMembers>) -> (r:
    Option<FlagValue>)
    requires
        match entry {
            Some(v) => spec_member_lookup(m, spec_mode_name(mode)) == Some(v@),
            None => spec_member_lookup(m, spec_mode_name(mode)) is None,
        },
    ensures
        spec_opt_flag_view(r) == spec_parse_mode(mode, m),
{
    match entry {
        Some(JsonValue::Object(fm)) => parse_mode_flag(mode, fm),
        _ => None,
    }
}

/// The configuration a raw document denotes. Total: a document that is not
/// an object gives the empty configuration; each known key is kept only if
/// its flag passes every field check; unknown keys are dropped.
pub fn parse_flags(raw: &JsonValue) -> (r: FlagConfig)
    ensures
        r@ == spec_parse_flags(raw@),
{
    match raw {
        JsonValue::Object(members) => {
            let ghost m = crate::json::spec_json_of_members(members@);
            FlagConfig {
                latency: parse_mode_entry(
                    FailureMode::Latency,
                    crate::json::object_get(members, "latency"),
                    Ghost(m),
                ),
                timeout: parse_mode_entry(
                    FailureMode::Timeout,
                    crate::json::object_get(members, "timeout"),
                    Ghost(m),
                ),
                diskspace: parse_mode_entry(
                    FailureMode::Diskspace,
                    crate::json::object_get(members, "diskspace"),
                    Ghost(m),
                ),
                denylist: parse_mode_entry(
                    FailureMode::Denylist,
                    crate::json::object_get(members, "denylist"),
                    Ghost(m),
                ),
                statuscode: parse_mode_entry(
                    FailureMode::Statuscode,
                    crate::json::object_get(members, "statuscode"),
                    Ghost(m),
                ),
                exception: parse_mode_entry(
                    FailureMode::Exception,
                    crate::json::object_get(members, "exception"),
                    Ghost(m),
                ),
                corruption: parse_mode_entry(
                    FailureMode::Corruption,
                    crate::json::object_get(members, "corruption"),
                    Ghost(m),
                ),
            }
        },
        _ => FlagConfig::empty(),
    }
}

// ---------------------------------------------------------------------------
// Resolution into the canonical execution order.
// ---------------------------------------------------------------------------

/// A failure resolved and ready to inject.
pub struct ResolvedFailure {
    /// The failure mode.
    pub mode: FailureMode,
    /// The effective injection probability, in percent.
    pub percentage: u32,
    /// The flag it came from.
    pub flag: FlagValue,
}

/// The abstraction of a [`ResolvedFailure`].
pub struct SpecResolvedFailure {
    pub mode: FailureMode,
    pub percentage: u32,
    pub flag: SpecFlagValue,
}

impl View for ResolvedFailure {
    type V = SpecResolvedFailure;

    open spec fn view(&self) -> SpecResolvedFailure {
        SpecResolvedFailure { mode: self.mode, percentage: self.percentage, flag: self.flag@ }
    }
}

impl ResolvedFailure {
    /// A copy with the same abstraction.
    pub fn duplicate(&self) -> (r: Self)
        ensures
            r@ == self@,
    {
        ResolvedFailure {
            mode: self.mode,
            percentage: self.percentage,
            flag: self.flag.duplicate(),
        }
    }
}

/// The abstraction of each resolved failure in a vector.
pub open spec fn spec_resolved_view(v: Seq<ResolvedFailure>) -> Seq<SpecResolvedFailure> {
    Seq::new(v.len(), |i: int| v[i]@)
}

/// A flag's effective percentage: one hundred when absent, clamped to one
/// hundred otherwise.
pub open spec fn spec_clamped_pct(f: SpecFlagValue) -> u32 {
    match f.percentage {
        Some(p) => if p > 100 {
            100
        } else {
            p
        },
        None => 100,
    }
}

/// The resolved entries one mode contributes: one if its flag is set and
/// enabled, none otherwise.
pub open spec fn spec_resolve_one(mode: FailureMode, f: Option<SpecFlagValue>) -> Seq<
    SpecResolvedFailure,
> {
    match f {
        Some(fv) => if fv.enabled {
            seq![SpecResolvedFailure { mode, percentage: spec_clamped_pct(fv), flag: fv }]
        } else {
            Seq::empty()
        },
        None => Seq::empty(),
    }
}

/// The enabled flags, resolved, in the canonical execution order.
pub open spec fn spec_resolve(c: SpecFlagConfig) -> Seq<SpecResolvedFailure> {
    spec_resolve_one(FailureMode::Latency, c.latency) + spec_resolve_one(
        FailureMode::Timeout,
        c.timeout,
    ) + spec_resolve_one(FailureMode::Diskspace, c.diskspace) + spec_resolve_one(
        FailureMode::Denylist,
        c.denylist,
    ) + spec_resolve_one(FailureMode::Statuscode, c.statuscode) + spec_resolve_one(
        FailureMode::Exception,
        c.exception,
    ) + spec_resolve_one(FailureMode::Corruption, c.corruption)
}

/// Appends the entry `mode` contributes, if any.
fn push_resolved(out: &mut Vec<ResolvedFailure>, mode: FailureMode, f: &Option<FlagValue>)
    ensures
        spec_resolved_view(final(out)@) == spec_resolved_view(old(out)@) + spec_resolve_one(
            mode,
            spec_opt_flag_view(*f),
        ),
{
    match f {
        Some(fv) => {
            if fv.enabled {
                let percentage: u32 = match fv.percentage {
                    Some(p) => if p > 100 {
                        100
                    } else {
                        p
                    },
                    None => 100,
                };
                out.push(ResolvedFailure { mode, percentage, flag: fv.duplicate() });
                proof {
                    assert(spec_resolved_view(out@) =~= spec_resolved_view(old(out)@)
                        + spec_resolve_one(mode, spec_opt_flag_view(*f)));
                }
            } else {
                proof {
                    assert(spec_resolved_view(out@) =~= spec_resolved_view(old(out)@)
                        + spec_resolve_one(mode, spec_opt_flag_view(*f)));
                }
            }
        },
        None => {
            proof {
                assert(spec_resolved_view(out@) =~= spec_resolved_view(old(out)@)
                    + spec_resolve_one(mode, spec_opt_flag_view(*f)));
            }
        },
    }
}

/// The enabled flags of `config`, resolved into the canonical execution
/// order, each with its effective percentage.
pub fn resolve_failures(config: &FlagConfig) -> (r: Vec<ResolvedFailure>)
    ensures
        spec_resolved_view(r@) == spec_resolve(config@),
{
    let mut r: Vec<ResolvedFailure> = Vec::new();
    proof {
        assert(spec_resolved_view(r@) =~= Seq::<SpecResolvedFailure>::empty());
    }
    push_resolved(&mut r, FailureMode::Latency, &config.latency);
    push_resolved(&mut r, FailureMode::Timeout, &config.timeout);
    push_resolved(&mut r, FailureMode::Diskspace, &config.diskspace);
    push_resolved(&mut r, FailureMode::Denylist, &config.denylist);
    push_resolved(&mut r, FailureMode::Statuscode, &config.statuscode);
    push_resolved(&mut r, FailureMode::Exception, &config.exception);
    push_resolved(&mut r, FailureMode::Corruption, &config.corruption);
    proof {
        assert(spec_resolved_view(r@) =~= spec_resolve(config@));
    }
    r
}

/// The resolved list holds exactly the enabled flags, strictly in the
/// canonical mode order: each entry's flag stands enabled in the
/// configuration under its mode, and mode positions strictly increase along
/// the list.
pub proof fn lemma_resolve_canonical(c: SpecFlagConfig)
    ensures
        forall|i: int|
            0 <= i < spec_resolve(c).len() ==> (#[trigger] spec_resolve(c)[i]).flag.enabled
                && spec_config_mode(c, spec_resolve(c)[i].mode) == Some(spec_resolve(c)[i].flag),
        forall|i: int, j: int|
            0 <= i < j < spec_resolve(c).len() ==> spec_mode_index(
                #[trigger] spec_resolve(c)[i].mode,
            ) < spec_mode_index(#[trigger] spec_resolve(c)[j].mode),
{
    let r = spec_resolve(c);
    assert forall|i: int|
        0 <= i < r.len() implies (#[trigger] r[i]).flag.enabled && spec_config_mode(c, r[i].mode)
        == Some(r[i].flag) by {
        lemma_resolve_entry(c, i);
    }
    assert forall|i: int, j: int|
        0 <= i < j < r.len() implies spec_mode_index(#[trigger] r[i].mode) < spec_mode_index(
        #[trigger] r[j].mode,
    ) by {
        lemma_resolve_entry(c, i);
        lemma_resolve_entry(c, j);
    }
}

/// Each resolved entry comes from its mode's enabled flag, and entries at
/// greater positions carry strictly later modes.
proof fn lemma_resolve_entry(c: SpecFlagConfig, i: int)
    requires
        0 <= i < spec_resolve(c).len(),
    ensures
        spec_resolve(c)[i].flag.enabled,
        spec_config_mode(c, spec_resolve(c)[i].mode) == Some(spec_resolve(c)[i].flag),
        spec_resolve(c)[i].percentage == spec_clamped_pct(spec_resolve(c)[i].flag),
        spec_mode_index(spec_resolve(c)[i].mode) >= i,
        forall|j: int|
            0 <= j < i ==> spec_mode_index(#[trigger] spec_resolve(c)[j].mode) < spec_mode_index(
                spec_resolve(c)[i].mode,
            ),
{
    let s0 = spec_resolve_one(FailureMode::Latency, c.latency);
    let s1 = spec_resolve_one(FailureMode::Timeout, c.timeout);
    let s2 = spec_resolve_one(FailureMode::Diskspace, c.diskspace);
    let s3 = spec_resolve_one(FailureMode::Denylist, c.denylist);
    let s4 = spec_resolve_one(FailureMode::Statuscode, c.statuscode);
    let s5 = spec_resolve_one(FailureMode::Exception, c.exception);
    let s6 = spec_resolve_one(FailureMode::Corruption, c.corruption);
    assert(spec_resolve(c) == s0 + s1 + s2 + s3 + s4 + s5 + s6);
    assert(s0.len() <= 1 && s1.len() <= 1 && s2.len() <= 1 && s3.len() <= 1 && s4.len() <= 1
        && s5.len() <= 1 && s6.len() <= 1);
}

/// Every effective percentage lies between zero and one hundred, and a flag
/// without a percentage resolves to one hundred.
pub proof fn lemma_resolve_percentages(c: SpecFlagConfig)
    ensures
        forall|i: int|
            0 <= i < spec_resolve(c).len() ==> 0 <= (#[trigger] spec_resolve(c)[i]).percentage
                <= 100,
        forall|i: int|
            0 <= i < spec_resolve(c).len() ==> ((#[trigger] spec_resolve(c)[i]).flag.percentage
                is None ==> spec_resolve(c)[i].percentage == 100),
{
    assert forall|i: int|
        0 <= i < spec_resolve(c).len() implies 0 <= (#[trigger] spec_resolve(c)[i]).percentage
        <= 100 && ((spec_resolve(c)[i]).flag.percentage is None ==> spec_resolve(c)[i].percentage
        == 100) by {
        lemma_resolve_entry(c, i);
        assert(spec_resolve(c)[i].percentage == spec_clamped_pct(spec_resolve(c)[i].flag));
    }
}

/// How many flags a configuration holds.
pub open spec fn spec_config_len(c: SpecFlagConfig) -> int {
    (if c.latency is Some {
        1int
    } else {
        0int
    }) + (if c.timeout is Some {
        1int
    } else {
        0int
    }) + (if c.diskspace is Some {
        1int
    } else {
        0int
    }) + (if c.denylist is Some {
        1int
    } else {
        0int
    }) + (if c.statuscode is Some {
        1int
    } else {
        0int
    }) + (if c.exception is Some {
        1int
    } else {
        0int
    }) + (if c.corruption is Some {
        1int
    } else {
        0int
    })
}


/// What validation guarantees of a kept flag: every range respected for
/// its mode, every pattern compiling, every condition well formed.
pub open spec fn spec_flag_value_valid(mode: FailureMode, f: SpecFlagValue) -> bool {
    (match f.percentage {
        Some(p) => p <= 100,
        None => true,
    }) && (mode == FailureMode::Latency ==> ((match f.min_latency {
        Some(v) => v >= 0,
        None => true,
    }) && (match f.max_latency {
        Some(v) => v >= 0,
        None => true,
    }) && (match (f.min_latency, f.max_latency) {
        (Some(lo), Some(hi)) => lo <= hi,
        _ => true,
    }))) && (mode == FailureMode::Statuscode ==> (match f.status_code {
        Some(c) => 100 <= c <= 599,
        None => true,
    })) && (mode == FailureMode::Diskspace ==> (match f.disk_space {
        Some(d) => 1 <= d <= 10240,
        None => true,
    })) && (mode == FailureMode::Denylist ==> (match f.deny_list {
        Some(ps) => forall|i: int| 0 <= i < ps.len() ==> regex_valid(#[trigger] ps[i]),
        None => true,
    })) && (mode == FailureMode::Timeout ==> (match f.timeout_buffer_ms {
        Some(b) => b >= 0,
        None => true,
    })) && (match f.match_conditions {
        Some(cs) => forall|i: int| 0 <= i < cs.len() ==> spec_cond_valid(#[trigger] cs[i]),
        None => true,
    })
}

/// Whether every set flag of a configuration is valid for its mode: what
/// parsing guarantees, and what the round trip and the cache rely on.
pub open spec fn spec_config_valid(c: SpecFlagConfig) -> bool {
    forall|mode: FailureMode|
        match #[trigger] spec_config_mode(c, mode) {
            Some(f) => spec_flag_value_valid(mode, f),
            None => true,
        }
}

/// Parsing is total, and every flag the returned configuration holds
/// passed its mode's validation.
pub proof fn lemma_parse_flags_valid(raw: SpecJson)
    ensures
        forall|mode: FailureMode|
            match #[trigger] spec_config_mode(spec_parse_flags(raw), mode) {
                Some(f) => spec_flag_value_valid(mode, f),
                None => true,
            },
{
    assert forall|mode: FailureMode|
        match #[trigger] spec_config_mode(spec_parse_flags(raw), mode) {
            Some(f) => spec_flag_value_valid(mode, f),
            None => true,
        } by {
        match spec_config_mode(spec_parse_flags(raw), mode) {
            Some(f) => {
                let m = raw->Object_0;
                lemma_flag_of_valid(mode, spec_member_lookup(m, spec_mode_name(mode))->0->Object_0);
            },
            None => {},
        }
    }
}

/// A flag object that passes every check denotes a valid flag.
proof fn lemma_flag_of_valid(mode: FailureMode, m: RawMembers)
    requires
        spec_flag_ok(mode, m),
    ensures
        spec_flag_value_valid(mode, spec_flag_of(m)),
{
    let f = spec_flag_of(m);
    match f.percentage {
        Some(p) => {
            assert(p <= 100);
        },
        None => {},
    }
    match f.match_conditions {
        Some(cs) => {
            assert forall|i: int| 0 <= i < cs.len() implies spec_cond_valid(#[trigger] cs[i]) by {
                let items = spec_member_lookup(m, "match"@)->0->Array_0;
                assert(cs[i] == spec_cond_of(items[i]));
            }
        },
        None => {},
    }
}

} // verus!\n