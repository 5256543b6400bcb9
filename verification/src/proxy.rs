//! The invocation orchestrator: request routing, the per-invocation state
//! table, the plan an invocation's resolved failures produce, and the
//! response- and error-phase decisions. The surrounding process performs
//! the sleeps, file writes, and HTTP calls a plan calls for, and reports
//! back what only it can know.

use vstd::prelude::*;

use crate::config::{spec_resolved_view, FailureMode, ResolvedFailure, SpecResolvedFailure};
use crate::failures::{
    spec_corrupt, spec_exception_payload, spec_fill_file_name, spec_latency_ms,
    spec_statuscode_payload, spec_timeout_sleep_ms,
};
use crate::json::{JsonValue, SpecJson};
use crate::json_text::{spec_ser, to_json_text};
use crate::matching::{matches_conditions, spec_matches};
use crate::rng::{sample_in_range, RandSample};
use crate::text::{spec_is_suffix, spec_seq_view, spec_split_on, str_contains, str_ends_with, str_eq};

verus! {

// ---------------------------------------------------------------------------
// Request routing.
// ---------------------------------------------------------------------------

/// Where a request goes.
pub enum Route {
    /// The runtime asks for its next event.
    InvocationNext,
    /// The runtime reports a result for the invocation named in the path.
    InvocationResponse { request_id: String },
    /// The runtime reports an error for the invocation named in the path.
    InvocationError { request_id: String },
    /// Anything else is forwarded untouched.
    Passthrough,
}

/// The request identifier in an invocation path: the part before the final
/// path segment, when the path has at least five slash-separated parts.
pub open spec fn spec_extract_request_id(path: Seq<char>) -> Seq<char> {
    let parts = spec_split_on(path, '/');
    if parts.len() >= 5 {
        parts[parts.len() - 2]
    } else {
        Seq::empty()
    }
}

/// The request identifier in an invocation path, or empty when the path is
/// too short.
pub fn extract_request_id_from_path(path: &str) -> (r: String)
    ensures
        r@ == spec_extract_request_id(path@),
{
    let parts = crate::text::split_on(path, '/');
    if parts.len() >= 5 {
        let r = parts[parts.len() - 2].clone();
        proof {
            assert(spec_seq_view(parts@)[parts@.len() - 2] == parts@[parts@.len() - 2]@);
        }
        r
    } else {
        String::new()
    }
}

/// The kind of route a request takes.
pub enum SpecRouteKind {
    Next,
    Response,
    Error,
    Passthrough,
}

/// The route a request takes.
pub open spec fn spec_classify(method: Seq<char>, path: Seq<char>) -> SpecRouteKind {
    if method == "GET"@ && spec_is_suffix(path, "/runtime/invocation/next"@) {
        SpecRouteKind::Next
    } else if method == "POST"@ && crate::text::spec_contains_seq(path, "/runtime/invocation/"@) {
        if spec_is_suffix(path, "/response"@) {
            SpecRouteKind::Response
        } else if spec_is_suffix(path, "/error"@) {
            SpecRouteKind::Error
        } else {
            SpecRouteKind::Passthrough
        }
    } else {
        SpecRouteKind::Passthrough
    }
}

/// Whether a route is the one the request's method and path call for,
/// carrying the path's request identifier where one applies.
pub open spec fn spec_route_matches(r: Route, method: Seq<char>, path: Seq<char>) -> bool {
    match spec_classify(method, path) {
        SpecRouteKind::Next => r is InvocationNext,
        SpecRouteKind::Response => r is InvocationResponse && (r->InvocationResponse_request_id)@
            == spec_extract_request_id(path),
        SpecRouteKind::Error => r is InvocationError && (r->InvocationError_request_id)@
            == spec_extract_request_id(path),
        SpecRouteKind::Passthrough => r is Passthrough,
    }
}

/// The route a request takes: the next-event path, a result or error report
/// with its request identifier, or transparent passthrough.
pub fn classify_request(method: &str, path: &str) -> (r: Route)
    ensures
        spec_route_matches(r, method@, path@),
{
    if str_eq(method, "GET") && str_ends_with(path, "/runtime/invocation/next") {
        Route::InvocationNext
    } else if str_eq(method, "POST") && str_contains(path, "/runtime/invocation/") {
        if str_ends_with(path, "/response") {
            Route::InvocationResponse { request_id: extract_request_id_from_path(path) }
        } else if str_ends_with(path, "/error") {
            Route::InvocationError { request_id: extract_request_id_from_path(path) }
        } else {
            Route::Passthrough
        }
    } else {
        Route::Passthrough
    }
}

/// Whether the kill switch disables all injection: the environment value
/// must be exactly `true`.
pub fn kill_switch_active(env_value: Option<&String>) -> (r: bool)
    ensures
        r == (match env_value {
            Some(v) => v@ == "true"@,
            None => false,
        }),
{
    match env_value {
        Some(v) => str_eq(v.as_str(), "true"),
        None => false,
    }
}

// ---------------------------------------------------------------------------
// The per-invocation state table.
// ---------------------------------------------------------------------------

/// What one in-flight invocation carries from its beginning to its end.
pub struct InvocationRecord {
    /// The event handed to the runtime, for condition matching.
    pub event: JsonValue,
    /// The resolved corruption failures deferred to the response phase.
    pub deferred: Vec<ResolvedFailure>,
    /// Whether this invocation installed the denylist file.
    pub denylist_active: bool,
}

/// The abstraction of an [`InvocationRecord`].
pub struct SpecInvocationRecord {
    pub event: SpecJson,
    pub deferred: Seq<SpecResolvedFailure>,
    pub denylist_active: bool,
}

impl View for InvocationRecord {
    type V = SpecInvocationRecord;

    open spec fn view(&self) -> SpecInvocationRecord {
        SpecInvocationRecord {
            event: self.event@,
            deferred: spec_resolved_view(self.deferred@),
            denylist_active: self.denylist_active,
        }
    }
}

/// The orchestrator's table of in-flight invocations, keyed by request
/// identifier.
pub struct ProxyCore {
    /// The in-flight entries, in insertion order.
    pub invocations: Vec<(String, InvocationRecord)>,
}

/// The abstraction of the table.
pub open spec fn spec_table_view(v: Seq<(String, InvocationRecord)>) -> Seq<
    (Seq<char>, SpecInvocationRecord),
> {
    Seq::new(v.len(), |i: int| (v[i].0@, v[i].1@))
}

/// Whether any entry of the table installed the denylist.
pub open spec fn spec_any_denylist(t: Seq<(Seq<char>, SpecInvocationRecord)>) -> bool {
    exists|i: int| 0 <= i < t.len() && (#[trigger] t[i]).1.denylist_active
}

/// The table without the entries keyed `key`.
pub open spec fn spec_table_remove(
    t: Seq<(Seq<char>, SpecInvocationRecord)>,
    key: Seq<char>,
) -> Seq<(Seq<char>, SpecInvocationRecord)>
    decreases t.len(),
{
    if t.len() == 0 {
        t
    } else if t[0].0 == key {
        spec_table_remove(t.drop_first(), key)
    } else {
        seq![t[0]] + spec_table_remove(t.drop_first(), key)
    }
}

/// The first record keyed `key`, if any.
pub open spec fn spec_table_lookup(
    t: Seq<(Seq<char>, SpecInvocationRecord)>,
    key: Seq<char>,
) -> Option<SpecInvocationRecord>
    decreases t.len(),
{
    if t.len() == 0 {
        None
    } else if t[0].0 == key {
        Some(t[0].1)
    } else {
        spec_table_lookup(t.drop_first(), key)
    }
}

/// After removal, no entry keyed `key` remains.
pub proof fn lemma_table_remove_clears(t: Seq<(Seq<char>, SpecInvocationRecord)>, key: Seq<char>)
    ensures
        forall|i: int|
            0 <= i < spec_table_remove(t, key).len() ==> (#[trigger] spec_table_remove(t, key)[i]).0
                != key,
    decreases t.len(),
{
    if t.len() > 0 {
        lemma_table_remove_clears(t.drop_first(), key);
        let rest = spec_table_remove(t.drop_first(), key);
        if t[0].0 == key {
        } else {
            assert forall|i: int|
                0 <= i < spec_table_remove(t, key).len() implies (#[trigger] spec_table_remove(
                t,
                key,
            )[i]).0 != key by {
                if i > 0 {
                    assert(spec_table_remove(t, key)[i] == rest[i - 1]);
                }
            }
        }
    }
}

impl ProxyCore {
    /// An empty table.
    pub fn new() -> (r: Self)
        ensures
            spec_table_view(r.invocations@) =~= Seq::<(Seq<char>, SpecInvocationRecord)>::empty(),
    {
        ProxyCore { invocations: Vec::new() }
    }

    /// The cross-invocation cleanup at the start of every next-event
    /// request: empties the table and says whether any cleared entry had
    /// installed the denylist, in which case the denylist file must go.
    pub fn begin_cleanup(&mut self) -> (remove_denylist: bool)
        ensures
            spec_table_view(final(self).invocations@) =~= Seq::<
                (Seq<char>, SpecInvocationRecord),
            >::empty(),
            remove_denylist == spec_any_denylist(spec_table_view(old(self).invocations@)),
    {
        let ghost t = spec_table_view(self.invocations@);
        let mut had = false;
        let mut i: usize = 0;
        while i < self.invocations.len()
            invariant
                t == spec_table_view(self.invocations@),
                i <= self.invocations@.len(),
                had == exists|j: int| 0 <= j < i && (#[trigger] t[j]).1.denylist_active,
            decreases self.invocations@.len() - i,
        {
            if self.invocations[i].1.denylist_active {
                proof {
                    assert(t[i as int].1.denylist_active);
                }
                had = true;
            }
            i += 1;
        }
        self.invocations = Vec::new();
        had
    }

    /// Stores one in-flight record under its request identifier.
    pub fn register(&mut self, request_id: String, record: InvocationRecord)
        ensures
            spec_table_view(final(self).invocations@) == spec_table_view(
                old(self).invocations@,
            ).push((request_id@, record@)),
    {
        let ghost t = spec_table_view(self.invocations@);
        self.invocations.push((request_id, record));
        proof {
            assert(spec_table_view(self.invocations@) =~= t.push(
                (self.invocations@.last().0@, self.invocations@.last().1@),
            ));
        }
    }

    /// Removes and returns the record for `request_id`, if any; afterwards
    /// no entry for `request_id` remains.
    pub fn take(&mut self, request_id: &str) -> (r: Option<InvocationRecord>)
        ensures
            spec_table_view(final(self).invocations@) == spec_table_remove(
                spec_table_view(old(self).invocations@),
                request_id@,
            ),
            match r {
                Some(rec) => spec_table_lookup(
                    spec_table_view(old(self).invocations@),
                    request_id@,
                ) == Some(rec@),
                None => spec_table_lookup(spec_table_view(old(self).invocations@), request_id@)
                    is None,
            },
    {
        let ghost t0 = spec_table_view(self.invocations@);
        let mut kept: Vec<(String, InvocationRecord)> = Vec::new();
        let mut found: Option<InvocationRecord> = None;
        proof {
            assert(t0.skip(0) =~= t0);
            assert(spec_table_view(kept@) =~= Seq::<(Seq<char>, SpecInvocationRecord)>::empty());
        }
        while self.invocations.len() > 0
            invariant
                t0 == spec_table_view(old(self).invocations@),
                spec_table_remove(t0, request_id@) == spec_table_view(kept@) + spec_table_remove(
                    spec_table_view(self.invocations@),
                    request_id@,
                ),
                match found {
                    Some(rec) => spec_table_lookup(t0, request_id@) == Some(rec@),
                    None => spec_table_lookup(t0, request_id@) == spec_table_lookup(
                        spec_table_view(self.invocations@),
                        request_id@,
                    ),
                },
            decreases self.invocations@.len(),
        {
            let ghost cur = spec_table_view(self.invocations@);
            proof {
                assert(cur[0] == (self.invocations@[0].0@, self.invocations@[0].1@));
                assert(spec_table_view(self.invocations@.drop_first()) =~= cur.drop_first());
            }
            let (key, rec) = self.invocations.remove(0);
            if str_eq(key.as_str(), request_id) {
                if found.is_none() {
                    found = Some(rec);
                }
            } else {
                let ghost kv = spec_table_view(kept@);
                kept.push((key, rec));
                proof {
                    assert(spec_table_view(kept@) =~= kv.push(
                        (kept@.last().0@, kept@.last().1@),
                    ));
                    assert(kv + (seq![cur[0]] + spec_table_remove(cur.drop_first(), request_id@))
                        =~= (kv + seq![cur[0]]) + spec_table_remove(cur.drop_first(), request_id@));
                }
            }
        }
        proof {
            assert(spec_table_view(self.invocations@) =~= Seq::<
                (Seq<char>, SpecInvocationRecord),
            >::empty());
            assert(spec_table_view(kept@) + Seq::<(Seq<char>, SpecInvocationRecord)>::empty()
                =~= spec_table_view(kept@));
        }
        self.invocations = kept;
        found
    }
}

// ---------------------------------------------------------------------------
// The invocation plan.
// ---------------------------------------------------------------------------

/// One effect to perform before the event is answered.
pub enum PreAction {
    /// Sleep for this many milliseconds.
    Sleep { ms: u64 },
    /// Write this many one-mebibyte chunks into the scratch directory under
    /// this name.
    FillDisk { file_name: String, chunks_mb: u32 },
    /// Install the denylist file with these patterns, atomically.
    InstallDenylist { patterns: Vec<String> },
}

/// How the invocation ends at the proxy.
pub enum Terminal {
    /// Hand the event to the runtime.
    Deliver,
    /// Post this body upstream as the invocation's result, and pull another
    /// event; the runtime never sees this invocation.
    PostResponse { body: String },
    /// Post this body upstream as the invocation's error, and pull another
    /// event; the runtime never sees this invocation.
    PostError { body: String },
}

/// What one invocation's resolved failures call for.
pub struct InvocationPlan {
    /// The effects to perform, in order, before the terminal step.
    pub pre_actions: Vec<PreAction>,
    /// How the invocation ends.
    pub terminal: Terminal,
    /// The corruption failures deferred to the response phase.
    pub deferred: Vec<ResolvedFailure>,
}

/// The abstraction of a [`PreAction`].
pub enum SpecPreAction {
    Sleep(int),
    FillDisk(Seq<char>, u32),
    InstallDenylist(Seq<Seq<char>>),
}

/// The abstraction of a [`Terminal`].
pub enum SpecTerminal {
    Deliver,
    PostResponse(Seq<char>),
    PostError(Seq<char>),
}

/// The abstraction of an [`InvocationPlan`].
#[verifier::ext_equal]
pub struct SpecInvocationPlan {
    pub pre_actions: Seq<SpecPreAction>,
    pub terminal: SpecTerminal,
    pub deferred: Seq<SpecResolvedFailure>,
}

/// The abstraction of one pre-action.
pub open spec fn spec_pre_action_view(a: PreAction) -> SpecPreAction {
    match a {
        PreAction::Sleep { ms } => SpecPreAction::Sleep(ms as int),
        PreAction::FillDisk { file_name, chunks_mb } => SpecPreAction::FillDisk(
            file_name@,
            chunks_mb,
        ),
        PreAction::InstallDenylist { patterns } => SpecPreAction::InstallDenylist(
            crate::config::spec_strings_view(patterns@),
        ),
    }
}

/// The abstraction of a terminal step.
pub open spec fn spec_terminal_view(t: Terminal) -> SpecTerminal {
    match t {
        Terminal::Deliver => SpecTerminal::Deliver,
        Terminal::PostResponse { body } => SpecTerminal::PostResponse(body@),
        Terminal::PostError { body } => SpecTerminal::PostError(body@),
    }
}

/// The abstraction of a plan.
pub open spec fn spec_plan_view(p: InvocationPlan) -> SpecInvocationPlan {
    SpecInvocationPlan {
        pre_actions: Seq::new(p.pre_actions@.len(), |i: int| spec_pre_action_view(p.pre_actions@[i])),
        terminal: spec_terminal_view(p.terminal),
        deferred: spec_resolved_view(p.deferred@),
    }
}

/// Whether a resolved failure is taken this invocation: its conditions, if
/// any, match the event, and the roll clears its percentage.
pub open spec fn spec_failure_taken(f: SpecResolvedFailure, event: SpecJson, s: RandSample) -> bool {
    (match f.flag.match_conditions {
        Some(cs) => spec_matches(event, cs),
        None => true,
    }) && (s.roll as int) < f.percentage as int
}

/// A sum of milliseconds that sticks at the top of the range instead of
/// wrapping.
pub open spec fn spec_sat_add_ms(a: u64, b: u64) -> u64 {
    if a + b > 0xffffffffffffffff {
        0xffffffffffffffff
    } else {
        (a + b) as u64
    }
}

/// The saturating sum of two millisecond counts.
fn sat_add_ms(a: u64, b: u64) -> (r: u64)
    ensures
        r == spec_sat_add_ms(a, b),
{
    if a > u64::MAX - b {
        u64::MAX
    } else {
        a + b
    }
}

/// The abstraction of each pre-action in a vector.
pub open spec fn spec_pre_actions_view(v: Seq<PreAction>) -> Seq<SpecPreAction> {
    Seq::new(v.len(), |i: int| spec_pre_action_view(v[i]))
}

/// The plan a list of resolved failures produces, processed in order with
/// one fresh sample each, after `elapsed_ms` of sleep already planned.
/// Corruption defers to the response phase; a condition mismatch or a
/// failed roll skips the entry; a terminating failure ends the plan at
/// once, discarding everything later. The timeout step reckons from the
/// clock advanced by the sleeps planned before its turn.
pub open spec fn spec_plan(
    failures: Seq<SpecResolvedFailure>,
    event: SpecJson,
    samples: Seq<RandSample>,
    deadline_ms: u64,
    now_ms: u64,
    elapsed_ms: u64,
) -> SpecInvocationPlan
    decreases failures.len(),
{
    if failures.len() == 0 {
        SpecInvocationPlan {
            pre_actions: Seq::empty(),
            terminal: SpecTerminal::Deliver,
            deferred: Seq::empty(),
        }
    } else {
        let f = failures[0];
        let s = samples[0];
        if f.mode == FailureMode::Corruption {
            let rest = spec_plan(
                failures.drop_first(),
                event,
                samples.drop_first(),
                deadline_ms,
                now_ms,
                elapsed_ms,
            );
            SpecInvocationPlan {
                pre_actions: rest.pre_actions,
                terminal: rest.terminal,
                deferred: seq![f] + rest.deferred,
            }
        } else if !spec_failure_taken(f, event, s) {
            spec_plan(
                failures.drop_first(),
                event,
                samples.drop_first(),
                deadline_ms,
                now_ms,
                elapsed_ms,
            )
        } else {
            match f.mode {
                FailureMode::Latency => {
                    let ms = spec_latency_ms(f.flag, s.frac as int);
                    let rest = spec_plan(
                        failures.drop_first(),
                        event,
                        samples.drop_first(),
                        deadline_ms,
                        now_ms,
                        spec_sat_add_ms(elapsed_ms, ms as u64),
                    );
                    SpecInvocationPlan {
                        pre_actions: seq![SpecPreAction::Sleep(ms)] + rest.pre_actions,
                        terminal: rest.terminal,
                        deferred: rest.deferred,
                    }
                },
                FailureMode::Timeout => {
                    let ms = spec_timeout_sleep_ms(
                        deadline_ms as int,
                        spec_sat_add_ms(now_ms, elapsed_ms) as int,
                        f.flag,
                    );
                    let rest = spec_plan(
                        failures.drop_first(),
                        event,
                        samples.drop_first(),
                        deadline_ms,
                        now_ms,
                        spec_sat_add_ms(elapsed_ms, ms as u64),
                    );
                    SpecInvocationPlan {
                        pre_actions: seq![SpecPreAction::Sleep(ms)] + rest.pre_actions,
                        terminal: rest.terminal,
                        deferred: rest.deferred,
                    }
                },
                FailureMode::Diskspace => {
                    let rest = spec_plan(
                        failures.drop_first(),
                        event,
                        samples.drop_first(),
                        deadline_ms,
                        now_ms,
                        elapsed_ms,
                    );
                    SpecInvocationPlan {
                        pre_actions: seq![
                            SpecPreAction::FillDisk(
                                spec_fill_file_name(now_ms, s.suffix),
                                (match f.flag.disk_space {
                                    Some(d) => d,
                                    None => 100,
                                }),
                            ),
                        ] + rest.pre_actions,
                        terminal: rest.terminal,
                        deferred: rest.deferred,
                    }
                },
                FailureMode::Denylist => {
                    let rest = spec_plan(
                        failures.drop_first(),
                        event,
                        samples.drop_first(),
                        deadline_ms,
                        now_ms,
                        elapsed_ms,
                    );
                    match f.flag.deny_list {
                        Some(ps) => SpecInvocationPlan {
                            pre_actions: seq![SpecPreAction::InstallDenylist(ps)]
                                + rest.pre_actions,
                            terminal: rest.terminal,
                            deferred: rest.deferred,
                        },
                        None => rest,
                    }
                },
                FailureMode::Statuscode => SpecInvocationPlan {
                    pre_actions: Seq::empty(),
                    terminal: SpecTerminal::PostResponse(spec_ser(spec_statuscode_payload(f.flag))),
                    deferred: Seq::empty(),
                },
                FailureMode::Exception => SpecInvocationPlan {
                    pre_actions: Seq::empty(),
                    terminal: SpecTerminal::PostError(spec_ser(spec_exception_payload(f.flag))),
                    deferred: Seq::empty(),
                },
                FailureMode::Corruption => spec_plan(
                    failures.drop_first(),
                    event,
                    samples.drop_first(),
                    deadline_ms,
                    now_ms,
                    elapsed_ms,
                ),
            }
        }
    }
}

/// A partial plan in front of the plan of the remaining failures.
pub open spec fn spec_plan_glue(
    pre: Seq<SpecPreAction>,
    deferred: Seq<SpecResolvedFailure>,
    rest: SpecInvocationPlan,
) -> SpecInvocationPlan {
    SpecInvocationPlan {
        pre_actions: pre + rest.pre_actions,
        terminal: rest.terminal,
        deferred: deferred + rest.deferred,
    }
}

/// The plan for one invocation: processes the resolved failures in the
/// canonical order against the event, with one fresh sample per entry and
/// no sleep yet planned.
#[verifier::rlimit(100)]
#[verifier::loop_isolation(false)]
pub fn plan_invocation(
    resolved: &Vec<ResolvedFailure>,
    event: &JsonValue,
    samples: &Vec<RandSample>,
    deadline_ms: u64,
    now_ms: u64,
) -> (plan: InvocationPlan)
    requires
        samples@.len() == resolved@.len(),
        forall|i: int| 0 <= i < samples@.len() ==> sample_in_range(#[trigger] samples@[i]),
    ensures
        spec_plan_view(plan) == spec_plan(
            spec_resolved_view(resolved@),
            event@,
            samples@,
            deadline_ms,
            now_ms,
            0,
        ),
{
    let ghost fs = spec_resolved_view(resolved@);
    let ghost whole = spec_plan(fs, event@, samples@, deadline_ms, now_ms, 0);
    let mut pre: Vec<PreAction> = Vec::new();
    let mut deferred: Vec<ResolvedFailure> = Vec::new();
    let mut elapsed: u64 = 0;
    let mut i: usize = 0;
    proof {
        assert(fs.skip(0) =~= fs);
        assert(samples@.skip(0) =~= samples@);
        assert(spec_pre_actions_view(pre@) =~= Seq::<SpecPreAction>::empty());
        assert(spec_resolved_view(deferred@) =~= Seq::<SpecResolvedFailure>::empty());
        assert(whole =~= spec_plan_glue(
            spec_pre_actions_view(pre@),
            spec_resolved_view(deferred@),
            spec_plan(fs.skip(0), event@, samples@.skip(0), deadline_ms, now_ms, elapsed),
        ));
    }
    while i < resolved.len()
        invariant
            i <= resolved@.len(),
            whole == spec_plan_glue(
                spec_pre_actions_view(pre@),
                spec_resolved_view(deferred@),
                spec_plan(
                    fs.skip(i as int),
                    event@,
                    samples@.skip(i as int),
                    deadline_ms,
                    now_ms,
                    elapsed,
                ),
            ),
        decreases resolved@.len() - i,
    {
        let f = &resolved[i];
        let s = samples[i];
        let ghost suffix = fs.skip(i as int);
        let ghost ssuffix = samples@.skip(i as int);
        let ghost pre0 = spec_pre_actions_view(pre@);
        let ghost def0 = spec_resolved_view(deferred@);
        let ghost elapsed0 = elapsed;
        let ghost cur = spec_plan(suffix, event@, ssuffix, deadline_ms, now_ms, elapsed0);
        proof {
            assert(suffix[0] == fs[i as int]);
            assert(fs[i as int] == resolved@[i as int]@);
            assert(ssuffix[0] == samples@[i as int]);
            assert(suffix.drop_first() =~= fs.skip(i + 1));
            assert(ssuffix.drop_first() =~= samples@.skip(i + 1));
        }
        if f.mode == FailureMode::Corruption {
            deferred.push(f.duplicate());
            proof {
                let rest = spec_plan(
                    fs.skip(i + 1),
                    event@,
                    samples@.skip(i + 1),
                    deadline_ms,
                    now_ms,
                    elapsed0,
                );
                assert(spec_resolved_view(deferred@) =~= def0 + seq![fs[i as int]]);
                assert(spec_plan_glue(pre0, def0, cur) =~= spec_plan_glue(
                    spec_pre_actions_view(pre@),
                    spec_resolved_view(deferred@),
                    rest,
                ));
            }
        } else {
            let taken: bool = {
                let conds_ok = match &f.flag.match_conditions {
                    Some(cs) => matches_conditions(event, cs),
                    None => true,
                };
                conds_ok && s.roll < f.percentage
            };
            if !taken {
                proof {
                    assert(!spec_failure_taken(fs[i as int], event@, samples@[i as int]));
                }
            } else {
                proof {
                    assert(spec_failure_taken(fs[i as int], event@, samples@[i as int]));
                }
                match f.mode {
                    FailureMode::Latency => {
                        let ms = crate::failures::latency_sleep_ms(&f.flag, s.frac);
                        pre.push(PreAction::Sleep { ms });
                        elapsed = sat_add_ms(elapsed, ms);
                        proof {
                            let rest = spec_plan(
                                fs.skip(i + 1),
                                event@,
                                samples@.skip(i + 1),
                                deadline_ms,
                                now_ms,
                                elapsed,
                            );
                            assert(spec_pre_actions_view(pre@) =~= pre0 + seq![
                                SpecPreAction::Sleep(ms as int),
                            ]);
                            assert(spec_plan_glue(pre0, def0, cur) =~= spec_plan_glue(
                                spec_pre_actions_view(pre@),
                                def0,
                                rest,
                            ));
                        }
                    },
                    FailureMode::Timeout => {
                        let now_eff = sat_add_ms(now_ms, elapsed);
                        let ms = crate::failures::timeout_sleep_ms(deadline_ms, now_eff, &f.flag);
                        pre.push(PreAction::Sleep { ms });
                        elapsed = sat_add_ms(elapsed, ms);
                        proof {
                            let rest = spec_plan(
                                fs.skip(i + 1),
                                event@,
                                samples@.skip(i + 1),
                                deadline_ms,
                                now_ms,
                                elapsed,
                            );
                            assert(spec_pre_actions_view(pre@) =~= pre0 + seq![
                                SpecPreAction::Sleep(ms as int),
                            ]);
                            assert(spec_plan_glue(pre0, def0, cur) =~= spec_plan_glue(
                                spec_pre_actions_view(pre@),
                                def0,
                                rest,
                            ));
                        }
                    },
                    FailureMode::Diskspace => {
                        let file_name = crate::failures::fill_file_name(now_ms, s.suffix);
                        let chunks_mb = crate::failures::diskspace_chunks(&f.flag);
                        pre.push(PreAction::FillDisk { file_name, chunks_mb });
                        proof {
                            let rest = spec_plan(
                                fs.skip(i + 1),
                                event@,
                                samples@.skip(i + 1),
                                deadline_ms,
                                now_ms,
                                elapsed,
                            );
                            assert(spec_pre_actions_view(pre@) =~= pre0 + seq![
                                SpecPreAction::FillDisk(
                                    spec_fill_file_name(now_ms, s.suffix),
                                    chunks_mb,
                                ),
                            ]);
                            assert(spec_plan_glue(pre0, def0, cur) =~= spec_plan_glue(
                                spec_pre_actions_view(pre@),
                                def0,
                                rest,
                            ));
                        }
                    },
                    FailureMode::Denylist => {
                        match &f.flag.deny_list {
                            Some(ps) => {
                                let mut patterns: Vec<String> = Vec::new();
                                let mut k: usize = 0;
                                while k < ps.len()
                                    invariant
                                        k <= ps@.len(),
                                        patterns@.len() == k,
                                        forall|j: int|
                                            0 <= j < k ==> #[trigger] patterns@[j]@ == ps@[j]@,
                                    decreases ps@.len() - k,
                                {
                                    patterns.push(ps[k].clone());
                                    k += 1;
                                }
                                proof {
                                    assert(crate::config::spec_strings_view(patterns@)
                                        =~= crate::config::spec_strings_view(ps@));
                                }
                                pre.push(PreAction::InstallDenylist { patterns });
                                proof {
                                    let rest = spec_plan(
                                        fs.skip(i + 1),
                                        event@,
                                        samples@.skip(i + 1),
                                        deadline_ms,
                                        now_ms,
                                        elapsed,
                                    );
                                    assert(spec_pre_actions_view(pre@) =~= pre0 + seq![
                                        SpecPreAction::InstallDenylist(
                                            crate::config::spec_strings_view(ps@),
                                        ),
                                    ]);
                                    assert(spec_plan_glue(pre0, def0, cur) =~= spec_plan_glue(
                                        spec_pre_actions_view(pre@),
                                        def0,
                                        rest,
                                    ));
                                }
                            },
                            None => {},
                        }
                    },
                    FailureMode::Statuscode => {
                        let payload = crate::failures::build_statuscode_payload(&f.flag);
                        let body = to_json_text(&payload);
                        let plan = InvocationPlan {
                            pre_actions: pre,
                            terminal: Terminal::PostResponse { body },
                            deferred,
                        };
                        proof {
                            assert(spec_plan_view(plan) =~= spec_plan_glue(pre0, def0, cur));
                        }
                        return plan;
                    },
                    FailureMode::Exception => {
                        let payload = crate::failures::build_exception_payload(&f.flag);
                        let body = to_json_text(&payload);
                        let plan = InvocationPlan {
                            pre_actions: pre,
                            terminal: Terminal::PostError { body },
                            deferred,
                        };
                        proof {
                            assert(spec_plan_view(plan) =~= spec_plan_glue(pre0, def0, cur));
                        }
                        return plan;
                    },
                    FailureMode::Corruption => {},
                }
            }
        }
        i += 1;
    }
    let plan = InvocationPlan { pre_actions: pre, terminal: Terminal::Deliver, deferred };
    proof {
        assert(fs.skip(resolved@.len() as int) =~= Seq::<SpecResolvedFailure>::empty());
        assert(samples@.skip(resolved@.len() as int) =~= Seq::<RandSample>::empty());
        assert(spec_plan_view(plan) =~= spec_plan_glue(
            spec_pre_actions_view(plan.pre_actions@),
            spec_resolved_view(plan.deferred@),
            spec_plan(
                fs.skip(resolved@.len() as int),
                event@,
                samples@.skip(resolved@.len() as int),
                deadline_ms,
                now_ms,
                elapsed,
            ),
        ));
    }
    plan
}

// ---------------------------------------------------------------------------
// Ending an invocation.
// ---------------------------------------------------------------------------

/// What the beginning of an invocation leaves behind once its plan has run.
pub struct BeginOutcome {
    /// Whether a record was stored for the response phase.
    pub stored: bool,
    /// Whether the denylist file must be removed right now, because the
    /// invocation was short-circuited after installing it.
    pub remove_denylist: bool,
}

/// Settles an invocation's beginning after its plan ran: on delivery,
/// stores a record exactly when there are deferred failures or a denylist
/// to clean up later; on a short circuit, stores nothing and asks for the
/// denylist's removal exactly when one was installed.
pub fn finish_begin(
    core: &mut ProxyCore,
    request_id: String,
    event: JsonValue,
    deferred: Vec<ResolvedFailure>,
    delivering: bool,
    denylist_installed: bool,
) -> (r: BeginOutcome)
    ensures
        r.stored == (delivering && (spec_resolved_view(deferred@).len() > 0 || denylist_installed)),
        r.remove_denylist == (!delivering && denylist_installed),
        r.stored ==> spec_table_view(final(core).invocations@) == spec_table_view(
            old(core).invocations@,
        ).push(
            (
                request_id@,
                SpecInvocationRecord {
                    event: event@,
                    deferred: spec_resolved_view(deferred@),
                    denylist_active: denylist_installed,
                },
            ),
        ),
        !r.stored ==> spec_table_view(final(core).invocations@) == spec_table_view(
            old(core).invocations@,
        ),
{
    if !delivering {
        BeginOutcome { stored: false, remove_denylist: denylist_installed }
    } else if deferred.len() > 0 || denylist_installed {
        core.register(
            request_id,
            InvocationRecord { event, deferred, denylist_active: denylist_installed },
        );
        BeginOutcome { stored: true, remove_denylist: false }
    } else {
        BeginOutcome { stored: false, remove_denylist: false }
    }
}

/// The body after the deferred corruption failures are applied in order:
/// each whose conditions match the stored event and whose roll clears its
/// percentage rewrites the working body.
pub open spec fn spec_apply_corruptions(
    event: SpecJson,
    fs: Seq<SpecResolvedFailure>,
    body: Seq<char>,
    samples: Seq<RandSample>,
) -> Seq<char>
    decreases fs.len(),
{
    if fs.len() == 0 {
        body
    } else {
        let f = fs[0];
        let s = samples[0];
        let next = if f.mode == FailureMode::Corruption && spec_failure_taken(f, event, s) {
            spec_corrupt(f.flag, body, s.frac as int)
        } else {
            body
        };
        spec_apply_corruptions(event, fs.drop_first(), next, samples.drop_first())
    }
}

/// Applies the deferred corruption failures to `body`, in order, with one
/// fresh sample each.
pub fn apply_corruptions(
    event: &JsonValue,
    deferred: &Vec<ResolvedFailure>,
    body: &str,
    samples: &Vec<RandSample>,
) -> (r: String)
    requires
        samples@.len() == deferred@.len(),
        forall|i: int| 0 <= i < samples@.len() ==> sample_in_range(#[trigger] samples@[i]),
    ensures
        r@ == spec_apply_corruptions(event@, spec_resolved_view(deferred@), body@, samples@),
{
    let ghost fs = spec_resolved_view(deferred@);
    let mut acc = String::from_str(body);
    let mut i: usize = 0;
    proof {
        assert(fs.skip(0) =~= fs);
        assert(samples@.skip(0) =~= samples@);
    }
    while i < deferred.len()
        invariant
            fs == spec_resolved_view(deferred@),
            samples@.len() == deferred@.len(),
            forall|j: int| 0 <= j < samples@.len() ==> sample_in_range(#[trigger] samples@[j]),
            i <= deferred@.len(),
            spec_apply_corruptions(event@, fs, body@, samples@) == spec_apply_corruptions(
                event@,
                fs.skip(i as int),
                acc@,
                samples@.skip(i as int),
            ),
        decreases deferred@.len() - i,
    {
        let f = &deferred[i];
        let s = samples[i];
        proof {
            assert(fs.skip(i as int)[0] == fs[i as int]);
            assert(fs[i as int] == deferred@[i as int]@);
            assert(samples@.skip(i as int)[0] == samples@[i as int]);
            assert(fs.skip(i as int).drop_first() =~= fs.skip(i + 1));
            assert(samples@.skip(i as int).drop_first() =~= samples@.skip(i + 1));
        }
        if f.mode == FailureMode::Corruption {
            let conds_ok = match &f.flag.match_conditions {
                Some(cs) => matches_conditions(event, cs),
                None => true,
            };
            if conds_ok && s.roll < f.percentage {
                proof {
                    assert(spec_failure_taken(fs[i as int], event@, samples@[i as int]));
                }
                acc = crate::failures::corrupt_response_with(&f.flag, acc.as_str(), s.frac);
            } else {
                proof {
                    assert(!spec_failure_taken(fs[i as int], event@, samples@[i as int]));
                }
            }
        }
        i += 1;
    }
    proof {
        assert(fs.skip(deferred@.len() as int) =~= Seq::<SpecResolvedFailure>::empty());
        assert(samples@.skip(deferred@.len() as int) =~= Seq::<RandSample>::empty());
    }
    acc
}

/// What ends an invocation's success report: the body to forward, when
/// corruption produced one, and whether the denylist file must go.
pub struct FinishOutcome {
    /// The corrupted body, when a record was found and a decodable body was
    /// given; otherwise the raw body passes through unchanged.
    pub body: Option<String>,
    /// Whether the record found had installed the denylist file.
    pub remove_denylist: bool,
}

/// Ends an invocation's success report: removes the invocation's record,
/// applies its deferred corruption against the stored event, and says
/// whether the denylist file must go. A body that did not decode as text
/// (`None`) passes through untouched.
pub fn finish_success(core: &mut ProxyCore, request_id: &str, body: Option<&String>) -> (r:
    FinishOutcome)
    ensures
        spec_table_view(final(core).invocations@) == spec_table_remove(
            spec_table_view(old(core).invocations@),
            request_id@,
        ),
        ({
            let looked = spec_table_lookup(spec_table_view(old(core).invocations@), request_id@);
            &&& r.remove_denylist == (looked is Some && looked->0.denylist_active)
            &&& (match (looked, body) {
                (Some(rec), Some(b)) => match r.body {
                    Some(out) => exists|samples: Seq<RandSample>|
                        samples.len() == rec.deferred.len() && (forall|i: int|
                            0 <= i < samples.len() ==> sample_in_range(#[trigger] samples[i]))
                            && out@ == spec_apply_corruptions(rec.event, rec.deferred, b@, samples),
                    None => false,
                },
                _ => r.body is None,
            })
        }),
{
    match core.take(request_id) {
        Some(rec) => {
            let remove_denylist = rec.denylist_active;
            match body {
                Some(b) => {
                    let samples = crate::rng::draw_samples(rec.deferred.len());
                    let out = apply_corruptions(&rec.event, &rec.deferred, b.as_str(), &samples);
                    proof {
                        assert(samples@.len() == rec@.deferred.len() && (forall|i: int|
                            0 <= i < samples@.len() ==> sample_in_range(#[trigger] samples@[i]))
                            && out@ == spec_apply_corruptions(
                            rec@.event,
                            rec@.deferred,
                            b@,
                            samples@,
                        ));
                    }
                    FinishOutcome { body: Some(out), remove_denylist }
                },
                None => FinishOutcome { body: None, remove_denylist },
            }
        },
        None => FinishOutcome { body: None, remove_denylist: false },
    }
}

/// Ends an invocation's error report: removes the invocation's record and
/// says whether the denylist file must go. The error body is forwarded
/// verbatim; no corruption applies.
pub fn finish_error(core: &mut ProxyCore, request_id: &str) -> (remove_denylist: bool)
    ensures
        spec_table_view(final(core).invocations@) == spec_table_remove(
            spec_table_view(old(core).invocations@),
            request_id@,
        ),
        ({
            let looked = spec_table_lookup(spec_table_view(old(core).invocations@), request_id@);
            remove_denylist == (looked is Some && looked->0.denylist_active)
        }),
{
    match core.take(request_id) {
        Some(rec) => rec.denylist_active,
        None => false,
    }
}

/// Whether the denylist file must be removed at an invocation's end: it
/// must exactly when this invocation had installed it.
pub fn cleanup_denylist(denylist_was_active: bool) -> (remove: bool)
    ensures
        remove == denylist_was_active,
{
    denylist_was_active
}

// ---------------------------------------------------------------------------
// The short-circuit law.
// ---------------------------------------------------------------------------

/// A resolved list holding one unconditional, always-firing exception entry
/// plans a short circuit and nothing else: no effect runs, nothing defers,
/// and the upstream error post carries the exception payload — whatever was
/// drawn. Two such invocations back to back therefore each post one error
/// upstream and leave no record and no file behind.
pub proof fn lemma_exception_short_circuit(
    f: SpecResolvedFailure,
    event: SpecJson,
    samples: Seq<RandSample>,
    deadline_ms: u64,
    now_ms: u64,
    elapsed_ms: u64,
)
    requires
        f.mode == FailureMode::Exception,
        (f.flag.match_conditions is None),
        f.percentage == 100,
        samples.len() == 1,
        sample_in_range(samples[0]),
    ensures
        spec_plan(seq![f], event, samples, deadline_ms, now_ms, elapsed_ms) == (
        SpecInvocationPlan {
            pre_actions: Seq::<SpecPreAction>::empty(),
            terminal: SpecTerminal::PostError(spec_ser(spec_exception_payload(f.flag))),
            deferred: Seq::<SpecResolvedFailure>::empty(),
        }),
{
    let fs = seq![f];
    assert(fs[0] == f);
    assert(samples[0].roll < 100);
    assert(spec_failure_taken(f, event, samples[0]));
}

} // verus!
