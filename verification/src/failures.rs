//! The failure effects: what each mode computes — sleep lengths, fill-file
//! names and sizes, synthetic payloads, and response corruption. The
//! surrounding process performs the sleeps and the file and network work;
//! everything decided here is a function of its arguments.

use vstd::prelude::*;

use crate::config::{FlagValue, SpecFlagValue};
use crate::json::{JsonValue, SpecJson};
use crate::json_text::{spec_hex_char, spec_render_nat, spec_ser, to_json_text};
use crate::text::{push_char, spec_is_prefix};

verus! {

/// A thousandths value clamped to zero from below.
pub open spec fn spec_clamp_nonneg(v: Option<i64>) -> int {
    match v {
        Some(k) => if k < 0 {
            0
        } else {
            k as int
        },
        None => 0,
    }
}

/// The latency to inject, in whole milliseconds: the least bound plus the
/// drawn fraction of the span between the bounds, clamping negatives to
/// zero.
pub open spec fn spec_latency_ms(flag: SpecFlagValue, frac: int) -> int {
    let lo = spec_clamp_nonneg(flag.min_latency);
    let hi = spec_clamp_nonneg(flag.max_latency);
    let span = if hi > lo {
        hi - lo
    } else {
        0
    };
    (lo + (frac * span) / 1000) / 1000
}

/// The latency to inject for `flag`, in whole milliseconds, for the drawn
/// fraction `frac`.
pub fn latency_sleep_ms(flag: &FlagValue, frac: u64) -> (r: u64)
    requires
        frac < 1000,
    ensures
        r == spec_latency_ms(flag@, frac as int),
{
    let lo: u64 = match flag.min_latency {
        Some(k) => if k < 0 {
            0
        } else {
            k as u64
        },
        None => 0,
    };
    let hi: u64 = match flag.max_latency {
        Some(k) => if k < 0 {
            0
        } else {
            k as u64
        },
        None => 0,
    };
    let span: u64 = if hi > lo {
        hi - lo
    } else {
        0
    };
    proof {
        assert(lo <= 0x7fffffffffffffffu64);
        assert(span <= 0x7fffffffffffffffu64);
        assert(frac as u128 * span as u128 <= 1000 * 0x7fffffffffffffffu128) by (nonlinear_arith)
            requires
                frac < 1000,
                span as u128 <= 0x7fffffffffffffffu128,
        ;
    }
    let chosen: u128 = lo as u128 + (frac as u128 * span as u128) / 1000;
    (chosen / 1000) as u64
}

/// When the latency bounds are ordered, the injected latency lies between
/// them, measured in whole milliseconds.
pub proof fn lemma_latency_ms_bounds(flag: SpecFlagValue, frac: int)
    requires
        0 <= frac < 1000,
        spec_clamp_nonneg(flag.min_latency) <= spec_clamp_nonneg(flag.max_latency),
    ensures
        spec_clamp_nonneg(flag.min_latency) / 1000 <= spec_latency_ms(flag, frac),
        spec_latency_ms(flag, frac) <= spec_clamp_nonneg(flag.max_latency) / 1000,
{
    let lo = spec_clamp_nonneg(flag.min_latency);
    let hi = spec_clamp_nonneg(flag.max_latency);
    let span = if hi > lo {
        hi - lo
    } else {
        0
    };
    assert(0 <= (frac * span) / 1000 <= span) by (nonlinear_arith)
        requires
            0 <= frac < 1000,
            0 <= span,
    ;
    let chosen = lo + (frac * span) / 1000;
    assert(lo <= chosen <= hi);
    assert(lo / 1000 <= chosen / 1000 <= hi / 1000) by (nonlinear_arith)
        requires
            0 <= lo <= chosen <= hi,
    ;
}

/// The sleep before a timeout, in whole milliseconds: up to the deadline
/// less the buffer, never negative.
pub open spec fn spec_timeout_sleep_ms(deadline_ms: int, now_ms: int, flag: SpecFlagValue) -> int {
    let buffer = spec_clamp_nonneg(flag.timeout_buffer_ms) / 1000;
    if deadline_ms > now_ms + buffer {
        deadline_ms - now_ms - buffer
    } else {
        0
    }
}

/// The sleep that carries an invocation to its deadline less the flag's
/// buffer, in whole milliseconds; zero when the deadline is past or close.
pub fn timeout_sleep_ms(deadline_ms: u64, now_ms: u64, flag: &FlagValue) -> (r: u64)
    ensures
        r == spec_timeout_sleep_ms(deadline_ms as int, now_ms as int, flag@),
{
    let buffer_k: u64 = match flag.timeout_buffer_ms {
        Some(k) => if k < 0 {
            0
        } else {
            k as u64
        },
        None => 0,
    };
    let buffer: u64 = buffer_k / 1000;
    if deadline_ms > now_ms && deadline_ms - now_ms > buffer {
        deadline_ms - now_ms - buffer
    } else {
        0
    }
}

// ---------------------------------------------------------------------------
// Disk exhaustion: fill-file names and sizes.
// ---------------------------------------------------------------------------

/// The size of one fill chunk, in bytes: one mebibyte.
pub const FILL_CHUNK_BYTES: usize = 1048576;

/// The name prefix every fill file carries.
pub open spec fn spec_fill_prefix() -> Seq<char> {
    "diskspace-failure-"@
}

/// The eight hexadecimal digits of `suffix`, most significant first.
pub open spec fn spec_hex8(suffix: u32) -> Seq<char> {
    Seq::new(8, |i: int| spec_hex_char((suffix as int / pow16((7 - i) as nat)) % 16))
}

/// Sixteen to the `n`.
pub open spec fn pow16(n: nat) -> int
    decreases n,
{
    if n == 0 {
        1
    } else {
        16 * pow16((n - 1) as nat)
    }
}

/// The name of a fill file: the well-known prefix, the timestamp, a dash,
/// eight hexadecimal digits, and a temporary-file ending.
pub open spec fn spec_fill_file_name(timestamp_ms: u64, suffix: u32) -> Seq<char> {
    spec_fill_prefix() + spec_render_nat(timestamp_ms as nat) + seq!['-'] + spec_hex8(suffix)
        + ".tmp"@
}

/// The name for one fill file, unique per timestamp and drawn suffix; it
/// always starts with the well-known prefix.
pub fn fill_file_name(timestamp_ms: u64, suffix: u32) -> (r: String)
    ensures
        r@ == spec_fill_file_name(timestamp_ms, suffix),
        spec_is_prefix(r@, spec_fill_prefix()),
{
    let mut out = String::from_str("diskspace-failure-");
    crate::json_text::write_nat(timestamp_ms, &mut out);
    push_char(&mut out, '-');
    let mut i: usize = 0;
    while i < 8
        invariant
            i <= 8,
            out@ == spec_fill_prefix() + spec_render_nat(timestamp_ms as nat) + seq!['-']
                + spec_hex8(suffix).take(i as int),
        decreases 8 - i,
    {
        let shift: u32 = 28 - 4 * (i as u32);
        let d: u32 = (suffix >> shift) & 0xf;
        proof {
            assert((suffix >> shift) & 0xf < 16) by (bit_vector);
            lemma_hex8_digit(suffix, i as int);
            assert(d == (suffix as int / pow16((7 - i) as nat)) % 16) by {
                lemma_shift_is_pow16_div(suffix, shift, (7 - i) as nat);
            }
        }
        push_char(&mut out, crate::json_text::hex_char(d));
        proof {
            assert(spec_hex8(suffix).take(i + 1) =~= spec_hex8(suffix).take(i as int).push(
                spec_hex8(suffix)[i as int],
            ));
            assert(out@ =~= spec_fill_prefix() + spec_render_nat(timestamp_ms as nat) + seq!['-']
                + spec_hex8(suffix).take(i + 1));
        }
        i += 1;
    }
    let mut out2 = out;
    out2.append(".tmp");
    proof {
        assert(spec_hex8(suffix).take(8) =~= spec_hex8(suffix));
        assert(out2@ =~= spec_fill_file_name(timestamp_ms, suffix));
        reveal_strlit("diskspace-failure-");
        assert(spec_is_prefix(out2@, spec_fill_prefix())) by {
            assert(out2@.subrange(0, spec_fill_prefix().len() as int) =~= spec_fill_prefix());
        }
    }
    out2
}

/// The hexadecimal digit at position `i` of the eight-digit rendering.
proof fn lemma_hex8_digit(suffix: u32, i: int)
    requires
        0 <= i < 8,
    ensures
        spec_hex8(suffix)[i] == spec_hex_char((suffix as int / pow16((7 - i) as nat)) % 16),
{
}

/// Shifting right by four times `n` bits divides by sixteen to the `n`.
proof fn lemma_shift_is_pow16_div(suffix: u32, shift: u32, n: nat)
    requires
        n < 8,
        shift == 4 * n,
    ensures
        ((suffix >> shift) & 0xf) == (suffix as int / pow16(n)) % 16,
{
    let s = suffix;
    assert(pow16(0) == 1 && pow16(1) == 16 && pow16(2) == 256 && pow16(3) == 4096 && pow16(4)
        == 65536 && pow16(5) == 1048576 && pow16(6) == 16777216 && pow16(7) == 268435456) by {
        reveal_with_fuel(pow16, 9);
    }
    if n == 0 {
        assert(((s >> 0u32) & 0xf) == (s as int / 1) % 16) by (bit_vector);
    } else if n == 1 {
        assert(((s >> 4u32) & 0xf) == (s as int / 16) % 16) by (bit_vector);
    } else if n == 2 {
        assert(((s >> 8u32) & 0xf) == (s as int / 256) % 16) by (bit_vector);
    } else if n == 3 {
        assert(((s >> 12u32) & 0xf) == (s as int / 4096) % 16) by (bit_vector);
    } else if n == 4 {
        assert(((s >> 16u32) & 0xf) == (s as int / 65536) % 16) by (bit_vector);
    } else if n == 5 {
        assert(((s >> 20u32) & 0xf) == (s as int / 1048576) % 16) by (bit_vector);
    } else if n == 6 {
        assert(((s >> 24u32) & 0xf) == (s as int / 16777216) % 16) by (bit_vector);
    } else {
        assert(((s >> 28u32) & 0xf) == (s as int / 268435456) % 16) by (bit_vector);
    }
}

/// How many one-mebibyte chunks a disk-exhaustion flag writes.
pub fn diskspace_chunks(flag: &FlagValue) -> (r: u32)
    ensures
        r as int == (match flag@.disk_space {
            Some(d) => d as int,
            None => 100,
        }),
{
    match flag.disk_space {
        Some(d) => d,
        None => 100,
    }
}

/// The fill files among the scratch directory's entries: exactly those
/// whose name starts with the well-known prefix, in order.
pub open spec fn spec_fill_files(entries: Seq<Seq<char>>) -> Seq<Seq<char>>
    decreases entries.len(),
{
    if entries.len() == 0 {
        Seq::empty()
    } else if spec_is_prefix(entries[0], spec_fill_prefix()) {
        seq![entries[0]] + spec_fill_files(entries.drop_first())
    } else {
        spec_fill_files(entries.drop_first())
    }
}

/// The scratch-directory entries to remove before an invocation: exactly
/// those whose name starts with the fill-file prefix.
pub fn clear_diskspace(entries: &Vec<String>) -> (r: Vec<String>)
    ensures
        crate::config::spec_strings_view(r@) == spec_fill_files(
            crate::config::spec_strings_view(entries@),
        ),
{
    let ghost all = crate::config::spec_strings_view(entries@);
    let mut r: Vec<String> = Vec::new();
    let mut i: usize = 0;
    proof {
        assert(all.skip(0) =~= all);
        assert(crate::config::spec_strings_view(r@) + spec_fill_files(all.skip(0))
            =~= spec_fill_files(all));
    }
    while i < entries.len()
        invariant
            i <= entries@.len(),
            all == crate::config::spec_strings_view(entries@),
            spec_fill_files(all) == crate::config::spec_strings_view(r@) + spec_fill_files(
                all.skip(i as int),
            ),
        decreases entries@.len() - i,
    {
        proof {
            assert(all.skip(i as int)[0] == all[i as int]);
            assert(all[i as int] == entries@[i as int]@);
            assert(all.skip(i as int).drop_first() =~= all.skip(i + 1));
        }
        let ghost prev = crate::config::spec_strings_view(r@);
        if crate::text::str_starts_with(entries[i].as_str(), "diskspace-failure-") {
            r.push(entries[i].clone());
            proof {
                reveal_strlit("diskspace-failure-");
                assert(crate::config::spec_strings_view(r@) =~= prev + seq![all[i as int]]);
                assert(prev + (seq![all[i as int]] + spec_fill_files(all.skip(i + 1))) =~= (prev
                    + seq![all[i as int]]) + spec_fill_files(all.skip(i + 1)));
            }
        } else {
            proof {
                reveal_strlit("diskspace-failure-");
            }
        }
        i += 1;
    }
    proof {
        assert(all.skip(entries@.len() as int) =~= Seq::<Seq<char>>::empty());
        assert(crate::config::spec_strings_view(r@) + Seq::<Seq<char>>::empty()
            =~= crate::config::spec_strings_view(r@));
    }
    r
}

/// Removing the selected entries leaves no fill file: every entry with the
/// prefix is among the selected.
pub proof fn lemma_clear_diskspace_complete(entries: Seq<Seq<char>>)
    ensures
        forall|i: int|
            0 <= i < entries.len() && spec_is_prefix(#[trigger] entries[i], spec_fill_prefix())
                ==> spec_fill_files(entries).contains(entries[i]),
    decreases entries.len(),
{
    if entries.len() > 0 {
        lemma_clear_diskspace_complete(entries.drop_first());
        let rest = spec_fill_files(entries.drop_first());
        assert forall|i: int|
            0 <= i < entries.len() && spec_is_prefix(
                #[trigger] entries[i],
                spec_fill_prefix(),
            ) implies spec_fill_files(entries).contains(entries[i]) by {
            if i == 0 {
                assert(spec_fill_files(entries)[0] == entries[0]);
            } else {
                assert(entries.drop_first()[i - 1] == entries[i]);
                assert(rest.contains(entries[i]));
                let w = choose|w: int| 0 <= w < rest.len() && rest[w] == entries[i];
                if spec_is_prefix(entries[0], spec_fill_prefix()) {
                    assert(spec_fill_files(entries)[w + 1] == entries[i]);
                } else {
                    assert(spec_fill_files(entries)[w] == entries[i]);
                }
            }
        }
    }
}

// ---------------------------------------------------------------------------
// Synthetic payloads.
// ---------------------------------------------------------------------------

/// The injected error document: the flag's message, or the stock one, and
/// the fixed error type.
pub open spec fn spec_exception_payload(flag: SpecFlagValue) -> SpecJson {
    let msg = match flag.exception_msg {
        Some(s) => s,
        None => "Injected exception"@,
    };
    SpecJson::Object(
        seq![
            ("errorMessage"@, SpecJson::String(msg)),
            ("errorType"@, SpecJson::String("FailureLambdaException"@)),
        ],
    )
}

/// The error document posted upstream when an exception is injected.
pub fn build_exception_payload(flag: &FlagValue) -> (r: JsonValue)
    ensures
        r@ == spec_exception_payload(flag@),
{
    let msg: String = match &flag.exception_msg {
        Some(s) => s.clone(),
        None => String::from_str("Injected exception"),
    };
    let mut members: Vec<(String, JsonValue)> = Vec::new();
    members.push((String::from_str("errorMessage"), JsonValue::String(msg)));
    members.push(
        (
            String::from_str("errorType"),
            JsonValue::String(String::from_str("FailureLambdaException")),
        ),
    );
    let r = JsonValue::Object(members);
    proof {
        crate::json::lemma_spec_json_of_members(members@);
        assert(crate::json::spec_json_of_members(members@) =~= spec_exception_payload(
            flag@,
        )->Object_0);
    }
    r
}

/// The body text of the injected status-code response.
pub open spec fn spec_statuscode_body(code: u16) -> Seq<char> {
    "{\"message\":\"Injected status code "@ + spec_render_nat(code as nat) + "\"}"@
}

/// The injected response document: the flag's status code, or five hundred,
/// a JSON content type, and a message body naming the code.
pub open spec fn spec_statuscode_payload(flag: SpecFlagValue) -> SpecJson {
    let code = match flag.status_code {
        Some(c) => c,
        None => 500,
    };
    SpecJson::Object(
        seq![
            ("statusCode"@, SpecJson::Number(code as int * 1000)),
            (
                "headers"@,
                SpecJson::Object(
                    seq![("Content-Type"@, SpecJson::String("application/json"@))],
                ),
            ),
            ("body"@, SpecJson::String(spec_statuscode_body(code))),
        ],
    )
}

/// The response document posted upstream when a status code is injected.
pub fn build_statuscode_payload(flag: &FlagValue) -> (r: JsonValue)
    ensures
        r@ == spec_statuscode_payload(flag@),
{
    let code: u16 = match flag.status_code {
        Some(c) => c,
        None => 500,
    };
    let mut body = String::from_str("{\"message\":\"Injected status code ");
    crate::json_text::write_nat(code as u64, &mut body);
    let mut body2 = body;
    body2.append("\"}");
    let mut headers: Vec<(String, JsonValue)> = Vec::new();
    headers.push(
        (String::from_str("Content-Type"), JsonValue::String(String::from_str("application/json"))),
    );
    let mut members: Vec<(String, JsonValue)> = Vec::new();
    members.push((String::from_str("statusCode"), JsonValue::Number(code as i64 * 1000)));
    members.push((String::from_str("headers"), JsonValue::Object(headers)));
    members.push((String::from_str("body"), JsonValue::String(body2)));
    let r = JsonValue::Object(members);
    proof {
        crate::json::lemma_spec_json_of_members(headers@);
        crate::json::lemma_spec_json_of_members(members@);
        assert(crate::json::spec_json_of_members(headers@) =~= spec_statuscode_payload(
            flag@,
        )->Object_0[1].1->Object_0);
        assert(body2@ =~= spec_statuscode_body(code));
        assert(crate::json::spec_json_of_members(members@) =~= spec_statuscode_payload(
            flag@,
        )->Object_0);
    }
    r
}

// ---------------------------------------------------------------------------
// Response corruption.
// ---------------------------------------------------------------------------

/// The character appended where a response was mangled.
pub const MANGLE_MARK: char = '\u{fffd}';

/// A mangled string: empty stays empty; otherwise a prefix cut at a
/// three-tenths to eight-tenths fraction of the length, in characters, with
/// three replacement marks appended. `frac` is the raw draw in `[0, 1000)`.
pub open spec fn spec_mangle(s: Seq<char>, frac: int) -> Seq<char> {
    if s.len() == 0 {
        s
    } else {
        let cutfrac = 300 + frac / 2;
        let cut = (s.len() * cutfrac) / 1000;
        s.take(cut) + seq![MANGLE_MARK, MANGLE_MARK, MANGLE_MARK]
    }
}

/// The mangled form of `input` for the drawn fraction `frac`.
pub fn mangle_string_with(input: &str, frac: u64) -> (r: String)
    requires
        frac < 1000,
    ensures
        r@ == spec_mangle(input@, frac as int),
{
    let cs = crate::text::chars_of(input);
    if cs.len() == 0 {
        let r = String::new();
        proof {
            assert(r@ =~= input@);
        }
        return r;
    }
    let cutfrac: u64 = 300 + frac / 2;
    proof {
        assert(cs@.len() as u128 * cutfrac as u128 <= cs@.len() as u128 * 1000) by (nonlinear_arith)
            requires
                cutfrac <= 1000,
        ;
        assert(cs@.len() as u128 * 1000 <= 0xffffffffffffffffu128 * 1000) by (nonlinear_arith)
            requires
                cs@.len() as u128 <= 0xffffffffffffffffu128,
        ;
    }
    let cut: usize = ((cs.len() as u128 * cutfrac as u128) / 1000) as usize;
    proof {
        assert((cs@.len() as u128 * 1000) / 1000 == cs@.len());
        assert(cut <= cs@.len());
        assert(cut == (input@.len() * (300 + frac as int / 2)) / 1000);
    }
    let mut out = String::new();
    let mut i: usize = 0;
    while i < cut
        invariant
            cut <= cs@.len(),
            cs@ == input@,
            i <= cut,
            out@ == input@.take(i as int),
        decreases cut - i,
    {
        push_char(&mut out, cs[i]);
        i += 1;
        proof {
            assert(out@ =~= input@.take(i as int));
        }
    }
    push_char(&mut out, MANGLE_MARK);
    push_char(&mut out, MANGLE_MARK);
    push_char(&mut out, MANGLE_MARK);
    proof {
        assert(out@ =~= spec_mangle(input@, frac as int));
    }
    out
}

/// The shape of a mangled string: a prefix of the input cut at three- to
/// eight-tenths of its length, in characters, with three replacement marks
/// appended. The bounds are stated scaled by a thousand, so the cut `c`
/// satisfies `0.3 * len - 1 < c <= 0.799 * len`.
pub proof fn lemma_mangle_shape(s: Seq<char>, frac: int)
    requires
        s.len() > 0,
        0 <= frac < 1000,
    ensures
        ({
            let cut = (s.len() * (300 + frac / 2)) / 1000;
            &&& spec_mangle(s, frac) == s.take(cut) + seq![MANGLE_MARK, MANGLE_MARK, MANGLE_MARK]
            &&& 0 <= cut <= s.len()
            &&& 1000 * cut <= 799 * s.len()
            &&& 300 * s.len() <= 1000 * cut + 999
        }),
{
    let cf = 300 + frac / 2;
    let cut = (s.len() * cf) / 1000;
    assert(300 <= cf <= 799);
    assert(0 <= cut && cut <= s.len() && 1000 * cut <= 799 * s.len() && 300 * s.len() <= 1000 * cut
        + 999) by (nonlinear_arith)
        requires
            300 <= cf <= 799,
            s.len() > 0,
            cut == (s.len() * cf) / 1000,
    ;
}

/// The mangled form of `input` for a fresh draw.
pub fn mangle_string(input: &str) -> (r: String)
    ensures
        exists|f: int| 0 <= f < 1000 && r@ == spec_mangle(input@, f),
{
    let frac = crate::rng::roll_thousandths();
    let r = mangle_string_with(input, frac);
    proof {
        assert(0 <= (frac as int) && (frac as int) < 1000 && r@ == spec_mangle(input@, frac as int));
    }
    r
}

/// The members with the last `body` member's value replaced by `v`;
/// unchanged when no member is named `body`. The last member is the one a
/// lookup sees.
pub open spec fn spec_replace_body(
    m: Seq<(Seq<char>, SpecJson)>,
    v: SpecJson,
) -> Seq<(Seq<char>, SpecJson)>
    decreases m.len(),
{
    if m.len() == 0 {
        m
    } else if m.last().0 == "body"@ {
        m.drop_last() + seq![(m.last().0, v)]
    } else {
        spec_replace_body(m.drop_last(), v) + seq![m.last()]
    }
}

/// Replacing the last `body` member is one point update, at the last index
/// whose key is `body`.
proof fn lemma_replace_body_is_update(m: Seq<(Seq<char>, SpecJson)>, v: SpecJson, idx: int)
    requires
        0 <= idx < m.len(),
        m[idx].0 == "body"@,
        forall|j: int| idx < j < m.len() ==> (#[trigger] m[j]).0 != "body"@,
    ensures
        spec_replace_body(m, v) == m.update(idx, (m[idx].0, v)),
    decreases m.len(),
{
    if idx == m.len() - 1 {
        assert(m.last().0 == "body"@);
        assert(spec_replace_body(m, v) =~= m.update(idx, (m[idx].0, v)));
    } else {
        assert(m.last().0 != "body"@);
        let md = m.drop_last();
        assert forall|j: int| idx < j < md.len() implies (#[trigger] md[j]).0 != "body"@ by {
            assert(md[j] == m[j]);
        }
        lemma_replace_body_is_update(md, v, idx);
        assert(spec_replace_body(m, v) =~= m.update(idx, (m[idx].0, v)));
    }
}

/// The member lookup finds the value at the last index whose key matches.
proof fn lemma_member_lookup_at(m: Seq<(Seq<char>, SpecJson)>, key: Seq<char>, idx: int)
    requires
        0 <= idx < m.len(),
        m[idx].0 == key,
        forall|j: int| idx < j < m.len() ==> (#[trigger] m[j]).0 != key,
    ensures
        crate::json::spec_member_lookup(m, key) == Some(m[idx].1),
    decreases m.len(),
{
    if idx < m.len() - 1 {
        assert(m.last().0 != key);
        let md = m.drop_last();
        assert forall|j: int| idx < j < md.len() implies (#[trigger] md[j]).0 != key by {
            assert(md[j] == m[j]);
        }
        lemma_member_lookup_at(md, key, idx);
    }
}

/// The last index whose member is named `key`, if any.
fn find_member_idx(members: &Vec<(String, JsonValue)>, key: &str) -> (r: Option<usize>)
    ensures
        ({
            let m = crate::json::spec_json_of_members(members@);
            match r {
                Some(i) => i < members@.len() && m.len() == members@.len() && m[i as int].0 == key@
                    && (forall|j: int|
                    i < j < m.len() ==> (#[trigger] m[j]).0 != key@)
                    && crate::json::spec_member_lookup(m, key@) == Some(m[i as int].1),
                None => crate::json::spec_member_lookup(m, key@) is None,
            }
        }),
{
    let ghost m = crate::json::spec_json_of_members(members@);
    proof {
        crate::json::lemma_spec_json_of_members(members@);
    }
    let mut i: usize = members.len();
    while i > 0
        invariant
            i <= members@.len(),
            m == crate::json::spec_json_of_members(members@),
            m.len() == members@.len(),
            forall|j: int| 0 <= j < members@.len() ==> (#[trigger] m[j]) == (
                members@[j].0@,
                members@[j].1.spec_json(),
            ),
            forall|j: int| i <= j < m.len() ==> (#[trigger] m[j]).0 != key@,
        decreases i,
    {
        i -= 1;
        if crate::text::str_eq(members[i].0.as_str(), key) {
            proof {
                lemma_member_lookup_at(m, key@, i as int);
            }
            return Some(i);
        }
    }
    proof {
        lemma_member_lookup_none(m, key@);
    }
    None
}

/// A key that no member carries is not found.
proof fn lemma_member_lookup_none(m: Seq<(Seq<char>, SpecJson)>, key: Seq<char>)
    requires
        forall|j: int| 0 <= j < m.len() ==> (#[trigger] m[j]).0 != key,
    ensures
        crate::json::spec_member_lookup(m, key) is None,
    decreases m.len(),
{
    if m.len() > 0 {
        assert(m.last().0 != key);
        let md = m.drop_last();
        assert forall|j: int| 0 <= j < md.len() implies (#[trigger] md[j]).0 != key by {
            assert(md[j] == m[j]);
        }
        lemma_member_lookup_none(md, key);
    }
}

/// Every character of the `body` key lies in the scalar range.
proof fn lemma_body_key_range()
    ensures
        crate::text::chars_in_range("body"@),
{
    reveal_strlit("body");
    assert forall|i: int| 0 <= i < "body"@.len() implies 0 <= (#[trigger] "body"@[i]) as int
        <= 0x10FFFF by {
        if i == 0 {
            assert("body"@[0] == 'b');
        } else if i == 1 {
            assert("body"@[1] == 'o');
        } else if i == 2 {
            assert("body"@[2] == 'd');
        } else {
            assert("body"@[3] == 'y');
        }
    }
}

/// Well-formedness of members, member by member: every key's characters in
/// range and every value well formed.
proof fn lemma_wf_members_pointwise(m: Seq<(Seq<char>, SpecJson)>)
    ensures
        crate::round_trip::wf_json_members(m) == (forall|i: int|
            0 <= i < m.len() ==> crate::text::chars_in_range((#[trigger] m[i]).0)
                && crate::round_trip::wf_json(m[i].1)),
    decreases m.len(),
{
    if m.len() > 0 {
        lemma_wf_members_pointwise(m.drop_first());
        let md = m.drop_first();
        if crate::round_trip::wf_json_members(m) {
            assert forall|i: int|
                0 <= i < m.len() implies crate::text::chars_in_range((#[trigger] m[i]).0)
                && crate::round_trip::wf_json(m[i].1) by {
                if i > 0 {
                    assert(md[i - 1] == m[i]);
                }
            }
        }
        if forall|i: int|
            0 <= i < m.len() ==> crate::text::chars_in_range((#[trigger] m[i]).0)
                && crate::round_trip::wf_json(m[i].1) {
            assert forall|i: int|
                0 <= i < md.len() implies crate::text::chars_in_range((#[trigger] md[i]).0)
                && crate::round_trip::wf_json(md[i].1) by {
                assert(md[i] == m[i + 1]);
            }
        }
    }
}

/// The depth of members is bounded by `d` exactly when every value's is.
proof fn lemma_depth_members_pointwise(m: Seq<(Seq<char>, SpecJson)>, d: nat)
    ensures
        (crate::json::spec_json_depth_members(m) <= d) == (forall|i: int|
            0 <= i < m.len() ==> crate::json::spec_json_depth((#[trigger] m[i]).1) <= d),
    decreases m.len(),
{
    if m.len() > 0 {
        lemma_depth_members_pointwise(m.drop_first(), d);
        let md = m.drop_first();
        if crate::json::spec_json_depth_members(m) <= d {
            assert forall|i: int|
                0 <= i < m.len() implies crate::json::spec_json_depth((#[trigger] m[i]).1)
                <= d by {
                if i > 0 {
                    assert(md[i - 1] == m[i]);
                }
            }
        }
        if forall|i: int|
            0 <= i < m.len() ==> crate::json::spec_json_depth((#[trigger] m[i]).1) <= d {
            assert forall|i: int|
                0 <= i < md.len() implies crate::json::spec_json_depth((#[trigger] md[i]).1)
                <= d by {
                assert(md[i] == m[i + 1]);
            }
        }
    }
}

/// Replacing the `body` member with a leaf keeps the members well formed
/// and no deeper.
proof fn lemma_replace_body_wf(m: Seq<(Seq<char>, SpecJson)>, v: SpecJson)
    requires
        crate::round_trip::wf_json_members(m),
        crate::round_trip::wf_json(v),
        crate::json::spec_json_depth(v) == 0,
    ensures
        crate::round_trip::wf_json_members(spec_replace_body(m, v)),
        crate::json::spec_json_depth_members(spec_replace_body(m, v))
            <= crate::json::spec_json_depth_members(m),
    decreases m.len(),
{
    let dm = crate::json::spec_json_depth_members(m);
    lemma_wf_members_pointwise(m);
    lemma_depth_members_pointwise(m, dm);
    if m.len() == 0 {
    } else if m.last().0 == "body"@ {
        let r = m.drop_last() + seq![(m.last().0, v)];
        assert forall|i: int|
            0 <= i < r.len() implies crate::text::chars_in_range((#[trigger] r[i]).0)
            && crate::round_trip::wf_json(r[i].1) && crate::json::spec_json_depth(r[i].1) <= dm by {
            if i < r.len() - 1 {
                assert(r[i] == m[i]);
            } else {
                assert(r[i] == (m.last().0, v));
            }
        }
        lemma_wf_members_pointwise(r);
        lemma_depth_members_pointwise(r, dm);
    } else {
        let md = m.drop_last();
        assert forall|i: int|
            0 <= i < md.len() implies crate::text::chars_in_range((#[trigger] md[i]).0)
            && crate::round_trip::wf_json(md[i].1) && crate::json::spec_json_depth(md[i].1)
            <= dm by {
            assert(md[i] == m[i]);
        }
        lemma_wf_members_pointwise(md);
        lemma_depth_members_pointwise(md, dm);
        assert(crate::json::spec_json_depth_members(md) <= dm);
        lemma_replace_body_wf(md, v);
        let rp = spec_replace_body(md, v);
        lemma_wf_members_pointwise(rp);
        lemma_depth_members_pointwise(rp, crate::json::spec_json_depth_members(md));
        let r = rp + seq![m.last()];
        assert forall|i: int|
            0 <= i < r.len() implies crate::text::chars_in_range((#[trigger] r[i]).0)
            && crate::round_trip::wf_json(r[i].1) && crate::json::spec_json_depth(r[i].1) <= dm by {
            if i < rp.len() {
                assert(r[i] == rp[i]);
                assert(crate::json::spec_json_depth(rp[i].1) <= crate::json::spec_json_depth_members(
                    md,
                ));
            } else {
                assert(r[i] == m.last());
            }
        }
        lemma_wf_members_pointwise(r);
        lemma_depth_members_pointwise(r, dm);
    }
}

/// What parsing gives back after corruption with a configured replacement:
/// the object with its `body` member replaced, the one-member wrapper for an
/// object without one, or the replacement itself for anything else.
pub open spec fn spec_corrupt_replaced_parses(
    repl: Seq<char>,
    body: Seq<char>,
    out: Seq<char>,
) -> bool {
    match crate::json_text::spec_parse_text(body) {
        Some(SpecJson::Object(m)) => if crate::json::spec_member_lookup(m, "body"@) is Some {
            crate::json_text::spec_parse_text(out) == Some(
                SpecJson::Object(spec_replace_body(m, SpecJson::String(repl))),
            )
        } else {
            crate::json_text::spec_parse_text(out) == Some(
                SpecJson::Object(seq![("body"@, SpecJson::String(repl))]),
            )
        },
        Some(_) => out == repl,
        None => out == repl,
    }
}

/// A mangled string's characters lie in the scalar range when the
/// input's do.
proof fn lemma_mangle_chars(s: Seq<char>, frac: int)
    requires
        crate::text::chars_in_range(s),
        0 <= frac < 1000,
    ensures
        crate::text::chars_in_range(spec_mangle(s, frac)),
{
    if s.len() > 0 {
        let cutfrac = 300 + frac / 2;
        let cut = (s.len() * cutfrac) / 1000;
        assert(0 <= cut && cut <= s.len()) by (nonlinear_arith)
            requires
                0 < cutfrac <= 1000,
                s.len() > 0,
                cut == (s.len() * cutfrac) / 1000,
        ;
        let r = spec_mangle(s, frac);
        assert forall|i: int| 0 <= i < r.len() implies 0 <= (#[trigger] r[i]) as int
            <= 0x10FFFF by {
            if i < cut {
                assert(r[i] == s.take(cut)[i]);
                assert(s.take(cut)[i] == s[i]);
            } else {
                assert(r[i] == MANGLE_MARK);
            }
        }
    }
}

/// A value found among well-formed members is well formed.
proof fn lemma_member_lookup_wf(m: Seq<(Seq<char>, SpecJson)>, key: Seq<char>)
    requires
        crate::round_trip::wf_json_members(m),
    ensures
        (match crate::json::spec_member_lookup(m, key) {
            Some(v) => crate::round_trip::wf_json(v),
            None => true,
        }),
    decreases m.len(),
{
    lemma_wf_members_pointwise(m);
    if m.len() > 0 {
        if m.last().0 == key {
            assert(crate::round_trip::wf_json(m.last().1));
        } else {
            let md = m.drop_last();
            assert forall|i: int|
                0 <= i < md.len() implies crate::text::chars_in_range((#[trigger] md[i]).0)
                && crate::round_trip::wf_json(md[i].1) by {
                assert(md[i] == m[i]);
            }
            lemma_wf_members_pointwise(md);
            lemma_member_lookup_wf(md, key);
        }
    }
}

/// What parsing gives back after corruption without a replacement: the
/// object with its string `body` member mangled, or the body unchanged.
pub open spec fn spec_corrupt_mangled_parses(body: Seq<char>, out: Seq<char>, frac: int) -> bool {
    match crate::json_text::spec_parse_text(body) {
        Some(SpecJson::Object(m)) => match crate::json::spec_member_lookup(m, "body"@) {
            Some(SpecJson::String(s)) => crate::json_text::spec_parse_text(out) == Some(
                SpecJson::Object(spec_replace_body(m, SpecJson::String(spec_mangle(s, frac)))),
            ),
            _ => out == body,
        },
        _ => out == body,
    }
}

/// The corrupted response text. With a replacement configured: a JSON
/// object body has its `body` member replaced, an object without one is
/// wrapped as `{"body": replacement}`, and any other body — non-JSON, or
/// JSON that is not an object — becomes the replacement verbatim. Without
/// one: a JSON object body with a string `body` member has that member
/// mangled; anything else passes through unchanged.
pub open spec fn spec_corrupt(flag: SpecFlagValue, body: Seq<char>, frac: int) -> Seq<char> {
    match flag.body {
        Some(repl) => match crate::json_text::spec_parse_text(body) {
            Some(SpecJson::Object(m)) => if crate::json::spec_member_lookup(m, "body"@) is Some {
                spec_ser(SpecJson::Object(spec_replace_body(m, SpecJson::String(repl))))
            } else {
                spec_ser(SpecJson::Object(seq![("body"@, SpecJson::String(repl))]))
            },
            Some(_) => repl,
            None => repl,
        },
        None => match crate::json_text::spec_parse_text(body) {
            Some(SpecJson::Object(m)) => match crate::json::spec_member_lookup(m, "body"@) {
                Some(SpecJson::String(s)) => spec_ser(
                    SpecJson::Object(spec_replace_body(m, SpecJson::String(spec_mangle(s, frac)))),
                ),
                _ => body,
            },
            _ => body,
        },
    }
}

/// The corrupted response for `flag` and the drawn fraction `frac`.
pub fn corrupt_response_with(flag: &FlagValue, body: &str, frac: u64) -> (r: String)
    requires
        frac < 1000,
    ensures
        r@ == spec_corrupt(flag@, body@, frac as int),
        flag@.body matches Some(repl) ==> spec_corrupt_replaced_parses(repl, body@, r@),
        (flag@.body is None) ==> spec_corrupt_mangled_parses(body@, r@, frac as int),
{
    match &flag.body {
        Some(repl) => {
            match crate::json_text::parse_json(body) {
                Some(JsonValue::Object(mut members)) => {
                    proof {
                        crate::json::lemma_spec_json_of_members(members@);
                    }
                    match find_member_idx(&members, "body") {
                        Some(idx) => {
                            let ghost oldm = members@;
                            let ghost m0 = crate::json::spec_json_of_members(oldm);
                            proof {
                                crate::json::lemma_spec_json_of_members(oldm);
                            }
                            members[idx] = (
                                String::from_str("body"),
                                JsonValue::String(repl.clone()),
                            );
                            proof {
                                lemma_replace_body_is_update(
                                    m0,
                                    SpecJson::String(repl@),
                                    idx as int,
                                );
                                crate::json::lemma_spec_json_of_members(members@);
                                reveal_strlit("body");
                                assert(crate::json::spec_json_of_members(members@)
                                    =~= spec_replace_body(m0, SpecJson::String(repl@)));
                            }
                            // Walking the replacement's characters records
                            // that they lie in the scalar range, which the
                            // round trip below needs.
                            let repl_chars = crate::text::chars_of(repl.as_str());
                            let out = to_json_text(&JsonValue::Object(members));
                            proof {
                                crate::round_trip::lemma_parse_text_wf(body@);
                                lemma_replace_body_wf(m0, SpecJson::String(repl@));
                                crate::round_trip::lemma_rt_text(
                                    SpecJson::Object(
                                        spec_replace_body(m0, SpecJson::String(repl@)),
                                    ),
                                );
                            }
                            out
                        },
                        None => {
                            let repl_chars = crate::text::chars_of(repl.as_str());
                            let out = wrap_body(repl);
                            proof {
                                lemma_wrap_parses(repl@);
                            }
                            out
                        },
                    }
                },
                Some(_) => repl.clone(),
                None => repl.clone(),
            }
        },
        None => {
            match crate::json_text::parse_json(body) {
                Some(JsonValue::Object(mut members)) => {
                    proof {
                        crate::json::lemma_spec_json_of_members(members@);
                    }
                    match find_member_idx(&members, "body") {
                        Some(idx) => {
                            let is_string = match &members[idx].1 {
                                JsonValue::String(_) => true,
                                _ => false,
                            };
                            if is_string {
                                let s: String = match &members[idx].1 {
                                    JsonValue::String(s) => s.clone(),
                                    _ => String::new(),
                                };
                                let mangled = mangle_string_with(s.as_str(), frac);
                                let ghost oldm = members@;
                                let ghost m0 = crate::json::spec_json_of_members(oldm);
                                proof {
                                    crate::json::lemma_spec_json_of_members(oldm);
                                }
                                members[idx] = (
                                    String::from_str("body"),
                                    JsonValue::String(mangled),
                                );
                                proof {
                                    lemma_replace_body_is_update(
                                        m0,
                                        SpecJson::String(spec_mangle(s@, frac as int)),
                                        idx as int,
                                    );
                                    crate::json::lemma_spec_json_of_members(members@);
                                    reveal_strlit("body");
                                    assert(crate::json::spec_json_of_members(members@)
                                        =~= spec_replace_body(
                                        m0,
                                        SpecJson::String(spec_mangle(s@, frac as int)),
                                    ));
                                }
                                let out = to_json_text(&JsonValue::Object(members));
                                proof {
                                    crate::round_trip::lemma_parse_text_wf(body@);
                                    lemma_member_lookup_wf(m0, "body"@);
                                    lemma_mangle_chars(s@, frac as int);
                                    lemma_replace_body_wf(
                                        m0,
                                        SpecJson::String(spec_mangle(s@, frac as int)),
                                    );
                                    crate::round_trip::lemma_rt_text(
                                        SpecJson::Object(
                                            spec_replace_body(
                                                m0,
                                                SpecJson::String(spec_mangle(s@, frac as int)),
                                            ),
                                        ),
                                    );
                                }
                                out
                            } else {
                                String::from_str(body)
                            }
                        },
                        None => String::from_str(body),
                    }
                },
                Some(_) => String::from_str(body),
                None => String::from_str(body),
            }
        },
    }
}

/// The one-member wrapper parses back to its object.
proof fn lemma_wrap_parses(repl: Seq<char>)
    requires
        crate::text::chars_in_range(repl),
    ensures
        crate::json_text::spec_parse_text(
            spec_ser(SpecJson::Object(seq![("body"@, SpecJson::String(repl))])),
        ) == Some(SpecJson::Object(seq![("body"@, SpecJson::String(repl))])),
{
    lemma_body_key_range();
    reveal_with_fuel(crate::round_trip::wf_json_members, 2);
    reveal_with_fuel(crate::json::spec_json_depth_members, 2);
    let w = SpecJson::Object(seq![("body"@, SpecJson::String(repl))]);
    let ms = seq![("body"@, SpecJson::String(repl))];
    assert(ms.drop_first() =~= Seq::<(Seq<char>, SpecJson)>::empty());
    assert(ms[0] == ("body"@, SpecJson::String(repl)));
    assert(crate::round_trip::wf_json_members(Seq::<(Seq<char>, SpecJson)>::empty()));
    assert(crate::json::spec_json_depth_members(Seq::<(Seq<char>, SpecJson)>::empty()) == 0);
    assert(crate::round_trip::wf_json_members(ms));
    assert(crate::json::spec_json_depth_members(ms) == 0) by {
        assert(crate::json::spec_json_depth(SpecJson::String(repl)) == 0);
    }
    assert(crate::json::spec_json_depth(w) == 1);
    crate::round_trip::lemma_rt_text(w);
}

/// The one-member object `{"body": replacement}`, as text.
fn wrap_body(repl: &String) -> (r: String)
    ensures
        r@ == spec_ser(SpecJson::Object(seq![("body"@, SpecJson::String(repl@))])),
{
    let mut members: Vec<(String, JsonValue)> = Vec::new();
    members.push((String::from_str("body"), JsonValue::String(repl.clone())));
    proof {
        crate::json::lemma_spec_json_of_members(members@);
        assert(crate::json::spec_json_of_members(members@) =~= seq![
            ("body"@, SpecJson::String(repl@)),
        ]);
    }
    to_json_text(&JsonValue::Object(members))
}

/// The corrupted response for `flag`, with a fresh draw.
pub fn corrupt_response(flag: &FlagValue, body: &str) -> (r: String)
    ensures
        exists|f: int| 0 <= f < 1000 && r@ == spec_corrupt(flag@, body@, f),
{
    let frac = crate::rng::roll_thousandths();
    let r = corrupt_response_with(flag, body, frac);
    proof {
        assert(0 <= (frac as int) && (frac as int) < 1000 && r@ == spec_corrupt(flag@, body@, frac as int));
    }
    r
}

} // verus!
