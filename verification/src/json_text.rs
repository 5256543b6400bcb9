//! JSON text: rendering a document to its canonical text, and parsing text
//! back into a document.
//!
//! The canonical text carries no whitespace, renders a number as its integer
//! part plus up to three decimal places, and escapes only what must be
//! escaped: quote, backslash, and control characters (the latter as
//! `\u00XX`). The parser accepts whitespace between tokens, the simple
//! escapes and control-character escapes, and numbers with any count of
//! fraction digits and an optional exponent — truncated toward zero to the
//! model's thousandths and clamped into the sixty-four bit range. It
//! rejects what the model cannot hold: escapes of characters outside the
//! control range, and nesting deeper than [`MAX_DEPTH`].

use vstd::prelude::*;

use crate::json::{spec_json_of_members, spec_json_of_seq, JsonValue, SpecJson};
use crate::text::push_char;

verus! {

/// The deepest nesting of arrays and objects the parser accepts.
pub const MAX_DEPTH: usize = 128;

/// The space character, the least character that needs no escaping.
const SPACE: char = ' ';

/// The zero digit.
const D_ZERO: char = '0';

/// The nine digit.
const D_NINE: char = '9';

/// The least lower-case hexadecimal letter.
const H_LOW_A: char = 'a';

/// The greatest lower-case hexadecimal letter.
const H_LOW_F: char = 'f';

/// The least upper-case hexadecimal letter.
const H_UP_A: char = 'A';

/// The greatest upper-case hexadecimal letter.
const H_UP_F: char = 'F';

// ---------------------------------------------------------------------------
// Characters: digits, hexadecimal digits, whitespace.
// ---------------------------------------------------------------------------

/// Whether `c` is a decimal digit.
pub open spec fn spec_is_digit(c: char) -> bool {
    48 <= c as int <= 57
}

/// The numeric value of a decimal digit.
pub open spec fn spec_digit_val(c: char) -> int {
    c as int - 48
}

/// The decimal digit character for `d` in `0..10`.
pub open spec fn spec_digit_char(d: int) -> char {
    if d == 0 {
        '0'
    } else if d == 1 {
        '1'
    } else if d == 2 {
        '2'
    } else if d == 3 {
        '3'
    } else if d == 4 {
        '4'
    } else if d == 5 {
        '5'
    } else if d == 6 {
        '6'
    } else if d == 7 {
        '7'
    } else if d == 8 {
        '8'
    } else {
        '9'
    }
}

/// The lower-case hexadecimal digit character for `d` in `0..16`.
pub open spec fn spec_hex_char(d: int) -> char {
    if d < 10 {
        spec_digit_char(d)
    } else if d == 10 {
        'a'
    } else if d == 11 {
        'b'
    } else if d == 12 {
        'c'
    } else if d == 13 {
        'd'
    } else if d == 14 {
        'e'
    } else {
        'f'
    }
}

/// Whether `c` is a hexadecimal digit, upper or lower case.
pub open spec fn spec_is_hex(c: char) -> bool {
    spec_is_digit(c) || (97 <= c as int <= 102) || (65 <= c as int <= 70)
}

/// The numeric value of a hexadecimal digit.
pub open spec fn spec_hex_val(c: char) -> int {
    if spec_is_digit(c) {
        c as int - 48
    } else if 97 <= c as int <= 102 {
        c as int - 87
    } else {
        c as int - 55
    }
}

/// Whether `c` is JSON whitespace.
pub open spec fn spec_is_ws(c: char) -> bool {
    c == ' ' || c == '\t' || c == '\n' || c == '\r'
}

// ---------------------------------------------------------------------------
// Rendering numbers.
// ---------------------------------------------------------------------------

/// The decimal digits of `n`, most significant first.
pub open spec fn spec_render_nat(n: nat) -> Seq<char>
    decreases n,
{
    if n < 10 {
        seq![spec_digit_char(n as int)]
    } else {
        spec_render_nat(n / 10) + seq![spec_digit_char((n % 10) as int)]
    }
}

/// The rendering of a fraction of `fp` thousandths, `0 <= fp < 1000`: empty
/// when zero, else a point and one to three digits without trailing zeros.
pub open spec fn spec_render_frac(fp: nat) -> Seq<char> {
    let d1 = fp / 100;
    let d2 = (fp / 10) % 10;
    let d3 = fp % 10;
    if fp == 0 {
        Seq::empty()
    } else if d3 != 0 {
        seq!['.', spec_digit_char(d1 as int), spec_digit_char(d2 as int), spec_digit_char(d3 as int)]
    } else if d2 != 0 {
        seq!['.', spec_digit_char(d1 as int), spec_digit_char(d2 as int)]
    } else {
        seq!['.', spec_digit_char(d1 as int)]
    }
}

/// The rendering of the non-negative number of `k` thousandths.
pub open spec fn spec_render_unsigned(k: nat) -> Seq<char> {
    spec_render_nat(k / 1000) + spec_render_frac(k % 1000)
}

/// The rendering of the number of `k` thousandths.
pub open spec fn spec_render_number(k: int) -> Seq<char> {
    if k < 0 {
        seq!['-'] + spec_render_unsigned((-k) as nat)
    } else {
        spec_render_unsigned(k as nat)
    }
}

// ---------------------------------------------------------------------------
// Rendering strings.
// ---------------------------------------------------------------------------

/// The rendering of one string character: itself, unless it must be escaped.
pub open spec fn spec_escape_char(c: char) -> Seq<char> {
    if c == '"' {
        seq!['\\', '"']
    } else if c == '\\' {
        seq!['\\', '\\']
    } else if (c as int) < 32 {
        seq!['\\', 'u', '0', '0', spec_hex_char(c as int / 16), spec_hex_char(c as int % 16)]
    } else {
        seq![c]
    }
}

/// The rendering of a string's characters, escaped, without the quotes.
pub open spec fn spec_escape_string(s: Seq<char>) -> Seq<char>
    decreases s.len(),
{
    if s.len() == 0 {
        Seq::empty()
    } else {
        spec_escape_char(s[0]) + spec_escape_string(s.drop_first())
    }
}

/// The rendering of a string: its escaped characters between quotes.
pub open spec fn spec_ser_string(s: Seq<char>) -> Seq<char> {
    seq!['"'] + spec_escape_string(s) + seq!['"']
}

// ---------------------------------------------------------------------------
// Rendering documents.
// ---------------------------------------------------------------------------

/// The canonical text of a document.
pub open spec fn spec_ser(v: SpecJson) -> Seq<char>
    decreases v, 0int,
{
    match v {
        SpecJson::Null => seq!['n', 'u', 'l', 'l'],
        SpecJson::Bool(b) => if b {
            seq!['t', 'r', 'u', 'e']
        } else {
            seq!['f', 'a', 'l', 's', 'e']
        },
        SpecJson::Number(k) => spec_render_number(k),
        SpecJson::String(s) => spec_ser_string(s),
        SpecJson::Array(items) => seq!['['] + spec_ser_elements(items) + seq![']'],
        SpecJson::Object(members) => seq!['{'] + spec_ser_members(members) + seq!['}'],
    }
}

/// The canonical text of an array's elements, comma separated.
pub open spec fn spec_ser_elements(items: Seq<SpecJson>) -> Seq<char>
    decreases items, 1int,
{
    if items.len() == 0 {
        Seq::empty()
    } else if items.len() == 1 {
        spec_ser(items[0])
    } else {
        spec_ser(items[0]) + seq![','] + spec_ser_elements(items.drop_first())
    }
}

/// The canonical text of an object's members, comma separated.
pub open spec fn spec_ser_members(members: Seq<(Seq<char>, SpecJson)>) -> Seq<char>
    decreases members, 1int,
{
    if members.len() == 0 {
        Seq::empty()
    } else {
        let head = spec_ser_string(members[0].0) + seq![':'] + spec_ser(members[0].1);
        if members.len() == 1 {
            head
        } else {
            head + seq![','] + spec_ser_members(members.drop_first())
        }
    }
}

// ---------------------------------------------------------------------------
// The executable serializer.
// ---------------------------------------------------------------------------

/// The decimal digit character for `d`, which must be below ten.
pub(crate) fn digit_char(d: u64) -> (c: char)
    requires
        d < 10,
    ensures
        c == spec_digit_char(d as int),
{
    match d {
        0 => '0',
        1 => '1',
        2 => '2',
        3 => '3',
        4 => '4',
        5 => '5',
        6 => '6',
        7 => '7',
        8 => '8',
        _ => '9',
    }
}

/// The lower-case hexadecimal digit character for `d`, which must be below
/// sixteen.
pub(crate) fn hex_char(d: u32) -> (c: char)
    requires
        d < 16,
    ensures
        c == spec_hex_char(d as int),
{
    match d {
        0 => '0',
        1 => '1',
        2 => '2',
        3 => '3',
        4 => '4',
        5 => '5',
        6 => '6',
        7 => '7',
        8 => '8',
        9 => '9',
        10 => 'a',
        11 => 'b',
        12 => 'c',
        13 => 'd',
        14 => 'e',
        _ => 'f',
    }
}

/// Appends the decimal digits of `n` to `out`.
pub(crate) fn write_nat(n: u64, out: &mut String)
    ensures
        final(out)@ == old(out)@ + spec_render_nat(n as nat),
    decreases n,
{
    if n < 10 {
        push_char(out, digit_char(n));
    } else {
        write_nat(n / 10, out);
        push_char(out, digit_char(n % 10));
    }
}

/// Appends the rendering of the number of `k` thousandths to `out`.
fn write_number(k: i64, out: &mut String)
    ensures
        final(out)@ == old(out)@ + spec_render_number(k as int),
{
    let m: u64 = if k < 0 {
        push_char(out, '-');
        if k == i64::MIN {
            9223372036854775808u64
        } else {
            (-k) as u64
        }
    } else {
        k as u64
    };
    let ip = m / 1000;
    let fp = m % 1000;
    write_nat(ip, out);
    if fp != 0 {
        let d1 = fp / 100;
        let d2 = (fp / 10) % 10;
        let d3 = fp % 10;
        push_char(out, '.');
        push_char(out, digit_char(d1));
        if d3 != 0 {
            push_char(out, digit_char(d2));
            push_char(out, digit_char(d3));
        } else if d2 != 0 {
            push_char(out, digit_char(d2));
        }
    }
    proof {
        assert(final(out)@ =~= old(out)@ + spec_render_number(k as int));
    }
}

/// Appends the escaped characters of `s`, without quotes, to `out`.
fn write_escaped(s: &str, out: &mut String)
    ensures
        final(out)@ == old(out)@ + spec_escape_string(s@),
{
    let cs = crate::text::chars_of(s);
    let mut i: usize = 0;
    proof {
        lemma_escape_string_take(s@, 0);
    }
    while i < cs.len()
        invariant
            cs@ == s@,
            i <= cs@.len(),
            crate::text::chars_in_range(cs@),
            out@ == old(out)@ + spec_escape_string(s@.take(i as int)),
        decreases cs@.len() - i,
    {
        let ghost prev = out@;
        let c = cs[i];
        proof {
            assert(0 <= (c as int) && (c as int) <= 0x10FFFF);
        }
        if c == '"' {
            push_char(out, '\\');
            push_char(out, '"');
            proof {
                assert(out@ =~= prev + spec_escape_char(c));
            }
        } else if c == '\\' {
            push_char(out, '\\');
            push_char(out, '\\');
            proof {
                assert(out@ =~= prev + spec_escape_char(c));
            }
        } else if c < SPACE {
            push_char(out, '\\');
            push_char(out, 'u');
            push_char(out, '0');
            push_char(out, '0');
            push_char(out, hex_char((c as u32) / 16));
            push_char(out, hex_char((c as u32) % 16));
            proof {
                assert(c as u32 == c as int);
                assert(out@ =~= prev + spec_escape_char(c));
            }
        } else {
            push_char(out, c);
            proof {
                assert(out@ =~= prev + spec_escape_char(c));
            }
        }
        proof {
            lemma_escape_string_take(s@, i + 1);
            assert(s@.take(i + 1).drop_last() =~= s@.take(i as int));
            assert(s@.take(i + 1).last() == s@[i as int]);
            assert(out@ =~= old(out)@ + spec_escape_string(s@.take(i + 1)));
        }
        i += 1;
    }
    proof {
        assert(s@.take(cs@.len() as int) =~= s@);
    }
}

/// Escaping a take of one more character appends that character's escape.
proof fn lemma_escape_string_take(s: Seq<char>, i: int)
    requires
        0 <= i <= s.len(),
    ensures
        i > 0 ==> spec_escape_string(s.take(i)) == spec_escape_string(s.take(i - 1))
            + spec_escape_char(s[i - 1]),
        i == 0 ==> spec_escape_string(s.take(i)) == Seq::<char>::empty(),
    decreases i,
{
    if i > 0 {
        lemma_escape_snoc(s.take(i));
        assert(s.take(i).drop_last() =~= s.take(i - 1));
    } else {
        assert(s.take(0) =~= Seq::<char>::empty());
    }
}

/// Escaping a non-empty sequence escapes all but the last, then the last.
proof fn lemma_escape_snoc(s: Seq<char>)
    requires
        s.len() > 0,
    ensures
        spec_escape_string(s) == spec_escape_string(s.drop_last()) + spec_escape_char(s.last()),
    decreases s.len(),
{
    if s.len() == 1 {
        assert(s.drop_last() =~= Seq::<char>::empty());
        assert(s.drop_first() =~= Seq::<char>::empty());
        assert(spec_escape_string(s) =~= spec_escape_char(s[0]) + Seq::<char>::empty());
        assert(spec_escape_string(s.drop_last()) + spec_escape_char(s.last()) =~= spec_escape_char(
            s[0],
        ));
    } else {
        lemma_escape_snoc(s.drop_first());
        assert(s.drop_first().drop_last() =~= s.drop_last().drop_first());
        assert(s.drop_last().len() > 0);
        assert(spec_escape_string(s) == spec_escape_char(s[0]) + spec_escape_string(s.drop_first()));
        assert(s.drop_first().last() == s.last());
        assert(spec_escape_string(s) =~= spec_escape_string(s.drop_last()) + spec_escape_char(
            s.last(),
        ));
    }
}

/// Appends the rendering of the string `s`, quotes included, to `out`.
fn write_string(s: &str, out: &mut String)
    ensures
        final(out)@ == old(out)@ + spec_ser_string(s@),
{
    push_char(out, '"');
    write_escaped(s, out);
    push_char(out, '"');
    proof {
        assert(final(out)@ =~= old(out)@ + spec_ser_string(s@));
    }
}

/// Appends the canonical text of `v` to `out`.
fn write_value(v: &JsonValue, out: &mut String)
    ensures
        final(out)@ == old(out)@ + spec_ser(v@),
    decreases *v, 0int, 0int,
{
    match v {
        JsonValue::Null => {
            push_char(out, 'n');
            push_char(out, 'u');
            push_char(out, 'l');
            push_char(out, 'l');
            proof {
                assert(final(out)@ =~= old(out)@ + spec_ser(v@));
            }
        },
        JsonValue::Bool(b) => {
            if *b {
                push_char(out, 't');
                push_char(out, 'r');
                push_char(out, 'u');
                push_char(out, 'e');
            } else {
                push_char(out, 'f');
                push_char(out, 'a');
                push_char(out, 'l');
                push_char(out, 's');
                push_char(out, 'e');
            }
            proof {
                assert(final(out)@ =~= old(out)@ + spec_ser(v@));
            }
        },
        JsonValue::Number(k) => {
            write_number(*k, out);
        },
        JsonValue::String(s) => {
            write_string(s.as_str(), out);
        },
        JsonValue::Array(items) => {
            push_char(out, '[');
            write_elements(items, 0, out);
            push_char(out, ']');
            proof {
                crate::json::lemma_spec_json_of_seq(items@);
                assert(items@.skip(0) =~= items@);
                assert(spec_json_of_seq(items@.skip(0)) =~= spec_json_of_seq(items@));
                assert(final(out)@ =~= old(out)@ + spec_ser(v@));
            }
        },
        JsonValue::Object(members) => {
            push_char(out, '{');
            write_members(members, 0, out);
            push_char(out, '}');
            proof {
                assert(members@.skip(0) =~= members@);
                assert(spec_json_of_members(members@.skip(0)) =~= spec_json_of_members(members@));
                assert(final(out)@ =~= old(out)@ + spec_ser(v@));
            }
        },
    }
}

/// Appends the canonical text of the elements from `i` on, comma separated.
fn write_elements(items: &Vec<JsonValue>, i: usize, out: &mut String)
    requires
        i <= items@.len(),
    ensures
        final(out)@ == old(out)@ + spec_ser_elements(spec_json_of_seq(items@.skip(i as int))),
    decreases items@, 1int, items@.len() - i,
{
    if i < items.len() {
        write_value(&items[i], out);
        if i + 1 < items.len() {
            push_char(out, ',');
            write_elements(items, i + 1, out);
        }
        proof {
            let rest = items@.skip(i as int);
            assert(rest[0] == items@[i as int]);
            assert(rest.drop_first() =~= items@.skip(i + 1));
            crate::json::lemma_spec_json_of_seq(rest);
            assert(spec_json_of_seq(rest)[0] == items@[i as int].spec_json());
            assert(spec_json_of_seq(rest).drop_first() =~= spec_json_of_seq(items@.skip(i + 1)))
                by {
                crate::json::lemma_spec_json_of_seq(items@.skip(i + 1));
                crate::json::lemma_spec_json_of_seq(rest);
            }
            if i + 1 < items@.len() {
                assert(spec_ser_elements(spec_json_of_seq(rest)) == spec_ser(
                    spec_json_of_seq(rest)[0],
                ) + seq![','] + spec_ser_elements(spec_json_of_seq(rest).drop_first()));
            } else {
                assert(spec_json_of_seq(rest).len() == 1);
            }
            assert(final(out)@ =~= old(out)@ + spec_ser_elements(
                spec_json_of_seq(items@.skip(i as int)),
            ));
        }
    } else {
        proof {
            assert(items@.skip(i as int) =~= Seq::<JsonValue>::empty());
            assert(spec_json_of_seq(items@.skip(i as int)).len() == 0);
            assert(final(out)@ =~= old(out)@ + spec_ser_elements(
                spec_json_of_seq(items@.skip(i as int)),
            ));
        }
    }
}

/// Appends the canonical text of the members from `i` on, comma separated.
fn write_members(members: &Vec<(String, JsonValue)>, i: usize, out: &mut String)
    requires
        i <= members@.len(),
    ensures
        final(out)@ == old(out)@ + spec_ser_members(spec_json_of_members(members@.skip(i as int))),
    decreases members@, 1int, members@.len() - i,
{
    if i < members.len() {
        write_string(members[i].0.as_str(), out);
        push_char(out, ':');
        write_value(&members[i].1, out);
        if i + 1 < members.len() {
            push_char(out, ',');
            write_members(members, i + 1, out);
        }
        proof {
            let rest = members@.skip(i as int);
            assert(rest[0] == members@[i as int]);
            assert(rest.drop_first() =~= members@.skip(i + 1));
            crate::json::lemma_spec_json_of_members(rest);
            crate::json::lemma_spec_json_of_members(members@.skip(i + 1));
            assert(spec_json_of_members(rest)[0] == (
                members@[i as int].0@,
                members@[i as int].1.spec_json(),
            ));
            assert(spec_json_of_members(rest).drop_first() =~= spec_json_of_members(
                members@.skip(i + 1),
            ));
            assert(final(out)@ =~= old(out)@ + spec_ser_members(
                spec_json_of_members(members@.skip(i as int)),
            ));
        }
    } else {
        proof {
            assert(members@.skip(i as int) =~= Seq::<(String, JsonValue)>::empty());
            assert(spec_json_of_members(members@.skip(i as int)).len() == 0);
            assert(final(out)@ =~= old(out)@ + spec_ser_members(
                spec_json_of_members(members@.skip(i as int)),
            ));
        }
    }
}

/// The canonical JSON text of `v`.
pub fn to_json_text(v: &JsonValue) -> (r: String)
    ensures
        r@ == spec_ser(v@),
{
    let mut out = String::new();
    write_value(v, &mut out);
    proof {
        assert(out@ =~= spec_ser(v@));
    }
    out
}

// ---------------------------------------------------------------------------
// The grammar: what the parser accepts, defined over character sequences.
// ---------------------------------------------------------------------------

/// Whether `k` fits the signed sixty-four bit range.
pub open spec fn spec_in_i64(k: int) -> bool {
    -0x8000000000000000 <= k <= 0x7fffffffffffffff
}

/// The first position at or after `pos` that does not hold whitespace.
pub open spec fn spec_skip_ws(s: Seq<char>, pos: int) -> int
    decreases s.len() - pos,
{
    if pos < s.len() && spec_is_ws(s[pos]) {
        spec_skip_ws(s, pos + 1)
    } else {
        pos
    }
}

/// Skipping whitespace stays within the sequence and skips only whitespace.
pub proof fn lemma_skip_ws_bounds(s: Seq<char>, pos: int)
    requires
        0 <= pos <= s.len(),
    ensures
        pos <= spec_skip_ws(s, pos) <= s.len(),
        spec_skip_ws(s, pos) < s.len() ==> !spec_is_ws(s[spec_skip_ws(s, pos)]),
    decreases s.len() - pos,
{
    if pos < s.len() && spec_is_ws(s[pos]) {
        lemma_skip_ws_bounds(s, pos + 1);
    }
}

/// The first position at or after `pos` that does not hold a decimal digit.
pub open spec fn spec_scan_digits(s: Seq<char>, pos: int) -> int
    decreases s.len() - pos,
{
    if pos < s.len() && spec_is_digit(s[pos]) {
        spec_scan_digits(s, pos + 1)
    } else {
        pos
    }
}

/// Scanning digits stays within the sequence, passes only digits, and stops
/// at the first non-digit.
pub proof fn lemma_scan_digits_bounds(s: Seq<char>, pos: int)
    requires
        0 <= pos <= s.len(),
    ensures
        pos <= spec_scan_digits(s, pos) <= s.len(),
        forall|j: int| pos <= j < spec_scan_digits(s, pos) ==> spec_is_digit(#[trigger] s[j]),
        spec_scan_digits(s, pos) < s.len() ==> !spec_is_digit(s[spec_scan_digits(s, pos)]),
    decreases s.len() - pos,
{
    if pos < s.len() && spec_is_digit(s[pos]) {
        lemma_scan_digits_bounds(s, pos + 1);
    }
}

/// A run of digits from `pos` to `q`, delimited by a non-digit, is exactly
/// what the digit scan passes.
pub proof fn lemma_scan_digits_exact(s: Seq<char>, pos: int, q: int)
    requires
        0 <= pos <= q <= s.len(),
        forall|j: int| pos <= j < q ==> spec_is_digit(#[trigger] s[j]),
        q < s.len() ==> !spec_is_digit(s[q]),
    ensures
        spec_scan_digits(s, pos) == q,
    decreases q - pos,
{
    if pos < q {
        lemma_scan_digits_exact(s, pos + 1, q);
    }
}

/// The value of a sequence of decimal digits, most significant first.
pub open spec fn spec_digits_val(s: Seq<char>) -> int
    decreases s.len(),
{
    if s.len() == 0 {
        0
    } else {
        spec_digits_val(s.drop_last()) * 10 + spec_digit_val(s.last())
    }
}

/// A value clamped into the signed sixty-four bit range.
pub open spec fn spec_sat_i64(k: int) -> int {
    if k > 0x7fffffffffffffff {
        0x7fffffffffffffff
    } else if k < -0x8000000000000000 {
        -0x8000000000000000
    } else {
        k
    }
}

/// `n` zero digits.
pub open spec fn spec_zero_digits(n: nat) -> Seq<char> {
    Seq::new(n, |i: int| '0')
}

/// A number's digits with the decimal point moved `e` places right: zeros
/// appended, or trailing digits truncated away — truncation toward zero.
pub open spec fn spec_shifted_digits(cd: Seq<char>, e: int) -> Seq<char> {
    if cd.len() + e <= 0 {
        Seq::empty()
    } else if e >= 0 {
        cd + spec_zero_digits(e as nat)
    } else {
        cd.take(cd.len() + e)
    }
}

/// The signed value of the digit string `cd` scaled by ten to the `e`,
/// truncated toward zero and clamped into the sixty-four bit range.
pub open spec fn spec_number_value(neg: bool, cd: Seq<char>, e: int) -> int {
    let mag = spec_digits_val(spec_shifted_digits(cd, e));
    spec_sat_i64(
        if neg {
            -mag
        } else {
            mag
        },
    )
}

/// The parsed number starting at `pos`: its value in thousandths, truncated
/// toward zero and clamped into the sixty-four bit range, and the position
/// after it. The grammar is an optional minus, integer digits, an optional
/// point with fraction digits, and an optional signed exponent.
pub open spec fn spec_parse_number(s: Seq<char>, pos: int) -> Option<(int, int)> {
    let neg = pos < s.len() && s[pos] == '-';
    let p0 = if neg {
        pos + 1
    } else {
        pos
    };
    let p1 = spec_scan_digits(s, p0);
    if p1 == p0 {
        None
    } else {
        let has_frac = p1 < s.len() && s[p1] == '.';
        let p2 = if has_frac {
            spec_scan_digits(s, p1 + 1)
        } else {
            p1
        };
        if has_frac && p2 == p1 + 1 {
            None
        } else {
            let nfrac = if has_frac {
                p2 - (p1 + 1)
            } else {
                0
            };
            let cd = s.subrange(p0, p1) + (if has_frac {
                s.subrange(p1 + 1, p2)
            } else {
                Seq::empty()
            });
            let has_exp = p2 < s.len() && (s[p2] == 'e' || s[p2] == 'E');
            if has_exp {
                let esigned = p2 + 1 < s.len() && (s[p2 + 1] == '-' || s[p2 + 1] == '+');
                let eneg = p2 + 1 < s.len() && s[p2 + 1] == '-';
                let ep0 = if esigned {
                    p2 + 2
                } else {
                    p2 + 1
                };
                let ep1 = spec_scan_digits(s, ep0);
                if ep1 == ep0 {
                    None
                } else {
                    let emag = spec_digits_val(s.subrange(ep0, ep1));
                    let exp = if eneg {
                        -emag
                    } else {
                        emag
                    };
                    Some((spec_number_value(neg, cd, exp + 3 - nfrac), ep1))
                }
            } else {
                Some((spec_number_value(neg, cd, 3 - nfrac), p2))
            }
        }
    }
}

/// The character a simple escape stands for, if `e` is a simple escape.
pub open spec fn spec_simple_unescape(e: char) -> Option<char> {
    if e == '"' {
        Some('"')
    } else if e == '\\' {
        Some('\\')
    } else if e == '/' {
        Some('/')
    } else if e == 'b' {
        Some(8 as char)
    } else if e == 'f' {
        Some(12 as char)
    } else if e == 'n' {
        Some('\n')
    } else if e == 'r' {
        Some('\r')
    } else if e == 't' {
        Some('\t')
    } else {
        None
    }
}

/// The parsed body of a string starting at `pos`, just after the opening
/// quote: the unescaped characters and the position after the closing quote.
/// Raw control characters are rejected; `\u00XX` escapes denote control
/// characters; other `\uXXXX` escapes are not accepted.
pub open spec fn spec_parse_string_body(s: Seq<char>, pos: int) -> Option<(Seq<char>, int)>
    decreases s.len() - pos,
{
    if pos < 0 || pos >= s.len() {
        None
    } else {
        let c = s[pos];
        if c == '"' {
            Some((Seq::empty(), pos + 1))
        } else if c == '\\' {
            if pos + 1 < s.len() {
                let e = s[pos + 1];
                if e == 'u' {
                    if pos + 6 <= s.len() && s[pos + 2] == '0' && s[pos + 3] == '0' && spec_is_hex(
                        s[pos + 4],
                    ) && spec_is_hex(s[pos + 5]) {
                        let code = spec_hex_val(s[pos + 4]) * 16 + spec_hex_val(s[pos + 5]);
                        if code < 32 {
                            match spec_parse_string_body(s, pos + 6) {
                                Some((tail, q)) => Some((seq![code as char] + tail, q)),
                                None => None,
                            }
                        } else {
                            None
                        }
                    } else {
                        None
                    }
                } else {
                    match spec_simple_unescape(e) {
                        Some(c2) => match spec_parse_string_body(s, pos + 2) {
                            Some((tail, q)) => Some((seq![c2] + tail, q)),
                            None => None,
                        },
                        None => None,
                    }
                }
            } else {
                None
            }
        } else if (c as int) < 32 {
            None
        } else {
            match spec_parse_string_body(s, pos + 1) {
                Some((tail, q)) => Some((seq![c] + tail, q)),
                None => None,
            }
        }
    }
}

/// A parsed string body ends after its starting position, within the text.
pub proof fn lemma_parse_string_body_advances(s: Seq<char>, pos: int)
    requires
        spec_parse_string_body(s, pos) is Some,
    ensures
        pos < (spec_parse_string_body(s, pos)->0).1 <= s.len(),
    decreases s.len() - pos,
{
    let c = s[pos];
    if c == '"' {
    } else if c == '\\' {
        let e = s[pos + 1];
        if e == 'u' {
            lemma_parse_string_body_advances(s, pos + 6);
        } else {
            lemma_parse_string_body_advances(s, pos + 2);
        }
    } else {
        lemma_parse_string_body_advances(s, pos + 1);
    }
}

/// The parsed document starting at `pos`, with arrays and objects nested at
/// most `depth` deep, and the position after it.
pub open spec fn spec_parse_value(s: Seq<char>, pos: int, depth: nat) -> Option<(SpecJson, int)>
    decreases s.len() - pos, 0int,
{
    if pos < 0 || pos >= s.len() {
        None
    } else {
        let c = s[pos];
        if c == 'n' {
            if pos + 4 <= s.len() && s[pos + 1] == 'u' && s[pos + 2] == 'l' && s[pos + 3] == 'l' {
                Some((SpecJson::Null, pos + 4))
            } else {
                None
            }
        } else if c == 't' {
            if pos + 4 <= s.len() && s[pos + 1] == 'r' && s[pos + 2] == 'u' && s[pos + 3] == 'e' {
                Some((SpecJson::Bool(true), pos + 4))
            } else {
                None
            }
        } else if c == 'f' {
            if pos + 5 <= s.len() && s[pos + 1] == 'a' && s[pos + 2] == 'l' && s[pos + 3] == 's'
                && s[pos + 4] == 'e' {
                Some((SpecJson::Bool(false), pos + 5))
            } else {
                None
            }
        } else if c == '"' {
            match spec_parse_string_body(s, pos + 1) {
                Some((body, q)) => Some((SpecJson::String(body), q)),
                None => None,
            }
        } else if c == '-' || spec_is_digit(c) {
            match spec_parse_number(s, pos) {
                Some((k, q)) => Some((SpecJson::Number(k), q)),
                None => None,
            }
        } else if c == '[' {
            if depth == 0 {
                None
            } else {
                let p = spec_skip_ws(s, pos + 1);
                proof {
                    lemma_skip_ws_bounds(s, pos + 1);
                }
                if p < s.len() && s[p] == ']' {
                    Some((SpecJson::Array(Seq::empty()), p + 1))
                } else {
                    match spec_parse_elements(s, pos + 1, (depth - 1) as nat) {
                        Some((items, q)) => Some((SpecJson::Array(items), q)),
                        None => None,
                    }
                }
            }
        } else if c == '{' {
            if depth == 0 {
                None
            } else {
                let p = spec_skip_ws(s, pos + 1);
                proof {
                    lemma_skip_ws_bounds(s, pos + 1);
                }
                if p < s.len() && s[p] == '}' {
                    Some((SpecJson::Object(Seq::empty()), p + 1))
                } else {
                    match spec_parse_members(s, pos + 1, (depth - 1) as nat) {
                        Some((members, q)) => Some((SpecJson::Object(members), q)),
                        None => None,
                    }
                }
            }
        } else {
            None
        }
    }
}

/// The parsed elements of an array from `pos`, up to and past the closing
/// bracket: at least one element, comma separated.
pub open spec fn spec_parse_elements(s: Seq<char>, pos: int, depth: nat) -> Option<
    (Seq<SpecJson>, int),
>
    decreases s.len() - pos, 1int,
{
    if pos < 0 || pos > s.len() {
        None
    } else {
        let p0 = spec_skip_ws(s, pos);
        proof {
            lemma_skip_ws_bounds(s, pos);
        }
        match spec_parse_value(s, p0, depth) {
            Some((v, q)) => {
                if q <= pos || q > s.len() {
                    None
                } else {
                    let q1 = spec_skip_ws(s, q);
                    proof {
                        lemma_skip_ws_bounds(s, q);
                    }
                    if q1 < s.len() && s[q1] == ',' {
                        match spec_parse_elements(s, q1 + 1, depth) {
                            Some((items, r)) => Some((seq![v] + items, r)),
                            None => None,
                        }
                    } else if q1 < s.len() && s[q1] == ']' {
                        Some((seq![v], q1 + 1))
                    } else {
                        None
                    }
                }
            },
            None => None,
        }
    }
}

/// The parsed members of an object from `pos`, up to and past the closing
/// brace: at least one `"key": value` pair, comma separated.
pub open spec fn spec_parse_members(s: Seq<char>, pos: int, depth: nat) -> Option<
    (Seq<(Seq<char>, SpecJson)>, int),
>
    decreases s.len() - pos, 1int,
{
    if pos < 0 || pos > s.len() {
        None
    } else {
        let p0 = spec_skip_ws(s, pos);
        proof {
            lemma_skip_ws_bounds(s, pos);
        }
        if p0 < s.len() && s[p0] == '"' {
            match spec_parse_string_body(s, p0 + 1) {
                Some((key, q)) => {
                    if q <= pos || q > s.len() {
                        None
                    } else {
                        let q1 = spec_skip_ws(s, q);
                        proof {
                            lemma_skip_ws_bounds(s, q);
                        }
                        if q1 < s.len() && s[q1] == ':' {
                            proof {
                                lemma_skip_ws_bounds(s, q1 + 1);
                            }
                            match spec_parse_value(s, spec_skip_ws(s, q1 + 1), depth) {
                                Some((v, r)) => {
                                    if r <= q1 || r > s.len() {
                                        None
                                    } else {
                                        let r1 = spec_skip_ws(s, r);
                                        proof {
                                            lemma_skip_ws_bounds(s, r);
                                        }
                                        if r1 < s.len() && s[r1] == ',' {
                                            match spec_parse_members(s, r1 + 1, depth) {
                                                Some((members, t)) => Some(
                                                    (seq![(key, v)] + members, t),
                                                ),
                                                None => None,
                                            }
                                        } else if r1 < s.len() && s[r1] == '}' {
                                            Some((seq![(key, v)], r1 + 1))
                                        } else {
                                            None
                                        }
                                    }
                                },
                                None => None,
                            }
                        } else {
                            None
                        }
                    }
                },
                None => None,
            }
        } else {
            None
        }
    }
}

/// A parsed number ends after its starting position, within the text.
pub proof fn lemma_parse_number_advances(s: Seq<char>, pos: int)
    requires
        0 <= pos <= s.len(),
        spec_parse_number(s, pos) is Some,
    ensures
        pos < (spec_parse_number(s, pos)->0).1 <= s.len(),
{
    let neg = pos < s.len() && s[pos] == '-';
    let p0 = if neg {
        pos + 1
    } else {
        pos
    };
    lemma_scan_digits_bounds(s, p0);
    let p1 = spec_scan_digits(s, p0);
    let has_frac = p1 < s.len() && s[p1] == '.';
    if has_frac {
        lemma_scan_digits_bounds(s, p1 + 1);
    }
    let p2 = if has_frac {
        spec_scan_digits(s, p1 + 1)
    } else {
        p1
    };
    if p2 < s.len() && (s[p2] == 'e' || s[p2] == 'E') {
        let esigned = p2 + 1 < s.len() && (s[p2 + 1] == '-' || s[p2 + 1] == '+');
        let ep0 = if esigned {
            p2 + 2
        } else {
            p2 + 1
        };
        if ep0 <= s.len() {
            lemma_scan_digits_bounds(s, ep0);
        }
    }
}

/// A parsed value ends after its starting position, within the text.
pub proof fn lemma_parse_value_advances(s: Seq<char>, pos: int, depth: nat)
    requires
        spec_parse_value(s, pos, depth) is Some,
    ensures
        pos < (spec_parse_value(s, pos, depth)->0).1 <= s.len(),
    decreases s.len() - pos, 0int,
{
    let c = s[pos];
    if c == '"' {
        lemma_parse_string_body_advances(s, pos + 1);
    } else if c == '-' || spec_is_digit(c) {
        lemma_parse_number_advances(s, pos);
    } else if c == '[' {
        let p = spec_skip_ws(s, pos + 1);
        lemma_skip_ws_bounds(s, pos + 1);
        if !(p < s.len() && s[p] == ']') {
            lemma_parse_elements_advances(s, pos + 1, (depth - 1) as nat);
        }
    } else if c == '{' {
        let p = spec_skip_ws(s, pos + 1);
        lemma_skip_ws_bounds(s, pos + 1);
        if !(p < s.len() && s[p] == '}') {
            lemma_parse_members_advances(s, pos + 1, (depth - 1) as nat);
        }
    }
}

/// A parsed element list ends after its starting position, within the text.
pub proof fn lemma_parse_elements_advances(s: Seq<char>, pos: int, depth: nat)
    requires
        spec_parse_elements(s, pos, depth) is Some,
    ensures
        pos < (spec_parse_elements(s, pos, depth)->0).1 <= s.len(),
    decreases s.len() - pos, 1int,
{
    let p0 = spec_skip_ws(s, pos);
    lemma_skip_ws_bounds(s, pos);
    lemma_parse_value_advances(s, p0, depth);
    let q = (spec_parse_value(s, p0, depth)->0).1;
    let q1 = spec_skip_ws(s, q);
    lemma_skip_ws_bounds(s, q);
    if q1 < s.len() && s[q1] == ',' {
        lemma_parse_elements_advances(s, q1 + 1, depth);
    }
}

/// A parsed member list ends after its starting position, within the text.
pub proof fn lemma_parse_members_advances(s: Seq<char>, pos: int, depth: nat)
    requires
        spec_parse_members(s, pos, depth) is Some,
    ensures
        pos < (spec_parse_members(s, pos, depth)->0).1 <= s.len(),
    decreases s.len() - pos, 1int,
{
    let p0 = spec_skip_ws(s, pos);
    lemma_skip_ws_bounds(s, pos);
    lemma_parse_string_body_advances(s, p0 + 1);
    let q = (spec_parse_string_body(s, p0 + 1)->0).1;
    let q1 = spec_skip_ws(s, q);
    lemma_skip_ws_bounds(s, q);
    if q1 < s.len() && s[q1] == ':' {
        let p2 = spec_skip_ws(s, q1 + 1);
        lemma_skip_ws_bounds(s, q1 + 1);
        lemma_parse_value_advances(s, p2, depth);
        let r = (spec_parse_value(s, p2, depth)->0).1;
        let r1 = spec_skip_ws(s, r);
        lemma_skip_ws_bounds(s, r);
        if r1 < s.len() && s[r1] == ',' {
            lemma_parse_members_advances(s, r1 + 1, depth);
        }
    }
}

/// The parsed document in the whole of `s`: one value, surrounded by
/// whitespace at most.
pub open spec fn spec_parse_text(s: Seq<char>) -> Option<SpecJson> {
    match spec_parse_value(s, spec_skip_ws(s, 0), MAX_DEPTH as nat) {
        Some((v, q)) => if spec_skip_ws(s, q) == s.len() {
            Some(v)
        } else {
            None
        },
        None => None,
    }
}

// ---------------------------------------------------------------------------
// The executable parser.
// ---------------------------------------------------------------------------

/// Ten to the `n`.
pub open spec fn pow10(n: nat) -> int
    decreases n,
{
    if n == 0 {
        1
    } else {
        10 * pow10((n - 1) as nat)
    }
}

/// The value of a digit run is below ten to its length.
pub proof fn lemma_digits_val_bound(s: Seq<char>)
    requires
        forall|j: int| 0 <= j < s.len() ==> spec_is_digit(#[trigger] s[j]),
    ensures
        0 <= spec_digits_val(s) < pow10(s.len()),
    decreases s.len(),
{
    if s.len() > 0 {
        lemma_digits_val_bound(s.drop_last());
    }
}

/// Whether `c` is a decimal digit.
fn is_digit(c: char) -> (r: bool)
    ensures
        r == spec_is_digit(c),
{
    c >= D_ZERO && c <= D_NINE
}

/// Whether `c` is JSON whitespace.
fn is_ws(c: char) -> (r: bool)
    ensures
        r == spec_is_ws(c),
{
    c == ' ' || c == '\t' || c == '\n' || c == '\r'
}

/// The first position at or after `pos` without whitespace.
fn skip_ws(cs: &Vec<char>, pos: usize) -> (r: usize)
    requires
        pos <= cs@.len(),
    ensures
        r == spec_skip_ws(cs@, pos as int),
        pos <= r <= cs@.len(),
{
    let mut i = pos;
    while i < cs.len() && is_ws(cs[i])
        invariant
            pos <= i <= cs@.len(),
            spec_skip_ws(cs@, pos as int) == spec_skip_ws(cs@, i as int),
        decreases cs@.len() - i,
    {
        i += 1;
    }
    i
}

/// The first position at or after `pos` without a decimal digit.
fn scan_digits(cs: &Vec<char>, pos: usize) -> (r: usize)
    requires
        pos <= cs@.len(),
    ensures
        r == spec_scan_digits(cs@, pos as int),
        pos <= r <= cs@.len(),
{
    let mut i = pos;
    while i < cs.len() && is_digit(cs[i])
        invariant
            pos <= i <= cs@.len(),
            spec_scan_digits(cs@, pos as int) == spec_scan_digits(cs@, i as int),
        decreases cs@.len() - i,
    {
        i += 1;
    }
    i
}

/// Ten to the power is monotone in the exponent.
pub proof fn lemma_pow10_monotone(a: nat, b: nat)
    requires
        a <= b,
    ensures
        pow10(a) <= pow10(b),
        pow10(a) >= 1,
    decreases b,
{
    if b > 0 {
        if a == b {
            lemma_pow10_monotone((a - 1) as nat, (b - 1) as nat);
        } else {
            lemma_pow10_monotone(a, (b - 1) as nat);
        }
    }
}

/// Splitting a digit run splits its value: the left digits scaled by the
/// length of the right part, plus the right part.
pub proof fn lemma_digits_val_concat(a: Seq<char>, b: Seq<char>)
    ensures
        spec_digits_val(a + b) == spec_digits_val(a) * pow10(b.len()) + spec_digits_val(b),
    decreases b.len(),
{
    if b.len() == 0 {
        assert(a + b =~= a);
        assert(pow10(0) == 1);
    } else {
        lemma_digits_val_concat(a, b.drop_last());
        assert((a + b).drop_last() =~= a + b.drop_last());
        assert((a + b).last() == b.last());
        assert(pow10(b.len()) == 10 * pow10((b.len() - 1) as nat));
        assert(spec_digits_val(a) * pow10(b.len()) == (spec_digits_val(a) * pow10(
            (b.len() - 1) as nat,
        )) * 10) by (nonlinear_arith)
            requires
                pow10(b.len()) == 10 * pow10((b.len() - 1) as nat),
        ;
    }
}

/// A run of zeros is made of digits and stands for nothing.
pub proof fn lemma_zero_digits_val(n: nat)
    ensures
        spec_zero_digits(n).len() == n,
        forall|j: int| 0 <= j < n ==> spec_is_digit(#[trigger] spec_zero_digits(n)[j]),
        spec_digits_val(spec_zero_digits(n)) == 0,
    decreases n,
{
    if n > 0 {
        lemma_zero_digits_val((n - 1) as nat);
        assert(spec_zero_digits(n).drop_last() =~= spec_zero_digits((n - 1) as nat));
        assert(spec_zero_digits(n).last() == '0');
    }
}

/// A digit run's value bounds any prefix's value.
pub proof fn lemma_digits_val_prefix_le(d: Seq<char>, i: int)
    requires
        0 <= i <= d.len(),
        forall|j: int| 0 <= j < d.len() ==> spec_is_digit(#[trigger] d[j]),
    ensures
        0 <= spec_digits_val(d.take(i)) <= spec_digits_val(d),
{
    assert(d =~= d.take(i) + d.skip(i));
    assert forall|j: int| 0 <= j < d.take(i).len() implies spec_is_digit(
        #[trigger] d.take(i)[j],
    ) by {
        assert(d.take(i)[j] == d[j]);
    }
    assert forall|j: int| 0 <= j < d.skip(i).len() implies spec_is_digit(
        #[trigger] d.skip(i)[j],
    ) by {
        assert(d.skip(i)[j] == d[i + j]);
    }
    lemma_digits_val_concat(d.take(i), d.skip(i));
    lemma_digits_val_bound(d.take(i));
    lemma_digits_val_bound(d.skip(i));
    lemma_pow10_monotone(0, d.skip(i).len() as nat);
    assert(spec_digits_val(d.take(i)) * pow10(d.skip(i).len()) >= spec_digits_val(d.take(i)))
        by (nonlinear_arith)
        requires
            spec_digits_val(d.take(i)) >= 0,
            pow10(d.skip(i).len()) >= 1,
    ;
}

/// A digit run stands for nothing exactly when every digit is the zero
/// digit.
pub proof fn lemma_digits_val_zero_iff(d: Seq<char>)
    requires
        forall|j: int| 0 <= j < d.len() ==> spec_is_digit(#[trigger] d[j]),
    ensures
        (spec_digits_val(d) == 0) == (forall|j: int| 0 <= j < d.len() ==> d[j] == '0'),
    decreases d.len(),
{
    if d.len() > 0 {
        let dp = d.drop_last();
        assert forall|j: int| 0 <= j < dp.len() implies spec_is_digit(#[trigger] dp[j]) by {
            assert(dp[j] == d[j]);
        }
        lemma_digits_val_zero_iff(dp);
        lemma_digits_val_bound(dp);
        if spec_digits_val(d) == 0 {
            assert(spec_digits_val(dp) == 0 && spec_digit_val(d.last()) == 0);
            assert forall|j: int| 0 <= j < d.len() implies d[j] == '0' by {
                if j < d.len() - 1 {
                    assert(dp[j] == d[j]);
                } else {
                    assert(d.last() as int == 48);
                }
            }
        }
        if forall|j: int| 0 <= j < d.len() ==> d[j] == '0' {
            assert forall|j: int| 0 <= j < dp.len() implies dp[j] == '0' by {
                assert(dp[j] == d[j]);
            }
            assert(d.last() == '0');
        }
    }
}

/// The value of the digit run `cs[from..to]`, counted exactly up to `cap`:
/// the exact value while it stays below the cap, the cap itself otherwise.
fn digits_val_capped(cs: &Vec<char>, from: usize, to: usize, cap: u128) -> (r: u128)
    requires
        from <= to <= cs@.len(),
        0 < cap <= 0x40000000000000000,
        forall|j: int| from <= j < to ==> spec_is_digit(#[trigger] cs@[j]),
    ensures
        ({
            let dv = spec_digits_val(cs@.subrange(from as int, to as int));
            &&& dv < cap ==> r == dv
            &&& dv >= cap ==> r == cap
        }),
{
    let mut val: u128 = 0;
    let mut i = from;
    proof {
        assert(cs@.subrange(from as int, from as int) =~= Seq::<char>::empty());
    }
    while i < to
        invariant
            from <= i <= to <= cs@.len(),
            0 < cap <= 0x40000000000000000,
            forall|j: int| from <= j < to ==> spec_is_digit(#[trigger] cs@[j]),
            ({
                let dv = spec_digits_val(cs@.subrange(from as int, i as int));
                &&& dv < cap ==> val == dv
                &&& dv >= cap ==> val == cap
            }),
            val <= cap,
        decreases to - i,
    {
        let c = cs[i];
        proof {
            assert(spec_is_digit(cs@[i as int]));
        }
        let d: u128 = ((c as u32) - 48) as u128;
        let next: u128 = val * 10 + d;
        val = if next > cap {
            cap
        } else {
            next
        };
        i += 1;
        proof {
            let sub = cs@.subrange(from as int, i as int);
            assert(sub.drop_last() =~= cs@.subrange(from as int, i - 1));
            assert(sub.last() == cs@[i - 1]);
            let dvp = spec_digits_val(cs@.subrange(from as int, i - 1));
            assert forall|j: int|
                0 <= j < cs@.subrange(from as int, i - 1).len() implies spec_is_digit(
                #[trigger] cs@.subrange(from as int, i - 1)[j],
            ) by {
                assert(cs@.subrange(from as int, i - 1)[j] == cs@[from + j]);
            }
            lemma_digits_val_bound(cs@.subrange(from as int, i - 1));
            if dvp >= cap {
                assert(spec_digits_val(sub) == dvp * 10 + spec_digit_val(sub.last()));
                assert(dvp * 10 >= dvp) by (nonlinear_arith)
                    requires
                        dvp >= 0,
                ;
            }
        }
    }
    val
}

/// The clamped thousandths value of the parsed digits, shifted by the
/// exponent, with the end position handed through.
#[verifier::rlimit(100)]
#[verifier::loop_isolation(false)]
fn scaled_number(
    cs: &Vec<char>,
    Ghost(cd): Ghost<Seq<char>>,
    neg: bool,
    p0: usize,
    p1: usize,
    has_frac: bool,
    p2: usize,
    nfrac: usize,
    eneg: bool,
    ev: u128,
    Ghost(emag): Ghost<int>,
    endpos: usize,
) -> (r: (i64, usize))
    requires
        p0 <= p1 <= cs@.len(),
        p1 - p0 >= 1,
        has_frac ==> p1 + 1 <= p2 <= cs@.len() && nfrac == p2 - (p1 + 1),
        !has_frac ==> nfrac == 0,
        cd == cs@.subrange(p0 as int, p1 as int) + (if has_frac {
            cs@.subrange(p1 + 1, p2 as int)
        } else {
            Seq::<char>::empty()
        }),
        forall|j: int| p0 <= j < p1 ==> spec_is_digit(#[trigger] cs@[j]),
        has_frac ==> (forall|j: int| p1 + 1 <= j < p2 ==> spec_is_digit(#[trigger] cs@[j])),
        emag >= 0,
        emag < 0x20000000000000000 ==> ev == emag,
        emag >= 0x20000000000000000 ==> ev == 0x20000000000000000,
        ev <= 0x20000000000000000,
    ensures
        ({
            let exp = if eneg {
                -emag
            } else {
                emag
            };
            r.0 as int == spec_number_value(neg, cd, exp + 3 - nfrac) && r.1 == endpos
        }),
{
    let n_total = cs.len();
    let ni = p1 - p0;
    let nd = ni + nfrac;
    let ghost exp: int = if eneg {
        -emag
    } else {
        emag
    };
    let ghost e: int = exp + 3 - nfrac;
    proof {
        assert(cd.len() == nd);
        assert forall|j: int| 0 <= j < cd.len() implies spec_is_digit(#[trigger] cd[j]) by {
            if j < ni {
                assert(cd[j] == cs@[p0 + j]);
            } else {
                assert(cd[j] == cs@[p1 + 1 + (j - ni)]);
            }
        }
    }
    if ev == 0x20000000000000000u128 {
        // The exponent is beyond anything the digits can span.
        if eneg {
            proof {
                assert(cd.len() + e <= 0);
                assert(spec_shifted_digits(cd, e) =~= Seq::<char>::empty());
            }
            (0i64, endpos)
        } else {
            let mut allzero = true;
            let mut j: usize = 0;
            while j < nd
                invariant
                    j <= nd,
                    allzero == (forall|t: int| 0 <= t < j ==> cd[t] == '0'),
                decreases nd - j,
            {
                let c = if j < ni {
                    cs[p0 + j]
                } else {
                    cs[p1 + 1 + (j - ni)]
                };
                proof {
                    if j < ni {
                        assert(cd[j as int] == cs@[p0 + j]);
                    } else {
                        assert(cd[j as int] == cs@[p1 + 1 + (j - ni)]);
                    }
                }
                if c != '0' {
                    allzero = false;
                    proof {
                        assert(cd[j as int] != '0');
                    }
                }
                j += 1;
            }
            proof {
                lemma_digits_val_zero_iff(cd);
            }
            if allzero {
                proof {
                    assert(e >= 0);
                    lemma_zero_digits_val(e as nat);
                    lemma_digits_val_concat(cd, spec_zero_digits(e as nat));
                    assert(spec_digits_val(cd) * pow10(e as nat) == 0) by (nonlinear_arith)
                        requires
                            spec_digits_val(cd) == 0,
                    ;
                }
                (0i64, endpos)
            } else {
                proof {
                    assert(spec_digits_val(cd) != 0);
                    lemma_digits_val_bound(cd);
                    assert(e >= 20) by {
                        assert(nfrac <= cs@.len());
                    }
                    lemma_zero_digits_val(e as nat);
                    lemma_digits_val_concat(cd, spec_zero_digits(e as nat));
                    assert(pow10(20) == 100000000000000000000) by {
                        reveal_with_fuel(pow10, 21);
                    }
                    lemma_pow10_monotone(20, e as nat);
                    assert(spec_digits_val(cd) * pow10(e as nat) >= pow10(e as nat))
                        by (nonlinear_arith)
                        requires
                            spec_digits_val(cd) >= 1,
                            pow10(e as nat) >= 1,
                    ;
                }
                if neg {
                    (i64::MIN, endpos)
                } else {
                    (i64::MAX, endpos)
                }
            }
        }
    } else {
        proof {
            assert(ev == emag);
        }
        let l_i: i128 = nd as i128 + (if eneg {
            -(ev as i128)
        } else {
            ev as i128
        }) + 3 - (nfrac as i128);
        proof {
            assert(l_i == cd.len() + e);
        }
        if l_i <= 0 {
            proof {
                assert(spec_shifted_digits(cd, e) =~= Seq::<char>::empty());
            }
            return (0i64, endpos);
        }
        let lim: u128 = l_i as u128;
        let ghost pd = spec_shifted_digits(cd, e);
        proof {
            if e >= 0 {
                lemma_zero_digits_val(e as nat);
                assert(pd.len() == lim);
                assert forall|t: int| 0 <= t < pd.len() implies spec_is_digit(
                    #[trigger] pd[t],
                ) && pd[t] == (if t < nd {
                    cd[t]
                } else {
                    '0'
                }) by {
                    if t < nd {
                        assert(pd[t] == cd[t]);
                    } else {
                        assert(pd[t] == spec_zero_digits(e as nat)[t - nd]);
                    }
                }
            } else {
                assert(pd =~= cd.take(cd.len() + e));
                assert(pd.len() == lim);
                assert forall|t: int| 0 <= t < pd.len() implies spec_is_digit(
                    #[trigger] pd[t],
                ) && pd[t] == (if t < nd {
                    cd[t]
                } else {
                    '0'
                }) by {
                    assert(pd[t] == cd[t]);
                }
            }
            assert(pd.take(0) =~= Seq::<char>::empty());
        }
        let mut val: u128 = 0;
        let mut j: u128 = 0;
        while j < lim && val < 0x8000000000000000u128 && !(j >= nd as u128 && val == 0)
            invariant
                j <= lim,
                val == spec_digits_val(pd.take(j as int)),
                val < 0x80000000000000000,
            decreases lim - j,
        {
            let d: u128 = if j < ni as u128 {
                let c = cs[p0 + (j as usize)];
                proof {
                    assert(cd[j as int] == cs@[p0 + (j as usize)]);
                    assert(spec_is_digit(cs@[p0 + (j as usize)]));
                }
                ((c as u32) - 48) as u128
            } else if j < nd as u128 {
                let c = cs[p1 + 1 + ((j as usize) - ni)];
                proof {
                    assert(cd[j as int] == cs@[p1 + 1 + ((j as usize) - ni)]);
                    assert(spec_is_digit(cs@[p1 + 1 + ((j as usize) - ni)]));
                }
                ((c as u32) - 48) as u128
            } else {
                0
            };
            proof {
                assert(pd.take(j + 1).drop_last() =~= pd.take(j as int));
                assert(pd.take(j + 1).last() == pd[j as int]);
                assert(d == spec_digit_val(pd[j as int]));
            }
            val = val * 10 + d;
            j += 1;
        }
        if val >= 0x8000000000000000u128 {
            proof {
                lemma_digits_val_prefix_le(pd, j as int);
                assert(pd.take(pd.len() as int) =~= pd);
            }
            if neg {
                (i64::MIN, endpos)
            } else {
                (i64::MAX, endpos)
            }
        } else if j < lim {
            // Only zeros can follow: the value stays nothing.
            proof {
                assert(j >= nd && val == 0);
                assert(pd =~= pd.take(j as int) + pd.skip(j as int));
                assert(pd.skip(j as int) =~= spec_zero_digits((lim - j) as nat)) by {
                    lemma_zero_digits_val((lim - j) as nat);
                    assert forall|t: int|
                        0 <= t < pd.skip(j as int).len() implies pd.skip(j as int)[t] == '0' by {
                        assert(pd.skip(j as int)[t] == pd[j + t]);
                    }
                }
                lemma_zero_digits_val((lim - j) as nat);
                lemma_digits_val_concat(pd.take(j as int), pd.skip(j as int));
                assert(spec_digits_val(pd) == 0) by (nonlinear_arith)
                    requires
                        spec_digits_val(pd) == spec_digits_val(pd.take(j as int)) * pow10(
                            pd.skip(j as int).len(),
                        ) + spec_digits_val(pd.skip(j as int)),
                        spec_digits_val(pd.take(j as int)) == 0,
                        spec_digits_val(pd.skip(j as int)) == 0,
                ;
            }
            (0i64, endpos)
        } else {
            proof {
                assert(pd.take(lim as int) =~= pd);
            }
            if neg {
                (-(val as i64), endpos)
            } else {
                (val as i64, endpos)
            }
        }
    }
}

/// The parsed number starting at `pos`, in thousandths, with the position
/// after it.
#[verifier::rlimit(100)]
pub(crate) fn parse_number_at(cs: &Vec<char>, pos: usize) -> (r: Option<(i64, usize)>)
    requires
        pos <= cs@.len(),
    ensures
        match r {
            Some(kq) => spec_parse_number(cs@, pos as int) == Some((kq.0 as int, kq.1 as int)),
            None => spec_parse_number(cs@, pos as int) is None,
        },
{
    let neg = pos < cs.len() && cs[pos] == '-';
    let p0 = if neg {
        pos + 1
    } else {
        pos
    };
    let p1 = scan_digits(cs, p0);
    proof {
        lemma_scan_digits_bounds(cs@, p0 as int);
    }
    if p1 == p0 {
        return None;
    }
    let has_frac = p1 < cs.len() && cs[p1] == '.';
    let p2 = if has_frac {
        scan_digits(cs, p1 + 1)
    } else {
        p1
    };
    proof {
        if has_frac {
            lemma_scan_digits_bounds(cs@, p1 + 1);
        }
    }
    if has_frac && p2 == p1 + 1 {
        return None;
    }
    let nfrac: usize = if has_frac {
        p2 - (p1 + 1)
    } else {
        0
    };
    let ghost cd = cs@.subrange(p0 as int, p1 as int) + (if has_frac {
        cs@.subrange(p1 + 1, p2 as int)
    } else {
        Seq::<char>::empty()
    });
    let has_exp = p2 < cs.len() && (cs[p2] == 'e' || cs[p2] == 'E');
    if has_exp {
        let esigned = p2 + 1 < cs.len() && (cs[p2 + 1] == '-' || cs[p2 + 1] == '+');
        let eneg = p2 + 1 < cs.len() && cs[p2 + 1] == '-';
        let ep0 = if esigned {
            p2 + 2
        } else {
            p2 + 1
        };
        if ep0 > cs.len() {
            proof {
                assert(spec_scan_digits(cs@, ep0 as int) == ep0);
            }
            return None;
        }
        let ep1 = scan_digits(cs, ep0);
        proof {
            lemma_scan_digits_bounds(cs@, ep0 as int);
        }
        if ep1 == ep0 {
            return None;
        }
        let ghost emag = spec_digits_val(cs@.subrange(ep0 as int, ep1 as int));
        proof {
            lemma_digits_val_bound(cs@.subrange(ep0 as int, ep1 as int));
        }
        let ev = digits_val_capped(cs, ep0, ep1, 0x20000000000000000u128);
        let out = scaled_number(
            cs,
            Ghost(cd),
            neg,
            p0,
            p1,
            has_frac,
            p2,
            nfrac,
            eneg,
            ev,
            Ghost(emag),
            ep1,
        );
        Some(out)
    } else {
        let out = scaled_number(
            cs,
            Ghost(cd),
            neg,
            p0,
            p1,
            has_frac,
            p2,
            nfrac,
            false,
            0,
            Ghost(0int),
            p2,
        );
        Some(out)
    }
}

/// A parse result with `acc` prepended to the parsed characters.
pub open spec fn spec_sb_compose(acc: Seq<char>, r: Option<(Seq<char>, int)>) -> Option<
    (Seq<char>, int),
> {
    match r {
        Some(tq) => Some((acc + tq.0, tq.1)),
        None => None,
    }
}

/// The character a simple escape stands for, if any.
fn simple_unescape(e: char) -> (r: Option<char>)
    ensures
        r == spec_simple_unescape(e),
{
    if e == '"' {
        Some('"')
    } else if e == '\\' {
        Some('\\')
    } else if e == '/' {
        Some('/')
    } else if e == 'b' {
        Some(8u8 as char)
    } else if e == 'f' {
        Some(12u8 as char)
    } else if e == 'n' {
        Some('\n')
    } else if e == 'r' {
        Some('\r')
    } else if e == 't' {
        Some('\t')
    } else {
        None
    }
}

/// Whether `c` is a hexadecimal digit.
fn is_hex(c: char) -> (r: bool)
    ensures
        r == spec_is_hex(c),
{
    is_digit(c) || (c >= H_LOW_A && c <= H_LOW_F) || (c >= H_UP_A && c <= H_UP_F)
}

/// The numeric value of the hexadecimal digit `c`.
fn hex_val(c: char) -> (r: u32)
    requires
        spec_is_hex(c),
    ensures
        r == spec_hex_val(c),
        r < 16,
{
    if c >= D_ZERO && c <= D_NINE {
        (c as u32) - 48
    } else if c >= H_LOW_A && c <= H_LOW_F {
        (c as u32) - 87
    } else {
        (c as u32) - 55
    }
}

/// The parsed body of a string starting at `pos`, just after the opening
/// quote, with the position after the closing quote.
fn parse_string_body(cs: &Vec<char>, pos: usize) -> (r: Option<(String, usize)>)
    requires
        pos <= cs@.len(),
        crate::text::chars_in_range(cs@),
    ensures
        match r {
            Some(sq) => spec_parse_string_body(cs@, pos as int) == Some((sq.0@, sq.1 as int)),
            None => spec_parse_string_body(cs@, pos as int) is None,
        },
{
    let mut acc = String::new();
    let mut cur = pos;
    while cur < cs.len()
        invariant
            pos <= cur <= cs@.len(),
            crate::text::chars_in_range(cs@),
            spec_parse_string_body(cs@, pos as int) == spec_sb_compose(
                acc@,
                spec_parse_string_body(cs@, cur as int),
            ),
        decreases cs@.len() - cur,
    {
        let c = cs[cur];
        proof {
            assert(0 <= (c as int) && (c as int) <= 0x10FFFF);
        }
        if c == '"' {
            proof {
                assert(acc@ + Seq::<char>::empty() =~= acc@);
            }
            return Some((acc, cur + 1));
        } else if c == '\\' {
            if cur + 1 >= cs.len() {
                return None;
            }
            let e = cs[cur + 1];
            if e == 'u' {
                if cs.len() - cur >= 6 && cs[cur + 2] == '0' && cs[cur + 3] == '0' && is_hex(
                    cs[cur + 4],
                ) && is_hex(cs[cur + 5]) {
                    let code: u32 = hex_val(cs[cur + 4]) * 16 + hex_val(cs[cur + 5]);
                    if code < 32 {
                        let ghost prev = acc@;
                        push_char(&mut acc, (code as u8) as char);
                        proof {
                            assert(acc@ =~= prev + seq![(code as int) as char]);
                            lemma_sb_compose_step(
                                cs@,
                                pos as int,
                                cur as int,
                                cur + 6,
                                prev,
                                (code as int) as char,
                            );
                        }
                        cur = cur + 6;
                    } else {
                        return None;
                    }
                } else {
                    return None;
                }
            } else {
                match simple_unescape(e) {
                    Some(c2) => {
                        let ghost prev = acc@;
                        push_char(&mut acc, c2);
                        proof {
                            assert(acc@ =~= prev + seq![c2]);
                            lemma_sb_compose_step(cs@, pos as int, cur as int, cur + 2, prev, c2);
                        }
                        cur = cur + 2;
                    },
                    None => {
                        return None;
                    },
                }
            }
        } else if c < SPACE {
            return None;
        } else {
            let ghost prev = acc@;
            push_char(&mut acc, c);
            proof {
                assert(acc@ =~= prev + seq![c]);
                lemma_sb_compose_step(cs@, pos as int, cur as int, cur + 1, prev, c);
            }
            cur = cur + 1;
        }
    }
    None
}

/// One unescaped character extends the accumulated string body.
proof fn lemma_sb_compose_step(s: Seq<char>, pos: int, cur: int, next: int, acc: Seq<char>, c: char)
    requires
        spec_parse_string_body(s, pos) == spec_sb_compose(acc, spec_parse_string_body(s, cur)),
        spec_parse_string_body(s, cur) == (match spec_parse_string_body(s, next) {
            Some(tq) => Some::<(Seq<char>, int)>((seq![c] + tq.0, tq.1)),
            None => None::<(Seq<char>, int)>,
        }),
    ensures
        spec_parse_string_body(s, pos) == spec_sb_compose(
            acc + seq![c],
            spec_parse_string_body(s, next),
        ),
{
    match spec_parse_string_body(s, next) {
        Some(tq) => {
            assert(acc + (seq![c] + tq.0) =~= (acc + seq![c]) + tq.0);
        },
        None => {},
    }
}

/// Abstracting a pushed document appends its abstraction.
pub proof fn lemma_spec_json_of_seq_push(items: Seq<JsonValue>, v: JsonValue)
    ensures
        spec_json_of_seq(items.push(v)) == spec_json_of_seq(items) + seq![v.spec_json()],
{
    crate::json::lemma_spec_json_of_seq(items.push(v));
    crate::json::lemma_spec_json_of_seq(items);
    assert(spec_json_of_seq(items.push(v)) =~= spec_json_of_seq(items) + seq![v.spec_json()]);
}

/// Abstracting a pushed member appends its abstraction.
pub proof fn lemma_spec_json_of_members_push(
    members: Seq<(String, JsonValue)>,
    k: String,
    v: JsonValue,
)
    ensures
        spec_json_of_members(members.push((k, v))) == spec_json_of_members(members) + seq![
            (k@, v.spec_json()),
        ],
{
    crate::json::lemma_spec_json_of_members(members.push((k, v)));
    crate::json::lemma_spec_json_of_members(members);
    assert(spec_json_of_members(members.push((k, v))) =~= spec_json_of_members(members) + seq![
        (k@, v.spec_json()),
    ]);
}

/// The parsed document starting at `pos`, with the position after it.
pub fn parse_value(cs: &Vec<char>, pos: usize, depth: usize) -> (r: Option<(JsonValue, usize)>)
    requires
        pos <= cs@.len(),
        crate::text::chars_in_range(cs@),
    ensures
        match r {
            Some(vq) => spec_parse_value(cs@, pos as int, depth as nat) == Some(
                (vq.0@, vq.1 as int),
            ) && vq.1 <= cs@.len(),
            None => spec_parse_value(cs@, pos as int, depth as nat) is None,
        },
    decreases cs@.len() - pos, 0int,
{
    if pos >= cs.len() {
        return None;
    }
    let c = cs[pos];
    if c == 'n' {
        if cs.len() - pos >= 4 && cs[pos + 1] == 'u' && cs[pos + 2] == 'l' && cs[pos + 3] == 'l' {
            Some((JsonValue::Null, pos + 4))
        } else {
            None
        }
    } else if c == 't' {
        if cs.len() - pos >= 4 && cs[pos + 1] == 'r' && cs[pos + 2] == 'u' && cs[pos + 3] == 'e' {
            Some((JsonValue::Bool(true), pos + 4))
        } else {
            None
        }
    } else if c == 'f' {
        if cs.len() - pos >= 5 && cs[pos + 1] == 'a' && cs[pos + 2] == 'l' && cs[pos + 3] == 's'
            && cs[pos + 4] == 'e' {
            Some((JsonValue::Bool(false), pos + 5))
        } else {
            None
        }
    } else if c == '"' {
        match parse_string_body(cs, pos + 1) {
            Some((body, q)) => {
                proof {
                    lemma_parse_string_body_advances(cs@, pos + 1);
                }
                Some((JsonValue::String(body), q))
            },
            None => None,
        }
    } else if c == '-' || is_digit(c) {
        match parse_number_at(cs, pos) {
            Some((k, q)) => {
                proof {
                    lemma_parse_number_advances(cs@, pos as int);
                }
                Some((JsonValue::Number(k), q))
            },
            None => None,
        }
    } else if c == '[' {
        if depth == 0 {
            return None;
        }
        let p = skip_ws(cs, pos + 1);
        if p < cs.len() && cs[p] == ']' {
            let items: Vec<JsonValue> = Vec::new();
            proof {
                crate::json::lemma_spec_json_of_seq(items@);
                assert(spec_json_of_seq(items@) =~= Seq::<SpecJson>::empty());
            }
            Some((JsonValue::Array(items), p + 1))
        } else {
            match parse_elements(cs, pos + 1, depth - 1) {
                Some((items, q)) => Some((JsonValue::Array(items), q)),
                None => None,
            }
        }
    } else if c == '{' {
        if depth == 0 {
            return None;
        }
        let p = skip_ws(cs, pos + 1);
        if p < cs.len() && cs[p] == '}' {
            let members: Vec<(String, JsonValue)> = Vec::new();
            proof {
                crate::json::lemma_spec_json_of_members(members@);
                assert(spec_json_of_members(members@) =~= Seq::<(Seq<char>, SpecJson)>::empty());
            }
            Some((JsonValue::Object(members), p + 1))
        } else {
            match parse_members(cs, pos + 1, depth - 1) {
                Some((members, q)) => Some((JsonValue::Object(members), q)),
                None => None,
            }
        }
    } else {
        None
    }
}

/// An element-list parse result with abstracted `acc` prepended.
pub open spec fn spec_el_compose(acc: Seq<SpecJson>, r: Option<(Seq<SpecJson>, int)>) -> Option<
    (Seq<SpecJson>, int),
> {
    match r {
        Some(iq) => Some((acc + iq.0, iq.1)),
        None => None,
    }
}

/// The parsed elements of an array from `pos`, past the closing bracket.
fn parse_elements(cs: &Vec<char>, pos: usize, depth: usize) -> (r: Option<(Vec<JsonValue>, usize)>)
    requires
        pos <= cs@.len(),
        crate::text::chars_in_range(cs@),
    ensures
        match r {
            Some(vq) => spec_parse_elements(cs@, pos as int, depth as nat) == Some(
                (spec_json_of_seq(vq.0@), vq.1 as int),
            ) && vq.1 <= cs@.len(),
            None => spec_parse_elements(cs@, pos as int, depth as nat) is None,
        },
    decreases cs@.len() - pos, 1int,
{
    let mut acc: Vec<JsonValue> = Vec::new();
    let mut cur = pos;
    proof {
        crate::json::lemma_spec_json_of_seq(acc@);
        assert(spec_json_of_seq(acc@) =~= Seq::<SpecJson>::empty());
    }
    loop
        invariant
            pos <= cur <= cs@.len(),
            crate::text::chars_in_range(cs@),
            spec_parse_elements(cs@, pos as int, depth as nat) == spec_el_compose(
                spec_json_of_seq(acc@),
                spec_parse_elements(cs@, cur as int, depth as nat),
            ),
        decreases cs@.len() - cur,
    {
        let ghost iter_start = cur;
        let p0 = skip_ws(cs, cur);
        match parse_value(cs, p0, depth) {
            None => {
                return None;
            },
            Some((v, q)) => {
                proof {
                    lemma_parse_value_advances(cs@, p0 as int, depth as nat);
                }
                let q1 = skip_ws(cs, q);
                let ghost prev = acc@;
                acc.push(v);
                proof {
                    lemma_spec_json_of_seq_push(prev, v);
                }
                if q1 < cs.len() && cs[q1] == ',' {
                    proof {
                        let svq = spec_parse_elements(cs@, q1 + 1, depth as nat);
                        match svq {
                            Some(iq) => {
                                assert(spec_json_of_seq(prev) + (seq![v@] + iq.0) =~= (
                                spec_json_of_seq(prev) + seq![v@]) + iq.0);
                            },
                            None => {},
                        }
                    }
                    cur = q1 + 1;
                } else if q1 < cs.len() && cs[q1] == ']' {
                    proof {
                        assert(spec_json_of_seq(prev) + seq![v@] =~= spec_json_of_seq(acc@));
                    }
                    return Some((acc, q1 + 1));
                } else {
                    return None;
                }
            },
        }
    }
}

/// A member-list parse result with abstracted `acc` prepended.
pub open spec fn spec_mb_compose(
    acc: Seq<(Seq<char>, SpecJson)>,
    r: Option<(Seq<(Seq<char>, SpecJson)>, int)>,
) -> Option<(Seq<(Seq<char>, SpecJson)>, int)> {
    match r {
        Some(mq) => Some((acc + mq.0, mq.1)),
        None => None,
    }
}

/// The parsed members of an object from `pos`, past the closing brace.
fn parse_members(cs: &Vec<char>, pos: usize, depth: usize) -> (r: Option<
    (Vec<(String, JsonValue)>, usize),
>)
    requires
        pos <= cs@.len(),
        crate::text::chars_in_range(cs@),
    ensures
        match r {
            Some(vq) => spec_parse_members(cs@, pos as int, depth as nat) == Some(
                (spec_json_of_members(vq.0@), vq.1 as int),
            ) && vq.1 <= cs@.len(),
            None => spec_parse_members(cs@, pos as int, depth as nat) is None,
        },
    decreases cs@.len() - pos, 1int,
{
    let mut acc: Vec<(String, JsonValue)> = Vec::new();
    let mut cur = pos;
    proof {
        crate::json::lemma_spec_json_of_members(acc@);
        assert(spec_json_of_members(acc@) =~= Seq::<(Seq<char>, SpecJson)>::empty());
    }
    loop
        invariant
            pos <= cur <= cs@.len(),
            crate::text::chars_in_range(cs@),
            spec_parse_members(cs@, pos as int, depth as nat) == spec_mb_compose(
                spec_json_of_members(acc@),
                spec_parse_members(cs@, cur as int, depth as nat),
            ),
        decreases cs@.len() - cur,
    {
        let p0 = skip_ws(cs, cur);
        if !(p0 < cs.len() && cs[p0] == '"') {
            return None;
        }
        match parse_string_body(cs, p0 + 1) {
            None => {
                return None;
            },
            Some((key, q)) => {
                proof {
                    lemma_parse_string_body_advances(cs@, p0 + 1);
                }
                let q1 = skip_ws(cs, q);
                if !(q1 < cs.len() && cs[q1] == ':') {
                    return None;
                }
                let p2 = skip_ws(cs, q1 + 1);
                match parse_value(cs, p2, depth) {
                    None => {
                        return None;
                    },
                    Some((v, r2)) => {
                        proof {
                            lemma_parse_value_advances(cs@, p2 as int, depth as nat);
                        }
                        let r1 = skip_ws(cs, r2);
                        let ghost prev = acc@;
                        let ghost keyv = key@;
                        acc.push((key, v));
                        proof {
                            lemma_spec_json_of_members_push(prev, acc[acc.len() - 1].0, v);
                        }
                        if r1 < cs.len() && cs[r1] == ',' {
                            proof {
                                let smq = spec_parse_members(cs@, r1 + 1, depth as nat);
                                match smq {
                                    Some(mq) => {
                                        assert(spec_json_of_members(prev) + (seq![(keyv, v@)]
                                            + mq.0) =~= (spec_json_of_members(prev) + seq![
                                            (keyv, v@),
                                        ]) + mq.0);
                                    },
                                    None => {},
                                }
                            }
                            cur = r1 + 1;
                        } else if r1 < cs.len() && cs[r1] == '}' {
                            proof {
                                assert(spec_json_of_members(prev) + seq![(keyv, v@)]
                                    =~= spec_json_of_members(acc@));
                            }
                            return Some((acc, r1 + 1));
                        } else {
                            return None;
                        }
                    },
                }
            },
        }
    }
}

/// The document parsed from the whole of `s`: one JSON value, surrounded by
/// whitespace at most; `None` when `s` is not such a text.
pub fn parse_json(s: &str) -> (r: Option<JsonValue>)
    ensures
        match r {
            Some(v) => spec_parse_text(s@) == Some(v@),
            None => spec_parse_text(s@) is None,
        },
        crate::text::chars_in_range(s@),
{
    let cs = crate::text::chars_of(s);
    let p0 = skip_ws(&cs, 0);
    match parse_value(&cs, p0, MAX_DEPTH) {
        Some((v, q)) => {
            let q1 = skip_ws(&cs, q);
            if q1 == cs.len() {
                Some(v)
            } else {
                None
            }
        },
        None => None,
    }
}

} // verus!
