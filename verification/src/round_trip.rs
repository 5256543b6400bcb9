//! Round trip: parsing the canonical text of a document yields the document
//! back. Proved bottom up: digits, numbers, strings, then whole documents.

use vstd::prelude::*;

use crate::json::{
    spec_json_depth, spec_json_depth_members, spec_json_depth_seq, SpecJson,
};
use crate::json_text::{
    lemma_parse_string_body_advances, lemma_parse_value_advances, lemma_scan_digits_exact,
    lemma_skip_ws_bounds, pow10, spec_digit_char, spec_digit_val,
    spec_digits_val, spec_escape_char, spec_escape_string, spec_hex_char, spec_hex_val,
    spec_in_i64, spec_is_digit, spec_is_hex, spec_is_ws, spec_parse_elements, spec_parse_members,
    spec_parse_number, spec_parse_string_body, spec_parse_text, spec_parse_value,
    spec_render_frac, spec_render_nat, spec_render_number, spec_ser, spec_ser_elements,
    spec_ser_members, spec_ser_string, spec_simple_unescape, spec_skip_ws, MAX_DEPTH,
};

verus! {

/// A digit character is a digit and carries its value.
proof fn lemma_digit_char_val(d: int)
    requires
        0 <= d < 10,
    ensures
        spec_is_digit(spec_digit_char(d)),
        spec_digit_val(spec_digit_char(d)) == d,
{
}

/// The rendering of a natural number is a non-empty digit run holding its
/// value.
proof fn lemma_render_nat_props(n: nat)
    ensures
        spec_render_nat(n).len() >= 1,
        forall|i: int|
            0 <= i < spec_render_nat(n).len() ==> spec_is_digit(#[trigger] spec_render_nat(n)[i]),
        spec_digits_val(spec_render_nat(n)) == n,
    decreases n,
{
    assert(spec_digits_val(Seq::<char>::empty()) == 0);
    if n < 10 {
        lemma_digit_char_val(n as int);
        let r = spec_render_nat(n);
        assert(r.drop_last() =~= Seq::<char>::empty());
        assert(r.last() == spec_digit_char(n as int));
        assert(spec_digits_val(r) == spec_digits_val(r.drop_last()) * 10 + spec_digit_val(r.last()));
    } else {
        lemma_render_nat_props(n / 10);
        lemma_digit_char_val((n % 10) as int);
        let r = spec_render_nat(n);
        let rp = spec_render_nat(n / 10);
        assert(r.drop_last() =~= rp);
        assert(r.last() == spec_digit_char((n % 10) as int));
        assert(spec_digits_val(r) == (n / 10) * 10 + (n % 10));
    }
}

/// Parsing the rendered number at its position in a text recovers the
/// number, provided no digit or point follows it.
pub proof fn lemma_rt_number(k: int, s: Seq<char>, pos: int)
    requires
        spec_in_i64(k),
        0 <= pos,
        pos + spec_render_number(k).len() <= s.len(),
        s.subrange(pos, pos + spec_render_number(k).len()) == spec_render_number(k),
        pos + spec_render_number(k).len() == s.len() || !(spec_is_digit(
            s[pos + spec_render_number(k).len()],
        ) || s[pos + spec_render_number(k).len()] == '.' || s[pos + spec_render_number(k).len()]
            == 'e' || s[pos + spec_render_number(k).len()] == 'E'),
    ensures
        spec_parse_number(s, pos) == Some((k, pos + spec_render_number(k).len())),
{
    let r = spec_render_number(k);
    let endp = pos + r.len();
    let m: int = if k < 0 {
        -k
    } else {
        k
    };
    let ip: nat = (m / 1000) as nat;
    let fp: nat = (m % 1000) as nat;
    let rn = spec_render_nat(ip);
    let rf = spec_render_frac(fp);
    lemma_render_nat_props(ip);
    assert forall|j: int| 0 <= j < r.len() implies s[pos + j] == #[trigger] r[j] by {
        assert(s.subrange(pos, pos + r.len())[j] == r[j]);
    }
    assert(r == (if k < 0 {
        seq!['-']
    } else {
        Seq::<char>::empty()
    }) + rn + rf) by {
        if k < 0 {
            assert(r =~= seq!['-'] + rn + rf);
        } else {
            assert(r =~= Seq::<char>::empty() + rn + rf);
        }
    }
    let p0 = if k < 0 {
        pos + 1
    } else {
        pos
    };
    let p1 = p0 + rn.len();
    // The sign is read exactly when the number is negative.
    assert(pos < s.len());
    if k < 0 {
        assert(r[0] == '-');
        assert(s[pos + 0] == r[0]);
        assert(s[pos] == '-');
    } else {
        assert(r[0] == rn[0]);
        assert(s[pos + 0] == r[0]);
        assert(spec_is_digit(rn[0]));
        assert(s[pos] != '-');
    }
    let neg = pos < s.len() && s[pos] == '-';
    assert(neg == (k < 0));
    // The integer digit run is delimited by the point or by the follower.
    assert forall|j: int| p0 <= j < p1 implies spec_is_digit(#[trigger] s[j]) by {
        assert(r[j - pos] == rn[j - p0]);
        assert(s[pos + (j - pos)] == r[j - pos]);
        assert(spec_is_digit(rn[j - p0]));
    }
    if fp > 0 {
        assert(rf.len() >= 2 && rf[0] == '.');
        assert(r[p1 - pos] == rf[0]);
        assert(s[pos + (p1 - pos)] == r[p1 - pos]);
        assert(!spec_is_digit(s[p1]));
    } else {
        assert(rf.len() == 0);
        assert(p1 == endp);
        assert(p1 == s.len() || !spec_is_digit(s[p1]));
    }
    lemma_scan_digits_exact(s, p0, p1);
    // The digit run holds the integer part.
    assert forall|i: int| 0 <= i < rn.len() implies s.subrange(p0, p1)[i] == rn[i] by {
        assert(r[(p0 - pos) + i] == rn[i]);
        assert(s[pos + ((p0 - pos) + i)] == r[(p0 - pos) + i]);
    }
    assert(s.subrange(p0, p1) =~= rn);
    assert(spec_digits_val(s.subrange(p0, p1)) == ip);
    assert(pow10(0) == 1 && pow10(1) == 10 && pow10(2) == 100 && pow10(3) == 1000) by {
        reveal_with_fuel(pow10, 4);
    }
    if fp == 0 {
        assert(!(p1 < s.len() && s[p1] == '.')) by {
            if p1 < s.len() {
                assert(s[p1] != '.');
            }
        }
        assert(!(p1 < s.len() && (s[p1] == 'e' || s[p1] == 'E'))) by {
            if p1 < s.len() {
                assert(s[p1] != 'e' && s[p1] != 'E');
            }
        }
        assert(m == ip * 1000);
        // The digits shifted three places are the integer digits and three
        // zeros, worth a thousandfold.
        let cd = s.subrange(p0, p1) + Seq::<char>::empty();
        assert(cd =~= s.subrange(p0, p1));
        crate::json_text::lemma_zero_digits_val(3);
        crate::json_text::lemma_digits_val_concat(cd, crate::json_text::spec_zero_digits(3));
        assert(crate::json_text::spec_shifted_digits(cd, 3) == cd
            + crate::json_text::spec_zero_digits(3));
        assert(spec_digits_val(crate::json_text::spec_shifted_digits(cd, 3)) == ip * 1000);
        assert(crate::json_text::spec_sat_i64(k) == k);
        assert(crate::json_text::spec_number_value(k < 0, cd, 3) == k);
        assert(spec_parse_number(s, pos) == Some((k, p1)));
    } else {
        assert(s[p1] == '.');
        assert(p1 < s.len());
        assert forall|j: int| 0 <= j < rf.len() implies s[p1 + j] == #[trigger] rf[j] by {
            assert(r[(p1 - pos) + j] == rf[j]);
            assert(s[pos + ((p1 - pos) + j)] == r[(p1 - pos) + j]);
        }
        let d1 = fp / 100;
        let d2 = (fp / 10) % 10;
        let d3 = fp % 10;
        lemma_digit_char_val(d1 as int);
        lemma_digit_char_val(d2 as int);
        lemma_digit_char_val(d3 as int);
        let nf = rf.len() - 1;
        let p2 = p1 + 1 + nf;
        assert(p2 == endp);
        // The fraction digits are delimited by the follower.
        assert forall|j: int| p1 + 1 <= j < p2 implies spec_is_digit(#[trigger] s[j]) by {
            assert(s[p1 + (j - p1)] == rf[j - p1]);
            assert(spec_is_digit(rf[j - p1]));
        }
        assert(p2 == s.len() || !spec_is_digit(s[p2]));
        lemma_scan_digits_exact(s, p1 + 1, p2);
        assert forall|i: int| 0 <= i < nf implies s.subrange(p1 + 1, p2)[i] == #[trigger] rf[i
            + 1] by {
            assert(s[p1 + (1 + i)] == rf[1 + i]);
        }
        let fd = spec_digits_val(s.subrange(p1 + 1, p2));
        // The scaled fraction digits hold the fraction part.
        assert(fp == 100 * d1 + 10 * d2 + d3);
        let c1 = spec_digit_char(d1 as int);
        let c2 = spec_digit_char(d2 as int);
        let c3 = spec_digit_char(d3 as int);
        let ds1 = seq![c1];
        let ds2 = seq![c1, c2];
        let ds3 = seq![c1, c2, c3];
        assert(spec_digits_val(Seq::<char>::empty()) == 0);
        assert(ds1.drop_last() =~= Seq::<char>::empty());
        assert(spec_digits_val(ds1) == d1);
        assert(ds2.drop_last() =~= ds1);
        assert(spec_digits_val(ds2) == d1 * 10 + d2);
        assert(ds3.drop_last() =~= ds2);
        assert(spec_digits_val(ds3) == (d1 * 10 + d2) * 10 + d3);
        if d3 != 0 {
            assert(s.subrange(p1 + 1, p2) =~= ds3);
            assert(fd == (d1 * 10 + d2) * 10 + d3);
            assert(fd == fp);
        } else if d2 != 0 {
            assert(s.subrange(p1 + 1, p2) =~= ds2);
            assert(fd == d1 * 10 + d2);
            assert(fd * 10 == fp);
        } else {
            assert(s.subrange(p1 + 1, p2) =~= ds1);
            assert(fd == d1);
            assert(fd * 100 == fp);
        }
        assert(m == ip * 1000 + fp);
        assert(!(p2 < s.len() && (s[p2] == 'e' || s[p2] == 'E'))) by {
            if p2 < s.len() {
                assert(s[p2] != 'e' && s[p2] != 'E');
            }
        }
        // The combined digits shifted out to three decimal places are worth
        // the integer part a thousandfold plus the scaled fraction.
        let nfrac = p2 - (p1 + 1);
        let cd = s.subrange(p0, p1) + s.subrange(p1 + 1, p2);
        crate::json_text::lemma_digits_val_concat(s.subrange(p0, p1), s.subrange(p1 + 1, p2));
        let e = 3 - nfrac;
        assert(0 <= e <= 2 || e == 0);
        crate::json_text::lemma_zero_digits_val(e as nat);
        crate::json_text::lemma_digits_val_concat(
            cd,
            crate::json_text::spec_zero_digits(e as nat),
        );
        assert(crate::json_text::spec_shifted_digits(cd, e) == cd
            + crate::json_text::spec_zero_digits(e as nat));
        if nfrac == 3 {
            assert(spec_digits_val(cd) == ip * 1000 + fd);
            assert(spec_digits_val(crate::json_text::spec_shifted_digits(cd, e)) == m);
        } else if nfrac == 2 {
            assert(spec_digits_val(cd) == ip * 100 + fd);
            assert(spec_digits_val(crate::json_text::spec_shifted_digits(cd, e)) == (ip * 100
                + fd) * 10);
            assert((ip * 100 + fd) * 10 == ip * 1000 + fd * 10);
            assert(spec_digits_val(crate::json_text::spec_shifted_digits(cd, e)) == m);
        } else {
            assert(nfrac == 1);
            assert(spec_digits_val(cd) == ip * 10 + fd);
            assert(spec_digits_val(crate::json_text::spec_shifted_digits(cd, e)) == (ip * 10 + fd)
                * 100);
            assert((ip * 10 + fd) * 100 == ip * 1000 + fd * 100);
            assert(spec_digits_val(crate::json_text::spec_shifted_digits(cd, e)) == m);
        }
        assert(crate::json_text::spec_sat_i64(k) == k);
        assert(crate::json_text::spec_number_value(k < 0, cd, e) == k);
        assert(spec_parse_number(s, pos) == Some((k, p2)));
    }
}

/// A hexadecimal digit character is one, and carries its value.
proof fn lemma_hex_char_val(d: int)
    requires
        0 <= d < 16,
    ensures
        spec_is_hex(spec_hex_char(d)),
        spec_hex_val(spec_hex_char(d)) == d,
{
}

/// Parsing an escaped string body, up to and past the closing quote,
/// recovers the characters.
pub proof fn lemma_rt_string_body(t: Seq<char>, s: Seq<char>, pos: int)
    requires
        crate::text::chars_in_range(t),
        0 <= pos,
        pos + spec_escape_string(t).len() + 1 <= s.len(),
        s.subrange(pos, pos + spec_escape_string(t).len() + 1) == spec_escape_string(t) + seq![
            '"',
        ],
    ensures
        spec_parse_string_body(s, pos) == Some((t, pos + spec_escape_string(t).len() + 1)),
    decreases t.len(),
{
    let es = spec_escape_string(t);
    let seg = es + seq!['"'];
    assert forall|j: int| 0 <= j < seg.len() implies s[pos + j] == #[trigger] seg[j] by {
        assert(s.subrange(pos, pos + es.len() + 1)[j] == seg[j]);
    }
    if t.len() == 0 {
        assert(es =~= Seq::<char>::empty());
        assert(s[pos + 0] == seg[0]);
        assert(s[pos] == '"');
        assert(spec_parse_string_body(s, pos) == Some((Seq::<char>::empty(), pos + 1)));
        assert(t =~= Seq::<char>::empty());
    } else {
        let c = t[0];
        assert(0 <= (c as int) && (c as int) <= 0x10FFFF);
        let rest = t.drop_first();
        let ec = spec_escape_char(c);
        let esr = spec_escape_string(rest);
        assert(es == ec + esr);
        let posr = pos + ec.len();
        assert forall|j: int| 0 <= j < esr.len() + 1 implies s.subrange(
            posr,
            posr + esr.len() + 1,
        )[j] == #[trigger] (esr + seq!['"'])[j] by {
            assert(seg[ec.len() + j] == (esr + seq!['"'])[j]);
            assert(s[pos + (ec.len() + j)] == seg[ec.len() + j]);
        }
        assert(s.subrange(posr, posr + esr.len() + 1) =~= esr + seq!['"']);
        assert forall|j: int| 0 <= j < ec.len() implies s[pos + j] == #[trigger] ec[j] by {
            assert(seg[j] == ec[j]);
            assert(s[pos + j] == seg[j]);
        }
        assert(crate::text::chars_in_range(rest)) by {
            assert(forall|i: int| 0 <= i < rest.len() ==> rest[i] == t[i + 1]);
        }
        lemma_rt_string_body(rest, s, posr);
        assert(seq![c] + rest =~= t);
        if c == '"' {
            assert(ec == seq!['\\', '"']);
            assert(s[pos + 0] == ec[0]);
            assert(s[pos + 1] == ec[1]);
            assert(spec_simple_unescape('"') == Some('"'));
            assert(spec_parse_string_body(s, pos) == Some((t, pos + es.len() + 1)));
        } else if c == '\\' {
            assert(ec == seq!['\\', '\\']);
            assert(s[pos + 0] == ec[0]);
            assert(s[pos + 1] == ec[1]);
            assert(spec_parse_string_body(s, pos) == Some((t, pos + es.len() + 1)));
        } else if (c as int) < 32 {
            let hi = (c as int) / 16;
            let lo = (c as int) % 16;
            lemma_hex_char_val(hi);
            lemma_hex_char_val(lo);
            assert(ec == seq!['\\', 'u', '0', '0', spec_hex_char(hi), spec_hex_char(lo)]);
            assert(s[pos + 0] == ec[0]);
            assert(s[pos + 1] == ec[1]);
            assert(s[pos + 2] == ec[2]);
            assert(s[pos + 3] == ec[3]);
            assert(s[pos + 4] == ec[4]);
            assert(s[pos + 5] == ec[5]);
            let code = spec_hex_val(s[pos + 4]) * 16 + spec_hex_val(s[pos + 5]);
            assert(code == c as int);
            assert(code as char == c) by {
                let u = c as u32;
                assert(u as int == c as int);
                vstd::utf8::char_u32_cast(c, u);
            }
            assert(spec_parse_string_body(s, pos) == Some((t, pos + es.len() + 1)));
        } else {
            assert(ec == seq![c]);
            assert(s[pos + 0] == ec[0]);
            assert(c != '"' && c != '\\');
            assert(spec_parse_string_body(s, pos) == Some((t, pos + es.len() + 1)));
        }
    }
}

// ---------------------------------------------------------------------------
// Well-formed documents, and the whole-document round trip.
// ---------------------------------------------------------------------------

/// A document the canonical text can carry faithfully: every number in the
/// sixty-four bit range, every string made of scalar-range characters.
pub open spec fn wf_json(v: SpecJson) -> bool
    decreases v, 0int,
{
    match v {
        SpecJson::Null => true,
        SpecJson::Bool(_) => true,
        SpecJson::Number(k) => spec_in_i64(k),
        SpecJson::String(t) => crate::text::chars_in_range(t),
        SpecJson::Array(items) => wf_json_seq(items),
        SpecJson::Object(members) => wf_json_members(members),
    }
}

/// Every document of the sequence is well formed.
pub open spec fn wf_json_seq(items: Seq<SpecJson>) -> bool
    decreases items, 1int,
{
    items.len() == 0 || (wf_json(items[0]) && wf_json_seq(items.drop_first()))
}

/// Every member has a scalar-range key and a well-formed value.
pub open spec fn wf_json_members(members: Seq<(Seq<char>, SpecJson)>) -> bool
    decreases members, 1int,
{
    members.len() == 0 || (crate::text::chars_in_range(members[0].0) && wf_json(members[0].1)
        && wf_json_members(members.drop_first()))
}

/// The canonical text of a document is non-empty, and its first character is
/// one of the value-starting characters, none of which is whitespace or a
/// closing delimiter.
proof fn lemma_ser_first(v: SpecJson)
    ensures
        spec_ser(v).len() >= 1,
        ({
            let c0 = spec_ser(v)[0];
            (c0 == 'n' || c0 == 't' || c0 == 'f' || c0 == '"' || c0 == '-' || spec_is_digit(c0)
                || c0 == '[' || c0 == '{') && !spec_is_ws(c0) && c0 != ']' && c0 != '}' && c0 != ','
                && c0 != ':'
        }),
{
    match v {
        SpecJson::Number(k) => {
            let m: int = if k < 0 {
                -k
            } else {
                k
            };
            let ip: nat = (m / 1000) as nat;
            lemma_render_nat_props(ip);
            if k < 0 {
                assert(spec_ser(v)[0] == '-');
            } else {
                assert(spec_ser(v)[0] == spec_render_nat(ip)[0]);
                assert(spec_is_digit(spec_render_nat(ip)[0]));
            }
        },
        _ => {},
    }
}

/// Parsing the canonical text of a well-formed document, where it stands in
/// a larger text, recovers the document.
pub proof fn lemma_rt_value(v: SpecJson, s: Seq<char>, pos: int, depth: nat)
    requires
        wf_json(v),
        spec_json_depth(v) <= depth,
        0 <= pos,
        pos + spec_ser(v).len() <= s.len(),
        s.subrange(pos, pos + spec_ser(v).len()) == spec_ser(v),
        v is Number ==> (pos + spec_ser(v).len() == s.len() || !(spec_is_digit(
            s[pos + spec_ser(v).len()],
        ) || s[pos + spec_ser(v).len()] == '.' || s[pos + spec_ser(v).len()] == 'e' || s[pos
            + spec_ser(v).len()] == 'E')),
    ensures
        spec_parse_value(s, pos, depth) == Some((v, pos + spec_ser(v).len())),
    decreases v, 0int,
{
    let r = spec_ser(v);
    lemma_ser_first(v);
    assert forall|j: int| 0 <= j < r.len() implies s[pos + j] == #[trigger] r[j] by {
        assert(s.subrange(pos, pos + r.len())[j] == r[j]);
    }
    assert(s[pos + 0] == r[0]);
    match v {
        SpecJson::Null => {
            assert(s[pos + 1] == r[1]);
            assert(s[pos + 2] == r[2]);
            assert(s[pos + 3] == r[3]);
            assert(spec_parse_value(s, pos, depth) == Some((v, pos + 4)));
        },
        SpecJson::Bool(b) => {
            assert(s[pos + 1] == r[1]);
            assert(s[pos + 2] == r[2]);
            assert(s[pos + 3] == r[3]);
            if !b {
                assert(s[pos + 4] == r[4]);
            }
            assert(spec_parse_value(s, pos, depth) == Some((v, pos + r.len())));
        },
        SpecJson::Number(k) => {
            lemma_rt_number(k, s, pos);
            assert(spec_parse_value(s, pos, depth) == Some((v, pos + r.len())));
        },
        SpecJson::String(t) => {
            assert(s[pos] == '"');
            let es = spec_escape_string(t);
            assert forall|j: int| 0 <= j < es.len() + 1 implies s.subrange(
                pos + 1,
                pos + 1 + es.len() + 1,
            )[j] == #[trigger] (es + seq!['"'])[j] by {
                assert(r[1 + j] == (es + seq!['"'])[j]);
                assert(s[pos + (1 + j)] == r[1 + j]);
            }
            assert(s.subrange(pos + 1, pos + 1 + es.len() + 1) =~= es + seq!['"']);
            lemma_rt_string_body(t, s, pos + 1);
            assert(spec_parse_value(s, pos, depth) == Some((v, pos + r.len())));
        },
        SpecJson::Array(items) => {
            assert(s[pos] == '[');
            assert(depth >= 1);
            let inner = spec_ser_elements(items);
            if items.len() == 0 {
                assert(inner =~= Seq::<char>::empty());
                assert(r == seq!['['] + inner + seq![']']);
                assert(s[pos + 1] == r[1]);
                assert(s[pos + 1] == ']');
                assert(spec_skip_ws(s, pos + 1) == pos + 1);
                assert(items =~= Seq::<SpecJson>::empty());
                assert(spec_parse_value(s, pos, depth) == Some((v, pos + 2)));
            } else {
                lemma_ser_first(items[0]);
                assert(inner.len() >= 1 && inner[0] == spec_ser(items[0])[0]) by {
                    lemma_ser_elements_first(items);
                }
                assert(s[pos + 1] == r[1]);
                assert(r[1] == inner[0]);
                assert(!spec_is_ws(s[pos + 1]) && s[pos + 1] != ']');
                assert(spec_skip_ws(s, pos + 1) == pos + 1);
                assert forall|j: int| 0 <= j < inner.len() + 1 implies s.subrange(
                    pos + 1,
                    pos + 1 + inner.len() + 1,
                )[j] == #[trigger] (inner + seq![']'])[j] by {
                    assert(r[1 + j] == (inner + seq![']'])[j]);
                    assert(s[pos + (1 + j)] == r[1 + j]);
                }
                assert(s.subrange(pos + 1, pos + 1 + inner.len() + 1) =~= inner + seq![']']);
                lemma_rt_elements(items, s, pos + 1, (depth - 1) as nat);
                assert(spec_parse_value(s, pos, depth) == Some((v, pos + r.len())));
            }
        },
        SpecJson::Object(members) => {
            assert(s[pos] == '{');
            assert(depth >= 1);
            let inner = spec_ser_members(members);
            if members.len() == 0 {
                assert(inner =~= Seq::<char>::empty());
                assert(r == seq!['{'] + inner + seq!['}']);
                assert(s[pos + 1] == r[1]);
                assert(s[pos + 1] == '}');
                assert(spec_skip_ws(s, pos + 1) == pos + 1);
                assert(members =~= Seq::<(Seq<char>, SpecJson)>::empty());
                assert(spec_parse_value(s, pos, depth) == Some((v, pos + 2)));
            } else {
                assert(inner.len() >= 1 && inner[0] == '"') by {
                    lemma_ser_members_first(members);
                }
                assert(s[pos + 1] == r[1]);
                assert(r[1] == inner[0]);
                assert(spec_skip_ws(s, pos + 1) == pos + 1);
                assert forall|j: int| 0 <= j < inner.len() + 1 implies s.subrange(
                    pos + 1,
                    pos + 1 + inner.len() + 1,
                )[j] == #[trigger] (inner + seq!['}'])[j] by {
                    assert(r[1 + j] == (inner + seq!['}'])[j]);
                    assert(s[pos + (1 + j)] == r[1 + j]);
                }
                assert(s.subrange(pos + 1, pos + 1 + inner.len() + 1) =~= inner + seq!['}']);
                lemma_rt_members(members, s, pos + 1, (depth - 1) as nat);
                assert(spec_parse_value(s, pos, depth) == Some((v, pos + r.len())));
            }
        },
    }
}

/// The canonical text of a non-empty element list starts with its first
/// element's first character.
proof fn lemma_ser_elements_first(items: Seq<SpecJson>)
    requires
        items.len() >= 1,
    ensures
        spec_ser_elements(items).len() >= 1,
        spec_ser_elements(items)[0] == spec_ser(items[0])[0],
    decreases items,
{
    lemma_ser_first(items[0]);
}

/// The canonical text of a non-empty member list starts with a quote.
proof fn lemma_ser_members_first(members: Seq<(Seq<char>, SpecJson)>)
    requires
        members.len() >= 1,
    ensures
        spec_ser_members(members).len() >= 1,
        spec_ser_members(members)[0] == '"',
{
}

/// Parsing the canonical text of a well-formed element list, up to and past
/// the closing bracket, recovers the elements.
proof fn lemma_rt_elements(items: Seq<SpecJson>, s: Seq<char>, pos: int, depth: nat)
    requires
        items.len() >= 1,
        wf_json_seq(items),
        spec_json_depth_seq(items) <= depth,
        0 <= pos,
        pos + spec_ser_elements(items).len() + 1 <= s.len(),
        s.subrange(pos, pos + spec_ser_elements(items).len() + 1) == spec_ser_elements(items)
            + seq![']'],
    ensures
        spec_parse_elements(s, pos, depth) == Some(
            (items, pos + spec_ser_elements(items).len() + 1),
        ),
    decreases items, 1int,
{
    let inner = spec_ser_elements(items);
    let seg = inner + seq![']'];
    assert forall|j: int| 0 <= j < seg.len() implies s[pos + j] == #[trigger] seg[j] by {
        assert(s.subrange(pos, pos + inner.len() + 1)[j] == seg[j]);
    }
    let v0 = items[0];
    let r0 = spec_ser(v0);
    lemma_ser_first(v0);
    assert(inner == (if items.len() == 1 {
        r0
    } else {
        r0 + seq![','] + spec_ser_elements(items.drop_first())
    }));
    // The first element's text stands at `pos`, followed by a comma or the
    // closing bracket.
    assert forall|j: int| 0 <= j < r0.len() implies s.subrange(pos, pos + r0.len())[j]
        == #[trigger] r0[j] by {
        assert(seg[j] == r0[j]);
        assert(s[pos + j] == seg[j]);
    }
    assert(s.subrange(pos, pos + r0.len()) =~= r0);
    let q = pos + r0.len();
    assert(s[pos + r0.len()] == seg[r0.len() as int]);
    if items.len() == 1 {
        assert(s[q] == ']');
    } else {
        assert(s[q] == ',');
    }
    lemma_rt_value(
        v0,
        s,
        pos,
        depth,
    );
    assert(s[pos + 0] == r0[0]);
    assert(spec_skip_ws(s, pos) == pos);
    assert(spec_skip_ws(s, q) == q);
    if items.len() == 1 {
        assert(spec_parse_elements(s, pos, depth) == Some((seq![v0], q + 1)));
        assert(seq![v0] =~= items);
    } else {
        let rest = items.drop_first();
        let innerr = spec_ser_elements(rest);
        assert forall|j: int| 0 <= j < innerr.len() + 1 implies s.subrange(
            q + 1,
            q + 1 + innerr.len() + 1,
        )[j] == #[trigger] (innerr + seq![']'])[j] by {
            assert(seg[(r0.len() + 1) + j] == (innerr + seq![']'])[j]);
            assert(s[pos + ((r0.len() + 1) + j)] == seg[(r0.len() + 1) + j]);
        }
        assert(s.subrange(q + 1, q + 1 + innerr.len() + 1) =~= innerr + seq![']']);
        lemma_rt_elements(rest, s, q + 1, depth);
        assert(spec_parse_elements(s, pos, depth) == Some(
            (seq![v0] + rest, q + 1 + innerr.len() + 1),
        ));
        assert(seq![v0] + rest =~= items);
    }
}

/// Parsing the canonical text of a well-formed member list, up to and past
/// the closing brace, recovers the members.
proof fn lemma_rt_members(members: Seq<(Seq<char>, SpecJson)>, s: Seq<char>, pos: int, depth: nat)
    requires
        members.len() >= 1,
        wf_json_members(members),
        spec_json_depth_members(members) <= depth,
        0 <= pos,
        pos + spec_ser_members(members).len() + 1 <= s.len(),
        s.subrange(pos, pos + spec_ser_members(members).len() + 1) == spec_ser_members(members)
            + seq!['}'],
    ensures
        spec_parse_members(s, pos, depth) == Some(
            (members, pos + spec_ser_members(members).len() + 1),
        ),
    decreases members, 1int,
{
    let inner = spec_ser_members(members);
    let seg = inner + seq!['}'];
    assert forall|j: int| 0 <= j < seg.len() implies s[pos + j] == #[trigger] seg[j] by {
        assert(s.subrange(pos, pos + inner.len() + 1)[j] == seg[j]);
    }
    let key = members[0].0;
    let v0 = members[0].1;
    let rk = spec_ser_string(key);
    let r0 = spec_ser(v0);
    lemma_ser_first(v0);
    let head = rk + seq![':'] + r0;
    assert(inner == (if members.len() == 1 {
        head
    } else {
        head + seq![','] + spec_ser_members(members.drop_first())
    }));
    assert(s[pos + 0] == seg[0]);
    assert(seg[0] == '"');
    assert(spec_skip_ws(s, pos) == pos);
    // The key's escaped characters and closing quote stand just after the
    // opening quote.
    let esk = spec_escape_string(key);
    assert(rk == seq!['"'] + esk + seq!['"']);
    assert forall|j: int| 0 <= j < esk.len() + 1 implies s.subrange(
        pos + 1,
        pos + 1 + esk.len() + 1,
    )[j] == #[trigger] (esk + seq!['"'])[j] by {
        assert(seg[1 + j] == (esk + seq!['"'])[j]);
        assert(s[pos + (1 + j)] == seg[1 + j]);
    }
    assert(s.subrange(pos + 1, pos + 1 + esk.len() + 1) =~= esk + seq!['"']);
    lemma_rt_string_body(key, s, pos + 1);
    let q = pos + rk.len();
    assert(s[pos + (q - pos)] == seg[q - pos]);
    assert(s[q] == ':');
    assert(spec_skip_ws(s, q) == q);
    let p2 = q + 1;
    assert(s[pos + (p2 - pos)] == seg[p2 - pos]);
    assert(s[p2] == r0[0]);
    assert(spec_skip_ws(s, p2) == p2);
    // The value's text stands after the colon, followed by a comma or the
    // closing brace.
    assert forall|j: int| 0 <= j < r0.len() implies s.subrange(p2, p2 + r0.len())[j]
        == #[trigger] r0[j] by {
        assert(seg[(p2 - pos) + j] == r0[j]);
        assert(s[pos + ((p2 - pos) + j)] == seg[(p2 - pos) + j]);
    }
    assert(s.subrange(p2, p2 + r0.len()) =~= r0);
    let rr = p2 + r0.len();
    assert(s[pos + (rr - pos)] == seg[rr - pos]);
    if members.len() == 1 {
        assert(s[rr] == '}');
    } else {
        assert(s[rr] == ',');
    }
    lemma_rt_value(v0, s, p2, depth);
    assert(spec_skip_ws(s, rr) == rr);
    if members.len() == 1 {
        assert(spec_parse_members(s, pos, depth) == Some((seq![(key, v0)], rr + 1)));
        assert(seq![(key, v0)] =~= members);
    } else {
        let rest = members.drop_first();
        let innerr = spec_ser_members(rest);
        assert forall|j: int| 0 <= j < innerr.len() + 1 implies s.subrange(
            rr + 1,
            rr + 1 + innerr.len() + 1,
        )[j] == #[trigger] (innerr + seq!['}'])[j] by {
            assert(seg[((rr + 1) - pos) + j] == (innerr + seq!['}'])[j]);
            assert(s[pos + (((rr + 1) - pos) + j)] == seg[((rr + 1) - pos) + j]);
        }
        assert(s.subrange(rr + 1, rr + 1 + innerr.len() + 1) =~= innerr + seq!['}']);
        lemma_rt_members(rest, s, rr + 1, depth);
        assert(spec_parse_members(s, pos, depth) == Some(
            (seq![(key, v0)] + rest, rr + 1 + innerr.len() + 1),
        ));
        assert(seq![(key, v0)] + rest =~= members);
    }
}


/// A well-formed document ahead of a well-formed list is a well-formed list.
proof fn lemma_wf_json_seq_cons(v: SpecJson, rest: Seq<SpecJson>, depth: nat)
    requires
        wf_json(v),
        wf_json_seq(rest),
        spec_json_depth(v) <= depth,
        spec_json_depth_seq(rest) <= depth,
    ensures
        wf_json_seq(seq![v] + rest),
        spec_json_depth_seq(seq![v] + rest) <= depth,
{
    let whole = seq![v] + rest;
    assert(whole[0] == v);
    assert(whole.drop_first() =~= rest);
    reveal_with_fuel(wf_json_seq, 2);
    reveal_with_fuel(spec_json_depth_seq, 2);
}

/// A well-formed member ahead of a well-formed list is a well-formed list.
proof fn lemma_wf_json_members_cons(
    key: Seq<char>,
    v: SpecJson,
    rest: Seq<(Seq<char>, SpecJson)>,
    depth: nat,
)
    requires
        crate::text::chars_in_range(key),
        wf_json(v),
        wf_json_members(rest),
        spec_json_depth(v) <= depth,
        spec_json_depth_members(rest) <= depth,
    ensures
        wf_json_members(seq![(key, v)] + rest),
        spec_json_depth_members(seq![(key, v)] + rest) <= depth,
{
    let whole = seq![(key, v)] + rest;
    assert(whole[0] == (key, v));
    assert(whole.drop_first() =~= rest);
    reveal_with_fuel(wf_json_members, 2);
    reveal_with_fuel(spec_json_depth_members, 2);
}

/// A string body parsed from scalar-range text is itself in range.
pub proof fn lemma_parse_string_body_range(s: Seq<char>, pos: int)
    requires
        crate::text::chars_in_range(s),
        spec_parse_string_body(s, pos) is Some,
    ensures
        crate::text::chars_in_range((spec_parse_string_body(s, pos)->0).0),
    decreases s.len() - pos,
{
    let c = s[pos];
    let t = (spec_parse_string_body(s, pos)->0).0;
    if c == '"' {
    } else if c == '\\' {
        let e = s[pos + 1];
        if e == 'u' {
            lemma_parse_string_body_range(s, pos + 6);
            let code = spec_hex_val(s[pos + 4]) * 16 + spec_hex_val(s[pos + 5]);
            let tail = (spec_parse_string_body(s, pos + 6)->0).0;
            assert forall|i: int| 0 <= i < t.len() implies 0 <= (#[trigger] t[i]) as int
                <= 0x10FFFF by {
                if i > 0 {
                    assert(t[i] == tail[i - 1]);
                }
            }
        } else {
            lemma_parse_string_body_range(s, pos + 2);
            let tail = (spec_parse_string_body(s, pos + 2)->0).0;
            assert forall|i: int| 0 <= i < t.len() implies 0 <= (#[trigger] t[i]) as int
                <= 0x10FFFF by {
                if i > 0 {
                    assert(t[i] == tail[i - 1]);
                }
            }
        }
    } else {
        lemma_parse_string_body_range(s, pos + 1);
        let tail = (spec_parse_string_body(s, pos + 1)->0).0;
        assert forall|i: int| 0 <= i < t.len() implies 0 <= (#[trigger] t[i]) as int
            <= 0x10FFFF by {
            if i > 0 {
                assert(t[i] == tail[i - 1]);
            } else {
                assert(t[0] == c);
            }
        }
    }
}

/// A document parsed from scalar-range text is well formed and nested no
/// deeper than the parse's depth bound.
pub proof fn lemma_parse_value_wf(s: Seq<char>, pos: int, depth: nat)
    requires
        crate::text::chars_in_range(s),
        spec_parse_value(s, pos, depth) is Some,
    ensures
        wf_json((spec_parse_value(s, pos, depth)->0).0),
        spec_json_depth((spec_parse_value(s, pos, depth)->0).0) <= depth,
    decreases s.len() - pos, 0int,
{
    let c = s[pos];
    if c == '"' {
        lemma_parse_string_body_range(s, pos + 1);
    } else if c == '[' {
        let p = spec_skip_ws(s, pos + 1);
        lemma_skip_ws_bounds(s, pos + 1);
        if p < s.len() && s[p] == ']' {
        } else {
            lemma_parse_elements_wf(s, pos + 1, (depth - 1) as nat);
        }
    } else if c == '{' {
        let p = spec_skip_ws(s, pos + 1);
        lemma_skip_ws_bounds(s, pos + 1);
        if p < s.len() && s[p] == '}' {
        } else {
            lemma_parse_members_wf(s, pos + 1, (depth - 1) as nat);
        }
    }
}

/// Elements parsed from scalar-range text are well formed and bounded.
proof fn lemma_parse_elements_wf(s: Seq<char>, pos: int, depth: nat)
    requires
        crate::text::chars_in_range(s),
        spec_parse_elements(s, pos, depth) is Some,
    ensures
        wf_json_seq((spec_parse_elements(s, pos, depth)->0).0),
        spec_json_depth_seq((spec_parse_elements(s, pos, depth)->0).0) <= depth,
    decreases s.len() - pos, 1int,
{
    let p0 = spec_skip_ws(s, pos);
    lemma_skip_ws_bounds(s, pos);
    lemma_parse_value_advances(s, p0, depth);
    lemma_parse_value_wf(s, p0, depth);
    let v = (spec_parse_value(s, p0, depth)->0).0;
    let q = (spec_parse_value(s, p0, depth)->0).1;
    let q1 = spec_skip_ws(s, q);
    lemma_skip_ws_bounds(s, q);
    if q1 < s.len() && s[q1] == ',' {
        lemma_parse_elements_wf(s, q1 + 1, depth);
        let rest = (spec_parse_elements(s, q1 + 1, depth)->0).0;
        let whole = seq![v] + rest;
        assert(whole.drop_first() =~= rest);
        assert(whole[0] == v);
        assert((spec_parse_elements(s, pos, depth)->0).0 == whole);
        lemma_wf_json_seq_cons(v, rest, depth);
    } else {
        let whole = seq![v];
        assert(whole =~= seq![v] + Seq::<SpecJson>::empty());
        assert((spec_parse_elements(s, pos, depth)->0).0 == whole);
        lemma_wf_json_seq_cons(v, Seq::<SpecJson>::empty(), depth);
    }
}

/// Members parsed from scalar-range text are well formed and bounded.
proof fn lemma_parse_members_wf(s: Seq<char>, pos: int, depth: nat)
    requires
        crate::text::chars_in_range(s),
        spec_parse_members(s, pos, depth) is Some,
    ensures
        wf_json_members((spec_parse_members(s, pos, depth)->0).0),
        spec_json_depth_members((spec_parse_members(s, pos, depth)->0).0) <= depth,
    decreases s.len() - pos, 1int,
{
    let p0 = spec_skip_ws(s, pos);
    lemma_skip_ws_bounds(s, pos);
    lemma_parse_string_body_advances(s, p0 + 1);
    lemma_parse_string_body_range(s, p0 + 1);
    let key = (spec_parse_string_body(s, p0 + 1)->0).0;
    let q = (spec_parse_string_body(s, p0 + 1)->0).1;
    let q1 = spec_skip_ws(s, q);
    lemma_skip_ws_bounds(s, q);
    let p2 = spec_skip_ws(s, q1 + 1);
    lemma_skip_ws_bounds(s, q1 + 1);
    lemma_parse_value_advances(s, p2, depth);
    lemma_parse_value_wf(s, p2, depth);
    let v = (spec_parse_value(s, p2, depth)->0).0;
    let r = (spec_parse_value(s, p2, depth)->0).1;
    let r1 = spec_skip_ws(s, r);
    lemma_skip_ws_bounds(s, r);
    if r1 < s.len() && s[r1] == ',' {
        lemma_parse_members_wf(s, r1 + 1, depth);
        let rest = (spec_parse_members(s, r1 + 1, depth)->0).0;
        let whole = seq![(key, v)] + rest;
        assert(whole.drop_first() =~= rest);
        assert(whole[0] == (key, v));
        assert((spec_parse_members(s, pos, depth)->0).0 == whole);
        lemma_wf_json_members_cons(key, v, rest, depth);
    } else {
        let whole = seq![(key, v)];
        assert(whole =~= seq![(key, v)] + Seq::<(Seq<char>, SpecJson)>::empty());
        assert((spec_parse_members(s, pos, depth)->0).0 == whole);
        lemma_wf_json_members_cons(key, v, Seq::<(Seq<char>, SpecJson)>::empty(), depth);
    }
}

/// A document parsed from a scalar-range text is well formed and nested no
/// deeper than the parser's limit.
pub proof fn lemma_parse_text_wf(s: Seq<char>)
    requires
        crate::text::chars_in_range(s),
        spec_parse_text(s) is Some,
    ensures
        wf_json(spec_parse_text(s)->0),
        spec_json_depth(spec_parse_text(s)->0) <= MAX_DEPTH as nat,
{
    lemma_skip_ws_bounds(s, 0);
    lemma_parse_value_wf(s, spec_skip_ws(s, 0), MAX_DEPTH as nat);
}

/// Parsing the canonical text of a well-formed document of bounded depth
/// yields the document back.
pub proof fn lemma_rt_text(v: SpecJson)
    requires
        wf_json(v),
        spec_json_depth(v) <= MAX_DEPTH as nat,
    ensures
        spec_parse_text(spec_ser(v)) == Some(v),
{
    let s = spec_ser(v);
    lemma_ser_first(v);
    assert(spec_skip_ws(s, 0) == 0);
    assert(s.subrange(0, s.len() as int) =~= s);
    lemma_rt_value(v, s, 0, MAX_DEPTH as nat);
    assert(spec_skip_ws(s, s.len() as int) == s.len());
}

} // verus!
