//! Character-level string utilities: equality, prefix tests, and conversion
//! between `&str` and `Vec<char>`.

use vstd::prelude::*;
use vstd::string::StrSliceExecFns;

verus! {

/// Appends one character to a string.
///
/// Relies on `String::push`: appends the given `char` to the end of this
/// `String`.
#[verifier::external_body]
pub fn push_char(s: &mut String, c: char)
    ensures
        final(s)@ == old(s)@.push(c),
{
    s.push(c);
}

/// Whether every character of `s` lies in the Unicode scalar range. True of
/// the view of every string; recorded explicitly so that character values
/// read back out of a sequence keep their bounds.
pub open spec fn chars_in_range(s: Seq<char>) -> bool {
    forall|i: int| 0 <= i < s.len() ==> 0 <= (#[trigger] s[i]) as int <= 0x10FFFF
}

/// The characters of `s`, in order, as a vector.
pub fn chars_of(s: &str) -> (r: Vec<char>)
    ensures
        r@ == s@,
        chars_in_range(s@),
{
    let n = s.unicode_len();
    let mut r: Vec<char> = Vec::new();
    let mut i: usize = 0;
    while i < n
        invariant
            n == s@.len(),
            i <= n,
            r@ == s@.subrange(0, i as int),
            chars_in_range(r@),
        decreases n - i,
    {
        let c = s.get_char(i);
        r.push(c);
        i += 1;
        proof {
            assert(r@ =~= s@.subrange(0, i as int));
        }
    }
    proof {
        assert(s@.subrange(0, n as int) =~= s@);
        assert forall|j: int| 0 <= j < s@.len() implies 0 <= (#[trigger] s@[j]) as int
            <= 0x10FFFF by {
            assert(r@[j] == s@[j]);
        }
    }
    r
}

/// One string built from the given characters, in order.
pub fn string_of_chars(cs: &Vec<char>) -> (r: String)
    ensures
        r@ == cs@,
{
    let mut r = String::new();
    let mut i: usize = 0;
    while i < cs.len()
        invariant
            i <= cs@.len(),
            r@ == cs@.subrange(0, i as int),
        decreases cs@.len() - i,
    {
        push_char(&mut r, cs[i]);
        i += 1;
        proof {
            assert(r@ =~= cs@.subrange(0, i as int));
        }
    }
    proof {
        assert(cs@.subrange(0, cs@.len() as int) =~= cs@);
    }
    r
}

/// Whether two strings hold the same characters.
pub fn str_eq(a: &str, b: &str) -> (r: bool)
    ensures
        r == (a@ == b@),
{
    let alen = a.unicode_len();
    let blen = b.unicode_len();
    if alen != blen {
        proof {
            assert(a@ != b@) by {
                assert(a@.len() != b@.len());
            }
        }
        return false;
    }
    let mut i: usize = 0;
    while i < alen
        invariant
            alen == a@.len(),
            blen == b@.len(),
            alen == blen,
            i <= alen,
            forall|j: int| 0 <= j < i ==> a@[j] == b@[j],
        decreases alen - i,
    {
        if a.get_char(i) != b.get_char(i) {
            return false;
        }
        i += 1;
    }
    proof {
        assert(a@ =~= b@);
    }
    true
}

/// Whether `p` is a prefix of `s`.
pub open spec fn spec_is_prefix(s: Seq<char>, p: Seq<char>) -> bool {
    p.len() <= s.len() && s.subrange(0, p.len() as int) == p
}

/// Whether the string `p` is a prefix of the string `s`.
pub fn str_starts_with(s: &str, p: &str) -> (r: bool)
    ensures
        r == spec_is_prefix(s@, p@),
{
    let slen = s.unicode_len();
    let plen = p.unicode_len();
    if plen > slen {
        return false;
    }
    let mut i: usize = 0;
    while i < plen
        invariant
            slen == s@.len(),
            plen == p@.len(),
            plen <= slen,
            i <= plen,
            forall|j: int| 0 <= j < i ==> s@[j] == p@[j],
        decreases plen - i,
    {
        if s.get_char(i) != p.get_char(i) {
            proof {
                assert(s@.subrange(0, plen as int)[i as int] != p@[i as int]);
            }
            return false;
        }
        i += 1;
    }
    proof {
        assert(s@.subrange(0, plen as int) =~= p@);
    }
    true
}

/// The position of the first `sep` at or after `from`, or the length.
pub open spec fn spec_first_sep(s: Seq<char>, sep: char, from: int) -> int
    decreases s.len() - from,
{
    if 0 <= from < s.len() {
        if s[from] == sep {
            from
        } else {
            spec_first_sep(s, sep, from + 1)
        }
    } else {
        s.len() as int
    }
}

/// The first separator lies between `from` and the length, on a separator
/// or at the end.
pub proof fn lemma_first_sep_bounds(s: Seq<char>, sep: char, from: int)
    requires
        0 <= from <= s.len(),
    ensures
        from <= spec_first_sep(s, sep, from) <= s.len(),
        spec_first_sep(s, sep, from) < s.len() ==> s[spec_first_sep(s, sep, from)] == sep,
    decreases s.len() - from,
{
    if from < s.len() && s[from] != sep {
        lemma_first_sep_bounds(s, sep, from + 1);
    }
}

/// The parts of `s` split on `sep`, in order. An empty string yields one
/// empty part.
pub open spec fn spec_split_on(s: Seq<char>, sep: char) -> Seq<Seq<char>>
    decreases s.len(),
{
    let d = spec_first_sep(s, sep, 0);
    proof {
        lemma_first_sep_bounds(s, sep, 0);
    }
    if d == s.len() {
        seq![s]
    } else {
        seq![s.subrange(0, d)] + spec_split_on(s.subrange(d + 1, s.len() as int), sep)
    }
}

/// The abstraction of each string in a vector.
pub open spec fn spec_seq_view(v: Seq<String>) -> Seq<Seq<char>> {
    Seq::new(v.len(), |i: int| v[i]@)
}

/// The position of the first `sep` in `s`.
pub fn first_sep(s: &str, sep: char) -> (r: usize)
    ensures
        r == spec_first_sep(s@, sep, 0),
        r <= s@.len(),
{
    let n = s.unicode_len();
    let mut i: usize = 0;
    while i < n && s.get_char(i) != sep
        invariant
            n == s@.len(),
            i <= n,
            spec_first_sep(s@, sep, 0) == spec_first_sep(s@, sep, i as int),
        decreases n - i,
    {
        i += 1;
    }
    i
}

/// The parts of `s` split on `sep`, in order.
pub fn split_on(s: &str, sep: char) -> (r: Vec<String>)
    ensures
        spec_seq_view(r@) == spec_split_on(s@, sep),
    decreases s@.len(),
{
    let n = s.unicode_len();
    let d = first_sep(s, sep);
    let seg: &str = s.substring_char(0, d);
    if d == n {
        let mut r: Vec<String> = Vec::new();
        r.push(String::from_str(seg));
        proof {
            assert(seg@ =~= s@);
            assert(spec_seq_view(r@) =~= spec_split_on(s@, sep));
        }
        r
    } else {
        let rest: &str = s.substring_char(d + 1, n);
        let mut r = split_on(rest, sep);
        r.insert(0, String::from_str(seg));
        proof {
            assert(spec_seq_view(r@) =~= seq![s@.subrange(0, d as int)] + spec_split_on(
                s@.subrange(d + 1, s@.len() as int),
                sep,
            ));
        }
        r
    }
}

/// Whether `p` is a suffix of `s`.
pub open spec fn spec_is_suffix(s: Seq<char>, p: Seq<char>) -> bool {
    p.len() <= s.len() && s.subrange(s.len() - p.len(), s.len() as int) == p
}

/// Whether the string `p` is a suffix of the string `s`.
pub fn str_ends_with(s: &str, p: &str) -> (r: bool)
    ensures
        r == spec_is_suffix(s@, p@),
{
    let slen = s.unicode_len();
    let plen = p.unicode_len();
    if plen > slen {
        return false;
    }
    let base = slen - plen;
    let mut i: usize = 0;
    while i < plen
        invariant
            slen == s@.len(),
            plen == p@.len(),
            plen <= slen,
            base == slen - plen,
            i <= plen,
            forall|j: int| 0 <= j < i ==> s@[base + j] == p@[j],
        decreases plen - i,
    {
        if s.get_char(base + i) != p.get_char(i) {
            proof {
                assert(s@.subrange(s@.len() - p@.len(), s@.len() as int)[i as int] != p@[i as int]);
            }
            return false;
        }
        i += 1;
    }
    proof {
        assert(s@.subrange(s@.len() - p@.len(), s@.len() as int) =~= p@);
    }
    true
}

/// Whether `sub` occurs anywhere in `s`.
pub open spec fn spec_contains_seq(s: Seq<char>, sub: Seq<char>) -> bool {
    exists|i: int| 0 <= i <= s.len() - sub.len() && #[trigger] s.subrange(i, i + sub.len()) == sub
}

/// Whether the string `sub` occurs anywhere in the string `s`.
pub fn str_contains(s: &str, sub: &str) -> (r: bool)
    ensures
        r == spec_contains_seq(s@, sub@),
{
    let slen = s.unicode_len();
    let sublen = sub.unicode_len();
    if sublen > slen {
        proof {
            assert(!spec_contains_seq(s@, sub@));
        }
        return false;
    }
    let cs = chars_of(s);
    let cq = chars_of(sub);
    let mut i: usize = 0;
    while i <= slen - sublen
        invariant
            slen == s@.len(),
            sublen == sub@.len(),
            sublen <= slen,
            cs@ == s@,
            cq@ == sub@,
            i <= slen - sublen + 1,
            forall|k: int| 0 <= k < i ==> #[trigger] s@.subrange(k, k + sub@.len()) != sub@,
        decreases slen - sublen + 1 - i,
    {
        let mut j: usize = 0;
        let mut matched = true;
        while j < sublen
            invariant
                slen == s@.len(),
                sublen == sub@.len(),
                sublen <= slen,
                i <= slen - sublen,
                cs@ == s@,
                cq@ == sub@,
                j <= sublen,
                        matched == (forall|k: int| 0 <= k < j ==> s@[i + k] == #[trigger] sub@[k]),
            decreases sublen - j,
        {
            if cs[i + j] != cq[j] {
                matched = false;
                proof {
                    assert(s@[i + j as int] != sub@[j as int]);
                }
                j = sublen;
            } else {
                j += 1;
            }
        }
        if matched {
            proof {
                assert(s@.subrange(i as int, i + sub@.len()) =~= sub@);
            }
            return true;
        }
        proof {
            assert forall|k: int| 0 <= k < i + 1 implies #[trigger] s@.subrange(
                k,
                k + sub@.len(),
            ) != sub@ by {
                if k == i {
                    let w = choose|w: int| 0 <= w < sub@.len() && s@[i + w] != sub@[w];
                    assert(s@.subrange(k, k + sub@.len())[w] != sub@[w]);
                }
            }
        }
        i += 1;
    }
    proof {
        assert forall|k: int| 0 <= k <= s@.len() - sub@.len() implies #[trigger] s@.subrange(
            k,
            k + sub@.len(),
        ) != sub@ by {}
    }
    false
}

} // verus!
