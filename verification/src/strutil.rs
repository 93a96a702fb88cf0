//! Verified string helpers: equality, substring search (plain and
//! case-insensitive), whitespace trimming, and decimal rendering of
//! integers and tenths.

use vstd::prelude::*;
use vstd::string::StrSliceExecFns;
use vstd::string::StringExecFns;

verus! {

/// Character-for-character equality of two string slices.
pub fn str_eq(a: &str, b: &str) -> (r: bool)
    ensures
        r == (a@ == b@),
{
    let alen = a.unicode_len();
    let blen = b.unicode_len();
    if alen != blen {
        assert(a@ != b@) by {
            assert(a@.len() != b@.len());
        }
        return false;
    }
    let mut i: usize = 0;
    while i < alen
        invariant
            i <= alen,
            alen == a@.len() == b@.len(),
            forall|k: int| 0 <= k < i ==> a@[k] == b@[k],
        decreases alen - i,
    {
        if a.get_char(i) != b.get_char(i) {
            return false;
        }
        i = i + 1;
    }
    proof {
        assert(a@ =~= b@);
    }
    true
}

/// A whitespace character, as far as attribute trimming is concerned.
pub open spec fn is_space(c: char) -> bool {
    c == ' ' || c == '\t' || c == '\n' || c == '\r'
}

/// `s` with leading whitespace removed.
pub open spec fn drop_leading(s: Seq<char>) -> Seq<char>
    decreases s.len(),
{
    if s.len() > 0 && is_space(s[0]) {
        drop_leading(s.drop_first())
    } else {
        s
    }
}

/// `s` with trailing whitespace removed.
pub open spec fn drop_trailing(s: Seq<char>) -> Seq<char>
    decreases s.len(),
{
    if s.len() > 0 && is_space(s[s.len() - 1]) {
        drop_trailing(s.drop_last())
    } else {
        s
    }
}

/// `s` with whitespace removed at both ends.
pub open spec fn trim_of(s: Seq<char>) -> Seq<char> {
    drop_trailing(drop_leading(s))
}

proof fn lemma_drop_leading_at(s: Seq<char>, i: int)
    requires
        0 <= i <= s.len(),
        forall|k: int| 0 <= k < i ==> is_space(s[k]),
        i == s.len() || !is_space(s[i]),
    ensures
        drop_leading(s) == s.subrange(i, s.len() as int),
    decreases i,
{
    if i == 0 {
        if s.len() > 0 && is_space(s[0]) {
            assert(false);
        }
        assert(s.subrange(0, s.len() as int) =~= s);
    } else {
        assert(is_space(s[0]));
        let t = s.drop_first();
        lemma_drop_leading_at(t, i - 1);
        assert(t.subrange(i - 1, t.len() as int) =~= s.subrange(i, s.len() as int));
    }
}

proof fn lemma_drop_trailing_at(s: Seq<char>, j: int)
    requires
        0 <= j <= s.len(),
        forall|k: int| j <= k < s.len() ==> is_space(s[k]),
        j == 0 || !is_space(s[j - 1]),
    ensures
        drop_trailing(s) == s.subrange(0, j),
    decreases s.len(),
{
    if j == s.len() {
        if s.len() > 0 && is_space(s[s.len() - 1]) {
            assert(false);
        }
        assert(s.subrange(0, s.len() as int) =~= s);
    } else {
        assert(is_space(s[s.len() - 1]));
        let t = s.drop_last();
        lemma_drop_trailing_at(t, j);
        assert(t.subrange(0, j) =~= s.subrange(0, j));
    }
}

/// Whitespace test on one character.
fn is_space_exec(c: char) -> (r: bool)
    ensures
        r == is_space(c),
{
    c == ' ' || c == '\t' || c == '\n' || c == '\r'
}

/// The position of the first non-whitespace character.
fn first_non_space(s: &str) -> (i: usize)
    ensures
        i <= s@.len(),
        forall|k: int| 0 <= k < i ==> is_space(s@[k]),
        i == s@.len() || !is_space(s@[i as int]),
{
    let len = s.unicode_len();
    let mut i: usize = 0;
    while i < len
        invariant
            i <= len,
            len == s@.len(),
            forall|k: int| 0 <= k < i ==> is_space(s@[k]),
        decreases len - i,
    {
        if !is_space_exec(s.get_char(i)) {
            return i;
        }
        i = i + 1;
    }
    i
}

/// The position after the last non-whitespace character at or after `lo`.
fn last_non_space(s: &str, lo: usize) -> (j: usize)
    requires
        lo <= s@.len(),
    ensures
        lo <= j <= s@.len(),
        forall|k: int| j <= k < s@.len() ==> is_space(s@[k]),
        j == lo || !is_space(s@[j - 1]),
{
    let len = s.unicode_len();
    let mut j: usize = len;
    while j > lo
        invariant
            lo <= j <= len,
            len == s@.len(),
            forall|k: int| j <= k < len ==> is_space(s@[k]),
        decreases j,
    {
        if !is_space_exec(s.get_char(j - 1)) {
            return j;
        }
        j = j - 1;
    }
    j
}

/// Remove whitespace at both ends of a string.
pub fn trim(s: &str) -> (r: String)
    ensures
        r@ == trim_of(s@),
{
    let len = s.unicode_len();
    let i = first_non_space(s);
    let j = last_non_space(s, i);
    proof {
        lemma_drop_leading_at(s@, i as int);
        let t = s@.subrange(i as int, len as int);
        if j == i {
            lemma_drop_trailing_at(t, 0);
        } else {
            lemma_drop_trailing_at(t, j - i);
        }
        assert(t.subrange(0, j - i) =~= s@.subrange(i as int, j as int));
    }
    let piece = s.substring_char(i, j);
    String::from_str(piece)
}

/// `pat` occurs in `s` starting at position `i`.
pub open spec fn occurs_at(s: Seq<char>, pat: Seq<char>, i: int) -> bool {
    0 <= i && i + pat.len() <= s.len() && s.subrange(i, i + pat.len()) == pat
}

/// `pat` occurs somewhere in `s`.
pub open spec fn contains_seq(s: Seq<char>, pat: Seq<char>) -> bool {
    exists|i: int| occurs_at(s, pat, i)
}

/// Does `pat` occur in `s` at position `i` exactly?
fn match_at(s: &str, pat: &str, i: usize) -> (r: bool)
    requires
        i + pat@.len() <= s@.len(),
        s@.len() <= usize::MAX,
    ensures
        r == occurs_at(s@, pat@, i as int),
{
    let plen = pat.unicode_len();
    let mut k: usize = 0;
    while k < plen
        invariant
            k <= plen,
            plen == pat@.len(),
            i + plen <= s@.len(),
            s@.len() <= usize::MAX,
            forall|t: int| 0 <= t < k ==> s@[i + t] == pat@[t],
        decreases plen - k,
    {
        if s.get_char(i + k) != pat.get_char(k) {
            assert(!occurs_at(s@, pat@, i as int)) by {
                if occurs_at(s@, pat@, i as int) {
                    assert(s@.subrange(i as int, i + pat@.len())[k as int] == pat@[k as int]);
                }
            }
            return false;
        }
        k = k + 1;
    }
    assert(occurs_at(s@, pat@, i as int)) by {
        assert(s@.subrange(i as int, i + pat@.len()) =~= pat@);
    }
    true
}

/// Substring search.
pub fn contains_sub(s: &str, pat: &str) -> (r: bool)
    ensures
        r == contains_seq(s@, pat@),
{
    let slen = s.unicode_len();
    let plen = pat.unicode_len();
    if plen > slen {
        assert(!contains_seq(s@, pat@)) by {
            assert(forall|i: int| !occurs_at(s@, pat@, i));
        }
        return false;
    }
    if plen == 0 {
        assert(occurs_at(s@, pat@, 0)) by {
            assert(s@.subrange(0, 0) =~= pat@);
        }
        return true;
    }
    let mut i: usize = 0;
    while i <= slen - plen
        invariant
            slen == s@.len(),
            plen == pat@.len(),
            0 < plen <= slen,
            i <= slen - plen + 1,
            forall|k: int| 0 <= k < i ==> !occurs_at(s@, pat@, k),
        decreases slen - plen + 1 - i,
    {
        if match_at(s, pat, i) {
            return true;
        }
        i = i + 1;
    }
    assert(forall|k: int| !occurs_at(s@, pat@, k));
    false
}

/// The lower-case form of a letter; other characters map to themselves.
/// Covers ASCII letters and the Swedish letters in attribute text.
pub open spec fn lower_char(c: char) -> char {
    if 'A' <= c <= 'Z' {
        ((c as u32) + 32) as char
    } else if c == '\u{c5}' {  // upper a-ring
        '\u{e5}'
    } else if c == '\u{c4}' {  // upper a-umlaut
        '\u{e4}'
    } else if c == '\u{d6}' {  // upper o-umlaut
        '\u{f6}'
    } else {
        c
    }
}

/// Executable lower-casing of one character.
fn lower_char_exec(c: char) -> (r: char)
    ensures
        r == lower_char(c),
{
    let u = c as u32;
    if 65 <= u && u <= 90 {
        return ((u + 32) as u8) as char;
    }
    if c == '\u{c5}' {
        return '\u{e5}';
    }
    if c == '\u{c4}' {
        return '\u{e4}';
    }
    if c == '\u{d6}' {
        return '\u{f6}';
    }
    c
}

/// `s` lower-cased character by character.
pub open spec fn lower_of(s: Seq<char>) -> Seq<char> {
    s.map_values(|c: char| lower_char(c))
}

/// Case-insensitive equality.
pub fn eq_ignore_case(a: &str, b: &str) -> (r: bool)
    ensures
        r == (lower_of(a@) == lower_of(b@)),
{
    let alen = a.unicode_len();
    let blen = b.unicode_len();
    if alen != blen {
        assert(lower_of(a@).len() != lower_of(b@).len());
        return false;
    }
    let mut i: usize = 0;
    while i < alen
        invariant
            i <= alen,
            alen == a@.len() == b@.len(),
            forall|k: int| 0 <= k < i ==> lower_char(a@[k]) == lower_char(b@[k]),
        decreases alen - i,
    {
        if lower_char_exec(a.get_char(i)) != lower_char_exec(b.get_char(i)) {
            assert(lower_of(a@)[i as int] != lower_of(b@)[i as int]);
            return false;
        }
        i = i + 1;
    }
    proof {
        assert(lower_of(a@) =~= lower_of(b@));
    }
    true
}

/// Substring search on the lower-cased text: `pat` is expected already
/// lower case.
pub fn contains_sub_lower(s: &str, pat: &str) -> (r: bool)
    ensures
        r == contains_seq(lower_of(s@), pat@),
{
    let slen = s.unicode_len();
    let plen = pat.unicode_len();
    proof {
        assert(lower_of(s@).len() == s@.len());
    }
    if plen > slen {
        assert(forall|i: int| !occurs_at(lower_of(s@), pat@, i));
        return false;
    }
    if plen == 0 {
        assert(occurs_at(lower_of(s@), pat@, 0)) by {
            assert(lower_of(s@).subrange(0, 0) =~= pat@);
        }
        return true;
    }
    let mut i: usize = 0;
    while i <= slen - plen
        invariant
            slen == s@.len() == lower_of(s@).len(),
            plen == pat@.len(),
            0 < plen <= slen,
            i <= slen - plen + 1,
            forall|k: int| 0 <= k < i ==> !occurs_at(lower_of(s@), pat@, k),
        decreases slen - plen + 1 - i,
    {
        if match_at_lower(s, pat, i) {
            return true;
        }
        i = i + 1;
    }
    assert(forall|k: int| !occurs_at(lower_of(s@), pat@, k));
    false
}

/// Does `pat` occur in the lower-cased `s` at position `i` exactly?
fn match_at_lower(s: &str, pat: &str, i: usize) -> (r: bool)
    requires
        i + pat@.len() <= s@.len(),
        s@.len() <= usize::MAX,
    ensures
        r == occurs_at(lower_of(s@), pat@, i as int),
{
    let plen = pat.unicode_len();
    proof {
        assert(lower_of(s@).len() == s@.len());
    }
    let mut k: usize = 0;
    while k < plen
        invariant
            k <= plen,
            plen == pat@.len(),
            i + plen <= s@.len() == lower_of(s@).len(),
            s@.len() <= usize::MAX,
            forall|t: int| 0 <= t < k ==> lower_of(s@)[i + t] == pat@[t],
        decreases plen - k,
    {
        if lower_char_exec(s.get_char(i + k)) != pat.get_char(k) {
            assert(lower_of(s@)[i + k] != pat@[k as int]);
            assert(!occurs_at(lower_of(s@), pat@, i as int)) by {
                if occurs_at(lower_of(s@), pat@, i as int) {
                    assert(lower_of(s@).subrange(i as int, i + pat@.len())[k as int]
                        == pat@[k as int]);
                }
            }
            return false;
        }
        k = k + 1;
    }
    assert(occurs_at(lower_of(s@), pat@, i as int)) by {
        assert(lower_of(s@).subrange(i as int, i + pat@.len()) =~= pat@);
    }
    true
}

/// The decimal digit character for `d`.
pub open spec fn digit_char(d: int) -> char {
    if d == 0 {
        '0'
    } else if d == 1 {
        '1'
    } else if d == 2 {
        '2'
    } else if d == 3 {
        '3'
    } else if d == 4 {
        '4'
    } else if d == 5 {
        '5'
    } else if d == 6 {
        '6'
    } else if d == 7 {
        '7'
    } else if d == 8 {
        '8'
    } else {
        '9'
    }
}

/// Decimal rendering of a nonnegative integer.
pub open spec fn dec_str_u(n: nat) -> Seq<char>
    decreases n,
{
    if n < 10 {
        seq![digit_char(n as int)]
    } else {
        dec_str_u(n / 10) + seq![digit_char((n % 10) as int)]
    }
}

/// Decimal rendering of an integer, with a leading minus sign when negative.
pub open spec fn dec_str_i(n: int) -> Seq<char> {
    if n < 0 {
        seq!['-'] + dec_str_u((-n) as nat)
    } else {
        dec_str_u(n as nat)
    }
}

/// One decimal digit as a string slice.
fn digit_str(d: u64) -> (r: &'static str)
    requires
        d < 10,
    ensures
        r@ == seq![digit_char(d as int)],
{
    proof {
        reveal_strlit("0");
        reveal_strlit("1");
        reveal_strlit("2");
        reveal_strlit("3");
        reveal_strlit("4");
        reveal_strlit("5");
        reveal_strlit("6");
        reveal_strlit("7");
        reveal_strlit("8");
        reveal_strlit("9");
    }
    let r: &'static str = if d == 0 {
        "0"
    } else if d == 1 {
        "1"
    } else if d == 2 {
        "2"
    } else if d == 3 {
        "3"
    } else if d == 4 {
        "4"
    } else if d == 5 {
        "5"
    } else if d == 6 {
        "6"
    } else if d == 7 {
        "7"
    } else if d == 8 {
        "8"
    } else {
        "9"
    };
    proof {
        assert(r@ =~= seq![digit_char(d as int)]);
    }
    r
}

/// Decimal rendering of a `u64`.
pub fn u64_to_string(n: u64) -> (r: String)
    ensures
        r@ == dec_str_u(n as nat),
    decreases n,
{
    if n < 10 {
        String::from_str(digit_str(n))
    } else {
        let mut s = u64_to_string(n / 10);
        s.append(digit_str(n % 10));
        s
    }
}

/// Decimal rendering of an `i64`.
pub fn i64_to_string(n: i64) -> (r: String)
    ensures
        r@ == dec_str_i(n as int),
{
    if n < 0 {
        let mag: u64 = ((-(n + 1)) as u64) + 1;
        assert(mag == -(n as int));
        let mut s = String::from_str("-");
        proof {
            reveal_strlit("-");
            assert(s@ =~= seq!['-']);
        }
        let d = u64_to_string(mag);
        s.append(d.as_str());
        s
    } else {
        u64_to_string(n as u64)
    }
}

/// Rendering of a quantity held in tenths: `force_decimal` always shows one
/// decimal place (the way a measure tag is written); otherwise a whole
/// quantity is written without a decimal point.
pub open spec fn tenths_str(t: int, force_decimal: bool) -> Seq<char> {
    let mag = if t < 0 {
        -t
    } else {
        t
    };
    let sign: Seq<char> = if t < 0 {
        seq!['-']
    } else {
        Seq::empty()
    };
    if !force_decimal && mag % 10 == 0 {
        sign + dec_str_u((mag / 10) as nat)
    } else {
        sign + dec_str_u((mag / 10) as nat) + seq!['.'] + seq![digit_char(mag % 10)]
    }
}

/// Render a quantity held in tenths.
pub fn tenths_to_string(t: i64, force_decimal: bool) -> (r: String)
    ensures
        r@ == tenths_str(t as int, force_decimal),
{
    let mag: u64 = if t < 0 {
        ((-(t + 1)) as u64) + 1
    } else {
        t as u64
    };
    assert(mag == if t < 0 {
        -(t as int)
    } else {
        t as int
    });
    let mut s = if t < 0 {
        let s0 = String::from_str("-");
        proof {
            reveal_strlit("-");
            assert(s0@ =~= seq!['-']);
        }
        s0
    } else {
        let s0 = String::new();
        proof {
            assert(s0@ =~= Seq::<char>::empty());
        }
        s0
    };
    let whole = u64_to_string(mag / 10);
    s.append(whole.as_str());
    if !force_decimal && mag % 10 == 0 {
        s
    } else {
        s.append(".");
        proof {
            reveal_strlit(".");
            assert("."@ =~= seq!['.']);
        }
        s.append(digit_str(mag % 10));
        s
    }
}

} // verus!
