//! Small verified text utilities: equality and prefix tests on `&str`,
//! digit parsing for the settings table, and decimal rendering for
//! composed messages.

use vstd::prelude::*;
use vstd::string::StrSliceExecFns;

verus! {

/// Appends one character to a string; what `String::push` does.
pub assume_specification[ String::push ](s: &mut String, c: char)
    ensures
        final(s)@ == old(s)@.push(c),
;

/// Character-for-character string equality.
pub fn str_eq(a: &str, b: &str) -> (r: bool)
    ensures
        r == (a@ == b@),
{
    let an = a.unicode_len();
    let bn = b.unicode_len();
    if an != bn {
        return false;
    }
    let mut i: usize = 0;
    while i < an
        invariant
            an == a@.len(),
            an == b@.len(),
            i <= an,
            forall|j: int| 0 <= j < i ==> a@[j] == b@[j],
        decreases an - i,
    {
        if a.get_char(i) != b.get_char(i) {
            return false;
        }
        i += 1;
    }
    proof {
        assert(a@ =~= b@);
    }
    true
}

/// Whether `p` is a prefix of `s`.
pub open spec fn has_prefix(s: Seq<char>, p: Seq<char>) -> bool {
    p.len() <= s.len() && s.subrange(0, p.len() as int) == p
}

/// Whether `a` starts with `prefix`.
pub fn str_starts_with(a: &str, prefix: &str) -> (r: bool)
    ensures
        r == has_prefix(a@, prefix@),
{
    let an = a.unicode_len();
    let pn = prefix.unicode_len();
    if pn > an {
        return false;
    }
    let mut i: usize = 0;
    while i < pn
        invariant
            an == a@.len(),
            pn == prefix@.len(),
            pn <= an,
            i <= pn,
            forall|j: int| 0 <= j < i ==> a@[j] == prefix@[j],
        decreases pn - i,
    {
        if a.get_char(i) != prefix.get_char(i) {
            proof {
                assert(a@.subrange(0, pn as int)[i as int] != prefix@[i as int]);
            }
            return false;
        }
        i += 1;
    }
    proof {
        assert(a@.subrange(0, pn as int) =~= prefix@);
    }
    true
}

/// Whether the string contains the character.
pub fn str_contains_char(a: &str, c: char) -> (r: bool)
    ensures
        r == a@.contains(c),
{
    let an = a.unicode_len();
    let mut i: usize = 0;
    while i < an
        invariant
            an == a@.len(),
            i <= an,
            forall|j: int| 0 <= j < i ==> a@[j] != c,
        decreases an - i,
    {
        if a.get_char(i) == c {
            return true;
        }
        i += 1;
    }
    proof {
        assert(forall|j: int| 0 <= j < a@.len() ==> a@[j] != c);
    }
    false
}

/// Whether `needle` occurs in `hay` at offset `k`.
pub open spec fn occurs_at(hay: Seq<char>, needle: Seq<char>, k: int) -> bool {
    0 <= k && k + needle.len() <= hay.len() && hay.subrange(k, k + needle.len()) == needle
}

pub open spec fn contains_sub(hay: Seq<char>, needle: Seq<char>) -> bool {
    exists|k: int| occurs_at(hay, needle, k)
}

/// Whether `needle` occurs anywhere in `hay`.
pub fn str_contains_sub(hay: &str, needle: &str) -> (r: bool)
    ensures
        r == contains_sub(hay@, needle@),
{
    let hn = hay.unicode_len();
    let nn = needle.unicode_len();
    if nn == 0 {
        proof {
            assert(hay@.subrange(0, 0) =~= needle@);
            assert(occurs_at(hay@, needle@, 0));
        }
        return true;
    }
    if nn > hn {
        proof {
            if contains_sub(hay@, needle@) {
                let k = choose|k: int| occurs_at(hay@, needle@, k);
                assert(occurs_at(hay@, needle@, k));
            }
        }
        return false;
    }
    let mut k: usize = 0;
    while k <= hn - nn
        invariant
            hn == hay@.len(),
            nn == needle@.len(),
            0 < nn <= hn,
            k <= hn - nn + 1,
            forall|j: int| 0 <= j < k ==> !occurs_at(hay@, needle@, j),
        decreases hn - k,
    {
        let mut m: usize = 0;
        let mut matches_here = true;
        while m < nn
            invariant
                hn == hay@.len(),
                nn == needle@.len(),
                k + nn <= hn,
                m <= nn,
                matches_here ==> forall|j: int| 0 <= j < m ==> hay@[k + j] == needle@[j],
                !matches_here ==> !occurs_at(hay@, needle@, k as int),
            decreases nn - m,
        {
            if hay.get_char(k + m) != needle.get_char(m) {
                proof {
                    if occurs_at(hay@, needle@, k as int) {
                        assert(hay@.subrange(k as int, k + nn as int)[m as int] == needle@[
                            m as int
                        ]);
                    }
                }
                matches_here = false;
            }
            m += 1;
        }
        if matches_here {
            proof {
                assert(hay@.subrange(k as int, k + nn as int) =~= needle@);
                assert(occurs_at(hay@, needle@, k as int));
            }
            return true;
        }
        k += 1;
    }
    proof {
        if contains_sub(hay@, needle@) {
            let j = choose|j: int| occurs_at(hay@, needle@, j);
            assert(occurs_at(hay@, needle@, j));
            assert(j <= hn - nn);
        }
    }
    false
}

pub open spec fn is_dec_digit(c: char) -> bool {
    '0' <= c && c <= '9'
}

pub open spec fn digit_value(c: char) -> int {
    c as int - '0' as int
}

/// The number a sequence of decimal digits denotes.
pub open spec fn digits_value(s: Seq<char>) -> int
    decreases s.len(),
{
    if s.len() == 0 {
        0
    } else {
        digits_value(s.drop_last()) * 10 + digit_value(s.last())
    }
}

/// A non-empty, all-digit string.
pub open spec fn all_digits(s: Seq<char>) -> bool {
    s.len() > 0 && forall|i: int| 0 <= i < s.len() ==> is_dec_digit(#[trigger] s[i])
}

/// What this library accepts as a written non-negative number no larger
/// than `max`: all digits, value in range.
pub open spec fn parses_to(s: Seq<char>, max: int) -> Option<int> {
    if all_digits(s) && digits_value(s) <= max {
        Some(digits_value(s))
    } else {
        None
    }
}

proof fn lemma_digits_value_bounds(s: Seq<char>)
    requires
        forall|i: int| 0 <= i < s.len() ==> is_dec_digit(#[trigger] s[i]),
    ensures
        0 <= digits_value(s),
    decreases s.len(),
{
    if s.len() > 0 {
        lemma_digits_value_bounds(s.drop_last());
    }
}

/// Parses a non-negative decimal number from `s`, bounded by `max`.
/// Returns `None` on an empty string, a non-digit, or a value above `max`.
pub fn parse_bounded_number(s: &str, max: u32) -> (r: Option<u32>)
    ensures
        match r {
            Some(v) => parses_to(s@, max as int) == Some(v as int),
            None => parses_to(s@, max as int) is None,
        },
{
    let n = s.unicode_len();
    if n == 0 {
        return None;
    }
    let mut i: usize = 0;
    while i < n
        invariant
            n == s@.len(),
            i <= n,
            forall|j: int| 0 <= j < i ==> is_dec_digit(#[trigger] s@[j]),
        decreases n - i,
    {
        let c = s.get_char(i);
        if c < '0' || c > '9' {
            proof {
                assert(!is_dec_digit(s@[i as int]));
            }
            return None;
        }
        i += 1;
    }
    let mut acc: u64 = 0;
    let mut k: usize = 0;
    while k < n
        invariant
            n == s@.len(),
            0 < n,
            k <= n,
            all_digits(s@),
            acc == digits_value(s@.subrange(0, k as int)),
            acc <= max,
            max <= u32::MAX,
        decreases n - k,
    {
        let c = s.get_char(k);
        proof {
            assert(is_dec_digit(s@[k as int]));
        }
        let d: u32 = (c as u32) - ('0' as u32);
        let next: u64 = acc * 10 + d as u64;
        proof {
            assert(s@.subrange(0, k as int + 1).drop_last() =~= s@.subrange(0, k as int));
            assert(s@.subrange(0, k as int + 1).last() == s@[k as int]);
            assert(digit_value(s@[k as int]) == d as int);
        }
        if next > max as u64 {
            proof {
                lemma_digits_monotone(s@, k as int + 1);
            }
            return None;
        }
        acc = next;
        k += 1;
    }
    proof {
        assert(s@.subrange(0, n as int) =~= s@);
    }
    Some(acc as u32)
}

/// A digit prefix never denotes more than the whole digit string:
/// appending digits multiplies by ten and adds a non-negative digit.
proof fn lemma_digits_monotone(s: Seq<char>, k: int)
    requires
        0 < k <= s.len(),
        forall|i: int| 0 <= i < s.len() ==> is_dec_digit(#[trigger] s[i]),
    ensures
        digits_value(s.subrange(0, k)) <= digits_value(s),
    decreases s.len() - k,
{
    if k == s.len() {
        assert(s.subrange(0, k) =~= s);
    } else {
        lemma_digits_monotone(s, k + 1);
        let p = s.subrange(0, k + 1);
        assert(p.drop_last() =~= s.subrange(0, k));
        lemma_digits_value_bounds(s.subrange(0, k));
        assert(digits_value(s.subrange(0, k)) <= digits_value(p));
    }
}

/// The parts of `s` between occurrences of `sep`: always one more part
/// than separators, in order, separators dropped.
pub open spec fn split_char(s: Seq<char>, sep: char) -> Seq<Seq<char>>
    decreases s.len(),
{
    if s.len() == 0 {
        seq![Seq::<char>::empty()]
    } else if s.last() == sep {
        split_char(s.drop_last(), sep).push(Seq::<char>::empty())
    } else {
        let p = split_char(s.drop_last(), sep);
        p.update(p.len() - 1, p.last().push(s.last()))
    }
}

/// The parts joined back with `sep` between them.
pub open spec fn join_char(parts: Seq<Seq<char>>, sep: char) -> Seq<char>
    decreases parts.len(),
{
    if parts.len() == 0 {
        Seq::empty()
    } else if parts.len() == 1 {
        parts[0]
    } else {
        join_char(parts.drop_last(), sep).push(sep) + parts.last()
    }
}

/// The parts joined with the separator string between them.
pub open spec fn join_with(parts: Seq<Seq<char>>, sep: Seq<char>) -> Seq<char>
    decreases parts.len(),
{
    if parts.len() == 0 {
        Seq::empty()
    } else if parts.len() == 1 {
        parts[0]
    } else {
        join_with(parts.drop_last(), sep) + sep + parts.last()
    }
}

/// Joins strings with a separator between them.
pub fn join_strings(parts: &Vec<String>, sep: &str) -> (r: String)
    ensures
        r@ == join_with(parts@.map_values(|p: String| p@), sep@),
{
    let ghost views = parts@.map_values(|p: String| p@);
    let n = parts.len();
    let mut out = String::new();
    let mut i: usize = 0;
    proof {
        assert(views.subrange(0, 0) =~= Seq::<Seq<char>>::empty());
        assert(out@ =~= join_with(views.subrange(0, 0), sep@));
    }
    while i < n
        invariant
            views == parts@.map_values(|p: String| p@),
            n == views.len(),
            n == parts@.len(),
            i <= n,
            out@ == join_with(views.subrange(0, i as int), sep@),
        decreases n - i,
    {
        let ghost pre = views.subrange(0, i as int);
        let ghost ext = views.subrange(0, i as int + 1);
        proof {
            assert(ext.drop_last() =~= pre);
            assert(ext.last() == views[i as int]);
        }
        if i > 0 {
            out.append(sep);
        }
        out.append(parts[i].as_str());
        proof {
            if i == 0 {
                assert(ext.len() == 1);
                assert(out@ =~= join_with(ext, sep@));
            } else {
                assert(out@ =~= join_with(pre, sep@) + sep@ + views[i as int]);
            }
        }
        i += 1;
    }
    proof {
        assert(views.subrange(0, n as int) =~= views);
    }
    out
}

/// `s` without its trailing run of `sep` characters.
pub open spec fn trim_end_char(s: Seq<char>, sep: char) -> Seq<char>
    decreases s.len(),
{
    if s.len() > 0 && s.last() == sep {
        trim_end_char(s.drop_last(), sep)
    } else {
        s
    }
}

/// The trimmed string is the prefix that ends right before the trailing
/// run of separators.
pub proof fn lemma_trim_end_char_is_prefix(s: Seq<char>, sep: char, t: int)
    requires
        0 <= t <= s.len(),
        forall|j: int| t <= j < s.len() ==> s[j] == sep,
        t > 0 ==> s[t - 1] != sep,
    ensures
        trim_end_char(s, sep) == s.subrange(0, t),
    decreases s.len(),
{
    if s.len() == t {
        assert(s.subrange(0, t) =~= s);
    } else {
        assert(s.last() == sep);
        lemma_trim_end_char_is_prefix(s.drop_last(), sep, t);
        assert(s.drop_last().subrange(0, t) =~= s.subrange(0, t));
    }
}

/// Splits a string at every occurrence of `sep`.
pub fn split_on_char(s: &str, sep: char) -> (r: Vec<String>)
    ensures
        r@.map_values(|p: String| p@) == split_char(s@, sep),
        r@.len() >= 1,
{
    let n = s.unicode_len();
    let mut parts: Vec<String> = Vec::new();
    let mut cur = String::new();
    let mut i: usize = 0;
    proof {
        assert(s@.subrange(0, 0) =~= Seq::<char>::empty());
        assert(parts@.map_values(|p: String| p@).push(cur@) =~= split_char(
            s@.subrange(0, 0),
            sep,
        ));
    }
    while i < n
        invariant
            n == s@.len(),
            i <= n,
            parts@.map_values(|p: String| p@).push(cur@) == split_char(s@.subrange(0, i as int), sep),
        decreases n - i,
    {
        let ghost prefix = s@.subrange(0, i as int);
        let ghost old_parts = parts@;
        let ghost old_cur = cur@;
        proof {
            assert(s@.subrange(0, i as int + 1).drop_last() =~= prefix);
            assert(s@.subrange(0, i as int + 1).last() == s@[i as int]);
        }
        let c = s.get_char(i);
        if c == sep {
            parts.push(cur);
            cur = String::new();
            proof {
                assert(parts@.map_values(|p: String| p@) =~= old_parts.map_values(
                    |p: String| p@,
                ).push(old_cur));
                assert(parts@.map_values(|p: String| p@).push(cur@) =~= split_char(
                    s@.subrange(0, i as int + 1),
                    sep,
                ));
            }
        } else {
            cur.push(c);
            proof {
                let lhs = parts@.map_values(|p: String| p@).push(cur@);
                let pre = old_parts.map_values(|p: String| p@).push(old_cur);
                assert(lhs =~= pre.update(pre.len() - 1, pre.last().push(s@[i as int])));
            }
        }
        i += 1;
    }
    proof {
        assert(s@.subrange(0, n as int) =~= s@);
    }
    let ghost done_parts = parts@;
    let ghost done_cur = cur@;
    parts.push(cur);
    proof {
        assert(parts@.map_values(|p: String| p@) =~= done_parts.map_values(|p: String| p@).push(
            done_cur,
        ));
    }
    parts
}

/// The decimal rendering of a non-negative number.
pub open spec fn dec_rep(n: int) -> Seq<char>
    decreases n,
{
    if n < 0 {
        Seq::empty()
    } else if n < 10 {
        seq![spec_digit_char(n)]
    } else {
        dec_rep(n / 10).push(spec_digit_char(n % 10))
    }
}

pub open spec fn spec_digit_char(d: int) -> char {
    if d == 0 {
        '0'
    } else if d == 1 {
        '1'
    } else if d == 2 {
        '2'
    } else if d == 3 {
        '3'
    } else if d == 4 {
        '4'
    } else if d == 5 {
        '5'
    } else if d == 6 {
        '6'
    } else if d == 7 {
        '7'
    } else if d == 8 {
        '8'
    } else {
        '9'
    }
}

fn digit_char(d: u64) -> (c: char)
    requires
        d < 10,
    ensures
        c == spec_digit_char(d as int),
{
    if d == 0 {
        '0'
    } else if d == 1 {
        '1'
    } else if d == 2 {
        '2'
    } else if d == 3 {
        '3'
    } else if d == 4 {
        '4'
    } else if d == 5 {
        '5'
    } else if d == 6 {
        '6'
    } else if d == 7 {
        '7'
    } else if d == 8 {
        '8'
    } else {
        '9'
    }
}

/// Renders a number in decimal.
pub fn dec_string(n: u64) -> (r: String)
    ensures
        r@ == dec_rep(n as int),
    decreases n,
{
    if n < 10 {
        let mut s = String::new();
        s.push(digit_char(n));
        proof {
            assert(s@ =~= dec_rep(n as int));
        }
        s
    } else {
        let mut s = dec_string(n / 10);
        s.push(digit_char(n % 10));
        s
    }
}

} // verus!
