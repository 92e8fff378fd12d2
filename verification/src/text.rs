//! Character-level helpers shared by the scanner and the formatting
//! functions: conversion between `&str` and `Vec<char>`, substring search,
//! and whitespace trimming.

use vstd::prelude::*;

verus! {

/// Whether the pattern `p` occurs in `t` starting at position `i`.
pub open spec fn match_at(t: Seq<char>, p: Seq<char>, i: int) -> bool {
    &&& 0 <= i
    &&& i + p.len() <= t.len()
    &&& t.subrange(i, i + p.len() as int) == p
}

/// The first position at or after `from` where `p` occurs in `t`,
/// or `None` when there is no such position.
pub open spec fn spec_find(t: Seq<char>, p: Seq<char>, from: int) -> Option<int>
    decreases t.len() - from + 1,
{
    if from < 0 || from + p.len() > t.len() {
        None
    } else if match_at(t, p, from) {
        Some(from)
    } else {
        spec_find(t, p, from + 1)
    }
}

/// The last position at or before `upto` where `p` occurs in `t`,
/// or `None` when there is no such position.
pub open spec fn spec_rfind_upto(t: Seq<char>, p: Seq<char>, upto: int) -> Option<int>
    decreases upto + 1,
{
    if upto < 0 {
        None
    } else if match_at(t, p, upto) {
        Some(upto)
    } else {
        spec_rfind_upto(t, p, upto - 1)
    }
}

/// The last position where `p` occurs in `t`, or `None`.
pub open spec fn spec_rfind(t: Seq<char>, p: Seq<char>) -> Option<int> {
    spec_rfind_upto(t, p, t.len() - p.len())
}

/// Whether `p` occurs anywhere in `t`.
pub open spec fn spec_contains(t: Seq<char>, p: Seq<char>) -> bool {
    spec_find(t, p, 0) is Some
}

/// The characters of `s`, in order.
pub fn chars_of(s: &str) -> (v: Vec<char>)
    ensures
        v@ == s@,
{
    let n = s.unicode_len();
    let mut v: Vec<char> = Vec::new();
    let mut i: usize = 0;
    while i < n
        invariant
            n == s@.len(),
            i <= n,
            v@ == s@.subrange(0, i as int),
        decreases n - i,
    {
        v.push(s.get_char(i));
        i = i + 1;
        proof {
            assert(v@ =~= s@.subrange(0, i as int));
        }
    }
    proof {
        assert(v@ =~= s@);
    }
    v
}

/// Relies on `String: FromIterator<&char>` from std: collecting the
/// characters of a vector yields the string with exactly those characters.
#[verifier::external_body]
pub fn string_from(v: &Vec<char>) -> (s: String)
    ensures
        s@ == v@,
{
    String::from_iter(v.iter())
}

/// The characters of `v` from `a` (inclusive) to `b` (exclusive).
pub fn subvec(v: &Vec<char>, a: usize, b: usize) -> (r: Vec<char>)
    requires
        a <= b <= v@.len(),
    ensures
        r@ == v@.subrange(a as int, b as int),
{
    let mut r: Vec<char> = Vec::new();
    let mut i: usize = a;
    while i < b
        invariant
            a <= i <= b <= v@.len(),
            r@ == v@.subrange(a as int, i as int),
        decreases b - i,
    {
        r.push(v[i]);
        i = i + 1;
        proof {
            assert(r@ =~= v@.subrange(a as int, i as int));
        }
    }
    r
}

/// The first position at or after `from` where `p` occurs in `t`, executably.
pub fn find_from(t: &Vec<char>, p: &Vec<char>, from: usize) -> (r: Option<usize>)
    ensures
        match r {
            Some(i) => from <= i && spec_find(t@, p@, from as int) == Some(i as int),
            None => spec_find(t@, p@, from as int) is None,
        },
{
    let n = t.len();
    let m = p.len();
    if from > n || m > n - from {
        proof {
            lemma_find_none_past_end(t@, p@, from as int);
        }
        return None;
    }
    if m == 0 {
        proof {
            assert(t@.subrange(from as int, from as int) =~= p@);
        }
        return Some(from);
    }
    let mut i: usize = from;
    while i <= n - m
        invariant
            from <= i,
            1 <= m <= n,
            i <= n - m + 1,
            n == t@.len(),
            m == p@.len(),
            spec_find(t@, p@, from as int) == spec_find(t@, p@, i as int),
        decreases n - i,
    {
        if matches_at(t, p, i) {
            return Some(i);
        }
        i = i + 1;
    }
    None
}

/// Whether `p` occurs in `t` at position `i`, executably.
pub fn matches_at(t: &Vec<char>, p: &Vec<char>, i: usize) -> (r: bool)
    requires
        i + p@.len() <= t@.len(),
    ensures
        r == match_at(t@, p@, i as int),
{
    let n = t.len();
    let m = p.len();
    let mut j: usize = 0;
    while j < m
        invariant
            j <= m,
            n == t@.len(),
            m == p@.len(),
            i + m <= n,
            forall|k: int| 0 <= k < j ==> t@[i + k] == p@[k],
        decreases m - j,
    {
        if t[i + j] != p[j] {
            proof {
                assert(t@.subrange(i as int, i + m as int)[j as int] != p@[j as int]);
            }
            return false;
        }
        j = j + 1;
    }
    proof {
        assert(t@.subrange(i as int, i + m as int) =~= p@);
    }
    true
}

/// Past the last possible start position, `spec_find` yields nothing.
proof fn lemma_find_none_past_end(t: Seq<char>, p: Seq<char>, from: int)
    requires
        from + p.len() > t.len() || from < 0,
    ensures
        spec_find(t, p, from) is None,
{
}

/// A found position is the first occurrence at or after `from`.
pub proof fn lemma_find_sound(t: Seq<char>, p: Seq<char>, from: int)
    requires
        spec_find(t, p, from) is Some,
    ensures
        from <= spec_find(t, p, from)->0,
        match_at(t, p, spec_find(t, p, from)->0),
        forall|j: int| from <= j < spec_find(t, p, from)->0 ==> !match_at(t, p, j),
    decreases t.len() - from + 1,
{
    if !(from < 0 || from + p.len() > t.len()) && !match_at(t, p, from) {
        lemma_find_sound(t, p, from + 1);
    }
}

/// Any occurrence at or after `from` means the search succeeds,
/// at that occurrence or earlier.
pub proof fn lemma_find_complete(t: Seq<char>, p: Seq<char>, from: int, i: int)
    requires
        0 <= from <= i,
        match_at(t, p, i),
    ensures
        spec_find(t, p, from) is Some,
        spec_find(t, p, from)->0 <= i,
    decreases i - from,
{
    if from < i && !match_at(t, p, from) {
        lemma_find_complete(t, p, from + 1, i);
    }
}

/// A found position is the last occurrence at or before `upto`.
pub proof fn lemma_rfind_sound(t: Seq<char>, p: Seq<char>, upto: int)
    requires
        spec_rfind_upto(t, p, upto) is Some,
    ensures
        spec_rfind_upto(t, p, upto)->0 <= upto,
        match_at(t, p, spec_rfind_upto(t, p, upto)->0),
        forall|j: int| spec_rfind_upto(t, p, upto)->0 < j <= upto ==> !match_at(t, p, j),
    decreases upto + 1,
{
    if upto >= 0 && !match_at(t, p, upto) {
        lemma_rfind_sound(t, p, upto - 1);
    }
}

/// Whether two string slices hold the same characters.
pub fn str_eq(a: &str, b: &str) -> (r: bool)
    ensures
        r == (a@ == b@),
{
    let va = chars_of(a);
    let vb = chars_of(b);
    let n = va.len();
    if n != vb.len() {
        return false;
    }
    let mut i: usize = 0;
    while i < n
        invariant
            i <= n,
            n == va@.len() == vb@.len(),
            va@ == a@,
            vb@ == b@,
            forall|k: int| 0 <= k < i ==> va@[k] == vb@[k],
        decreases n - i,
    {
        if va[i] != vb[i] {
            proof {
                assert(a@[i as int] != b@[i as int]);
            }
            return false;
        }
        i = i + 1;
    }
    proof {
        assert(a@ =~= b@);
    }
    true
}

/// The whitespace characters that trimming strips.
pub open spec fn is_space(c: char) -> bool {
    c == ' ' || c == '\t' || c == '\n' || c == '\r'
}

/// Whether `c` is trimmed whitespace, executably.
pub fn is_space_char(c: char) -> (r: bool)
    ensures
        r == is_space(c),
{
    c == ' ' || c == '\t' || c == '\n' || c == '\r'
}

/// `s` without its leading whitespace.
pub open spec fn spec_trim_front(s: Seq<char>) -> Seq<char>
    decreases s.len(),
{
    if s.len() > 0 && is_space(s[0]) {
        spec_trim_front(s.drop_first())
    } else {
        s
    }
}

/// `s` without its trailing whitespace.
pub open spec fn spec_trim_back(s: Seq<char>) -> Seq<char>
    decreases s.len(),
{
    if s.len() > 0 && is_space(s.last()) {
        spec_trim_back(s.drop_last())
    } else {
        s
    }
}

/// `s` without leading and trailing whitespace.
pub open spec fn spec_trim(s: Seq<char>) -> Seq<char> {
    spec_trim_back(spec_trim_front(s))
}

/// Trims leading and trailing whitespace from a character vector.
pub fn trim_chars(v: &Vec<char>) -> (r: Vec<char>)
    ensures
        r@ == spec_trim(v@),
{
    let n = v.len();
    let mut a: usize = 0;
    proof {
        assert(v@.skip(0) =~= v@);
    }
    while a < n && is_space_char(v[a])
        invariant
            a <= n,
            n == v@.len(),
            spec_trim_front(v@) == spec_trim_front(v@.skip(a as int)),
        decreases n - a,
    {
        proof {
            assert(v@.skip(a as int).drop_first() =~= v@.skip(a as int + 1));
        }
        a = a + 1;
    }
    proof {
        assert(spec_trim_front(v@) =~= v@.skip(a as int));
    }
    let mut b: usize = n;
    proof {
        assert(v@.skip(a as int) =~= v@.subrange(a as int, b as int));
    }
    while b > a && is_space_char(v[b - 1])
        invariant
            a <= b <= n,
            n == v@.len(),
            spec_trim_back(v@.skip(a as int)) == spec_trim_back(v@.subrange(a as int, b as int)),
        decreases b,
    {
        proof {
            assert(v@.subrange(a as int, b as int).drop_last() =~= v@.subrange(
                a as int,
                b as int - 1,
            ));
        }
        b = b - 1;
    }
    proof {
        assert(spec_trim_back(v@.subrange(a as int, b as int)) =~= v@.subrange(a as int, b as int));
    }
    subvec(v, a, b)
}

/// Whether `s` begins with `prefix`.
pub open spec fn spec_starts_with(s: Seq<char>, prefix: Seq<char>) -> bool {
    match_at(s, prefix, 0)
}

/// Whether `s` ends with `suffix`.
pub open spec fn spec_ends_with(s: Seq<char>, suffix: Seq<char>) -> bool {
    match_at(s, suffix, s.len() - suffix.len())
}

/// Whether the string slice begins with the prefix, executably.
pub fn str_starts_with(s: &str, prefix: &str) -> (r: bool)
    ensures
        r == spec_starts_with(s@, prefix@),
{
    let v = chars_of(s);
    let p = chars_of(prefix);
    if p.len() > v.len() {
        return false;
    }
    matches_at(&v, &p, 0)
}

/// Whether the string slice ends with the suffix, executably.
pub fn str_ends_with(s: &str, suffix: &str) -> (r: bool)
    ensures
        r == spec_ends_with(s@, suffix@),
{
    let v = chars_of(s);
    let p = chars_of(suffix);
    if p.len() > v.len() {
        return false;
    }
    matches_at(&v, &p, v.len() - p.len())
}

/// What `str::to_lowercase` yields: the Unicode lowercase form of the text,
/// a function of the characters alone.
pub uninterp spec fn lower_of(s: Seq<char>) -> Seq<char>;

/// Relies on `str::to_lowercase` from std: the result depends on the
/// characters alone.
#[verifier::external_body]
pub fn lowercase(s: &str) -> (r: String)
    ensures
        r@ == lower_of(s@),
{
    s.to_lowercase()
}

/// What the first character of a string's upper-cased form is: the first
/// character that `char::to_uppercase` yields, or the character itself when
/// the iterator is empty.  A function of the character alone.
pub uninterp spec fn upper_first_of(c: char) -> char;

/// Relies on `char::to_uppercase` from std: the Unicode uppercase mapping
/// depends on the character alone.
#[verifier::external_body]
pub fn uppercase_char(c: char) -> (r: char)
    ensures
        r == upper_first_of(c),
{
    c.to_uppercase().next().unwrap_or(c)
}

/// Searching from an offset into `t` is searching the suffix: positions at
/// or after `a` correspond one to one to positions in `t.skip(a)`.
pub proof fn lemma_find_shift(t: Seq<char>, p: Seq<char>, a: int, k: int)
    requires
        0 <= a <= t.len(),
        0 <= k,
    ensures
        spec_find(t, p, a + k) == match spec_find(t.skip(a), p, k) {
            Some(i) => Some(i + a),
            None => None::<int>,
        },
    decreases t.len() - a - k + 1,
{
    let s = t.skip(a);
    if k + p.len() > s.len() {
    } else {
        assert(t.subrange(a + k, a + k + p.len()) =~= s.subrange(k, k + p.len()));
        assert(match_at(t, p, a + k) == match_at(s, p, k));
        if !match_at(s, p, k) {
            lemma_find_shift(t, p, a, k + 1);
        }
    }
}

/// Whether two character vectors hold the same characters.
pub fn vec_eq(a: &Vec<char>, b: &Vec<char>) -> (r: bool)
    ensures
        r == (a@ == b@),
{
    let n = a.len();
    if n != b.len() {
        return false;
    }
    let mut i: usize = 0;
    while i < n
        invariant
            i <= n,
            n == a@.len() == b@.len(),
            forall|k: int| 0 <= k < i ==> a@[k] == b@[k],
        decreases n - i,
    {
        if a[i] != b[i] {
            return false;
        }
        i = i + 1;
    }
    proof {
        assert(a@ =~= b@);
    }
    true
}

/// The views of a list of character vectors.
pub open spec fn vecs_of(v: Seq<Vec<char>>) -> Seq<Seq<char>> {
    v.map_values(|x: Vec<char>| x@)
}

/// The views of a list of strings.
pub open spec fn strs_of(v: Seq<String>) -> Seq<Seq<char>> {
    v.map_values(|s: String| s@)
}

/// The pieces of `s` between occurrences of the separator, in order: what
/// splitting on the separator yields, one piece more than there are
/// occurrences.  An empty separator yields the text whole.
pub open spec fn spec_split(s: Seq<char>, sep: Seq<char>) -> Seq<Seq<char>>
    decreases s.len(),
    via spec_split_decreases
{
    if sep.len() == 0 {
        seq![s]
    } else {
        match spec_find(s, sep, 0) {
            None => seq![s],
            Some(i) => seq![s.take(i)] + spec_split(s.skip(i + sep.len()), sep),
        }
    }
}

#[via_fn]
proof fn spec_split_decreases(s: Seq<char>, sep: Seq<char>) {
    if sep.len() > 0 {
        match spec_find(s, sep, 0) {
            None => {},
            Some(i) => {
                lemma_find_sound(s, sep, 0);
            },
        }
    }
}

/// Splits a character vector on a non-empty separator.
pub fn split_chars(v: &Vec<char>, sep: &Vec<char>) -> (parts: Vec<Vec<char>>)
    requires
        sep@.len() >= 1,
    ensures
        vecs_of(parts@) == spec_split(v@, sep@),
{
    let n = v.len();
    let m = sep.len();
    let mut parts: Vec<Vec<char>> = Vec::new();
    let mut from: usize = 0;
    proof {
        assert(v@.skip(0) =~= v@);
        assert(vecs_of(parts@) + spec_split(v@, sep@) =~= spec_split(v@, sep@));
    }
    loop
        invariant_except_break
            from <= n,
            n == v@.len(),
            m == sep@.len(),
            m >= 1,
            vecs_of(parts@) + spec_split(v@.skip(from as int), sep@) == spec_split(v@, sep@),
        ensures
            vecs_of(parts@) == spec_split(v@, sep@),
        decreases n - from,
    {
        let ghost before = parts@;
        match find_from(v, sep, from) {
            Some(i) => {
                proof {
                    lemma_find_sound(v@, sep@, from as int);
                    lemma_find_shift(v@, sep@, from as int, 0);
                    assert(spec_find(v@.skip(from as int), sep@, 0) == Some(i - from as int));
                }
                parts.push(subvec(v, from, i));
                proof {
                    assert(v@.skip(from as int).take(i - from as int) =~= v@.subrange(
                        from as int,
                        i as int,
                    ));
                    assert(v@.skip(from as int).skip(i - from as int + m as int) =~= v@.skip(
                        i as int + m as int,
                    ));
                    assert(vecs_of(parts@) =~= vecs_of(before).push(v@.subrange(
                        from as int,
                        i as int,
                    )));
                    assert(vecs_of(parts@) + spec_split(v@.skip(i as int + m as int), sep@)
                        =~= vecs_of(before) + (seq![v@.skip(from as int).take(i - from as int)]
                        + spec_split(v@.skip(i as int + m as int), sep@)));
                }
                from = i + m;
            },
            None => {
                proof {
                    lemma_find_shift(v@, sep@, from as int, 0);
                    assert(spec_find(v@.skip(from as int), sep@, 0) is None);
                }
                parts.push(subvec(v, from, n));
                proof {
                    assert(v@.subrange(from as int, n as int) =~= v@.skip(from as int));
                    assert(vecs_of(parts@) =~= vecs_of(before).push(v@.skip(from as int)));
                    assert(vecs_of(parts@) =~= vecs_of(before) + seq![v@.skip(from as int)]);
                }
                break;
            },
        }
    }
    parts
}

/// How many times `c` occurs in `s`.
pub open spec fn count_char(s: Seq<char>, c: char) -> int
    decreases s.len(),
{
    if s.len() == 0 {
        0
    } else {
        count_char(s.drop_first(), c) + if s[0] == c {
            1int
        } else {
            0int
        }
    }
}

/// Counts the occurrences of `c`, executably.
pub fn count_char_in(v: &Vec<char>, c: char) -> (r: usize)
    ensures
        r as int == count_char(v@, c),
{
    let n = v.len();
    let mut r: usize = 0;
    let mut i: usize = 0;
    proof {
        assert(v@.skip(0) =~= v@);
    }
    while i < n
        invariant
            i <= n,
            r <= i,
            n == v@.len(),
            count_char(v@, c) == r + count_char(v@.skip(i as int), c),
        decreases n - i,
    {
        proof {
            assert(v@.skip(i as int).drop_first() =~= v@.skip(i as int + 1));
        }
        if v[i] == c {
            r = r + 1;
        }
        i = i + 1;
    }
    proof {
        assert(count_char(v@.skip(n as int), c) == 0);
    }
    r
}

/// The last position where `p` occurs in `t`, executably.
pub fn rfind_in(t: &Vec<char>, p: &Vec<char>) -> (r: Option<usize>)
    ensures
        match r {
            Some(i) => spec_rfind(t@, p@) == Some(i as int),
            None => spec_rfind(t@, p@) is None,
        },
{
    let n = t.len();
    let m = p.len();
    if m > n {
        return None;
    }
    let mut res: Option<usize> = None;
    let mut i: usize = n - m;
    loop
        invariant_except_break
            res is None,
            i <= n - m,
            m <= n,
            n == t@.len(),
            m == p@.len(),
            spec_rfind(t@, p@) == spec_rfind_upto(t@, p@, i as int),
        ensures
            match res {
                Some(k) => spec_rfind(t@, p@) == Some(k as int),
                None => spec_rfind(t@, p@) is None,
            },
        decreases i + 1,
    {
        if matches_at(t, p, i) {
            proof {
                assert(spec_rfind_upto(t@, p@, i as int) == Some(i as int));
            }
            res = Some(i);
            break;
        }
        if i == 0 {
            proof {
                assert(spec_rfind_upto(t@, p@, -1) is None);
                assert(!match_at(t@, p@, 0));
                assert(spec_rfind_upto(t@, p@, 0) is None);
            }
            break;
        }
        i = i - 1;
    }
    res
}

} // verus!
