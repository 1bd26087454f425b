//! Character-level string utilities shared by the resolver and the
//! metadata extractor: conversion between `&str` and `Vec<char>`,
//! substring search, and decimal formatting.

use vstd::prelude::*;

verus! {

/// Collects the characters of a string slice into a vector.
pub fn chars_vec(s: &str) -> (r: Vec<char>)
    ensures
        r@ == s@,
{
    let n = s.unicode_len();
    let mut r: Vec<char> = Vec::new();
    let mut i: usize = 0;
    while i < n
        invariant
            n == s@.len(),
            i <= n,
            r@ == s@.subrange(0, i as int),
        decreases n - i,
    {
        r.push(s.get_char(i));
        i += 1;
        proof {
            assert(r@ =~= s@.subrange(0, i as int));
        }
    }
    proof {
        assert(r@ =~= s@);
    }
    r
}

/// Relies on std's `String::push`: appends one character to the string.
#[verifier::external_body]
fn push_char(s: &mut String, c: char)
    ensures
        final(s)@ == old(s)@.push(c),
{
    s.push(c);
}

/// Builds a `String` out of a vector of characters.
pub fn string_from_chars(v: &Vec<char>) -> (r: String)
    ensures
        r@ == v@,
{
    let mut r = String::new();
    let mut i: usize = 0;
    while i < v.len()
        invariant
            i <= v@.len(),
            r@ == v@.subrange(0, i as int),
        decreases v@.len() - i,
    {
        push_char(&mut r, v[i]);
        i += 1;
        proof {
            assert(r@ =~= v@.subrange(0, i as int));
        }
    }
    proof {
        assert(r@ =~= v@);
    }
    r
}

/// The pattern `pat` occurs in `s` at position `i`.
pub open spec fn match_at(s: Seq<char>, pat: Seq<char>, i: int) -> bool {
    0 <= i && i + pat.len() <= s.len() && s.subrange(i, i + pat.len()) == pat
}

/// Some occurrence of `pat` starts at or after position `from`.
pub open spec fn has_match_from(s: Seq<char>, pat: Seq<char>, from: int) -> bool {
    exists|i: int| from <= i && #[trigger] match_at(s, pat, i)
}

/// Compares `pat` against `hay` at position `i`.
pub fn matches_at(hay: &Vec<char>, pat: &Vec<char>, i: usize) -> (r: bool)
    requires
        i + pat@.len() <= hay@.len(),
    ensures
        r == match_at(hay@, pat@, i as int),
{
    let n = hay.len();
    let mut k: usize = 0;
    while k < pat.len()
        invariant
            n == hay@.len(),
            i + pat@.len() <= hay@.len(),
            k <= pat@.len(),
            forall|m: int| 0 <= m < k ==> hay@[i + m] == pat@[m],
        decreases pat@.len() - k,
    {
        if hay[i + k] != pat[k] {
            proof {
                if match_at(hay@, pat@, i as int) {
                    assert(hay@.subrange(i as int, i + pat@.len())[k as int] == hay@[i + k]);
                }
            }
            return false;
        }
        k += 1;
    }
    proof {
        assert(hay@.subrange(i as int, i + pat@.len()) =~= pat@);
    }
    true
}

/// Finds the first occurrence of `pat` in `hay` at or after `from`.
pub fn find_from(hay: &Vec<char>, pat: &Vec<char>, from: usize) -> (r: Option<usize>)
    requires
        pat@.len() >= 1,
    ensures
        match r {
            Some(i) => from <= i && match_at(hay@, pat@, i as int) && forall|j: int|
                from <= j < i ==> !#[trigger] match_at(hay@, pat@, j),
            None => forall|j: int| from <= j ==> !#[trigger] match_at(hay@, pat@, j),
        },
{
    if pat.len() > hay.len() {
        return None;
    }
    let last = hay.len() - pat.len();
    if from > last {
        return None;
    }
    let mut i: usize = from;
    loop
        invariant
            from <= i <= last + 1,
            last == hay@.len() - pat@.len(),
            hay@.len() <= usize::MAX,
            pat@.len() >= 1,
            forall|j: int| from <= j < i ==> !#[trigger] match_at(hay@, pat@, j),
        decreases last + 1 - i,
    {
        if i > last {
            return None;
        }
        if matches_at(hay, pat, i) {
            return Some(i);
        }
        i += 1;
    }
}

/// The result of replacing, left to right and without rescanning
/// replacement text, every occurrence of `pat` in `s` by `rep`.
pub open spec fn spec_replace_all(s: Seq<char>, pat: Seq<char>, rep: Seq<char>) -> Seq<char>
    recommends
        pat.len() >= 1,
    decreases s.len(),
    when pat.len() >= 1
{

    if s.len() == 0 {
        s
    } else if match_at(s, pat, 0) {
        rep + spec_replace_all(s.skip(pat.len() as int), pat, rep)
    } else {
        seq![s[0]] + spec_replace_all(s.skip(1), pat, rep)
    }
}

pub proof fn lemma_match_at_skip(s: Seq<char>, pat: Seq<char>, i: int)
    requires
        0 <= i <= s.len(),
    ensures
        forall|j: int| 0 <= j ==> (#[trigger] match_at(s.skip(i), pat, j) <==> match_at(
            s,
            pat,
            i + j,
        )),
{
    assert forall|j: int| 0 <= j implies (#[trigger] match_at(s.skip(i), pat, j) <==> match_at(
        s,
        pat,
        i + j,
    )) by {
        if j + pat.len() <= s.len() - i {
            assert(s.skip(i).subrange(j, j + pat.len()) =~= s.subrange(i + j, i + j + pat.len()));
        }
    }
}

/// Replaces every occurrence of `pat` in `s` by `rep`, left to right,
/// never rescanning already substituted text.
pub fn replace_all(s: &Vec<char>, pat: &Vec<char>, rep: &Vec<char>) -> (r: Vec<char>)
    requires
        pat@.len() >= 1,
    ensures
        r@ == spec_replace_all(s@, pat@, rep@),
{
    let mut r: Vec<char> = Vec::new();
    let mut i: usize = 0;
    proof {
        assert(s@.skip(0) =~= s@);
        assert(r@ + spec_replace_all(s@, pat@, rep@) =~= spec_replace_all(s@, pat@, rep@));
    }
    while i < s.len()
        invariant
            i <= s@.len(),
            pat@.len() >= 1,
            spec_replace_all(s@, pat@, rep@) == r@ + spec_replace_all(s@.skip(i as int), pat@, rep@),
        decreases s@.len() - i,
    {
        proof {
            lemma_match_at_skip(s@, pat@, i as int);
        }
        let eq = if pat.len() <= s.len() - i {
            matches_at(s, pat, i)
        } else {
            proof {
                assert(!match_at(s@, pat@, i as int));
            }
            false
        };
        let ghost r0 = r@;
        let ghost tail = s@.skip(i as int);
        if eq {
            proof {
                assert(match_at(s@, pat@, i as int));
                assert(match_at(tail, pat@, 0));
                assert(tail.len() > 0);
                assert(spec_replace_all(tail, pat@, rep@) == rep@ + spec_replace_all(
                    tail.skip(pat@.len() as int),
                    pat@,
                    rep@,
                ));
                assert(tail.skip(pat@.len() as int) =~= s@.skip(i + pat@.len()));
            }
            let mut k: usize = 0;
            while k < rep.len()
                invariant
                    k <= rep@.len(),
                    r@ == r0 + rep@.subrange(0, k as int),
                decreases rep@.len() - k,
            {
                r.push(rep[k]);
                k += 1;
            }
            proof {
                assert(r@ =~= r0 + rep@);
            }
            i += pat.len();
            proof {
                assert(r@ + spec_replace_all(s@.skip(i as int), pat@, rep@) =~= r0
                    + spec_replace_all(tail, pat@, rep@));
            }
        } else {
            proof {
                assert(!match_at(s@, pat@, i as int));
                assert(!match_at(tail, pat@, 0));
                assert(tail.len() > 0);
                assert(spec_replace_all(tail, pat@, rep@) == seq![tail[0]] + spec_replace_all(
                    tail.skip(1),
                    pat@,
                    rep@,
                ));
                assert(tail.skip(1) =~= s@.skip(i + 1));
                assert(tail[0] == s@[i as int]);
            }
            r.push(s[i]);
            i += 1;
            proof {
                assert(r@ =~= r0 + seq![s@[i - 1]]);
                assert(r@ + spec_replace_all(s@.skip(i as int), pat@, rep@) =~= r0
                    + spec_replace_all(tail, pat@, rep@));
            }
        }
    }
    proof {
        assert(s@.skip(i as int) =~= Seq::<char>::empty());
        assert(r@ =~= r@ + spec_replace_all(s@.skip(i as int), pat@, rep@));
    }
    r
}

/// The characters with the Unicode white-space property, as `char::is_whitespace`
/// recognizes them.
pub open spec fn is_space(c: char) -> bool {
    c == ' ' || ('\u{0009}' <= c && c <= '\u{000D}') || c == '\u{0085}' || c == '\u{00A0}'
        || c == '\u{1680}' || ('\u{2000}' <= c && c <= '\u{200A}') || c == '\u{2028}' || c
        == '\u{2029}' || c == '\u{202F}' || c == '\u{205F}' || c == '\u{3000}'
}

/// Decides the white-space property of one character.
pub fn space_char(c: char) -> (r: bool)
    ensures
        r == is_space(c),
{
    c == ' ' || ('\u{0009}' <= c && c <= '\u{000D}') || c == '\u{0085}' || c == '\u{00A0}'
        || c == '\u{1680}' || ('\u{2000}' <= c && c <= '\u{200A}') || c == '\u{2028}' || c
        == '\u{2029}' || c == '\u{202F}' || c == '\u{205F}' || c == '\u{3000}'
}

/// `s` without its leading white space.
pub open spec fn trim_front(s: Seq<char>) -> Seq<char>
    decreases s.len(),
{
    if s.len() > 0 && is_space(s[0]) {
        trim_front(s.skip(1))
    } else {
        s
    }
}

/// `s` without its trailing white space.
pub open spec fn trim_back(s: Seq<char>) -> Seq<char>
    decreases s.len(),
{
    if s.len() > 0 && is_space(s[s.len() - 1]) {
        trim_back(s.take(s.len() - 1))
    } else {
        s
    }
}

/// `s` without white space at either end, as `str::trim` leaves it.
pub open spec fn spec_trim(s: Seq<char>) -> Seq<char> {
    trim_back(trim_front(s))
}

proof fn lemma_trim_front_skip(s: Seq<char>, a: int)
    requires
        0 <= a <= s.len(),
        forall|k: int| 0 <= k < a ==> is_space(#[trigger] s[k]),
        a == s.len() || !is_space(s[a]),
    ensures
        trim_front(s) == s.skip(a),
    decreases a,
{
    if a == 0 {
        assert(s.skip(0) =~= s);
    } else {
        lemma_trim_front_skip(s.skip(1), a - 1);
        assert(s.skip(1).skip(a - 1) =~= s.skip(a));
    }
}

proof fn lemma_trim_back_take(s: Seq<char>, b: int)
    requires
        0 <= b <= s.len(),
        forall|k: int| b <= k < s.len() ==> is_space(#[trigger] s[k]),
        b == 0 || !is_space(s[b - 1]),
    ensures
        trim_back(s) == s.take(b),
    decreases s.len(),
{
    if b == s.len() {
        assert(s.take(b) =~= s);
    } else {
        assert(is_space(s[s.len() - 1]));
        lemma_trim_back_take(s.take(s.len() - 1), b);
        assert(s.take(s.len() - 1).take(b) =~= s.take(b));
    }
}

/// Removes white space from both ends, as `str::trim` does.
pub fn trim(v: &Vec<char>) -> (r: Vec<char>)
    ensures
        r@ == spec_trim(v@),
{
    let n = v.len();
    let mut a: usize = 0;
    while a < n && space_char(v[a])
        invariant
            n == v@.len(),
            a <= n,
            forall|k: int| 0 <= k < a ==> is_space(#[trigger] v@[k]),
        decreases n - a,
    {
        a += 1;
    }
    let mut b: usize = n;
    while b > a && space_char(v[b - 1])
        invariant
            a <= b <= n,
            n == v@.len(),
            forall|k: int| b <= k < n ==> is_space(#[trigger] v@[k]),
        decreases b,
    {
        b -= 1;
    }
    proof {
        lemma_trim_front_skip(v@, a as int);
        if b == a {
            lemma_trim_back_take(v@.skip(a as int), 0);
        } else {
            lemma_trim_back_take(v@.skip(a as int), b - a);
        }
    }
    let mut r: Vec<char> = Vec::new();
    let mut i: usize = a;
    while i < b
        invariant
            a <= i <= b <= n,
            n == v@.len(),
            r@ == v@.subrange(a as int, i as int),
        decreases b - i,
    {
        r.push(v[i]);
        i += 1;
        proof {
            assert(r@ =~= v@.subrange(a as int, i as int));
        }
    }
    proof {
        assert(v@.subrange(a as int, b as int) =~= v@.skip(a as int).take(b - a));
    }
    r
}

/// `s` with every white-space character removed, wherever it stands.
pub open spec fn spec_strip_spaces(s: Seq<char>) -> Seq<char>
    decreases s.len(),
{
    if s.len() == 0 {
        s
    } else {
        let pre = spec_strip_spaces(s.take(s.len() - 1));
        if is_space(s[s.len() - 1]) {
            pre
        } else {
            pre.push(s[s.len() - 1])
        }
    }
}

/// Removes every white-space character, as `String::retain` with a
/// not-white-space test does.
pub fn strip_spaces(v: &Vec<char>) -> (r: Vec<char>)
    ensures
        r@ == spec_strip_spaces(v@),
{
    let mut r: Vec<char> = Vec::new();
    let mut i: usize = 0;
    while i < v.len()
        invariant
            i <= v@.len(),
            r@ == spec_strip_spaces(v@.take(i as int)),
        decreases v@.len() - i,
    {
        proof {
            assert(v@.take(i + 1).take(i as int) =~= v@.take(i as int));
            assert(v@.take(i + 1)[i as int] == v@[i as int]);
        }
        if !space_char(v[i]) {
            r.push(v[i]);
        }
        i += 1;
    }
    proof {
        assert(v@.take(v@.len() as int) =~= v@);
    }
    r
}

/// The first `n` characters of `s`, or all of `s` if it is shorter.
pub open spec fn spec_take_prefix(s: Seq<char>, n: int) -> Seq<char> {
    if n <= s.len() {
        s.take(n)
    } else {
        s
    }
}

/// Keeps the first `n` characters, as `chars().take(n)` does.
pub fn take_prefix(v: &Vec<char>, n: usize) -> (r: Vec<char>)
    ensures
        r@ == spec_take_prefix(v@, n as int),
{
    let m = if n <= v.len() {
        n
    } else {
        v.len()
    };
    let mut r: Vec<char> = Vec::new();
    let mut i: usize = 0;
    while i < m
        invariant
            i <= m <= v@.len(),
            r@ == v@.subrange(0, i as int),
        decreases m - i,
    {
        r.push(v[i]);
        i += 1;
        proof {
            assert(r@ =~= v@.subrange(0, i as int));
        }
    }
    proof {
        if n <= v@.len() {
            assert(r@ =~= v@.take(n as int));
        } else {
            assert(r@ =~= v@);
        }
    }
    r
}

/// The characters of `s` from position `start` on, at most `len` of them;
/// both bounds fall back to the end of `s` when they overshoot it.
pub open spec fn spec_substring(s: Seq<char>, start: int, len: int) -> Seq<char> {
    let a = if start <= s.len() {
        start
    } else {
        s.len() as int
    };
    let b = if a + len <= s.len() {
        a + len
    } else {
        s.len() as int
    };
    s.subrange(a, b)
}

/// The substring of `len` characters beginning at character position
/// `start`, counted in characters rather than bytes; out-of-range
/// positions saturate at the end of the string.
pub fn substring(s: &str, start: usize, len: usize) -> (r: &str)
    ensures
        r@ == spec_substring(s@, start as int, len as int),
{
    let n = s.unicode_len();
    let a = if start > n {
        n
    } else {
        start
    };
    let rem = n - a;
    let b = if len > rem {
        n
    } else {
        a + len
    };
    s.substring_char(a, b)
}

/// The decimal digit `d` as a character.
pub open spec fn dec_digit(d: nat) -> char {
    if d == 0 {
        '0'
    } else if d == 1 {
        '1'
    } else if d == 2 {
        '2'
    } else if d == 3 {
        '3'
    } else if d == 4 {
        '4'
    } else if d == 5 {
        '5'
    } else if d == 6 {
        '6'
    } else if d == 7 {
        '7'
    } else if d == 8 {
        '8'
    } else {
        '9'
    }
}

/// The decimal digits of `n`, most significant first.
pub open spec fn spec_u64_dec(n: nat) -> Seq<char>
    decreases n,
{
    if n < 10 {
        seq![dec_digit(n)]
    } else {
        spec_u64_dec(n / 10).push(dec_digit(n % 10))
    }
}

fn digit_char(d: u64) -> (c: char)
    requires
        d < 10,
    ensures
        c == dec_digit(d as nat),
{
    if d == 0 {
        '0'
    } else if d == 1 {
        '1'
    } else if d == 2 {
        '2'
    } else if d == 3 {
        '3'
    } else if d == 4 {
        '4'
    } else if d == 5 {
        '5'
    } else if d == 6 {
        '6'
    } else if d == 7 {
        '7'
    } else if d == 8 {
        '8'
    } else {
        '9'
    }
}

/// Writes `n` in decimal, most significant digit first.
pub fn u64_dec(n: u64) -> (r: Vec<char>)
    ensures
        r@ == spec_u64_dec(n as nat),
    decreases n,
{
    if n < 10 {
        let mut r: Vec<char> = Vec::new();
        r.push(digit_char(n));
        proof {
            assert(r@ =~= seq![dec_digit(n as nat)]);
        }
        r
    } else {
        let mut r = u64_dec(n / 10);
        r.push(digit_char(n % 10));
        r
    }
}


/// The position of the first occurrence of `pat` in `s`; meaningful
/// only when one exists.
pub open spec fn first_match(s: Seq<char>, pat: Seq<char>) -> int
    decreases s.len(),
{
    if match_at(s, pat, 0) {
        0
    } else if s.len() == 0 {
        0
    } else {
        1 + first_match(s.skip(1), pat)
    }
}

/// A position that is a match, with no match before it, is the first match.
pub proof fn lemma_first_match_of(s: Seq<char>, pat: Seq<char>, i: int)
    requires
        match_at(s, pat, i),
        forall|j: int| 0 <= j < i ==> !#[trigger] match_at(s, pat, j),
    ensures
        first_match(s, pat) == i,
    decreases i,
{
    if i == 0 {
    } else {
        lemma_match_at_skip(s, pat, 1);
        assert(match_at(s.skip(1), pat, i - 1));
        assert(forall|j: int| 0 <= j < i - 1 ==> !#[trigger] match_at(s.skip(1), pat, j));
        lemma_first_match_of(s.skip(1), pat, i - 1);
    }
}

/// Copies out the characters of `v` between positions `a` and `b`.
pub fn subvec(v: &Vec<char>, a: usize, b: usize) -> (r: Vec<char>)
    requires
        a <= b <= v@.len(),
    ensures
        r@ == v@.subrange(a as int, b as int),
{
    let mut r: Vec<char> = Vec::new();
    let mut i: usize = a;
    while i < b
        invariant
            a <= i <= b <= v@.len(),
            r@ == v@.subrange(a as int, i as int),
        decreases b - i,
    {
        r.push(v[i]);
        i += 1;
        proof {
            assert(r@ =~= v@.subrange(a as int, i as int));
        }
    }
    r
}

/// A closing quote comes before any line break and before the end.
pub open spec fn quote_ended(t: Seq<char>) -> bool
    decreases t.len(),
{
    if t.len() == 0 {
        false
    } else if t[0] == '"' {
        true
    } else if t[0] == '\n' {
        false
    } else {
        quote_ended(t.skip(1))
    }
}

/// The position of the first quote; meaningful under `quote_ended`.
pub open spec fn quote_pos(t: Seq<char>) -> int
    decreases t.len(),
{
    if t.len() == 0 {
        0
    } else if t[0] == '"' {
        0
    } else {
        1 + quote_pos(t.skip(1))
    }
}

pub proof fn lemma_quote_props(t: Seq<char>)
    requires
        quote_ended(t),
    ensures
        0 <= quote_pos(t) < t.len(),
        t[quote_pos(t)] == '"',
    decreases t.len(),
{
    if t[0] == '"' {
    } else {
        lemma_quote_props(t.skip(1));
    }
}

pub fn scan_quote(v: &Vec<char>, start: usize) -> (r: Option<usize>)
    requires
        start <= v@.len(),
    ensures
        match r {
            Some(k) => quote_ended(v@.skip(start as int)) && start <= k < v@.len() && k - start
                == quote_pos(v@.skip(start as int)),
            None => !quote_ended(v@.skip(start as int)),
        },
{
    let n = v.len();
    let mut j: usize = start;
    loop
        invariant
            start <= j <= n,
            n == v@.len(),
            quote_ended(v@.skip(start as int)) == quote_ended(v@.skip(j as int)),
            quote_ended(v@.skip(j as int)) ==> quote_pos(v@.skip(start as int)) == j - start
                + quote_pos(v@.skip(j as int)),
        decreases n - j,
    {
        if j >= n {
            proof {
                assert(v@.skip(j as int) =~= Seq::<char>::empty());
            }
            return None;
        }
        let c = v[j];
        proof {
            assert(v@.skip(j as int)[0] == v@[j as int]);
        }
        if c == '"' {
            return Some(j);
        }
        if c == '\n' {
            return None;
        }
        proof {
            assert(v@.skip(j as int).skip(1) =~= v@.skip(j + 1));
        }
        j += 1;
    }
}


/// Finds the first occurrence of character `c` at or after `from`.
pub fn find_char_from(v: &Vec<char>, from: usize, c: char) -> (r: Option<usize>)
    requires
        from <= v@.len(),
    ensures
        match r {
            Some(i) => from <= i < v@.len() && v@[i as int] == c && forall|j: int|
                from <= j < i ==> v@[j] != c,
            None => forall|j: int| from <= j < v@.len() ==> v@[j] != c,
        },
{
    let n = v.len();
    let mut i: usize = from;
    while i < n
        invariant
            from <= i <= n,
            n == v@.len(),
            forall|j: int| from <= j < i ==> v@[j] != c,
        decreases n - i,
    {
        if v[i] == c {
            return Some(i);
        }
        i += 1;
    }
    None
}

/// The first `n` elements of `s`, or all of them if there are fewer.
pub open spec fn take_up_to<A>(s: Seq<A>, n: int) -> Seq<A> {
    if n <= s.len() {
        s.take(n)
    } else {
        s
    }
}

} // verus!
