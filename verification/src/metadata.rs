//! Metadata extraction: turning the raw markup of a track's page into
//! a structured descriptor.  Every textual field degrades to an empty
//! default when its pattern is absent; only the live flag is
//! load-bearing, and its absence fails the whole extraction.

use vstd::prelude::*;

use crate::text::{
    chars_vec, find_char_from, find_from, lemma_match_at_skip, match_at, matches_at, quote_ended,
    quote_pos, replace_all, scan_quote, spec_replace_all, spec_take_prefix, string_from_chars,
    subvec, take_prefix, take_up_to,
};

verus! {

// ---------------------------------------------------------------------------
// Quoted fields.
//
// A field pattern is its key followed by `":"`.  A match needs a closing
// quote with no line break before it; the capture is the text up to that
// quote, and one more quote must follow somewhere after it.  The first
// such match in page order wins; a field without one defaults to empty.
// ---------------------------------------------------------------------------
/// Beyond the closing quote at `quote_pos(t)`, another quote follows.
pub open spec fn has_quote_after(t: Seq<char>) -> bool {
    exists|m: int| quote_pos(t) < m < t.len() && t[m] == '"'
}

/// The first capture of the quoted field opened by `lit`, if any.
pub open spec fn field_capture(s: Seq<char>, lit: Seq<char>) -> Option<Seq<char>>
    decreases s.len(),
{
    if s.len() == 0 {
        None
    } else if match_at(s, lit, 0) && quote_ended(s.skip(lit.len() as int)) && has_quote_after(
        s.skip(lit.len() as int),
    ) {
        let t = s.skip(lit.len() as int);
        Some(t.take(quote_pos(t)))
    } else {
        field_capture(s.skip(1), lit)
    }
}

/// The capture of a field, or the empty default when it has none.
pub open spec fn field_or_default(s: Seq<char>, lit: Seq<char>) -> Seq<char> {
    match field_capture(s, lit) {
        Some(c) => c,
        None => Seq::empty(),
    }
}

proof fn lemma_field_capture_jump(s: Seq<char>, lit: Seq<char>, p: int, q: int)
    requires
        0 <= p <= q <= s.len(),
        forall|j: int| p <= j < q ==> !#[trigger] match_at(s, lit, j),
    ensures
        field_capture(s.skip(p), lit) == field_capture(s.skip(q), lit),
    decreases q - p,
{
    if p < q {
        lemma_match_at_skip(s, lit, p);
        assert(!match_at(s.skip(p), lit, 0));
        assert(s.skip(p).len() > 0);
        assert(s.skip(p).skip(1) =~= s.skip(p + 1));
        lemma_field_capture_jump(s, lit, p + 1, q);
    }
}

/// Finds the first capture of the quoted field opened by `lit`.
fn capture_field(page: &Vec<char>, lit: &Vec<char>) -> (r: Option<Vec<char>>)
    requires
        lit@.len() >= 1,
    ensures
        match r {
            Some(c) => field_capture(page@, lit@) == Some(c@),
            None => field_capture(page@, lit@) is None,
        },
{
    let n = page.len();
    let mut p: usize = 0;
    proof {
        assert(page@.skip(0) =~= page@);
    }
    loop
        invariant
            p <= n,
            n == page@.len(),
            lit@.len() >= 1,
            field_capture(page@, lit@) == field_capture(page@.skip(p as int), lit@),
        decreases n - p,
    {
        let found = find_from(page, lit, p);
        match found {
            None => {
                proof {
                    lemma_field_capture_jump(page@, lit@, p as int, n as int);
                    assert(page@.skip(n as int) =~= Seq::<char>::empty());
                }
                return None;
            },
            Some(i) => {
                proof {
                    lemma_field_capture_jump(page@, lit@, p as int, i as int);
                    lemma_match_at_skip(page@, lit@, i as int);
                }
                let ghost tail = page@.skip(i as int);
                let j = i + lit.len();
                proof {
                    assert(tail.skip(lit@.len() as int) =~= page@.skip(j as int));
                    assert(match_at(tail, lit@, 0));
                }
                let scanned = scan_quote(page, j);
                match scanned {
                    Some(k) => {
                        let after = find_char_from(page, k + 1, '"');
                        match after {
                            Some(m) => {
                                proof {
                                    let t = page@.skip(j as int);
                                    assert(t[m - j] == page@[m as int]);
                                    assert(has_quote_after(t));
                                    assert(field_capture(tail, lit@) == Some(
                                        t.take(quote_pos(t)),
                                    ));
                                    assert(t.take(k - j) =~= page@.subrange(j as int, k as int));
                                }
                                return Some(subvec(page, j, k));
                            },
                            None => {
                                proof {
                                    let t = page@.skip(j as int);
                                    assert forall|m: int|
                                        quote_pos(t) < m < t.len() implies t[m] != '"' by {
                                        assert(t[m] == page@[j + m]);
                                    }
                                    assert(!has_quote_after(t));
                                    assert(field_capture(tail, lit@) == field_capture(
                                        tail.skip(1),
                                        lit@,
                                    ));
                                    assert(tail.skip(1) =~= page@.skip(i + 1));
                                }
                                p = i + 1;
                            },
                        }
                    },
                    None => {
                        proof {
                            assert(!quote_ended(page@.skip(j as int)));
                            assert(field_capture(tail, lit@) == field_capture(tail.skip(1), lit@));
                            assert(tail.skip(1) =~= page@.skip(i + 1));
                        }
                        p = i + 1;
                    },
                }
            },
        }
    }
}

// ---------------------------------------------------------------------------
// The live flag.
//
// The key `isLiveContent"` is followed by a run of colons and then a run
// of word characters; that word run is the capture.  The first three
// captures, concatenated, must read `true` or `false`; anything else —
// including an absent key — fails the extraction.
// ---------------------------------------------------------------------------
/// ASCII word characters: letters, digits and the underscore.
pub open spec fn is_word_char(c: char) -> bool {
    ('a' <= c && c <= 'z') || ('A' <= c && c <= 'Z') || ('0' <= c && c <= '9') || c == '_'
}

fn word_char(c: char) -> (r: bool)
    ensures
        r == is_word_char(c),
{
    ('a' <= c && c <= 'z') || ('A' <= c && c <= 'Z') || ('0' <= c && c <= '9') || c == '_'
}

/// The length of the leading run of colons.
pub open spec fn colon_run(t: Seq<char>) -> int
    decreases t.len(),
{
    if t.len() > 0 && t[0] == ':' {
        1 + colon_run(t.skip(1))
    } else {
        0
    }
}

/// The length of the leading run of word characters.
pub open spec fn word_run(t: Seq<char>) -> int
    decreases t.len(),
{
    if t.len() > 0 && is_word_char(t[0]) {
        1 + word_run(t.skip(1))
    } else {
        0
    }
}

proof fn lemma_colon_run_bounds(t: Seq<char>)
    ensures
        0 <= colon_run(t) <= t.len(),
    decreases t.len(),
{
    if t.len() > 0 && t[0] == ':' {
        lemma_colon_run_bounds(t.skip(1));
    }
}

proof fn lemma_word_run_bounds(t: Seq<char>)
    ensures
        0 <= word_run(t) <= t.len(),
    decreases t.len(),
{
    if t.len() > 0 && is_word_char(t[0]) {
        lemma_word_run_bounds(t.skip(1));
    }
}

/// The key of the live flag, with the quote that closes it.
pub open spec fn live_lit() -> Seq<char> {
    seq!['i', 's', 'L', 'i', 'v', 'e', 'C', 'o', 'n', 't', 'e', 'n', 't', '"']
}

/// At least one colon, then at least one word character.
pub open spec fn live_match_here(t: Seq<char>) -> bool {
    colon_run(t) >= 1 && word_run(t.skip(colon_run(t))) >= 1
}

/// Every live-flag capture in `s`, in order of occurrence.
pub open spec fn live_captures(s: Seq<char>) -> Seq<Seq<char>>
    decreases s.len(),
    via live_captures_dec
{
    if s.len() == 0 {
        Seq::empty()
    } else if match_at(s, live_lit(), 0) && live_match_here(s.skip(live_lit().len() as int)) {
        let t = s.skip(live_lit().len() as int);
        let c = colon_run(t);
        let w = word_run(t.skip(c));
        seq![t.skip(c).take(w)] + live_captures(t.skip(c).skip(w))
    } else {
        live_captures(s.skip(1))
    }
}

#[via_fn]
proof fn live_captures_dec(s: Seq<char>) {
    if s.len() != 0 && match_at(s, live_lit(), 0) && live_match_here(
        s.skip(live_lit().len() as int),
    ) {
        let t = s.skip(live_lit().len() as int);
        lemma_colon_run_bounds(t);
        lemma_word_run_bounds(t.skip(colon_run(t)));
    }
}

proof fn lemma_live_captures_jump(s: Seq<char>, p: int, q: int)
    requires
        0 <= p <= q <= s.len(),
        forall|j: int| p <= j < q ==> !#[trigger] match_at(s, live_lit(), j),
    ensures
        live_captures(s.skip(p)) == live_captures(s.skip(q)),
    decreases q - p,
{
    if p < q {
        lemma_match_at_skip(s, live_lit(), p);
        assert(!match_at(s.skip(p), live_lit(), 0));
        assert(s.skip(p).len() > 0);
        assert(s.skip(p).skip(1) =~= s.skip(p + 1));
        lemma_live_captures_jump(s, p + 1, q);
    }
}

fn live_lit_vec() -> (r: Vec<char>)
    ensures
        r@ == live_lit(),
{
    let r = vec!['i', 's', 'L', 'i', 'v', 'e', 'C', 'o', 'n', 't', 'e', 'n', 't', '"'];
    proof {
        assert(r@ =~= live_lit());
    }
    r
}

fn colon_run_at(v: &Vec<char>, from: usize) -> (r: usize)
    requires
        from <= v@.len(),
    ensures
        r == colon_run(v@.skip(from as int)),
        from + r <= v@.len(),
{
    let n = v.len();
    let mut j: usize = from;
    while j < n && v[j] == ':'
        invariant
            from <= j <= n,
            n == v@.len(),
            colon_run(v@.skip(from as int)) == j - from + colon_run(v@.skip(j as int)),
        decreases n - j,
    {
        proof {
            assert(v@.skip(j as int)[0] == v@[j as int]);
            assert(v@.skip(j as int).skip(1) =~= v@.skip(j + 1));
        }
        j += 1;
    }
    proof {
        if j < n {
            assert(v@.skip(j as int)[0] == v@[j as int]);
        } else {
            assert(v@.skip(j as int) =~= Seq::<char>::empty());
        }
        assert(colon_run(v@.skip(j as int)) == 0);
    }
    j - from
}

fn word_run_at(v: &Vec<char>, from: usize) -> (r: usize)
    requires
        from <= v@.len(),
    ensures
        r == word_run(v@.skip(from as int)),
        from + r <= v@.len(),
{
    let n = v.len();
    let mut j: usize = from;
    while j < n && word_char(v[j])
        invariant
            from <= j <= n,
            n == v@.len(),
            word_run(v@.skip(from as int)) == j - from + word_run(v@.skip(j as int)),
        decreases n - j,
    {
        proof {
            assert(v@.skip(j as int)[0] == v@[j as int]);
            assert(v@.skip(j as int).skip(1) =~= v@.skip(j + 1));
        }
        j += 1;
    }
    proof {
        if j < n {
            assert(v@.skip(j as int)[0] == v@[j as int]);
        } else {
            assert(v@.skip(j as int) =~= Seq::<char>::empty());
        }
        assert(word_run(v@.skip(j as int)) == 0);
    }
    j - from
}

/// Collects, in page order, the first three live-flag captures.
fn collect_live_captures(page: &Vec<char>) -> (r: Vec<Vec<char>>)
    ensures
        r@.map_values(|x: Vec<char>| x@) == take_up_to(live_captures(page@), 3),
{
    let lit = live_lit_vec();
    let n = page.len();
    let ghost full = live_captures(page@);
    let mut out: Vec<Vec<char>> = Vec::new();
    let mut p: usize = 0;
    proof {
        assert(page@.skip(0) =~= page@);
        assert(out@.map_values(|x: Vec<char>| x@) =~= Seq::<Seq<char>>::empty());
    }
    loop
        invariant
            p <= n,
            n == page@.len(),
            lit@ == live_lit(),
            out@.len() <= 3,
            full == live_captures(page@),
            full == out@.map_values(|x: Vec<char>| x@) + live_captures(page@.skip(p as int)),
        ensures
            p <= page@.len(),
            p >= page@.len() || out@.len() >= 3,
            out@.len() <= 3,
            full == out@.map_values(|x: Vec<char>| x@) + live_captures(page@.skip(p as int)),
        decreases n - p, 3 - out@.len(),
    {
        if p >= n || out.len() >= 3 {
            break;
        }
        let found = find_from(page, &lit, p);
        match found {
            None => {
                proof {
                    lemma_live_captures_jump(page@, p as int, n as int);
                    assert(page@.skip(n as int) =~= Seq::<char>::empty());
                }
                p = n;
            },
            Some(i) => {
                proof {
                    lemma_live_captures_jump(page@, p as int, i as int);
                    lemma_match_at_skip(page@, lit@, i as int);
                }
                let ghost tail = page@.skip(i as int);
                let j = i + 14;
                proof {
                    assert(tail.skip(14) =~= page@.skip(j as int));
                    assert(match_at(tail, live_lit(), 0));
                }
                let c = colon_run_at(page, j);
                let mut stepped = false;
                if c == 0 {
                    stepped = true;
                } else {
                    let w = word_run_at(page, j + c);
                    if w == 0 {
                        stepped = true;
                    } else {
                        proof {
                            let t = page@.skip(j as int);
                            assert(t.skip(c as int) =~= page@.skip(j + c));
                            assert(live_match_here(t));
                            assert(live_captures(tail) == seq![
                                t.skip(c as int).take(word_run(t.skip(c as int))),
                            ] + live_captures(t.skip(c as int).skip(word_run(t.skip(c as int)))));
                            assert(t.skip(c as int).take(w as int) =~= page@.subrange(
                                (j + c) as int,
                                (j + c + w) as int,
                            ));
                            assert(t.skip(c as int).skip(w as int) =~= page@.skip(
                                (j + c + w) as int,
                            ));
                        }
                        let ghost out0 = out@.map_values(|x: Vec<char>| x@);
                        let cap = subvec(page, j + c, j + c + w);
                        out.push(cap);
                        proof {
                            assert(out@.map_values(|x: Vec<char>| x@) =~= out0 + seq![
                                page@.subrange((j + c) as int, (j + c + w) as int),
                            ]);
                            assert(out0 + seq![
                                page@.subrange((j + c) as int, (j + c + w) as int),
                            ] + live_captures(page@.skip((j + c + w) as int)) =~= out0
                                + live_captures(tail));
                        }
                        p = j + c + w;
                    }
                }
                if stepped {
                    proof {
                        let t = page@.skip(j as int);
                        assert(t.skip(colon_run(t)) =~= page@.skip(j + colon_run(t)));
                        assert(!live_match_here(t));
                        assert(live_captures(tail) == live_captures(tail.skip(1)));
                        assert(tail.skip(1) =~= page@.skip(i + 1));
                    }
                    p = i + 1;
                }
            },
        }
    }
    proof {
        let outv = out@.map_values(|x: Vec<char>| x@);
        if out@.len() >= 3 {
            assert(take_up_to(full, 3) =~= outv);
        } else {
            assert(page@.skip(p as int) =~= Seq::<char>::empty());
            assert(full =~= outv);
            assert(take_up_to(full, 3) =~= outv);
        }
    }
    out
}

/// The concatenation of a sequence of character sequences, in order.
pub open spec fn concat_all(s: Seq<Seq<char>>) -> Seq<char>
    decreases s.len(),
{
    if s.len() == 0 {
        Seq::empty()
    } else {
        concat_all(s.take(s.len() - 1)) + s[s.len() - 1]
    }
}

fn concat_caps(caps: &Vec<Vec<char>>) -> (r: Vec<char>)
    ensures
        r@ == concat_all(caps@.map_values(|x: Vec<char>| x@)),
{
    let ghost capsv = caps@.map_values(|x: Vec<char>| x@);
    let mut r: Vec<char> = Vec::new();
    let mut i: usize = 0;
    proof {
        assert(r@ =~= concat_all(capsv.take(0)));
    }
    while i < caps.len()
        invariant
            i <= caps@.len(),
            capsv == caps@.map_values(|x: Vec<char>| x@),
            r@ == concat_all(capsv.take(i as int)),
        decreases caps@.len() - i,
    {
        let ghost r0 = r@;
        let mut k: usize = 0;
        while k < caps[i].len()
            invariant
                i < caps@.len(),
                k <= caps@[i as int]@.len(),
                r@ == r0 + caps@[i as int]@.subrange(0, k as int),
            decreases caps@[i as int]@.len() - k,
        {
            r.push(caps[i][k]);
            k += 1;
            proof {
                assert(r@ =~= r0 + caps@[i as int]@.subrange(0, k as int));
            }
        }
        i += 1;
        proof {
            assert(capsv.take(i as int).take(i - 1) =~= capsv.take(i - 1));
            assert(capsv.take(i as int)[i - 1] == capsv[i - 1]);
            assert(caps@[i - 1]@.subrange(0, caps@[i - 1]@.len() as int) =~= capsv[i - 1]);
            assert(r@ =~= concat_all(capsv.take(i as int)));
        }
    }
    proof {
        assert(capsv.take(capsv.len() as int) =~= capsv);
    }
    r
}

/// The word `true`.
pub open spec fn true_chars() -> Seq<char> {
    seq!['t', 'r', 'u', 'e']
}

/// The word `false`.
pub open spec fn false_chars() -> Seq<char> {
    seq!['f', 'a', 'l', 's', 'e']
}

/// What `bool::from_str` accepts: exactly `true` or `false`.
pub open spec fn spec_parse_bool(s: Seq<char>) -> Option<bool> {
    if s == true_chars() {
        Some(true)
    } else if s == false_chars() {
        Some(false)
    } else {
        None
    }
}

fn parse_bool_chars(v: &Vec<char>) -> (r: Option<bool>)
    ensures
        r == spec_parse_bool(v@),
{
    let t = vec!['t', 'r', 'u', 'e'];
    let f = vec!['f', 'a', 'l', 's', 'e'];
    proof {
        assert(t@ =~= true_chars());
        assert(f@ =~= false_chars());
    }
    if v.len() == 4 && matches_at(v, &t, 0) {
        proof {
            assert(v@.subrange(0, 4) =~= v@);
        }
        Some(true)
    } else if v.len() == 5 && matches_at(v, &f, 0) {
        proof {
            assert(v@.subrange(0, 5) =~= v@);
        }
        Some(false)
    } else {
        proof {
            if v@ == true_chars() {
                assert(v@.subrange(0, 4) =~= v@);
            }
            if v@ == false_chars() {
                assert(v@.subrange(0, 5) =~= v@);
            }
        }
        None
    }
}

/// The live flag a page carries: the first three captures concatenated,
/// read as a boolean.
pub open spec fn spec_live_flag(page: Seq<char>) -> Option<bool> {
    spec_parse_bool(concat_all(take_up_to(live_captures(page), 3)))
}

// ---------------------------------------------------------------------------
// Field keys and the question-mark cut.
// ---------------------------------------------------------------------------
/// The key of the description field.
pub open spec fn desc_lit() -> Seq<char> {
    seq![
        's', 'h', 'o', 'r', 't', 'D', 'e', 's', 'c', 'r', 'i', 'p', 't', 'i', 'o', 'n', '"', ':',
        '"',
    ]
}

/// The key of the title field.
pub open spec fn title_lit() -> Seq<char> {
    seq!['t', 'i', 't', 'l', 'e', '"', ':', '"']
}

/// The key of the length field.
pub open spec fn length_lit() -> Seq<char> {
    seq!['l', 'e', 'n', 'g', 't', 'h', 'S', 'e', 'c', 'o', 'n', 'd', 's', '"', ':', '"']
}

/// The key of the first thumbnail address.
pub open spec fn thumbnail_lit() -> Seq<char> {
    seq![
        't', 'h', 'u', 'm', 'b', 'n', 'a', 'i', 'l', 's', '"', ':', '[', '{', '"', 'u', 'r', 'l',
        '"', ':', '"',
    ]
}

/// The key of the author field.
pub open spec fn author_lit() -> Seq<char> {
    seq!['a', 'u', 't', 'h', 'o', 'r', '"', ':', '"']
}

/// The position of the first occurrence of `c`, or the length of `s`.
pub open spec fn char_pos_or_len(s: Seq<char>, c: char) -> int
    decreases s.len(),
{
    if s.len() == 0 {
        0
    } else if s[0] == c {
        0
    } else {
        1 + char_pos_or_len(s.skip(1), c)
    }
}

pub proof fn lemma_char_pos_found(s: Seq<char>, c: char, i: int)
    requires
        0 <= i < s.len(),
        s[i] == c,
        forall|j: int| 0 <= j < i ==> s[j] != c,
    ensures
        char_pos_or_len(s, c) == i,
    decreases i,
{
    if i > 0 {
        lemma_char_pos_found(s.skip(1), c, i - 1);
    }
}

pub proof fn lemma_char_pos_none(s: Seq<char>, c: char)
    requires
        forall|j: int| 0 <= j < s.len() ==> s[j] != c,
    ensures
        char_pos_or_len(s, c) == s.len(),
    decreases s.len(),
{
    if s.len() > 0 {
        lemma_char_pos_none(s.skip(1), c);
    }
}

/// `s` cut at its first question mark, as an address is trimmed of its
/// query string.
pub open spec fn cut_at_question(s: Seq<char>) -> Seq<char> {
    s.take(char_pos_or_len(s, '?'))
}

fn cut_question(v: &Vec<char>) -> (r: Vec<char>)
    ensures
        r@ == cut_at_question(v@),
{
    let found = find_char_from(v, 0, '?');
    match found {
        Some(i) => {
            proof {
                lemma_char_pos_found(v@, '?', i as int);
                assert(v@.subrange(0, i as int) =~= v@.take(i as int));
            }
            subvec(v, 0, i)
        },
        None => {
            proof {
                lemma_char_pos_none(v@, '?');
                assert(v@.subrange(0, v@.len() as int) =~= v@.take(v@.len() as int));
            }
            subvec(v, 0, v.len())
        },
    }
}

// ---------------------------------------------------------------------------
// The descriptor.
// ---------------------------------------------------------------------------
/// Extraction failed on the live flag, the one field that may not
/// degrade silently.
#[derive(Clone, Copy, Debug, PartialEq, Eq, Structural)]
pub struct MetadataParseError;

/// A structured track descriptor read out of raw page markup.
#[derive(Debug, Clone)]
pub struct YtInfo {
    pub _yt_link: String,
    pub yt_desc: String,
    pub _yt_title: String,
    pub _yt_length_sec: String,
    pub _yt_thumbnail: String,
    pub _yt_author: String,
    pub _is_live: bool,
}

impl YtInfo {
    pub fn _set_yt_link(&mut self, value: String)
        ensures
            final(self)._yt_link == value,
            final(self).yt_desc == old(self).yt_desc,
            final(self)._yt_title == old(self)._yt_title,
            final(self)._yt_length_sec == old(self)._yt_length_sec,
            final(self)._yt_thumbnail == old(self)._yt_thumbnail,
            final(self)._yt_author == old(self)._yt_author,
            final(self)._is_live == old(self)._is_live,
    {
        self._yt_link = value;
    }

    pub fn _set_yt_desc(&mut self, value: String)
        ensures
            final(self).yt_desc == value,
            final(self)._yt_link == old(self)._yt_link,
            final(self)._yt_title == old(self)._yt_title,
            final(self)._yt_length_sec == old(self)._yt_length_sec,
            final(self)._yt_thumbnail == old(self)._yt_thumbnail,
            final(self)._yt_author == old(self)._yt_author,
            final(self)._is_live == old(self)._is_live,
    {
        self.yt_desc = value;
    }

    pub fn _get_yt_link(&self) -> (r: String)
        ensures
            r@ == self._yt_link@,
    {
        self._yt_link.clone()
    }

    pub fn get_yt_desc(&self) -> (r: String)
        ensures
            r@ == self.yt_desc@,
    {
        self.yt_desc.clone()
    }
}

impl Default for YtInfo {
    /// The all-unknown descriptor: every field empty, the live flag off.
    fn default() -> (r: Self)
        ensures
            r._yt_link@ == Seq::<char>::empty(),
            r.yt_desc@ == Seq::<char>::empty(),
            r._yt_title@ == Seq::<char>::empty(),
            r._yt_length_sec@ == Seq::<char>::empty(),
            r._yt_thumbnail@ == Seq::<char>::empty(),
            r._yt_author@ == Seq::<char>::empty(),
            r._is_live == false,
    {
        YtInfo {
            _yt_link: String::new(),
            yt_desc: String::new(),
            _yt_title: String::new(),
            _yt_length_sec: String::new(),
            _yt_thumbnail: String::new(),
            _yt_author: String::new(),
            _is_live: false,
        }
    }
}

fn field_string(page: &Vec<char>, lit: &Vec<char>) -> (r: String)
    requires
        lit@.len() >= 1,
    ensures
        r@ == field_or_default(page@, lit@),
{
    let captured = capture_field(page, lit);
    match captured {
        Some(c) => string_from_chars(&c),
        None => String::new(),
    }
}

/// Reads a track descriptor out of the raw markup of the page at
/// `yt_link`.  Each textual field independently takes its first capture
/// or stays empty; the thumbnail is cut at its first question mark; a
/// live flag that does not read as a boolean fails the whole call.
pub fn get_link_content(content: &str, yt_link: String) -> (r: Result<YtInfo, MetadataParseError>)
    ensures
        match r {
            Ok(info) => spec_live_flag(content@) == Some(info._is_live) && info._yt_link@
                == yt_link@ && info.yt_desc@ == field_or_default(content@, desc_lit())
                && info._yt_title@ == field_or_default(content@, title_lit())
                && info._yt_length_sec@ == field_or_default(content@, length_lit())
                && info._yt_thumbnail@ == cut_at_question(
                field_or_default(content@, thumbnail_lit()),
            ) && info._yt_author@ == field_or_default(content@, author_lit()),
            Err(_) => spec_live_flag(content@) is None,
        },
{
    let cs = chars_vec(content);
    let dl = vec![
        's', 'h', 'o', 'r', 't', 'D', 'e', 's', 'c', 'r', 'i', 'p', 't', 'i', 'o', 'n', '"', ':',
        '"',
    ];
    let tl = vec!['t', 'i', 't', 'l', 'e', '"', ':', '"'];
    let ll = vec!['l', 'e', 'n', 'g', 't', 'h', 'S', 'e', 'c', 'o', 'n', 'd', 's', '"', ':', '"'];
    let ml = vec![
        't', 'h', 'u', 'm', 'b', 'n', 'a', 'i', 'l', 's', '"', ':', '[', '{', '"', 'u', 'r', 'l',
        '"', ':', '"',
    ];
    let al = vec!['a', 'u', 't', 'h', 'o', 'r', '"', ':', '"'];
    proof {
        assert(dl@ =~= desc_lit());
        assert(tl@ =~= title_lit());
        assert(ll@ =~= length_lit());
        assert(ml@ =~= thumbnail_lit());
        assert(al@ =~= author_lit());
    }
    let desc = field_string(&cs, &dl);
    let title = field_string(&cs, &tl);
    let length = field_string(&cs, &ll);
    let thumb_raw = capture_field(&cs, &ml);
    let thumb = match thumb_raw {
        Some(c) => {
            let cut = cut_question(&c);
            string_from_chars(&cut)
        },
        None => {
            proof {
                assert(Seq::<char>::empty().take(0) =~= Seq::<char>::empty());
                assert(char_pos_or_len(Seq::<char>::empty(), '?') == 0);
            }
            String::new()
        },
    };
    let author = field_string(&cs, &al);
    let caps = collect_live_captures(&cs);
    let cat = concat_caps(&caps);
    let parsed = parse_bool_chars(&cat);
    match parsed {
        None => Err(MetadataParseError),
        Some(b) => Ok(
            YtInfo {
                _yt_link: yt_link,
                yt_desc: desc,
                _yt_title: title,
                _yt_length_sec: length,
                _yt_thumbnail: thumb,
                _yt_author: author,
                _is_live: b,
            },
        ),
    }
}

// ---------------------------------------------------------------------------
// Description normalization for replies.
// ---------------------------------------------------------------------------
/// The two-character escape `\n` as it stands in raw markup.
pub open spec fn escaped_newline() -> Seq<char> {
    seq!['\\', 'n']
}

/// The mask that defuses an address so chat clients leave it alone.
pub open spec fn link_mask() -> Seq<char> {
    seq!['[', 'h', 't', 't', 'p', ']', '[', '/', '/', ']']
}

/// The `https://` scheme.
pub open spec fn https_scheme() -> Seq<char> {
    seq!['h', 't', 't', 'p', 's', ':', '/', '/']
}

/// The `http://` scheme.
pub open spec fn http_scheme() -> Seq<char> {
    seq!['h', 't', 't', 'p', ':', '/', '/']
}

/// How a raw description is prepared for a reply: newline escapes become
/// real line breaks, address schemes are masked, doubled line breaks
/// collapse, and the text is cut to the host's message-length limit.
pub open spec fn spec_format_description(d: Seq<char>) -> Seq<char> {
    let a = spec_replace_all(d, escaped_newline(), seq!['\n']);
    let b = spec_replace_all(a, https_scheme(), link_mask());
    let c = spec_replace_all(b, http_scheme(), link_mask());
    let e = spec_replace_all(c, seq!['\n', '\n'], seq!['\n']);
    spec_take_prefix(e, 1999)
}

/// Prepares a raw description for a reply.
pub fn format_description(desc: &str) -> (r: String)
    ensures
        r@ == spec_format_description(desc@),
{
    let d = chars_vec(desc);
    let esc = vec!['\\', 'n'];
    let nl = vec!['\n'];
    let mask = vec!['[', 'h', 't', 't', 'p', ']', '[', '/', '/', ']'];
    let https = vec!['h', 't', 't', 'p', 's', ':', '/', '/'];
    let http = vec!['h', 't', 't', 'p', ':', '/', '/'];
    let nlnl = vec!['\n', '\n'];
    proof {
        assert(esc@ =~= escaped_newline());
        assert(nl@ =~= seq!['\n']);
        assert(mask@ =~= link_mask());
        assert(https@ =~= https_scheme());
        assert(http@ =~= http_scheme());
        assert(nlnl@ =~= seq!['\n', '\n']);
    }
    let a = replace_all(&d, &esc, &nl);
    let b = replace_all(&a, &https, &mask);
    let c = replace_all(&b, &http, &mask);
    let e = replace_all(&c, &nlnl, &nl);
    let cut = take_prefix(&e, 1999);
    string_from_chars(&cut)
}

} // verus!
