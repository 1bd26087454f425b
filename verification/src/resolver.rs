//! Track resolution: deciding whether free text is a direct stream
//! link, the empty request for the default stream, or a search phrase;
//! and extracting candidate video identifiers from a search-results
//! page.

use vstd::prelude::*;

use linked_hash_set::LinkedHashSet;

use crate::text::{
    chars_vec, find_from, first_match, has_match_from, lemma_first_match_of, lemma_match_at_skip,
    lemma_quote_props, match_at, matches_at, quote_ended, quote_pos, scan_quote, string_from_chars,
    subvec, take_up_to,
};

verus! {

#[verifier::external_type_specification]
#[verifier::external_body]
#[verifier::reject_recursive_types(T)]
#[verifier::reject_recursive_types(S)]
pub struct ExLinkedHashSet<T, S>(LinkedHashSet<T, S>);

/// The elements a `LinkedHashSet<String>` holds, in insertion order.
pub uninterp spec fn set_elems(s: &LinkedHashSet<String>) -> Seq<Seq<char>>;

/// Relies on `LinkedHashSet::new`: the set starts empty.
#[verifier::external_body]
fn set_new() -> (r: LinkedHashSet<String>)
    ensures
        set_elems(&r) == Seq::<Seq<char>>::empty(),
{
    LinkedHashSet::new()
}

/// Relies on `LinkedHashSet::insert_if_absent`: a value not yet held is
/// appended at the end of the ordering and `true` comes back; a value
/// already held leaves the set and its ordering untouched.
#[verifier::external_body]
fn set_insert_if_absent(s: &mut LinkedHashSet<String>, v: String) -> (r: bool)
    ensures
        r == !set_elems(old(s)).contains(v@),
        r ==> set_elems(final(s)) == set_elems(old(s)).push(v@),
        !r ==> set_elems(final(s)) == set_elems(old(s)),
{
    s.insert_if_absent(v)
}

/// Relies on `LinkedHashSet::iter`: it visits the elements in insertion
/// order; the body clones each one out into a vector.
#[verifier::external_body]
fn set_items(s: &LinkedHashSet<String>) -> (r: Vec<String>)
    ensures
        r@.map_values(|x: String| x@) == set_elems(s),
{
    s.iter().cloned().collect()
}

/// The subsequence of `s` that keeps only the first occurrence of each
/// element, in order.
pub open spec fn dedup_keep_first(s: Seq<Seq<char>>) -> Seq<Seq<char>>
    decreases s.len(),
{
    if s.len() == 0 {
        s
    } else {
        let pre = dedup_keep_first(s.take(s.len() - 1));
        if pre.contains(s[s.len() - 1]) {
            pre
        } else {
            pre.push(s[s.len() - 1])
        }
    }
}

/// Drops repeated identifiers, keeping first occurrences and their
/// order, the way collecting into an insertion-ordered set does.
fn dedup_ids(ids: &Vec<Vec<char>>) -> (r: Vec<String>)
    ensures
        r@.map_values(|x: String| x@) == dedup_keep_first(ids@.map_values(|x: Vec<char>| x@)),
{
    let ghost full = ids@.map_values(|x: Vec<char>| x@);
    let mut s = set_new();
    let mut i: usize = 0;
    while i < ids.len()
        invariant
            i <= ids@.len(),
            full == ids@.map_values(|x: Vec<char>| x@),
            set_elems(&s) == dedup_keep_first(full.take(i as int)),
        decreases ids@.len() - i,
    {
        proof {
            assert(full.take(i + 1).take(i as int) =~= full.take(i as int));
            assert(full.take(i + 1)[i as int] == ids@[i as int]@);
        }
        let v = string_from_chars(&ids[i]);
        set_insert_if_absent(&mut s, v);
        i += 1;
    }
    proof {
        assert(full.take(full.len() as int) =~= full);
    }
    set_items(&s)
}

// ---------------------------------------------------------------------------
// Direct-link recognition.
//
// A request is played verbatim when it looks like a video link — an
// optional `https://` scheme, an optional `www` plus one more character,
// the stem `youtu`, optionally `be` or any character plus `be`,
// optionally any character plus `com`, then `/` and at least one more
// character — or when it starts with `http://` followed by at least one
// character.  A "character" here never matches a line break.
// ---------------------------------------------------------------------------
/// `/` followed by at least one character.
pub open spec fn slash_payload(t: Seq<char>) -> bool {
    t.len() >= 2 && t[0] == '/' && t[1] != '\n'
}

/// The optional `com` group, then the final slash and payload.
pub open spec fn yt_tail_com(t: Seq<char>) -> bool {
    slash_payload(t) || (t.len() >= 4 && t[0] != '\n' && t[1] == 'c' && t[2] == 'o' && t[3] == 'm'
        && slash_payload(t.skip(4)))
}

/// The optional `be` group after the stem, then the rest of the tail.
pub open spec fn yt_tail(t: Seq<char>) -> bool {
    yt_tail_com(t) || (t.len() >= 2 && t[0] == 'b' && t[1] == 'e' && yt_tail_com(t.skip(2))) || (
    t.len() >= 3 && t[0] != '\n' && t[1] == 'b' && t[2] == 'e' && yt_tail_com(t.skip(3)))
}

/// The stem `youtu` and its tail.
pub open spec fn yt_core(s: Seq<char>) -> bool {
    s.len() >= 5 && s[0] == 'y' && s[1] == 'o' && s[2] == 'u' && s[3] == 't' && s[4] == 'u'
        && yt_tail(s.skip(5))
}

/// The optional `www` group and the stem.
pub open spec fn yt_after_scheme(s: Seq<char>) -> bool {
    yt_core(s) || (s.len() >= 4 && s[0] == 'w' && s[1] == 'w' && s[2] == 'w' && s[3] != '\n'
        && yt_core(s.skip(4)))
}

/// A video link, with or without the `https://` scheme.
pub open spec fn is_video_link(s: Seq<char>) -> bool {
    yt_after_scheme(s) || (s.len() >= 8 && s[0] == 'h' && s[1] == 't' && s[2] == 't' && s[3] == 'p'
        && s[4] == 's' && s[5] == ':' && s[6] == '/' && s[7] == '/' && yt_after_scheme(s.skip(8)))
}

/// Any `http://` address with at least one character after the scheme.
pub open spec fn is_http_link(s: Seq<char>) -> bool {
    s.len() >= 8 && s[0] == 'h' && s[1] == 't' && s[2] == 't' && s[3] == 'p' && s[4] == ':' && s[5]
        == '/' && s[6] == '/' && s[7] != '\n'
}

/// Text that is taken as an already playable address, bypassing search.
pub open spec fn is_direct_link(s: Seq<char>) -> bool {
    is_video_link(s) || is_http_link(s)
}

fn slash_payload_at(v: &Vec<char>, i: usize) -> (r: bool)
    requires
        i <= v@.len(),
    ensures
        r == slash_payload(v@.skip(i as int)),
{
    i < v.len() && i + 1 < v.len() && v[i] == '/' && v[i + 1] != '\n'
}

fn yt_tail_com_at(v: &Vec<char>, i: usize) -> (r: bool)
    requires
        i <= v@.len(),
    ensures
        r == yt_tail_com(v@.skip(i as int)),
{
    if slash_payload_at(v, i) {
        true
    } else if i < v.len() && v.len() - i > 3 && v[i] != '\n' && v[i + 1] == 'c' && v[i + 2] == 'o'
        && v[i + 3] == 'm' {
        proof {
            assert(v@.skip(i as int).skip(4) =~= v@.skip(i + 4));
        }
        slash_payload_at(v, i + 4)
    } else {
        false
    }
}

fn yt_tail_at(v: &Vec<char>, i: usize) -> (r: bool)
    requires
        i <= v@.len(),
    ensures
        r == yt_tail(v@.skip(i as int)),
{
    if yt_tail_com_at(v, i) {
        return true;
    }
    let b2 = if i < v.len() && i + 1 < v.len() && v[i] == 'b' && v[i + 1] == 'e' {
        proof {
            assert(v@.skip(i as int).skip(2) =~= v@.skip(i + 2));
        }
        yt_tail_com_at(v, i + 2)
    } else {
        false
    };
    if b2 {
        return true;
    }
    if i < v.len() && v.len() - i > 2 && v[i] != '\n' && v[i + 1] == 'b' && v[i + 2] == 'e' {
        proof {
            assert(v@.skip(i as int).skip(3) =~= v@.skip(i + 3));
        }
        yt_tail_com_at(v, i + 3)
    } else {
        false
    }
}

fn yt_core_at(v: &Vec<char>, i: usize) -> (r: bool)
    requires
        i <= v@.len(),
    ensures
        r == yt_core(v@.skip(i as int)),
{
    if i < v.len() && v.len() - i > 4 && v[i] == 'y' && v[i + 1] == 'o' && v[i + 2] == 'u' && v[i
        + 3] == 't' && v[i + 4] == 'u' {
        proof {
            assert(v@.skip(i as int).skip(5) =~= v@.skip(i + 5));
        }
        yt_tail_at(v, i + 5)
    } else {
        false
    }
}

fn yt_after_scheme_at(v: &Vec<char>, i: usize) -> (r: bool)
    requires
        i <= v@.len(),
    ensures
        r == yt_after_scheme(v@.skip(i as int)),
{
    if yt_core_at(v, i) {
        return true;
    }
    if i < v.len() && v.len() - i > 3 && v[i] == 'w' && v[i + 1] == 'w' && v[i + 2] == 'w' && v[i
        + 3] != '\n' {
        proof {
            assert(v@.skip(i as int).skip(4) =~= v@.skip(i + 4));
        }
        yt_core_at(v, i + 4)
    } else {
        false
    }
}

/// Decides whether `v` is taken verbatim as a playable address.
pub fn direct_link(v: &Vec<char>) -> (r: bool)
    ensures
        r == is_direct_link(v@),
{
    proof {
        assert(v@.skip(0) =~= v@);
    }
    if yt_after_scheme_at(v, 0) {
        return true;
    }
    let vid = if v.len() >= 8 && v[0] == 'h' && v[1] == 't' && v[2] == 't' && v[3] == 'p' && v[4]
        == 's' && v[5] == ':' && v[6] == '/' && v[7] == '/' {
        yt_after_scheme_at(v, 8)
    } else {
        false
    };
    if vid {
        return true;
    }
    v.len() >= 8 && v[0] == 'h' && v[1] == 't' && v[2] == 't' && v[3] == 'p' && v[4] == ':' && v[5]
        == '/' && v[6] == '/' && v[7] != '\n'
}

// ---------------------------------------------------------------------------
// Candidate extraction from a search-results page.
//
// The page is narrowed to the script region that starts at the embedded
// configuration marker and ends at the closing script tag.  Inside it,
// every occurrence of the quoted `videoId` field yields one candidate:
// the text up to the next quote, provided no line break comes first.
// The first three candidates are kept, repeated identifiers dropped.
// ---------------------------------------------------------------------------
/// The marker that opens the embedded-configuration region.
pub open spec fn marker() -> Seq<char> {
    seq!['y', 't', 'C', 'o', 'n', 'f', 'i', 'g', 'D', 'a', 't', 'a']
}

/// The closing tag that ends the region.
pub open spec fn script_end() -> Seq<char> {
    seq!['<', '/', 's', 'c', 'r', 'i', 'p', 't', '>']
}

/// The opening of a quoted `videoId` field.
pub open spec fn vid_lit() -> Seq<char> {
    seq!['{', '"', 'v', 'i', 'd', 'e', 'o', 'I', 'd', '"', ':', '"']
}

/// Every quoted `videoId` capture in `s`, in order of occurrence.
pub open spec fn vid_captures(s: Seq<char>) -> Seq<Seq<char>>
    decreases s.len(),
    via vid_captures_dec
{
    if s.len() == 0 {
        Seq::empty()
    } else if match_at(s, vid_lit(), 0) && quote_ended(s.skip(vid_lit().len() as int)) {
        let t = s.skip(vid_lit().len() as int);
        seq![t.take(quote_pos(t))] + vid_captures(t.skip(quote_pos(t) + 1))
    } else {
        vid_captures(s.skip(1))
    }
}

#[via_fn]
proof fn vid_captures_dec(s: Seq<char>) {
    if s.len() != 0 && match_at(s, vid_lit(), 0) && quote_ended(s.skip(vid_lit().len() as int)) {
        lemma_quote_props(s.skip(vid_lit().len() as int));
    }
}

/// What extraction yields on a page: `None` when either region marker is
/// missing, otherwise the first three captures with duplicates dropped.
pub open spec fn spec_video_ids(s: Seq<char>) -> Option<Seq<Seq<char>>> {
    if !has_match_from(s, marker(), 0) {
        None
    } else {
        let rest = s.skip(first_match(s, marker()));
        if !has_match_from(rest, script_end(), 0) {
            None
        } else {
            let region = rest.take(first_match(rest, script_end()));
            Some(dedup_keep_first(take_up_to(vid_captures(region), 3)))
        }
    }
}

/// Why resolution of a search phrase failed.
#[derive(Clone, Copy, Debug, PartialEq, Eq, Structural)]
pub enum ResolutionError {
    /// The results page holds no embedded-configuration marker.
    MarkerMissing,
    /// The region that the marker opens never closes.
    EndMarkerMissing,
    /// The region holds no video identifier.
    NoCandidates,
}

fn marker_vec() -> (r: Vec<char>)
    ensures
        r@ == marker(),
{
    let r = vec!['y', 't', 'C', 'o', 'n', 'f', 'i', 'g', 'D', 'a', 't', 'a'];
    proof {
        assert(r@ =~= marker());
    }
    r
}

fn script_end_vec() -> (r: Vec<char>)
    ensures
        r@ == script_end(),
{
    let r = vec!['<', '/', 's', 'c', 'r', 'i', 'p', 't', '>'];
    proof {
        assert(r@ =~= script_end());
    }
    r
}

fn vid_lit_vec() -> (r: Vec<char>)
    ensures
        r@ == vid_lit(),
{
    let r = vec!['{', '"', 'v', 'i', 'd', 'e', 'o', 'I', 'd', '"', ':', '"'];
    proof {
        assert(r@ =~= vid_lit());
    }
    r
}

/// Collects, in page order, the first three `videoId` captures.
fn collect_captures(region: &Vec<char>) -> (r: Vec<Vec<char>>)
    ensures
        r@.map_values(|x: Vec<char>| x@) == take_up_to(vid_captures(region@), 3),
{
    let lit = vid_lit_vec();
    let ghost full = vid_captures(region@);
    let mut out: Vec<Vec<char>> = Vec::new();
    let mut p: usize = 0;
    proof {
        assert(region@.skip(0) =~= region@);
        assert(out@.map_values(|x: Vec<char>| x@) =~= Seq::<Seq<char>>::empty());
    }
    loop
        invariant
            p <= region@.len(),
            lit@ == vid_lit(),
            out@.len() <= 3,
            full == vid_captures(region@),
            full == out@.map_values(|x: Vec<char>| x@) + vid_captures(region@.skip(p as int)),
        ensures
            p <= region@.len(),
            p >= region@.len() || out@.len() >= 3,
            out@.len() <= 3,
            full == out@.map_values(|x: Vec<char>| x@) + vid_captures(region@.skip(p as int)),
        decreases region@.len() - p, 3 - out@.len(),
    {
        if p >= region.len() || out.len() >= 3 {
            break;
        }
        proof {
            lemma_match_at_skip(region@, lit@, p as int);
        }
        let ghost tail = region@.skip(p as int);
        let matched = if lit.len() <= region.len() - p {
            matches_at(region, &lit, p)
        } else {
            proof {
                assert(!match_at(region@, lit@, p as int));
            }
            false
        };
        let mut advanced = false;
        if matched {
            let q = scan_quote(region, p + 12);
            match q {
                Some(k) => {
                    proof {
                        assert(tail.skip(12) =~= region@.skip(p + 12));
                        assert(quote_ended(tail.skip(vid_lit().len() as int)));
                        lemma_quote_props(tail.skip(12));
                        assert(tail.skip(12).take(quote_pos(tail.skip(12))) =~= region@.subrange(
                            p + 12,
                            k as int,
                        ));
                        assert(tail.skip(12).skip(quote_pos(tail.skip(12)) + 1) =~= region@.skip(
                            k + 1,
                        ));
                    }
                    let ghost out0 = out@.map_values(|x: Vec<char>| x@);
                    let cap = subvec(region, p + 12, k);
                    out.push(cap);
                    proof {
                        assert(out@.map_values(|x: Vec<char>| x@) =~= out0 + seq![region@.subrange(
                            p + 12,
                            k as int,
                        )]);
                        assert(vid_captures(tail) == seq![region@.subrange(p + 12, k as int)]
                            + vid_captures(region@.skip(k + 1)));
                        assert(out0 + seq![region@.subrange(p + 12, k as int)] + vid_captures(
                            region@.skip(k + 1),
                        ) =~= out0 + vid_captures(tail));
                    }
                    p = k + 1;
                    advanced = true;
                },
                None => {
                    proof {
                        assert(tail.skip(12) =~= region@.skip(p + 12));
                        assert(!quote_ended(tail.skip(vid_lit().len() as int)));
                    }
                },
            }
        }
        if !advanced {
            proof {
                assert(vid_captures(tail) == vid_captures(tail.skip(1)));
                assert(tail.skip(1) =~= region@.skip(p + 1));
            }
            p += 1;
        }
    }
    proof {
        let outv = out@.map_values(|x: Vec<char>| x@);
        if out@.len() >= 3 {
            assert(take_up_to(full, 3) =~= outv);
        } else {
            assert(region@.skip(p as int) =~= Seq::<char>::empty());
            assert(full =~= outv);
            assert(take_up_to(full, 3) =~= outv);
        }
    }
    out
}

/// Extracts the candidate video identifiers of a results page: the
/// first three quoted `videoId` captures inside the embedded
/// configuration region, repeated identifiers dropped, page order kept.
pub fn extract_links(content: &str) -> (r: Result<Vec<String>, ResolutionError>)
    ensures
        match r {
            Ok(ids) => spec_video_ids(content@) == Some(ids@.map_values(|x: String| x@)),
            Err(e) => spec_video_ids(content@) is None && e != ResolutionError::NoCandidates && ((e
                == ResolutionError::MarkerMissing) <==> !has_match_from(content@, marker(), 0)),
        },
{
    let cs = chars_vec(content);
    let mk = marker_vec();
    let found = find_from(&cs, &mk, 0);
    match found {
        None => Err(ResolutionError::MarkerMissing),
        Some(i) => {
            proof {
                lemma_first_match_of(cs@, mk@, i as int);
            }
            let rest = subvec(&cs, i, cs.len());
            proof {
                assert(rest@ =~= cs@.skip(i as int));
            }
            let se = script_end_vec();
            let found_end = find_from(&rest, &se, 0);
            match found_end {
                None => Err(ResolutionError::EndMarkerMissing),
                Some(j) => {
                    proof {
                        lemma_first_match_of(rest@, se@, j as int);
                    }
                    let region = subvec(&rest, 0, j);
                    proof {
                        assert(region@ =~= rest@.take(j as int));
                    }
                    let caps = collect_captures(&region);
                    Ok(dedup_ids(&caps))
                },
            }
        },
    }
}

// ---------------------------------------------------------------------------
// Classification and address construction.
// ---------------------------------------------------------------------------
/// How the text of a play request is treated.
#[derive(Clone, Copy, Debug, PartialEq, Eq, Structural)]
pub enum PlayInput {
    /// The text is already a playable address and is used verbatim.
    Direct,
    /// The request is empty: the configured default stream is played.
    DefaultStream,
    /// The text is a search phrase; a results page must be fetched.
    Search,
}

/// The classification the resolver applies to processed request text.
pub open spec fn spec_classify(text: Seq<char>) -> PlayInput {
    if is_direct_link(text) {
        PlayInput::Direct
    } else if text.len() == 0 {
        PlayInput::DefaultStream
    } else {
        PlayInput::Search
    }
}

/// Classifies processed request text: a recognized address plays
/// verbatim, emptiness selects the default stream, and anything else
/// becomes a search phrase.
pub fn classify(text: &Vec<char>) -> (r: PlayInput)
    ensures
        r == spec_classify(text@),
{
    if direct_link(text) {
        PlayInput::Direct
    } else if text.len() == 0 {
        PlayInput::DefaultStream
    } else {
        PlayInput::Search
    }
}

/// The watch address a candidate identifier is appended to.
pub open spec fn watch_prefix() -> Seq<char> {
    "https://www.youtube.com/watch?v="@
}

/// The search address a query is appended to.
pub open spec fn search_prefix() -> Seq<char> {
    "https://www.youtube.com/results?search_query="@
}

/// The fixed radio stream played when a request is empty.
pub open spec fn default_stream() -> Seq<char> {
    "http://astreaming.virginradio.ro:8000/virgin_aacp_64k"@
}

/// Builds the watch address of one video identifier.
pub fn watch_link(id: &str) -> (r: String)
    ensures
        r@ == watch_prefix() + id@,
{
    let mut s = String::from_str("https://www.youtube.com/watch?v=");
    s.append(id);
    s
}

/// Builds the search address of a processed query.
pub fn search_link(query: &str) -> (r: String)
    ensures
        r@ == search_prefix() + query@,
{
    let mut s = String::from_str("https://www.youtube.com/results?search_query=");
    s.append(query);
    s
}

/// The default stream address, as a value.
pub fn default_stream_link() -> (r: String)
    ensures
        r@ == default_stream(),
{
    String::from_str("http://astreaming.virginradio.ro:8000/virgin_aacp_64k")
}

/// The watch address a search-results page resolves to: the first kept
/// candidate, or nothing when extraction fails or finds none.
pub open spec fn spec_search_outcome(page: Seq<char>) -> Option<Seq<char>> {
    match spec_video_ids(page) {
        None => None,
        Some(ids) => if ids.len() == 0 {
            None
        } else {
            Some(watch_prefix() + ids[0])
        },
    }
}

/// Resolves a fetched search-results page to the watch address of its
/// first kept candidate identifier.
pub fn search_result_link(page: &str) -> (r: Result<String, ResolutionError>)
    ensures
        match r {
            Ok(link) => spec_search_outcome(page@) == Some(link@),
            Err(e) => spec_search_outcome(page@) is None && ((e == ResolutionError::NoCandidates)
                <==> spec_video_ids(page@) is Some),
        },
{
    match extract_links(page) {
        Err(e) => Err(e),
        Ok(ids) => {
            if ids.len() == 0 {
                proof {
                    assert(ids@.map_values(|x: String| x@).len() == 0);
                }
                Err(ResolutionError::NoCandidates)
            } else {
                proof {
                    assert(ids@.map_values(|x: String| x@)[0] == ids@[0]@);
                }
                Ok(watch_link(ids[0].as_str()))
            }
        },
    }
}

/// Resolves what can be resolved without leaving the process: a direct
/// link plays verbatim, an empty request plays the default stream, and
/// a search phrase needs a results page first.
pub fn resolve_local(text: &str) -> (r: Option<String>)
    ensures
        match r {
            Some(link) => (spec_classify(text@) == PlayInput::Direct && link@ == text@) || (
            spec_classify(text@) == PlayInput::DefaultStream && link@ == default_stream()),
            None => spec_classify(text@) == PlayInput::Search,
        },
{
    let cs = chars_vec(text);
    match classify(&cs) {
        PlayInput::Direct => Some(String::from_str(text)),
        PlayInput::DefaultStream => Some(default_stream_link()),
        PlayInput::Search => None,
    }
}

} // verus!
