//! Search: a query that is a reference navigates to it; any other query is
//! split into terms for the text index, whose hits are ranked here.
use vstd::prelude::*;
use vstd::multiset::Multiset;
use crate::canon::Canon;
use crate::resolve::{resolution, resolve, Reference, Resolution, Verses};
use crate::text::{chars_of, fold, fold_char, is_digit, is_digit_char, is_letter, is_letter_char, key_of, key_of_str};

verus! {

broadcast use vstd::seq_lib::group_to_multiset_ensures;

/// A verse that the text index found for a query, with a short excerpt and
/// its relevance (higher is better).
pub struct TextHit {
    pub reference: Reference,
    pub snippet: String,
    pub score: u32,
}

/// One result of a search.
pub enum SearchResult {
    /// The query is itself a reference.
    ReferenceMatch(Reference),
    /// A verse whose text matches the query.
    TextMatch(TextHit),
}

/// What a query asks for.
pub enum SearchPlan {
    /// Nothing: the query holds no letter or digit.
    Nothing,
    /// The reference that the query is.
    Navigate(Reference),
    /// A text search for these terms, lower-cased.
    Text(Vec<Vec<char>>),
}

pub open spec fn is_word_char(c: char) -> bool {
    is_letter(c) || is_digit(c)
}

/// The terms of a query: its maximal runs of letters and digits, lower-cased.
pub open spec fn terms_of(s: Seq<char>) -> Seq<Seq<char>>
    decreases s.len(),
{
    if s.len() == 0 {
        Seq::empty()
    } else {
        let t = terms_of(s.drop_last());
        let c = s.last();
        if !is_word_char(c) {
            t
        } else if s.len() >= 2 && is_word_char(s[s.len() - 2]) {
            t.update(t.len() - 1, t.last().push(fold(c)))
        } else {
            t.push(seq![fold(c)])
        }
    }
}

/// The first verse that verses name; 0 for a whole chapter, which comes
/// before its verses.
pub open spec fn first_verse(vs: Verses) -> u32 {
    match vs {
        Verses::Whole => 0,
        Verses::One(v) => v,
        Verses::Through(v, _) => v,
        Verses::And(v, _) => v,
    }
}

/// `x` comes no later than `y` in canonical order: by book, chapter, then
/// first verse.
pub open spec fn canonical_le(x: Reference, y: Reference) -> bool {
    ||| x.book < y.book
    ||| (x.book == y.book && x.chapter < y.chapter)
    ||| (x.book == y.book && x.chapter == y.chapter && first_verse(x.verses) <= first_verse(y.verses))
}

/// Hit `a` may stand before hit `b`: a higher score, or an equal score and no
/// later in canonical order.
pub open spec fn ranks_before(a: TextHit, b: TextHit) -> bool {
    a.score > b.score || (a.score == b.score && canonical_le(a.reference, b.reference))
}

pub open spec fn is_ranked(s: Seq<TextHit>) -> bool {
    forall|i: int, j: int| 0 <= i < j < s.len() ==> ranks_before(#[trigger] s[i], #[trigger] s[j])
}

pub open spec fn text_match(h: TextHit) -> SearchResult {
    SearchResult::TextMatch(h)
}

/// The results for hits: the hits ranked best first and cut at `limit`.
pub open spec fn ranks(r: Seq<SearchResult>, hits: Seq<TextHit>, limit: usize) -> bool {
    exists|all: Seq<TextHit>|
        #![trigger all.to_multiset()]
        all.to_multiset() == hits.to_multiset() && is_ranked(all)
            && r == all.take(if limit < all.len() { limit as int } else { all.len() as int }).map_values(|h: TextHit| text_match(h))
}

/// A query with no letter or digit asks for nothing.
pub open spec fn is_blank(s: Seq<char>) -> bool {
    key_of(s).len() == 0
}

fn is_word(c: char) -> (r: bool)
    ensures
        r == is_word_char(c),
{
    is_letter_char(c) || is_digit_char(c)
}

/// The terms of a query.
pub fn query_terms(query: &str) -> (r: Vec<Vec<char>>)
    ensures
        r@.map_values(|t: Vec<char>| t@) == terms_of(query@),
{
    let s = chars_of(query);
    let mut r: Vec<Vec<char>> = Vec::new();
    let mut i: usize = 0;
    while i < s.len()
        invariant
            s@ == query@,
            i <= s@.len(),
            r@.map_values(|t: Vec<char>| t@) == terms_of(s@.subrange(0, i as int)),
            i > 0 && is_word_char(s@[i - 1]) ==> r@.len() > 0,
        decreases s@.len() - i,
    {
        let c = s[i];
        let ghost prev = s@.subrange(0, i as int);
        let ghost next = s@.subrange(0, i + 1);
        assert(next.drop_last() =~= prev);
        if is_word(c) {
            if i > 0 && is_word(s[i - 1]) {
                assert(next[next.len() - 2] == s@[i - 1]);
                let mut last = r.pop().unwrap();
                last.push(fold_char(c));
                r.push(last);
                assert(r@.map_values(|t: Vec<char>| t@) =~= terms_of(next));
            } else {
                let mut w: Vec<char> = Vec::new();
                w.push(fold_char(c));
                r.push(w);
                assert(w@ =~= seq![fold(c)]);
                assert(r@.map_values(|t: Vec<char>| t@) =~= terms_of(next));
            }
        }
        i = i + 1;
    }
    assert(s@.subrange(0, s@.len() as int) =~= query@);
    r
}

fn verse_first(vs: Verses) -> (r: u32)
    ensures
        r == first_verse(vs),
{
    match vs {
        Verses::Whole => 0,
        Verses::One(v) => v,
        Verses::Through(v, _) => v,
        Verses::And(v, _) => v,
    }
}

fn hit_ranks_before(a: &TextHit, b: &TextHit) -> (r: bool)
    ensures
        r == ranks_before(*a, *b),
{
    if a.score != b.score {
        return a.score > b.score;
    }
    let x = a.reference;
    let y = b.reference;
    x.book < y.book || (x.book == y.book && x.chapter < y.chapter) || (x.book == y.book && x.chapter
        == y.chapter && verse_first(x.verses) <= verse_first(y.verses))
}

/// The hits, best first: by score, then in canonical order.
pub fn sort_hits(hits: Vec<TextHit>) -> (r: Vec<TextHit>)
    ensures
        is_ranked(r@),
        r@.to_multiset() == hits@.to_multiset(),
{
    let mut rest = hits;
    let mut out: Vec<TextHit> = Vec::new();
    while rest.len() > 0
        invariant
            is_ranked(out@),
            out@.to_multiset().add(rest@.to_multiset()) == hits@.to_multiset(),
        decreases rest@.len(),
    {
        let ghost before = rest@;
        let h = rest.pop().unwrap();
        assert(before =~= rest@.push(h));
        let mut p: usize = 0;
        while p < out.len() && hit_ranks_before(&out[p], &h)
            invariant
                p <= out@.len(),
                forall|k: int| 0 <= k < p ==> ranks_before(#[trigger] out@[k], h),
            decreases out@.len() - p,
        {
            p = p + 1;
        }
        let ghost old_out = out@;
        out.insert(p, h);
        assert forall|i: int, j: int| 0 <= i < j < out@.len() implies ranks_before(#[trigger] out@[i], #[trigger] out@[j]) by {
            if j < p {
                assert(out@[i] == old_out[i] && out@[j] == old_out[j]);
            } else if j == p {
                assert(out@[i] == old_out[i]);
            } else if i == p {
                assert(out@[j] == old_out[j - 1]);
                assert(ranks_before(h, old_out[p as int]));
            } else if i < p {
                assert(out@[i] == old_out[i] && out@[j] == old_out[j - 1]);
            } else {
                assert(out@[i] == old_out[i - 1] && out@[j] == old_out[j - 1]);
            }
        }
        assert(out@.to_multiset() == old_out.to_multiset().insert(h));
    }
    assert(rest@.to_multiset() =~= Multiset::<TextHit>::empty());
    out
}

/// The results for the hits of a text search: best first, at most `limit`.
pub fn rank_hits(hits: Vec<TextHit>, limit: usize) -> (r: Vec<SearchResult>)
    ensures
        ranks(r@, hits@, limit),
{
    let ghost given = hits@;
    let mut sorted = sort_hits(hits);
    let ghost all = sorted@;
    sorted.truncate(limit);
    let ghost kept = sorted@;
    assert(kept == all.take(if limit < all.len() { limit as int } else { all.len() as int }));
    let mut out: Vec<SearchResult> = Vec::new();
    while sorted.len() > 0
        invariant
            sorted@.len() <= kept.len(),
            sorted@ == kept.take(sorted@.len() as int),
            out@ == kept.skip(sorted@.len() as int).map_values(|h: TextHit| text_match(h)),
        decreases sorted@.len(),
    {
        let h = sorted.pop().unwrap();
        out.insert(0, SearchResult::TextMatch(h));
        assert(out@ =~= kept.skip(sorted@.len() as int).map_values(|h: TextHit| text_match(h)));
    }
    assert(kept.skip(0) =~= kept);
    assert(ranks(out@, given, limit));
    out
}

/// What a query asks for: nothing where it holds no letter or digit; the
/// reference where it resolves to one; else a text search for its terms.
pub fn plan_search(canon: &Canon, query: &str) -> (r: SearchPlan)
    requires
        canon.wf(),
    ensures
        is_blank(query@) <==> r is Nothing,
        !is_blank(query@) ==> (resolution(*canon, query@) matches Resolution::Found(x) ==> r == SearchPlan::Navigate(x)),
        r matches SearchPlan::Navigate(x) ==> resolution(*canon, query@) == Resolution::Found(x),
        r matches SearchPlan::Text(t) ==> t@.map_values(|v: Vec<char>| v@) == terms_of(query@)
            && !(resolution(*canon, query@) is Found),
{
    let k = key_of_str(query);
    if k.len() == 0 {
        return SearchPlan::Nothing;
    }
    match resolve(canon, query) {
        Ok(x) => SearchPlan::Navigate(x),
        Err(_) => SearchPlan::Text(query_terms(query)),
    }
}

/// Searches: an empty result for a query with no letter or digit; the one
/// reference for a query that resolves, and no text hit with it; otherwise
/// the hits of the text index for the query's terms, ranked and cut at
/// `limit`.
pub fn search(canon: &Canon, query: &str, hits: Vec<TextHit>, limit: usize) -> (r: Vec<SearchResult>)
    requires
        canon.wf(),
    ensures
        is_blank(query@) ==> r@.len() == 0,
        !is_blank(query@) ==> (resolution(*canon, query@) matches Resolution::Found(x)
            ==> r@ == seq![SearchResult::ReferenceMatch(x)]),
        !is_blank(query@) && !(resolution(*canon, query@) is Found) ==> ranks(r@, hits@, limit),
{
    match plan_search(canon, query) {
        SearchPlan::Nothing => Vec::new(),
        SearchPlan::Navigate(x) => {
            let mut r: Vec<SearchResult> = Vec::new();
            r.push(SearchResult::ReferenceMatch(x));
            r
        },
        SearchPlan::Text(_) => rank_hits(hits, limit),
    }
}

} // verus!
