//! Resolution: a reference as written, checked against the canon and put in
//! canonical form.
use vstd::prelude::*;
use crate::canon::{Canon, Confidence};
use crate::parse::{scan, scan_chars, Joint, Locator};
use crate::text::chars_of;

verus! {

/// The verses of a chapter that a reference points at.
#[derive(Debug, Clone, Copy, PartialEq, Eq, Structural)]
pub enum Verses {
    /// The whole chapter.
    Whole,
    /// One verse.
    One(u32),
    /// The verses from the first to the second, the first below the second.
    Through(u32, u32),
    /// Two verses, the first below the second.
    And(u32, u32),
}

/// A reference in canonical form: a book by its position in the canon, a
/// chapter (from 1) and the verses of that chapter.
#[derive(Debug, Clone, Copy, PartialEq, Eq, Structural)]
pub struct Reference {
    pub book: usize,
    pub chapter: u32,
    pub verses: Verses,
}

/// Which number of a reference lies beyond the canon.
#[derive(Debug, Clone, Copy, PartialEq, Eq, Structural)]
pub enum Field {
    Chapter,
    Verse,
}

/// Why one reading of a reference, for one book, does not stand.
#[derive(Debug, Clone, Copy, PartialEq, Eq, Structural)]
pub enum Problem {
    /// The numbers from this position (in characters) do not form a locator
    /// for the book.
    Malformed(usize),
    /// The book alone, for a book of several chapters.
    Incomplete(usize),
    /// The number is larger than the largest of its kind there (the third).
    OutOfRange(Field, u32, u32),
}

/// Why a reference does not resolve.
#[derive(Debug, PartialEq, Eq)]
pub enum ReferenceError {
    /// The text from the point where it stops being a reference.
    Malformed(String),
    /// A book alone, where a chapter is needed.
    Incomplete(usize),
    /// No book matches the book part.
    UnknownBook,
    /// Several books match the book part equally well: all that match,
    /// best first.
    Ambiguous(Vec<(usize, Confidence)>),
    /// A chapter or verse beyond the canon: which one, its value, the largest
    /// there is.
    OutOfRange(Field, u32, u32),
    /// A verse of a valid reference whose text the store lacks.
    ContentUnavailable(u32),
}

/// One reading of a reference, before it is checked against the canon: a
/// book that its book part matches, how well, the book part as written, and
/// the numbers that follow it.
pub struct ParseCandidate {
    pub book: usize,
    pub confidence: Confidence,
    pub matched: String,
    pub locator: Locator,
}

/// How a reference resolves, or why it does not.
pub enum Resolution {
    Found(Reference),
    Failed(Problem),
    Unknown,
    Ambiguous(Seq<(usize, Confidence)>),
}

/// The verses from `v` joined to `w`; none where `w` comes before `v`.
pub open spec fn verses_of(v: u32, j: Joint, w: u32) -> Option<Verses> {
    if w < v {
        None
    } else if w == v {
        Some(Verses::One(v))
    } else {
        match j {
            Joint::Through => Some(Verses::Through(v, w)),
            Joint::And => Some(Verses::And(v, w)),
        }
    }
}

/// The chapter and verses that a locator names in a book; `single` tells
/// whether the book has one chapter, in which a lone number is a verse and a
/// book alone is its chapter. `b` is where the numbers start.
pub open spec fn interpret(l: Locator, single: bool, book: usize, b: usize) -> Result<(u32, Verses), Problem> {
    match l {
        Locator::Nothing => if single {
            Ok((1, Verses::Whole))
        } else {
            Err(Problem::Incomplete(book))
        },
        Locator::One(n) => if single {
            Ok((1, Verses::One(n)))
        } else {
            Ok((n, Verses::Whole))
        },
        Locator::Two(c, v) => Ok((c, Verses::One(v))),
        Locator::Three(c, v, j, w) => match verses_of(v, j, w) {
            Some(vs) => Ok((c, vs)),
            None => Err(Problem::Malformed(b)),
        },
        Locator::Span(v, j, w) => if !single {
            Err(Problem::Malformed(b))
        } else {
            match verses_of(v, j, w) {
                Some(vs) => Ok((1, vs)),
                None => Err(Problem::Malformed(b)),
            }
        },
    }
}

/// The last verse that verses name, or none for a whole chapter.
pub open spec fn last_verse(vs: Verses) -> Option<u32> {
    match vs {
        Verses::Whole => None,
        Verses::One(v) => Some(v),
        Verses::Through(_, w) => Some(w),
        Verses::And(_, w) => Some(w),
    }
}

/// The chapter and verses, checked against the extents of the book.
pub open spec fn validate(canon: Canon, book: usize, c: u32, vs: Verses) -> Result<Reference, Problem> {
    if c > canon.chapters(book as int) {
        Err(Problem::OutOfRange(Field::Chapter, c, canon.chapters(book as int) as u32))
    } else if last_verse(vs) is Some && last_verse(vs).unwrap() > canon.verses(book as int, c as int) {
        Err(Problem::OutOfRange(Field::Verse, last_verse(vs).unwrap(), canon.verses(book as int, c as int) as u32))
    } else {
        Ok(Reference { book, chapter: c, verses: vs })
    }
}

/// One reading: the locator for one candidate book.
pub open spec fn attempt(canon: Canon, book: usize, l: Locator, b: usize) -> Result<Reference, Problem> {
    match interpret(l, canon.books()[book as int].single_chapter, book, b) {
        Ok((c, vs)) => validate(canon, book, c, vs),
        Err(p) => Err(p),
    }
}

/// The first reading, from candidate `i` on, that stands.
pub open spec fn first_standing(canon: Canon, cs: Seq<(usize, Confidence)>, l: Locator, b: usize, i: int) -> Option<Reference>
    decreases cs.len() - i,
{
    if i >= cs.len() || i < 0 {
        None
    } else {
        match attempt(canon, cs[i].0, l, b) {
            Ok(r) => Some(r),
            Err(_) => first_standing(canon, cs, l, b, i + 1),
        }
    }
}

/// How the text `s` resolves in the canon. No matching book: unknown. Two best
/// matches of one confidence: ambiguous. Otherwise the candidates are tried
/// best first; the first reading that stands is the result, and where none
/// does, the best candidate's problem is.
pub open spec fn resolution(canon: Canon, s: Seq<char>) -> Resolution {
    match scan(s) {
        Err(p) => Resolution::Failed(Problem::Malformed(p as usize)),
        Ok((key, b, l)) => {
            let cs = canon.candidates_of(key);
            if cs.len() == 0 {
                Resolution::Unknown
            } else if cs.len() >= 2 && cs[0].1 == cs[1].1 {
                Resolution::Ambiguous(cs)
            } else {
                match first_standing(canon, cs, l, b as usize, 0) {
                    Some(r) => Resolution::Found(r),
                    None => match attempt(canon, cs[0].0, l, b as usize) {
                        Err(p) => Resolution::Failed(p),
                        Ok(r) => Resolution::Found(r),
                    },
                }
            }
        },
    }
}

/// `r` is a malformed-reference error holding the text of `s` from `p` on.
pub open spec fn malformed_from<T>(r: Result<T, ReferenceError>, s: Seq<char>, p: int) -> bool {
    r matches Err(ReferenceError::Malformed(t)) && t@ == s.subrange(p, s.len() as int)
}

/// `r` reports the resolution `o` of the text `s`.
pub open spec fn reports(r: Result<Reference, ReferenceError>, s: Seq<char>, o: Resolution) -> bool {
    match o {
        Resolution::Found(x) => r == Ok::<Reference, ReferenceError>(x),
        Resolution::Failed(Problem::Malformed(p)) => r matches Err(ReferenceError::Malformed(t)) && t@ == s.subrange(p as int, s.len() as int),
        Resolution::Failed(Problem::Incomplete(b)) => r matches Err(ReferenceError::Incomplete(x)) && x == b,
        Resolution::Failed(Problem::OutOfRange(f, v, m)) => r matches Err(ReferenceError::OutOfRange(f2, v2, m2)) && f2 == f && v2 == v && m2 == m,
        Resolution::Unknown => r matches Err(ReferenceError::UnknownBook),
        Resolution::Ambiguous(cs) => r matches Err(ReferenceError::Ambiguous(v)) && v@ == cs,
    }
}

fn verses_from(v: u32, j: Joint, w: u32) -> (r: Option<Verses>)
    ensures
        r == verses_of(v, j, w),
{
    if w < v {
        None
    } else if w == v {
        Some(Verses::One(v))
    } else {
        match j {
            Joint::Through => Some(Verses::Through(v, w)),
            Joint::And => Some(Verses::And(v, w)),
        }
    }
}

/// Reads a locator for one book.
pub fn interpret_locator(l: Locator, single: bool, book: usize, b: usize) -> (r: Result<(u32, Verses), Problem>)
    ensures
        r == interpret(l, single, book, b),
{
    match l {
        Locator::Nothing => if single {
            Ok((1, Verses::Whole))
        } else {
            Err(Problem::Incomplete(book))
        },
        Locator::One(n) => if single {
            Ok((1, Verses::One(n)))
        } else {
            Ok((n, Verses::Whole))
        },
        Locator::Two(c, v) => Ok((c, Verses::One(v))),
        Locator::Three(c, v, j, w) => match verses_from(v, j, w) {
            Some(vs) => Ok((c, vs)),
            None => Err(Problem::Malformed(b)),
        },
        Locator::Span(v, j, w) => if !single {
            Err(Problem::Malformed(b))
        } else {
            match verses_from(v, j, w) {
                Some(vs) => Ok((1, vs)),
                None => Err(Problem::Malformed(b)),
            }
        },
    }
}

/// Checks a chapter and verses against the extents of a book.
pub fn validate_reference(canon: &Canon, book: usize, c: u32, vs: Verses) -> (r: Result<Reference, Problem>)
    requires
        canon.wf(),
        book < canon.books().len(),
    ensures
        r == validate(*canon, book, c, vs),
{
    let chapters = canon.chapter_count(book);
    if c > chapters {
        return Err(Problem::OutOfRange(Field::Chapter, c, chapters));
    }
    let last = match vs {
        Verses::Whole => None,
        Verses::One(v) => Some(v),
        Verses::Through(_, w) => Some(w),
        Verses::And(_, w) => Some(w),
    };
    match last {
        Some(v) => {
            let most = canon.verse_count(book, c);
            if v > most {
                return Err(Problem::OutOfRange(Field::Verse, v, most));
            }
        },
        None => {},
    }
    Ok(Reference { book, chapter: c, verses: vs })
}

fn try_candidate(canon: &Canon, book: usize, l: Locator, b: usize) -> (r: Result<Reference, Problem>)
    requires
        canon.wf(),
        book < canon.books().len(),
    ensures
        r == attempt(*canon, book, l, b),
{
    match interpret_locator(l, canon.book(book).single_chapter, book, b) {
        Ok((c, vs)) => validate_reference(canon, book, c, vs),
        Err(p) => Err(p),
    }
}

fn report_problem(input: &str, p: Problem) -> (r: ReferenceError)
    requires
        p matches Problem::Malformed(i) ==> i <= input@.len(),
    ensures
        reports(Err(r), input@, Resolution::Failed(p)),
{
    match p {
        Problem::Malformed(i) => {
            let n = input.unicode_len();
            ReferenceError::Malformed(input.substring_char(i, n).to_owned())
        },
        Problem::Incomplete(b) => ReferenceError::Incomplete(b),
        Problem::OutOfRange(f, v, m) => ReferenceError::OutOfRange(f, v, m),
    }
}

/// The readings of a reference: one per matching book, best confidence
/// first and in canonical order within one confidence; or the text from the
/// point where it stops being a reference.
pub fn parse(canon: &Canon, input: &str) -> (r: Result<Vec<ParseCandidate>, ReferenceError>)
    requires
        canon.wf(),
    ensures
        scan(input@) matches Err(p) ==> malformed_from(r, input@, p),
        r is Ok <==> scan(input@) is Ok,
        r matches Ok(v) ==> scan(input@) matches Ok((key, b, l)) && v@.len() == canon.candidates_of(key).len()
            && forall|i: int| 0 <= i < v@.len() ==> {
                &&& (#[trigger] v@[i]).book == canon.candidates_of(key)[i].0
                &&& v@[i].confidence == canon.candidates_of(key)[i].1
                &&& v@[i].matched@ == input@.subrange(0, b)
                &&& v@[i].locator == l
            },
{
    let s = chars_of(input);
    match scan_chars(&s) {
        Err(p) => Err(report_problem(input, Problem::Malformed(p))),
        Ok((key, b, l)) => {
            let cs = canon.candidates(&key);
            let mut out: Vec<ParseCandidate> = Vec::new();
            let mut i: usize = 0;
            while i < cs.len()
                invariant
                    i <= cs@.len(),
                    b <= input@.len(),
                    out@.len() == i,
                    forall|k: int| 0 <= k < i ==> {
                        &&& (#[trigger] out@[k]).book == cs@[k].0
                        &&& out@[k].confidence == cs@[k].1
                        &&& out@[k].matched@ == input@.subrange(0, b as int)
                        &&& out@[k].locator == l
                    },
                decreases cs@.len() - i,
            {
                let matched = input.substring_char(0, b).to_owned();
                out.push(ParseCandidate { book: cs[i].0, confidence: cs[i].1, matched, locator: l });
                i = i + 1;
            }
            Ok(out)
        },
    }
}

/// Resolves a reference such as "John 3:16", "john+3:16-18", "1jn 2" or
/// "jude 5" against the canon.
pub fn resolve(canon: &Canon, input: &str) -> (r: Result<Reference, ReferenceError>)
    requires
        canon.wf(),
    ensures
        reports(r, input@, resolution(*canon, input@)),
{
    let s = chars_of(input);
    match scan_chars(&s) {
        Err(p) => {
            Err(report_problem(input, Problem::Malformed(p)))
        },
        Ok((key, b, l)) => {
            let cs = canon.candidates(&key);
            proof { candidates_in_canon(*canon, key@); }
            if cs.len() == 0 {
                return Err(ReferenceError::UnknownBook);
            }
            if cs.len() >= 2 && cs[0].1 == cs[1].1 {
                return Err(ReferenceError::Ambiguous(cs));
            }
            let mut i: usize = 0;
            while i < cs.len()
                invariant
                    canon.wf(),
                    cs@ == canon.candidates_of(key@),
                    scan(input@) == Ok::<(Seq<char>, int, Locator), int>((key@, b as int, l)),
                    b <= input@.len(),
                    cs@.len() >= 1,
                    !(cs@.len() >= 2 && cs@[0].1 == cs@[1].1),
                    forall|k: int| 0 <= k < cs@.len() ==> (#[trigger] cs@[k]).0 < canon.books().len(),
                    i <= cs@.len(),
                    first_standing(*canon, cs@, l, b, 0) == first_standing(*canon, cs@, l, b, i as int),
                decreases cs@.len() - i,
            {
                match try_candidate(canon, cs[i].0, l, b) {
                    Ok(r) => {
                        assert(first_standing(*canon, cs@, l, b, i as int) == Some(r));
                        return Ok(r);
                    },
                    Err(_) => {},
                }
                i = i + 1;
            }
            match try_candidate(canon, cs[0].0, l, b) {
                Ok(r) => Ok(r),
                Err(p) => Err(report_problem(input, p)),
            }
        },
    }
}

/// The candidates are books of the canon.
proof fn candidates_in_canon(canon: Canon, q: Seq<char>)
    requires
        canon.wf(),
    ensures
        forall|k: int| 0 <= k < canon.candidates_of(q).len() ==> (#[trigger] canon.candidates_of(q)[k]).0 < canon.books().len(),
{
    let n = canon.books().len() as int;
    canon.lemma_wf();
    canon.lemma_books_at_below(q, Confidence::Exact, n);
    canon.lemma_books_at_below(q, Confidence::Prefix, n);
    canon.lemma_books_at_below(q, Confidence::Fuzzy, n);
    let a = canon.books_at(q, Confidence::Exact, n);
    let b = canon.books_at(q, Confidence::Prefix, n);
    let c = canon.books_at(q, Confidence::Fuzzy, n);
    assert forall|k: int| 0 <= k < canon.candidates_of(q).len() implies (#[trigger] canon.candidates_of(q)[k]).0 < n by {
        if k < a.len() {
            assert(canon.candidates_of(q)[k] == a[k]);
        } else if k < a.len() + b.len() {
            assert(canon.candidates_of(q)[k] == b[k - a.len()]);
        } else {
            assert(canon.candidates_of(q)[k] == c[k - a.len() - b.len()]);
        }
    }
}

/// The order of confidences: exact, then prefix, then fuzzy.
pub open spec fn confidence_rank(c: Confidence) -> int {
    match c {
        Confidence::Exact => 0,
        Confidence::Prefix => 1,
        Confidence::Fuzzy => 2,
    }
}

/// A reference whose book part two books match equally well at best is
/// ambiguous: the error lists every matching book, ordered by confidence.
pub proof fn lemma_ambiguous_reference(canon: Canon, s: Seq<char>)
    requires
        canon.wf(),
        scan(s) is Ok,
        canon.candidates_of(scan(s)->Ok_0.0).len() >= 2,
        canon.candidates_of(scan(s)->Ok_0.0)[0].1 == canon.candidates_of(scan(s)->Ok_0.0)[1].1,
    ensures
        resolution(canon, s) == Resolution::Ambiguous(canon.candidates_of(scan(s)->Ok_0.0)),
        forall|i: int, j: int|
            0 <= i < j < canon.candidates_of(scan(s)->Ok_0.0).len() ==> confidence_rank(
                (#[trigger] canon.candidates_of(scan(s)->Ok_0.0)[i]).1,
            ) <= confidence_rank((#[trigger] canon.candidates_of(scan(s)->Ok_0.0)[j]).1),
{
    canon.lemma_wf();
    let q = scan(s)->Ok_0.0;
    let n = canon.books().len() as int;
    canon.lemma_books_at_below(q, Confidence::Exact, n);
    canon.lemma_books_at_below(q, Confidence::Prefix, n);
    canon.lemma_books_at_below(q, Confidence::Fuzzy, n);
    let a = canon.books_at(q, Confidence::Exact, n);
    let b = canon.books_at(q, Confidence::Prefix, n);
    let c = canon.books_at(q, Confidence::Fuzzy, n);
    let cs = canon.candidates_of(q);
    assert forall|k: int| 0 <= k < cs.len() implies confidence_rank(#[trigger] cs[k].1) == if k < a.len() {
        0int
    } else if k < a.len() + b.len() {
        1int
    } else {
        2int
    } by {
        if k < a.len() {
            assert(cs[k] == a[k]);
        } else if k < a.len() + b.len() {
            assert(cs[k] == b[k - a.len()]);
        } else {
            assert(cs[k] == c[k - a.len() - b.len()]);
        }
    }
}

} // verus!
