//! The canonical text of a reference, and the law that resolving it gives the
//! reference back.
use vstd::prelude::*;
use crate::canon::{book_keys, book_ok, Canon, Confidence};
use crate::parse::{
    book_end, digit_at, digit_p, joined_at, letter_p, locator_at, non_digit_p, number_at, number_ok,
    run_end, scan, Locator,
};
use crate::resolve::{attempt, first_standing, resolution, Field, Problem, Reference, Resolution, Verses};
use crate::text::{dec, digit_char, first_at, is_book_key, is_digit, is_letter, key_of, lemma_dec, lemma_digit_char, lemma_first_at};

verus! {

/// A reference that the canon holds: a book of it, a chapter of that book,
/// and verses of that chapter, a range or pair running upwards.
pub open spec fn valid_reference(canon: Canon, r: Reference) -> bool {
    &&& r.book < canon.books().len()
    &&& 1 <= r.chapter <= canon.chapters(r.book as int)
    &&& match r.verses {
        Verses::Whole => true,
        Verses::One(v) => 1 <= v <= canon.verses(r.book as int, r.chapter as int),
        Verses::Through(v, w) => 1 <= v < w <= canon.verses(r.book as int, r.chapter as int),
        Verses::And(v, w) => 1 <= v < w <= canon.verses(r.book as int, r.chapter as int),
    }
}

/// The numbers of a reference as text: "3", "3:16", "3:16-18", "3:16,18".
pub open spec fn locator_text(c: u32, vs: Verses) -> Seq<char> {
    match vs {
        Verses::Whole => dec(c as nat),
        Verses::One(v) => dec(c as nat) + seq![':'] + dec(v as nat),
        Verses::Through(v, w) => dec(c as nat) + seq![':'] + dec(v as nat) + seq!['-'] + dec(w as nat),
        Verses::And(v, w) => dec(c as nat) + seq![':'] + dec(v as nat) + seq![','] + dec(w as nat),
    }
}

/// The canonical text of a reference: the book's name, a space and the
/// numbers; the name alone for the whole of a book of one chapter.
pub open spec fn reference_text(canon: Canon, r: Reference) -> Seq<char> {
    let book = canon.books()[r.book as int];
    if book.single_chapter && r.verses == Verses::Whole {
        book.name@
    } else {
        book.name@ + seq![' '] + locator_text(r.chapter, r.verses)
    }
}

fn digit_str(d: u32) -> (r: &'static str)
    requires
        d < 10,
    ensures
        r@ == seq![digit_char(d as nat)],
{
    proof {
        reveal_strlit("0");
        reveal_strlit("1");
        reveal_strlit("2");
        reveal_strlit("3");
        reveal_strlit("4");
        reveal_strlit("5");
        reveal_strlit("6");
        reveal_strlit("7");
        reveal_strlit("8");
        reveal_strlit("9");
    }
    let r = match d {
        0 => "0",
        1 => "1",
        2 => "2",
        3 => "3",
        4 => "4",
        5 => "5",
        6 => "6",
        7 => "7",
        8 => "8",
        _ => "9",
    };
    assert(r@ =~= seq![digit_char(d as nat)]);
    r
}

/// Appends the decimal writing of `n`.
pub fn append_dec(out: &mut String, n: u32)
    ensures
        final(out)@ == old(out)@ + dec(n as nat),
    decreases n,
{
    if n >= 10 {
        append_dec(out, n / 10);
        out.append(digit_str(n % 10));
        assert(dec(n as nat) == dec((n / 10) as nat).push(digit_char((n % 10) as nat)));
    } else {
        out.append(digit_str(n));
    }
    assert(final(out)@ =~= old(out)@ + dec(n as nat));
}

fn append_char_str(out: &mut String, s: &str, c: char)
    requires
        s@ == seq![c],
    ensures
        final(out)@ == old(out)@ + seq![c],
{
    out.append(s);
}

/// The numbers of a reference as text.
pub fn append_locator(out: &mut String, c: u32, vs: Verses)
    ensures
        final(out)@ == old(out)@ + locator_text(c, vs),
{
    proof {
        reveal_strlit(":");
        reveal_strlit("-");
        reveal_strlit(",");
        assert(":"@ =~= seq![':']);
        assert("-"@ =~= seq!['-']);
        assert(","@ =~= seq![',']);
    }
    let ghost start = out@;
    append_dec(out, c);
    match vs {
        Verses::Whole => {},
        Verses::One(v) => {
            append_char_str(out, ":", ':');
            append_dec(out, v);
        },
        Verses::Through(v, w) => {
            append_char_str(out, ":", ':');
            append_dec(out, v);
            append_char_str(out, "-", '-');
            append_dec(out, w);
        },
        Verses::And(v, w) => {
            append_char_str(out, ":", ':');
            append_dec(out, v);
            append_char_str(out, ",", ',');
            append_dec(out, w);
        },
    }
    assert(out@ =~= start + locator_text(c, vs));
}

/// The canonical text of a reference, such as "John 3:16-18" or "Jude".
pub fn format_reference(canon: &Canon, r: &Reference) -> (s: String)
    requires
        r.book < canon.books().len(),
    ensures
        s@ == reference_text(*canon, *r),
{
    let book = canon.book(r.book);
    let mut out = String::new();
    out.append(book.name.as_str());
    if book.single_chapter && r.verses == Verses::Whole {
        return out;
    }
    proof {
        reveal_strlit(" ");
        assert(" "@ =~= seq![' ']);
    }
    append_char_str(&mut out, " ", ' ');
    append_locator(&mut out, r.chapter, r.verses);
    out
}

/// What `first_at` finds: nothing satisfying `p` before it, and a hit unless
/// it is the end.
proof fn lemma_first_at_props(s: Seq<char>, i: int, p: spec_fn(char) -> bool)
    requires
        0 <= i <= s.len(),
    ensures
        i <= first_at(s, i, p) <= s.len(),
        forall|k: int| i <= k < first_at(s, i, p) ==> !p(#[trigger] s[k]),
        first_at(s, i, p) < s.len() ==> p(s[first_at(s, i, p)]),
    decreases s.len() - i,
{
    if i < s.len() && !p(s[i]) {
        lemma_first_at_props(s, i + 1, p);
    }
}

/// A number written in decimal between `a` and text that does not go on with
/// a digit reads back as itself.
proof fn lemma_number_in(a: Seq<char>, n: nat, b: Seq<char>)
    requires
        1 <= n <= u32::MAX,
        b.len() == 0 || !is_digit(b[0]),
    ensures
        run_end(a + dec(n) + b, a.len() as int) == a.len() + dec(n).len(),
        number_at(a + dec(n) + b, a.len() as int) == n,
        number_ok(a + dec(n) + b, a.len() as int),
        digit_at(a + dec(n) + b, a.len() as int),
{
    let s = a + dec(n) + b;
    let i = a.len() as int;
    let j = i + dec(n).len();
    lemma_dec(n);
    assert forall|k: int| i <= k < j implies !non_digit_p()(#[trigger] s[k]) by {
        assert(s[k] == dec(n)[k - i]);
    }
    if j < s.len() {
        assert(s[j] == b[0]);
    }
    lemma_first_at(s, i, j, non_digit_p());
    assert(s.subrange(i, j) =~= dec(n));
    assert(s[i] == dec(n)[0]);
}

/// The key of a name followed by a space is the key of the name.
proof fn lemma_key_space(name: Seq<char>)
    ensures
        key_of(name.push(' ')) == key_of(name),
{
    assert(name.push(' ').drop_last() =~= name);
}

/// The locator that `locator_text(c, vs)` writes.
pub open spec fn written_locator(c: u32, vs: Verses) -> Locator {
    match vs {
        Verses::Whole => Locator::One(c),
        Verses::One(v) => Locator::Two(c, v),
        Verses::Through(v, w) => Locator::Three(c, v, crate::parse::Joint::Through, w),
        Verses::And(v, w) => Locator::Three(c, v, crate::parse::Joint::And, w),
    }
}

/// Verses whose numbers are from 1 and run upwards.
pub open spec fn verses_shaped(vs: Verses) -> bool {
    match vs {
        Verses::Whole => true,
        Verses::One(v) => 1 <= v,
        Verses::Through(v, w) => 1 <= v < w,
        Verses::And(v, w) => 1 <= v < w,
    }
}

/// The name of book `x`: where a text that starts with it ends its book part,
/// followed by a space and digits or by nothing, and what key that part has.
proof fn lemma_book_part(canon: Canon, x: int, tail: Seq<char>)
    requires
        canon.wf(),
        0 <= x < canon.books().len(),
        tail.len() == 0 || is_digit(tail[0]),
    ensures
        ({
            let name = canon.books()[x].name@;
            let s = if tail.len() == 0 { name } else { name.push(' ') + tail };
            let b = if tail.len() == 0 { name.len() as int } else { (name.len() + 1) as int };
            &&& first_at(s, 0, letter_p()) < s.len()
            &&& book_end(s) == b
            &&& key_of(s.subrange(0, b)) == key_of(name)
        }),
{
    canon.lemma_wf();
    let book = canon.books()[x];
    let name = book.name@;
    let s = if tail.len() == 0 { name } else { name.push(' ') + tail };
    assert(book_ok(book));
    let i0 = choose|i: int| 0 <= i < name.len() && is_letter(#[trigger] name[i]);
    assert(s.subrange(0, name.len() as int) =~= name);
    assert(s[i0] == name[i0]);
    lemma_first_at_props(s, 0, letter_p());
    let f = first_at(s, 0, letter_p());
    assert(f <= i0);
    assert(s[f] == name[f]);
    assert forall|k: int| f <= k < name.len() implies !digit_p()(#[trigger] s[k]) by {
        assert(s[k] == name[k]);
        if k > f {
            assert(is_letter(name[f]));
        }
    }
    if tail.len() == 0 {
        lemma_first_at(s, f, name.len() as int, digit_p());
        assert(s.subrange(0, name.len() as int) =~= name);
    } else {
        let b = (name.len() + 1) as int;
        assert(s[name.len() as int] == ' ');
        assert(s[b] == tail[0]);
        assert forall|k: int| f <= k < b implies !digit_p()(#[trigger] s[k]) by {
            if k == name.len() {
                assert(s[k] == ' ');
            }
        }
        lemma_first_at(s, f, b, digit_p());
        assert(s.subrange(0, b) =~= name.push(' '));
        lemma_key_space(name);
    }
}

/// The book's own name matches it exactly and no other book so, so it comes
/// first among the candidates and no other candidate has its confidence.
proof fn lemma_name_candidates(canon: Canon, x: int)
    requires
        canon.wf(),
        0 <= x < canon.books().len(),
    ensures
        ({
            let cs = canon.candidates_of(key_of(canon.books()[x].name@));
            &&& cs.len() >= 1
            &&& cs[0] == (x as usize, Confidence::Exact)
            &&& !(cs.len() >= 2 && cs[0].1 == cs[1].1)
        }),
{
    canon.lemma_wf();
    let book = canon.books()[x];
    let q = key_of(book.name@);
    assert(book_keys(book)[0] == q);
    assert(canon.matches_at(x, q, Confidence::Exact));
    assert forall|j: int| 0 <= j < canon.books().len() && j != x implies canon.confidence_of(j, q) != Some(Confidence::Exact) by {
        if canon.matches_at(j, q, Confidence::Exact) {
            let ks = book_keys(canon.books()[j]);
            let k = choose|k: int| 0 <= k < ks.len() && crate::canon::key_matches(q, #[trigger] ks[k], Confidence::Exact);
            assert(book_keys(canon.books()[j])[k] != book_keys(canon.books()[x])[0]);
        }
    }
    let n = canon.books().len() as int;
    canon.lemma_books_at_one(q, Confidence::Exact, n, x);
    canon.lemma_books_at_below(q, Confidence::Prefix, n);
    canon.lemma_books_at_below(q, Confidence::Fuzzy, n);
    let cs = canon.candidates_of(q);
    let pre = canon.books_at(q, Confidence::Prefix, n);
    let fuz = canon.books_at(q, Confidence::Fuzzy, n);
    assert(cs[0] == (x as usize, Confidence::Exact));
    if cs.len() >= 2 {
        if pre.len() > 0 {
            assert(cs[1] == pre[0]);
        } else {
            assert(cs[1] == fuz[0]);
        }
    }
}

/// Written numbers read back as the locator they write.
#[verifier::rlimit(30)]
proof fn lemma_numbers(head: Seq<char>, c: u32, vs: Verses)
    requires
        1 <= c,
        verses_shaped(vs),
    ensures
        locator_at(head + locator_text(c, vs), head.len() as int) == Ok::<Locator, int>(written_locator(c, vs)),
        is_digit(locator_text(c, vs)[0]),
{
    let s = head + locator_text(c, vs);
    let n = c as nat;
    lemma_dec(n);
    match vs {
        Verses::Whole => {
            assert(s =~= head + dec(n) + Seq::<char>::empty());
            lemma_number_in(head, n, Seq::<char>::empty());
        },
        Verses::One(v) => {
            let tail = seq![':'] + dec(v as nat);
            lemma_dec(v as nat);
            assert(s =~= head + dec(n) + tail);
            lemma_number_in(head, n, tail);
            let a2 = head + dec(n) + seq![':'];
            assert(s =~= a2 + dec(v as nat) + Seq::<char>::empty());
            lemma_number_in(a2, v as nat, Seq::<char>::empty());
        },
        Verses::Through(v, w) => {
            lemma_dec(v as nat);
            lemma_dec(w as nat);
            let tail = seq![':'] + dec(v as nat) + seq!['-'] + dec(w as nat);
            assert(s =~= head + dec(n) + tail);
            lemma_number_in(head, n, tail);
            let a2 = head + dec(n) + seq![':'];
            let t2 = seq!['-'] + dec(w as nat);
            assert(s =~= a2 + dec(v as nat) + t2);
            lemma_number_in(a2, v as nat, t2);
            let a3 = a2 + dec(v as nat) + seq!['-'];
            assert(s =~= a3 + dec(w as nat) + Seq::<char>::empty());
            lemma_number_in(a3, w as nat, Seq::<char>::empty());
            assert(s[a3.len() - 1] == '-');
        },
        Verses::And(v, w) => {
            lemma_dec(v as nat);
            lemma_dec(w as nat);
            let tail = seq![':'] + dec(v as nat) + seq![','] + dec(w as nat);
            assert(s =~= head + dec(n) + tail);
            lemma_number_in(head, n, tail);
            let a2 = head + dec(n) + seq![':'];
            let t2 = seq![','] + dec(w as nat);
            assert(s =~= a2 + dec(v as nat) + t2);
            lemma_number_in(a2, v as nat, t2);
            let a3 = a2 + dec(v as nat) + seq![','];
            assert(s =~= a3 + dec(w as nat) + Seq::<char>::empty());
            lemma_number_in(a3, w as nat, Seq::<char>::empty());
            assert(s[a3.len() - 1] == ',');
        },
    }
    assert(locator_text(c, vs)[0] == dec(n)[0]);
}

/// How book `x`'s name, a space and written numbers scan.
proof fn lemma_scan_written(canon: Canon, x: int, c: u32, vs: Verses)
    requires
        canon.wf(),
        0 <= x < canon.books().len(),
        1 <= c,
        verses_shaped(vs),
    ensures
        ({
            let name = canon.books()[x].name@;
            scan(name.push(' ') + locator_text(c, vs))
                == Ok::<(Seq<char>, int, Locator), int>((key_of(name), (name.len() + 1) as int, written_locator(c, vs)))
        }),
{
    let name = canon.books()[x].name@;
    lemma_numbers(name.push(' '), c, vs);
    lemma_book_part(canon, x, locator_text(c, vs));
}

/// Resolving the canonical text of a valid reference gives the reference
/// back: the text names its book by the book's own name, which no other book
/// shares, and its numbers read back as written.
pub proof fn lemma_round_trip(canon: Canon, r: Reference)
    requires
        canon.wf(),
        valid_reference(canon, r),
    ensures
        resolution(canon, reference_text(canon, r)) == Resolution::Found(r),
{
    canon.lemma_wf();
    let x = r.book as int;
    let book = canon.books()[x];
    assert(book_ok(book));
    let s = reference_text(canon, r);
    let q = key_of(book.name@);
    lemma_name_candidates(canon, x);
    let cs = canon.candidates_of(q);
    if book.single_chapter && r.verses == Verses::Whole {
        lemma_book_part(canon, x, Seq::<char>::empty());
        let b = book.name@.len() as int;
        assert(scan(s) == Ok::<(Seq<char>, int, Locator), int>((q, b, Locator::Nothing)));
        assert(attempt(canon, r.book, Locator::Nothing, b as usize) == Ok::<Reference, crate::resolve::Problem>(r));
        assert(first_standing(canon, cs, Locator::Nothing, b as usize, 0) == Some(r));
    } else {
        lemma_scan_written(canon, x, r.chapter, r.verses);
        let b = (book.name@.len() + 1) as int;
        let l = written_locator(r.chapter, r.verses);
        assert(s =~= book.name@.push(' ') + locator_text(r.chapter, r.verses));
        assert(scan(s) == Ok::<(Seq<char>, int, Locator), int>((q, b, l)));
        assert(attempt(canon, r.book, l, b as usize) == Ok::<Reference, crate::resolve::Problem>(r));
        assert(first_standing(canon, cs, l, b as usize, 0) == Some(r));
    }
}

/// Every chapter of a book is accepted: the book's name, a space and
/// "chapter:1" resolve to verse 1 of that chapter, and for a book of several
/// chapters the name, a space and the chapter alone resolve to the chapter.
pub proof fn lemma_chapters_accepted(canon: Canon, x: usize, c: u32)
    requires
        canon.wf(),
        x < canon.books().len(),
        1 <= c <= canon.chapters(x as int),
    ensures
        resolution(canon, canon.books()[x as int].name@.push(' ') + locator_text(c, Verses::One(1)))
            == Resolution::Found(Reference { book: x, chapter: c, verses: Verses::One(1) }),
        !canon.books()[x as int].single_chapter ==> resolution(
            canon,
            canon.books()[x as int].name@.push(' ') + locator_text(c, Verses::Whole),
        ) == Resolution::Found(Reference { book: x, chapter: c, verses: Verses::Whole }),
{
    canon.lemma_wf();
    let book = canon.books()[x as int];
    assert(book_ok(book));
    assert(book.verse_counts@[c - 1] >= 1);
    let r1 = Reference { book: x, chapter: c, verses: Verses::One(1) };
    lemma_round_trip(canon, r1);
    assert(reference_text(canon, r1) =~= book.name@.push(' ') + locator_text(c, Verses::One(1)));
    if !book.single_chapter {
        let r2 = Reference { book: x, chapter: c, verses: Verses::Whole };
        lemma_round_trip(canon, r2);
        assert(reference_text(canon, r2) =~= book.name@.push(' ') + locator_text(c, Verses::Whole));
    }
}

/// The chapter after a book's last is refused as out of range, where no other
/// book matches the book's name at all (else a reading for that book is
/// tried next).
pub proof fn lemma_chapter_after_last_refused(canon: Canon, x: usize)
    requires
        canon.wf(),
        x < canon.books().len(),
        canon.chapters(x as int) < u32::MAX,
        canon.candidates_of(key_of(canon.books()[x as int].name@)).len() == 1,
    ensures
        ({
            let n = canon.chapters(x as int);
            resolution(canon, canon.books()[x as int].name@.push(' ') + locator_text((n + 1) as u32, Verses::One(1)))
                == Resolution::Failed(Problem::OutOfRange(Field::Chapter, (n + 1) as u32, n as u32))
        }),
{
    let n = canon.chapters(x as int);
    let c = (n + 1) as u32;
    let name = canon.books()[x as int].name@;
    lemma_scan_written(canon, x as int, c, Verses::One(1));
    lemma_name_candidates(canon, x as int);
    let cs = canon.candidates_of(key_of(name));
    let l = written_locator(c, Verses::One(1));
    let b = (name.len() + 1) as usize;
    assert(attempt(canon, x, l, b) == Err::<Reference, Problem>(Problem::OutOfRange(Field::Chapter, c, n as u32)));
    assert(first_standing(canon, cs, l, b, 1) == None::<Reference>);
    assert(first_standing(canon, cs, l, b, 0) == None::<Reference>);
}

/// In a book of one chapter a lone number is a verse: the name, a space and
/// a verse number resolve to that verse of chapter 1.
pub proof fn lemma_single_chapter_lone_number(canon: Canon, x: usize, v: u32)
    requires
        canon.wf(),
        x < canon.books().len(),
        canon.books()[x as int].single_chapter,
        1 <= v <= canon.verses(x as int, 1),
    ensures
        resolution(canon, canon.books()[x as int].name@.push(' ') + dec(v as nat))
            == Resolution::Found(Reference { book: x, chapter: 1, verses: Verses::One(v) }),
{
    canon.lemma_wf();
    let name = canon.books()[x as int].name@;
    assert(book_ok(canon.books()[x as int]));
    lemma_scan_written(canon, x as int, v, Verses::Whole);
    lemma_name_candidates(canon, x as int);
    let cs = canon.candidates_of(key_of(name));
    let l = Locator::One(v);
    let b = (name.len() + 1) as usize;
    let r = Reference { book: x, chapter: 1, verses: Verses::One(v) };
    assert(attempt(canon, x, l, b) == Ok::<Reference, Problem>(r));
    assert(first_standing(canon, cs, l, b, 0) == Some(r));
}

} // verus!
