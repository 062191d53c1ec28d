use scripture::canon::{Book, Canon, CanonError, Confidence};
use scripture::format::format_reference;
use scripture::parse::{Joint, Locator};
use scripture::resolve::{parse, resolve, Field, Reference, ReferenceError, Verses};

const GENESIS: usize = 0;
const JUDGES: usize = 1;
const JOHN: usize = 2;
const FIRST_JOHN: usize = 3;
const JUDE: usize = 4;

fn book(name: &str, aliases: &[&str], verse_counts: Vec<u32>, single_chapter: bool) -> Book {
    Book {
        name: name.to_string(),
        aliases: aliases.iter().map(|a| a.to_string()).collect(),
        verse_counts,
        single_chapter,
    }
}

fn john_chapters() -> Vec<u32> {
    vec![51, 25, 36, 54, 47, 71, 53, 59, 41, 42, 57, 50, 38, 31, 27, 33, 26, 40, 42, 31, 25]
}

fn canon() -> Canon {
    Canon::new(vec![
        book("Genesis", &["Gen", "Gn"], vec![31, 25, 24], false),
        book("Judges", &["Judg", "Jdg"], vec![36, 23, 31], false),
        book("John", &["Jn", "Jhn"], john_chapters(), false),
        book("1 John", &["1jn", "1 Jo"], vec![10, 29, 24, 21, 21], false),
        book("Jude", &["Jud."], vec![25], true),
    ])
    .unwrap()
}

fn verse(book: usize, chapter: u32, v: u32) -> Reference {
    Reference { book, chapter, verses: Verses::One(v) }
}

fn malformed(text: &str) -> Result<Reference, ReferenceError> {
    Err(ReferenceError::Malformed(text.to_string()))
}

#[test]
fn resolves_single_verse() {
    let c = canon();
    assert_eq!(resolve(&c, "john3:16"), Ok(verse(JOHN, 3, 16)));
    assert_eq!(resolve(&c, "John 3:16"), Ok(verse(JOHN, 3, 16)));
    assert_eq!(resolve(&c, "JOHN+3.16"), Ok(verse(JOHN, 3, 16)));
}

#[test]
fn resolves_verse_range() {
    let c = canon();
    assert_eq!(
        resolve(&c, "john3:16-18"),
        Ok(Reference { book: JOHN, chapter: 3, verses: Verses::Through(16, 18) })
    );
    assert_eq!(
        resolve(&c, "john+3:16-18"),
        Ok(Reference { book: JOHN, chapter: 3, verses: Verses::Through(16, 18) })
    );
}

#[test]
fn reversed_range_is_malformed() {
    let c = canon();
    assert_eq!(resolve(&c, "john3:18-16"), malformed("3:18-16"));
}

#[test]
fn equal_range_ends_name_one_verse() {
    let c = canon();
    assert_eq!(resolve(&c, "john 3:16-16"), Ok(verse(JOHN, 3, 16)));
}

#[test]
fn resolves_verse_pair() {
    let c = canon();
    assert_eq!(
        resolve(&c, "john 3:16,18"),
        Ok(Reference { book: JOHN, chapter: 3, verses: Verses::And(16, 18) })
    );
}

#[test]
fn resolves_whole_chapter() {
    let c = canon();
    assert_eq!(resolve(&c, "john 3"), Ok(Reference { book: JOHN, chapter: 3, verses: Verses::Whole }));
}

#[test]
fn numbered_book_names() {
    let c = canon();
    assert_eq!(resolve(&c, "1 John 2:1"), Ok(verse(FIRST_JOHN, 2, 1)));
    assert_eq!(resolve(&c, "1jn2:1"), Ok(verse(FIRST_JOHN, 2, 1)));
    assert_eq!(resolve(&c, "1 jo 5:21"), Ok(verse(FIRST_JOHN, 5, 21)));
}

#[test]
fn ambiguous_abbreviation_lists_both() {
    let c = canon();
    assert_eq!(
        resolve(&c, "ju 1:5"),
        Err(ReferenceError::Ambiguous(vec![
            (JUDGES, Confidence::Prefix),
            (JUDE, Confidence::Prefix),
            (JOHN, Confidence::Fuzzy),
        ]))
    );
}

#[test]
fn ambiguous_ties_are_in_canonical_order() {
    let c = canon();
    assert_eq!(
        resolve(&c, "j 1"),
        Err(ReferenceError::Ambiguous(vec![
            (JUDGES, Confidence::Prefix),
            (JOHN, Confidence::Prefix),
            (JUDE, Confidence::Prefix),
        ]))
    );
}

#[test]
fn prefix_and_fuzzy_matches() {
    let c = canon();
    assert_eq!(resolve(&c, "gene 1:1"), Ok(verse(GENESIS, 1, 1)));
    assert_eq!(resolve(&c, "jon 3:16"), Ok(verse(JOHN, 3, 16)));
}

#[test]
fn failed_best_reading_falls_back_to_next_candidate() {
    let c = canon();
    // "jude" names Jude exactly and is one edit from "judg" (Judges);
    // Jude has one chapter, so chapter 2 is read for Judges.
    assert_eq!(resolve(&c, "jude 2:1"), Ok(verse(JUDGES, 2, 1)));
}

#[test]
fn single_chapter_lone_number_is_verse() {
    let c = canon();
    assert_eq!(resolve(&c, "jude5"), Ok(verse(JUDE, 1, 5)));
    assert_eq!(resolve(&c, "Jude 5"), Ok(verse(JUDE, 1, 5)));
    assert_eq!(resolve(&c, "jude 1:5"), Ok(verse(JUDE, 1, 5)));
    assert_eq!(
        resolve(&c, "jude 3-5"),
        Ok(Reference { book: JUDE, chapter: 1, verses: Verses::Through(3, 5) })
    );
}

#[test]
fn book_alone() {
    let c = canon();
    assert_eq!(resolve(&c, "john"), Err(ReferenceError::Incomplete(JOHN)));
    assert_eq!(resolve(&c, "jude"), Ok(Reference { book: JUDE, chapter: 1, verses: Verses::Whole }));
}

#[test]
fn unknown_book() {
    let c = canon();
    assert_eq!(resolve(&c, "xyzzy 1:1"), Err(ReferenceError::UnknownBook));
}

#[test]
fn malformed_inputs_report_the_rest_of_the_text() {
    let c = canon();
    assert_eq!(resolve(&c, "3:16"), malformed("3:16"));
    assert_eq!(resolve(&c, ""), malformed(""));
    assert_eq!(resolve(&c, "john 3:16x"), malformed("x"));
    assert_eq!(resolve(&c, "john 3:"), malformed(":"));
    assert_eq!(resolve(&c, "john 0"), malformed("0"));
    assert_eq!(resolve(&c, "john 3:0"), malformed("0"));
    assert_eq!(resolve(&c, "john 3-5"), malformed("3-5"));
    assert_eq!(resolve(&c, "john 99999999999"), malformed("99999999999"));
}

#[test]
fn out_of_range() {
    let c = canon();
    assert_eq!(resolve(&c, "john 22"), Err(ReferenceError::OutOfRange(Field::Chapter, 22, 21)));
    assert_eq!(resolve(&c, "john 3:37"), Err(ReferenceError::OutOfRange(Field::Verse, 37, 36)));
    assert_eq!(resolve(&c, "john 3:30-40"), Err(ReferenceError::OutOfRange(Field::Verse, 40, 36)));
}

#[test]
fn every_chapter_accepted_and_next_refused() {
    let c = canon();
    for ch in 1..=21u32 {
        let text = format!("john {}", ch);
        assert_eq!(resolve(&c, &text), Ok(Reference { book: JOHN, chapter: ch, verses: Verses::Whole }));
    }
    assert_eq!(resolve(&c, "john 22:1"), Err(ReferenceError::OutOfRange(Field::Chapter, 22, 21)));
    assert_eq!(resolve(&c, "genesis 4"), Err(ReferenceError::OutOfRange(Field::Chapter, 4, 3)));
}

#[test]
fn canonical_text() {
    let c = canon();
    assert_eq!(format_reference(&c, &verse(JOHN, 3, 16)), "John 3:16");
    assert_eq!(
        format_reference(&c, &Reference { book: JOHN, chapter: 3, verses: Verses::Through(16, 18) }),
        "John 3:16-18"
    );
    assert_eq!(
        format_reference(&c, &Reference { book: FIRST_JOHN, chapter: 2, verses: Verses::And(1, 3) }),
        "1 John 2:1,3"
    );
    assert_eq!(format_reference(&c, &Reference { book: JUDE, chapter: 1, verses: Verses::Whole }), "Jude");
    assert_eq!(format_reference(&c, &Reference { book: GENESIS, chapter: 2, verses: Verses::Whole }), "Genesis 2");
}

#[test]
fn canonical_text_resolves_back() {
    let c = canon();
    let refs = vec![
        verse(JOHN, 3, 16),
        verse(JUDE, 1, 25),
        Reference { book: JOHN, chapter: 21, verses: Verses::Whole },
        Reference { book: JUDE, chapter: 1, verses: Verses::Whole },
        Reference { book: FIRST_JOHN, chapter: 5, verses: Verses::Through(1, 21) },
        Reference { book: JUDGES, chapter: 3, verses: Verses::And(30, 31) },
        Reference { book: GENESIS, chapter: 1, verses: Verses::One(31) },
    ];
    for r in refs {
        let text = format_reference(&c, &r);
        assert_eq!(resolve(&c, &text), Ok(r));
    }
}

#[test]
fn canon_lookups() {
    let c = canon();
    assert_eq!(c.book_count(), 5);
    assert_eq!(c.lookup_book("1 John"), Some(FIRST_JOHN));
    assert_eq!(c.lookup_book("  JOHN "), Some(JOHN));
    assert_eq!(c.lookup_book("jud."), Some(JUDE));
    assert_eq!(c.lookup_book("nope"), None);
    assert_eq!(c.lookup_book("jo"), None);
    assert_eq!(c.chapter_count(JOHN), 21);
    assert_eq!(c.chapter_count(99), 0);
    assert_eq!(c.verse_count(JOHN, 3), 36);
    assert_eq!(c.verse_count(JOHN, 22), 0);
    assert_eq!(c.verse_count(JOHN, 0), 0);
    assert_eq!(c.book(JUDE).name, "Jude");
}

#[test]
fn canon_refuses_shared_alias() {
    let r = Canon::new(vec![
        book("Jude", &["jd"], vec![25], true),
        book("Judges", &["J.D."], vec![36], false),
    ]);
    assert_eq!(r.err(), Some(CanonError::DuplicateAlias(0, 1)));
}

#[test]
fn canon_refuses_malformed_books() {
    assert_eq!(Canon::new(vec![book("123", &[], vec![1], false)]).err(), Some(CanonError::BadName(0)));
    assert_eq!(Canon::new(vec![book("Song 2", &[], vec![1], false)]).err(), Some(CanonError::BadName(0)));
    assert_eq!(
        Canon::new(vec![book("Ruth", &[], vec![22], false), book("Obadiah", &[], vec![], false)]).err(),
        Some(CanonError::NoChapters(1))
    );
    assert_eq!(Canon::new(vec![book("Ruth", &[], vec![22, 0], false)]).err(), Some(CanonError::EmptyChapter(0, 2)));
    assert_eq!(Canon::new(vec![book("Ruth", &[], vec![22, 23], true)]).err(), Some(CanonError::NotSingleChapter(0)));
}

#[test]
fn parse_lists_readings_best_first() {
    let c = canon();
    let v = parse(&c, "ju 1:5").unwrap();
    let books: Vec<(usize, Confidence)> = v.iter().map(|p| (p.book, p.confidence)).collect();
    assert_eq!(books, vec![(JUDGES, Confidence::Prefix), (JUDE, Confidence::Prefix), (JOHN, Confidence::Fuzzy)]);
    for p in &v {
        assert_eq!(p.matched, "ju ");
        assert_eq!(p.locator, Locator::Two(1, 5));
    }
    assert_eq!(parse(&c, "john 3:16-18").unwrap()[0].locator, Locator::Three(3, 16, Joint::Through, 18));
    assert_eq!(parse(&c, "jude 3,5").unwrap()[0].locator, Locator::Span(3, Joint::And, 5));
    assert_eq!(parse(&c, "john").unwrap()[0].locator, Locator::Nothing);
    assert_eq!(parse(&c, "xyzzy 2").unwrap().len(), 0);
    assert!(matches!(parse(&c, "john 3::16"), Err(ReferenceError::Malformed(t)) if t == "::16"));
}

#[test]
fn accents_and_case_are_ignored() {
    let c = canon();
    assert_eq!(c.lookup_book("G\u{e9}nesis"), Some(GENESIS));
    assert_eq!(c.lookup_book("G\u{c9}N"), Some(GENESIS));
    assert_eq!(resolve(&c, "G\u{c9}NESIS 1:1"), Ok(verse(GENESIS, 1, 1)));
    assert_eq!(resolve(&c, "J\u{fc}de 4"), Ok(verse(JUDE, 1, 4)));
}
