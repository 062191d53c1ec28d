use scripture::canon::{Book, Canon};
use scripture::search::{plan_search, query_terms, rank_hits, search, SearchPlan, SearchResult, TextHit};
use scripture::resolve::{Reference, Verses};

fn canon() -> Canon {
    Canon::new(vec![
        Book {
            name: "Genesis".to_string(),
            aliases: vec!["Gen".to_string()],
            verse_counts: vec![31, 25],
            single_chapter: false,
        },
        Book {
            name: "John".to_string(),
            aliases: vec!["Jn".to_string()],
            verse_counts: vec![51, 25, 36],
            single_chapter: false,
        },
    ])
    .unwrap()
}

fn hit(book: usize, chapter: u32, verse: u32, score: u32) -> TextHit {
    TextHit {
        reference: Reference { book, chapter, verses: Verses::One(verse) },
        snippet: format!("{}:{}:{}", book, chapter, verse),
        score,
    }
}

fn order(results: &[SearchResult]) -> Vec<(usize, u32, u32)> {
    results
        .iter()
        .map(|r| match r {
            SearchResult::TextMatch(h) => match h.reference.verses {
                Verses::One(v) => (h.reference.book, h.reference.chapter, v),
                _ => panic!("unexpected verses"),
            },
            SearchResult::ReferenceMatch(_) => panic!("unexpected reference match"),
        })
        .collect()
}

#[test]
fn reference_query_navigates_only() {
    let c = canon();
    let hits = vec![hit(1, 1, 1, 9), hit(0, 1, 1, 3)];
    let r = search(&c, "john3:16", hits, 10);
    assert_eq!(r.len(), 1);
    match &r[0] {
        SearchResult::ReferenceMatch(x) => {
            assert_eq!(*x, Reference { book: 1, chapter: 3, verses: Verses::One(16) })
        }
        SearchResult::TextMatch(_) => panic!("text hit mixed into a reference match"),
    }
}

#[test]
fn empty_query_gives_no_results() {
    let c = canon();
    assert_eq!(search(&c, "", vec![hit(0, 1, 1, 1)], 10).len(), 0);
    assert_eq!(search(&c, "   ", vec![hit(0, 1, 1, 1)], 10).len(), 0);
    assert!(matches!(plan_search(&c, ""), SearchPlan::Nothing));
}

#[test]
fn text_query_ranks_hits() {
    let c = canon();
    let hits = vec![hit(1, 3, 16, 2), hit(0, 1, 1, 5), hit(1, 1, 1, 5), hit(0, 2, 3, 2), hit(0, 1, 2, 7)];
    let r = search(&c, "in the beginning", hits, 10);
    assert_eq!(order(&r), vec![(0, 1, 2), (0, 1, 1), (1, 1, 1), (0, 2, 3), (1, 3, 16)]);
}

#[test]
fn results_are_capped_at_the_limit() {
    let hits = vec![hit(1, 3, 16, 2), hit(0, 1, 1, 5), hit(1, 1, 1, 5), hit(0, 2, 3, 2), hit(0, 1, 2, 7)];
    let r = rank_hits(hits, 2);
    assert_eq!(order(&r), vec![(0, 1, 2), (0, 1, 1)]);
    assert_eq!(rank_hits(Vec::new(), 3).len(), 0);
    assert_eq!(rank_hits(vec![hit(0, 1, 1, 1)], 0).len(), 0);
}

#[test]
fn book_alone_falls_back_to_text_search() {
    let c = canon();
    match plan_search(&c, "John") {
        SearchPlan::Text(terms) => assert_eq!(terms, vec![vec!['j', 'o', 'h', 'n']]),
        _ => panic!("expected a text search"),
    }
    let r = search(&c, "John", vec![hit(1, 1, 1, 4)], 10);
    assert_eq!(order(&r), vec![(1, 1, 1)]);
}

#[test]
fn terms_are_lowercased_words() {
    let t = query_terms("In the Beginning, God 3x!");
    let words: Vec<String> = t.iter().map(|w| w.iter().collect()).collect();
    assert_eq!(words, vec!["in", "the", "beginning", "god", "3x"]);
    assert_eq!(query_terms(" ,. ").len(), 0);
}

#[test]
fn terms_fold_accents() {
    let t = query_terms("\u{c9}den \u{e0} la Cr\u{e9}ation");
    let words: Vec<String> = t.iter().map(|w| w.iter().collect()).collect();
    assert_eq!(words, vec!["eden", "a", "la", "creation"]);
}
