use scripture::canon::{Book, Canon};
use scripture::linked::{assemble, reference_uri, to_json_ld, verse_numbers_of};
use scripture::resolve::{Reference, ReferenceError, Verses};

fn canon() -> Canon {
    Canon::new(vec![
        Book {
            name: "John".to_string(),
            aliases: vec!["Jn".to_string()],
            verse_counts: vec![51, 25, 36],
            single_chapter: false,
        },
        Book {
            name: "1 John".to_string(),
            aliases: vec![],
            verse_counts: vec![10, 29],
            single_chapter: false,
        },
    ])
    .unwrap()
}

fn john(chapter: u32, verses: Verses) -> Reference {
    Reference { book: 0, chapter, verses }
}

#[test]
fn identifiers_are_stable() {
    let c = canon();
    let r = john(3, Verses::One(16));
    let a = reference_uri(&c, &r);
    let b = reference_uri(&c, &r);
    assert_eq!(a.as_bytes(), b.as_bytes());
    assert_eq!(a, "https://scripture.example/id/john3:16");
    assert_eq!(
        reference_uri(&c, &Reference { book: 1, chapter: 2, verses: Verses::Through(1, 3) }),
        "https://scripture.example/id/1john2:1-3"
    );
    assert_eq!(reference_uri(&c, &john(2, Verses::Whole)), "https://scripture.example/id/john2");
}

#[test]
fn verse_numbers_cover_the_reference() {
    let c = canon();
    assert_eq!(verse_numbers_of(&c, &john(3, Verses::Through(16, 18))), vec![16, 17, 18]);
    assert_eq!(verse_numbers_of(&c, &john(3, Verses::And(16, 18))), vec![16, 18]);
    assert_eq!(verse_numbers_of(&c, &john(2, Verses::Whole)).len(), 25);
}

#[test]
fn assembles_passage() {
    let c = canon();
    let r = john(3, Verses::Through(16, 17));
    let p = assemble(&c, &r, vec![Some("For God so loved".to_string()), Some("For God sent".to_string())]).unwrap();
    assert_eq!(p.book, "John");
    assert_eq!(p.chapter, 3);
    assert_eq!(p.verses.len(), 2);
    assert_eq!(p.verses[0].verse, 16);
    assert_eq!(p.verses[0].text, "For God so loved");
    assert_eq!(p.verses[1].verse, 17);
    assert_eq!(p.verses[1].text, "For God sent");
}

#[test]
fn missing_text_is_content_unavailable() {
    let c = canon();
    let r = john(3, Verses::Through(16, 18));
    let e = assemble(&c, &r, vec![Some("a".to_string()), None, None]).err();
    assert_eq!(e, Some(ReferenceError::ContentUnavailable(17)));
    let short = assemble(&c, &r, vec![Some("a".to_string()), Some("b".to_string())]).err();
    assert_eq!(short, Some(ReferenceError::ContentUnavailable(18)));
}

#[test]
fn json_ld_for_one_verse() {
    let c = canon();
    let r = john(3, Verses::One(16));
    let p = assemble(&c, &r, vec![Some("He said \"love\"\\\n".to_string())]).unwrap();
    let doc = to_json_ld(&c, &r, &p, "KJV");
    assert_eq!(
        doc,
        "{\"@context\":{\"@vocab\":\"https://schema.org/\",\"@base\":\"https://scripture.example/id/\"},\
         \"@type\":\"Verse\",\"@id\":\"https://scripture.example/id/john3:16\",\"book\":\"John\",\
         \"chapter\":3,\"verse\":16,\"text\":\"He said \\\"love\\\"\\\\\\n\",\"translation\":\"KJV\"}"
    );
}

#[test]
fn json_ld_for_passage() {
    let c = canon();
    let r = john(3, Verses::Through(16, 17));
    let p = assemble(&c, &r, vec![Some("a".to_string()), Some("b\u{1}".to_string())]).unwrap();
    let doc = to_json_ld(&c, &r, &p, "WEB");
    assert_eq!(
        doc,
        "{\"@context\":{\"@vocab\":\"https://schema.org/\",\"@base\":\"https://scripture.example/id/\"},\
         \"@type\":\"Passage\",\"@id\":\"https://scripture.example/id/john3:16-17\",\"book\":\"John\",\
         \"chapter\":3,\"verseRange\":\"16-17\",\"text\":\"a b\\u0001\",\"translation\":\"WEB\"}"
    );
    let again = to_json_ld(&c, &r, &p, "WEB");
    assert_eq!(doc.as_bytes(), again.as_bytes());
}
