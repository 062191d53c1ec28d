//! Assembly of a resolved reference: the display model of its verses, its
//! stable identifier, and its JSON-LD document.
use vstd::prelude::*;
use crate::canon::Canon;
use crate::format::{locator_text, valid_reference};
use crate::resolve::{Reference, ReferenceError, Verses};
use crate::text::{chars_of, dec, key_of, key_of_str, push_dec};

verus! {

/// A verse as it is shown: its number and its text.
pub struct DisplayVerse {
    pub verse: u32,
    pub text: String,
}

/// The display model of a reference: the book's name, the chapter and its
/// verses in order.
pub struct Passage {
    pub book: String,
    pub chapter: u32,
    pub verses: Vec<DisplayVerse>,
}

/// The verse numbers that a reference covers, in order.
pub open spec fn verse_numbers(canon: Canon, r: Reference) -> Seq<u32> {
    match r.verses {
        Verses::Whole => Seq::new(canon.verses(r.book as int, r.chapter as int), |i: int| (i + 1) as u32),
        Verses::One(v) => seq![v],
        Verses::Through(v, w) => Seq::new((w - v + 1) as nat, |i: int| (v + i) as u32),
        Verses::And(v, w) => seq![v, w],
    }
}

/// The base of every identifier.
pub open spec fn id_base() -> Seq<char> {
    "https://scripture.example/id/"@
}

/// The identifier of a reference: the base, the key of the book's name and
/// the numbers as in the canonical text ("https://scripture.example/id/john3:16-18").
pub open spec fn reference_id(canon: Canon, r: Reference) -> Seq<char> {
    id_base() + key_of(canon.books()[r.book as int].name@) + locator_text(r.chapter, r.verses)
}

/// Relies on `String`'s `FromIterator<char>`: the characters, in order.
#[verifier::external_body]
fn string_of(chars: &Vec<char>) -> (r: String)
    ensures
        r@ == chars@,
{
    chars.iter().collect()
}

fn push_str(out: &mut Vec<char>, s: &str)
    ensures
        final(out)@ == old(out)@ + s@,
{
    let c = chars_of(s);
    let mut i: usize = 0;
    let ghost start = out@;
    while i < c.len()
        invariant
            i <= c@.len(),
            c@ == s@,
            out@ == start + c@.subrange(0, i as int),
        decreases c@.len() - i,
    {
        out.push(c[i]);
        assert(c@.subrange(0, i + 1) =~= c@.subrange(0, i as int).push(c@[i as int]));
        i = i + 1;
    }
    assert(c@.subrange(0, c@.len() as int) =~= c@);
}

fn push_chars(out: &mut Vec<char>, s: &Vec<char>)
    ensures
        final(out)@ == old(out)@ + s@,
{
    let mut i: usize = 0;
    let ghost start = out@;
    while i < s.len()
        invariant
            i <= s@.len(),
            out@ == start + s@.subrange(0, i as int),
        decreases s@.len() - i,
    {
        out.push(s[i]);
        assert(s@.subrange(0, i + 1) =~= s@.subrange(0, i as int).push(s@[i as int]));
        i = i + 1;
    }
    assert(s@.subrange(0, s@.len() as int) =~= s@);
}

/// The numbers of a reference, as in its canonical text.
fn push_locator(out: &mut Vec<char>, c: u32, vs: Verses)
    ensures
        final(out)@ == old(out)@ + locator_text(c, vs),
{
    let ghost start = out@;
    push_dec(out, c);
    match vs {
        Verses::Whole => {},
        Verses::One(v) => {
            out.push(':');
            push_dec(out, v);
        },
        Verses::Through(v, w) => {
            out.push(':');
            push_dec(out, v);
            out.push('-');
            push_dec(out, w);
        },
        Verses::And(v, w) => {
            out.push(':');
            push_dec(out, v);
            out.push(',');
            push_dec(out, w);
        },
    }
    assert(out@ =~= start + locator_text(c, vs));
}

/// The stable identifier of a reference: the same reference always gives the
/// same text.
pub fn reference_uri(canon: &Canon, r: &Reference) -> (s: String)
    requires
        r.book < canon.books().len(),
    ensures
        s@ == reference_id(*canon, *r),
{
    let mut out: Vec<char> = Vec::new();
    push_str(&mut out, "https://scripture.example/id/");
    let key = key_of_str(canon.book(r.book).name.as_str());
    push_chars(&mut out, &key);
    push_locator(&mut out, r.chapter, r.verses);
    string_of(&out)
}

/// The identifier is a function of the reference alone: two calls with the
/// same reference give the same identifier.
pub proof fn lemma_id_deterministic(canon: Canon, r1: Reference, r2: Reference)
    requires
        r1 == r2,
    ensures
        reference_id(canon, r1) == reference_id(canon, r2),
{
}

/// The verse numbers that a valid reference covers.
pub fn verse_numbers_of(canon: &Canon, r: &Reference) -> (v: Vec<u32>)
    requires
        canon.wf(),
        valid_reference(*canon, *r),
    ensures
        v@ == verse_numbers(*canon, *r),
{
    let mut v: Vec<u32> = Vec::new();
    match r.verses {
        Verses::One(a) => {
            v.push(a);
            assert(v@ =~= verse_numbers(*canon, *r));
        },
        Verses::And(a, b) => {
            v.push(a);
            v.push(b);
            assert(v@ =~= verse_numbers(*canon, *r));
        },
        Verses::Whole => {
            let n = canon.verse_count(r.book, r.chapter);
            let mut i: u32 = 0;
            while i < n
                invariant
                    i <= n,
                    v@ == Seq::new(i as nat, |k: int| (k + 1) as u32),
                decreases n - i,
            {
                v.push(i + 1);
                i = i + 1;
                assert(v@ =~= Seq::new(i as nat, |k: int| (k + 1) as u32));
            }
        },
        Verses::Through(a, b) => {
            let n: u64 = (b - a) as u64 + 1;
            let mut k: u64 = 0;
            while k < n
                invariant
                    a < b,
                    n == b - a + 1,
                    k <= n,
                    v@ == Seq::new(k as nat, |i: int| (a + i) as u32),
                decreases n - k,
            {
                v.push((a as u64 + k) as u32);
                k = k + 1;
                assert(v@ =~= Seq::new(k as nat, |i: int| (a + i) as u32));
            }
            assert(v@ =~= verse_numbers(*canon, *r));
        },
    }
    v
}

/// The store gave the text `t`.
pub open spec fn gave_text(o: Option<String>, t: String) -> bool {
    o matches Some(x) && x@ == t@
}

/// The store holds the text of the verse at position `i`.
pub open spec fn text_at(texts: Seq<Option<String>>, i: int) -> bool {
    0 <= i < texts.len() && texts[i] is Some
}

/// Assembles the display model of a valid reference from the texts that the
/// store gave for its verses (`texts[i]` for the `i`-th verse, `None` where
/// it has none). A verse without text fails with `ContentUnavailable`, naming
/// the first such verse.
pub fn assemble(canon: &Canon, r: &Reference, texts: Vec<Option<String>>) -> (p: Result<Passage, ReferenceError>)
    requires
        canon.wf(),
        valid_reference(*canon, *r),
    ensures
        p is Ok <==> forall|i: int| 0 <= i < verse_numbers(*canon, *r).len() ==> text_at(texts@, i),
        p matches Err(e) ==> exists|i: int|
            0 <= i < verse_numbers(*canon, *r).len() && !text_at(texts@, i)
                && (forall|j: int| 0 <= j < i ==> text_at(texts@, j))
                && e == ReferenceError::ContentUnavailable(verse_numbers(*canon, *r)[i]),
        p matches Ok(m) ==> {
            &&& m.book@ == canon.books()[r.book as int].name@
            &&& m.chapter == r.chapter
            &&& m.verses@.len() == verse_numbers(*canon, *r).len()
            &&& forall|i: int| 0 <= i < m.verses@.len() ==> (#[trigger] m.verses@[i]).verse == verse_numbers(*canon, *r)[i]
                && gave_text(texts@[i], m.verses@[i].text)
        },
{
    let nums = verse_numbers_of(canon, r);
    let n = nums.len();
    let mut i: usize = 0;
    while i < n
        invariant
            n == nums@.len(),
            nums@ == verse_numbers(*canon, *r),
            i <= n,
            forall|j: int| 0 <= j < i ==> text_at(texts@, j),
        decreases n - i,
    {
        let missing = if i >= texts.len() {
            true
        } else {
            match &texts[i] {
                Some(_) => false,
                None => true,
            }
        };
        if missing {
            assert(!text_at(texts@, i as int));
            return Err(ReferenceError::ContentUnavailable(nums[i]));
        }
        i = i + 1;
    }
    let ghost given = texts@;
    if n > 0 {
        assert(text_at(given, n - 1));
    }
    let mut rest = texts;
    rest.truncate(n);
    let mut verses: Vec<DisplayVerse> = Vec::new();
    while rest.len() > 0
        invariant
            n == nums@.len(),
            nums@ == verse_numbers(*canon, *r),
            given.len() >= n,
            rest@.len() <= n,
            rest@ == given.subrange(0, rest@.len() as int),
            forall|j: int| 0 <= j < n ==> text_at(given, j),
            verses@.len() == n - rest@.len(),
            forall|j: int| 0 <= j < verses@.len() ==> (#[trigger] verses@[j]).verse == nums@[j + rest@.len()]
                && gave_text(given[j + rest@.len()], verses@[j].text),
        decreases rest@.len(),
    {
        let k = rest.len() - 1;
        let item = rest.pop().unwrap();
        assert(text_at(given, k as int));
        let t = match item {
            Some(t) => t,
            None => String::new(),
        };
        let ghost old_verses = verses@;
        verses.insert(0, DisplayVerse { verse: nums[k], text: t });
        assert forall|j: int| 0 <= j < verses@.len() implies (#[trigger] verses@[j]).verse == nums@[j + rest@.len()]
            && gave_text(given[j + rest@.len()], verses@[j].text) by {
            if j > 0 {
                assert(verses@[j] == old_verses[j - 1]);
            }
        }
    }
    Ok(Passage { book: canon.book(r.book).name.as_str().to_owned(), chapter: r.chapter, verses })
}

/// A hexadecimal digit, lower case.
pub open spec fn hex_digit(d: nat) -> char {
    if d < 10 {
        crate::text::digit_char(d)
    } else {
        ((('a' as u32) + d - 10) as u8) as char
    }
}

/// A character as it stands inside a JSON string.
pub open spec fn escape_char(c: char) -> Seq<char> {
    if c == '"' {
        seq!['\\', '"']
    } else if c == '\\' {
        seq!['\\', '\\']
    } else if c == '\n' {
        seq!['\\', 'n']
    } else if c == '\r' {
        seq!['\\', 'r']
    } else if c == '\t' {
        seq!['\\', 't']
    } else if (c as u32) < 32 {
        seq!['\\', 'u', '0', '0', hex_digit((c as u32 / 16) as nat), hex_digit((c as u32 % 16) as nat)]
    } else {
        seq![c]
    }
}

/// Text as it stands inside a JSON string.
pub open spec fn escaped(s: Seq<char>) -> Seq<char>
    decreases s.len(),
{
    if s.len() == 0 {
        Seq::empty()
    } else {
        escaped(s.drop_last()) + escape_char(s.last())
    }
}

/// The texts of verses, joined by single spaces.
pub open spec fn joined_text(vs: Seq<DisplayVerse>) -> Seq<char>
    decreases vs.len(),
{
    if vs.len() == 0 {
        Seq::empty()
    } else if vs.len() == 1 {
        vs[0].text@
    } else {
        joined_text(vs.drop_last()) + seq![' '] + vs.last().text@
    }
}

/// "Verse" for one verse, "Passage" for more.
pub open spec fn entity_type(vs: Verses) -> Seq<char> {
    if vs is One {
        "Verse"@
    } else {
        "Passage"@
    }
}

/// The verse field of the document: none for a whole chapter, `verse` for
/// one verse, `verseRange` for a range or a pair.
pub open spec fn verse_field(vs: Verses) -> Seq<char> {
    match vs {
        Verses::Whole => Seq::empty(),
        Verses::One(v) => ",\"verse\":"@ + dec(v as nat),
        Verses::Through(v, w) => ",\"verseRange\":\""@ + dec(v as nat) + seq!['-'] + dec(w as nat) + "\""@,
        Verses::And(v, w) => ",\"verseRange\":\""@ + dec(v as nat) + seq![','] + dec(w as nat) + "\""@,
    }
}

/// The document's opening: its context, type and identifier.
pub open spec fn json_head(canon: Canon, r: Reference) -> Seq<char> {
    "{\"@context\":{\"@vocab\":\"https://schema.org/\",\"@base\":\"https://scripture.example/id/\"},\"@type\":\""@
        + entity_type(r.verses) + "\",\"@id\":\""@ + reference_id(canon, r)
}

/// The document's book, chapter and verse fields.
pub open spec fn json_place(r: Reference, p: Passage) -> Seq<char> {
    "\",\"book\":\""@ + escaped(p.book@) + "\",\"chapter\":"@ + dec(r.chapter as nat) + verse_field(r.verses)
}

/// The document's text and translation, and its close.
pub open spec fn json_body(p: Passage, translation: Seq<char>) -> Seq<char> {
    ",\"text\":\""@ + escaped(joined_text(p.verses@)) + "\",\"translation\":\""@ + escaped(translation) + "\"}"@
}

/// The JSON-LD document of a passage of reference `r` in a translation.
pub open spec fn json_ld(canon: Canon, r: Reference, p: Passage, translation: Seq<char>) -> Seq<char> {
    json_head(canon, r) + json_place(r, p) + json_body(p, translation)
}

fn hex_char(d: u32) -> (c: char)
    requires
        d < 16,
    ensures
        c == hex_digit(d as nat),
{
    if d < 10 {
        ((d + 48) as u8) as char
    } else {
        ((d + 87) as u8) as char
    }
}

fn push_escaped(out: &mut Vec<char>, s: &Vec<char>)
    ensures
        final(out)@ == old(out)@ + escaped(s@),
{
    let ghost start = out@;
    let mut i: usize = 0;
    while i < s.len()
        invariant
            i <= s@.len(),
            out@ == start + escaped(s@.subrange(0, i as int)),
        decreases s@.len() - i,
    {
        let c = s[i];
        let ghost before = out@;
        if c == '"' {
            out.push('\\');
            out.push('"');
        } else if c == '\\' {
            out.push('\\');
            out.push('\\');
        } else if c == '\n' {
            out.push('\\');
            out.push('n');
        } else if c == '\r' {
            out.push('\\');
            out.push('r');
        } else if c == '\t' {
            out.push('\\');
            out.push('t');
        } else if (c as u32) < 32 {
            out.push('\\');
            out.push('u');
            out.push('0');
            out.push('0');
            out.push(hex_char((c as u32) / 16));
            out.push(hex_char((c as u32) % 16));
        } else {
            out.push(c);
        }
        assert(out@ =~= before + escape_char(c));
        assert(s@.subrange(0, i + 1).drop_last() =~= s@.subrange(0, i as int));
        i = i + 1;
    }
    assert(s@.subrange(0, s@.len() as int) =~= s@);
}

fn push_joined(out: &mut Vec<char>, vs: &Vec<DisplayVerse>)
    ensures
        final(out)@ == old(out)@ + joined_text(vs@),
{
    let ghost start = out@;
    let mut i: usize = 0;
    while i < vs.len()
        invariant
            i <= vs@.len(),
            out@ == start + joined_text(vs@.subrange(0, i as int)),
        decreases vs@.len() - i,
    {
        let ghost before = out@;
        if i > 0 {
            out.push(' ');
        }
        let t = chars_of(vs[i].text.as_str());
        push_chars(out, &t);
        let ghost next = vs@.subrange(0, i + 1);
        assert(next.drop_last() =~= vs@.subrange(0, i as int));
        if i == 0 {
            assert(joined_text(vs@.subrange(0, 0)) =~= Seq::<char>::empty());
        }
        assert(out@ =~= start + joined_text(next));
        i = i + 1;
    }
    assert(vs@.subrange(0, vs@.len() as int) =~= vs@);
}

fn push_json_head(out: &mut Vec<char>, canon: &Canon, r: &Reference)
    requires
        r.book < canon.books().len(),
    ensures
        final(out)@ == old(out)@ + json_head(*canon, *r),
{
    let ghost start = out@;
    push_str(out, "{\"@context\":{\"@vocab\":\"https://schema.org/\",\"@base\":\"https://scripture.example/id/\"},\"@type\":\"");
    let ghost g0 = out@;
    match r.verses {
        Verses::One(_) => push_str(out, "Verse"),
        _ => push_str(out, "Passage"),
    }
    assert(out@ == g0 + entity_type(r.verses));
    push_str(out, "\",\"@id\":\"");
    let id = reference_uri(canon, r);
    push_str(out, id.as_str());
    assert(out@ =~= start + json_head(*canon, *r));
}

fn push_json_place(out: &mut Vec<char>, r: &Reference, p: &Passage)
    ensures
        final(out)@ == old(out)@ + json_place(*r, *p),
{
    let ghost start = out@;
    push_str(out, "\",\"book\":\"");
    let book = chars_of(p.book.as_str());
    push_escaped(out, &book);
    push_str(out, "\",\"chapter\":");
    push_dec(out, r.chapter);
    let ghost before_field = out@;
    match r.verses {
        Verses::Whole => {},
        Verses::One(v) => {
            push_str(out, ",\"verse\":");
            push_dec(out, v);
        },
        Verses::Through(v, w) => {
            push_str(out, ",\"verseRange\":\"");
            push_dec(out, v);
            out.push('-');
            push_dec(out, w);
            push_str(out, "\"");
        },
        Verses::And(v, w) => {
            push_str(out, ",\"verseRange\":\"");
            push_dec(out, v);
            out.push(',');
            push_dec(out, w);
            push_str(out, "\"");
        },
    }
    assert(out@ =~= before_field + verse_field(r.verses));
    assert(out@ =~= start + json_place(*r, *p));
}

fn push_json_body(out: &mut Vec<char>, p: &Passage, translation: &str)
    ensures
        final(out)@ == old(out)@ + json_body(*p, translation@),
{
    let ghost start = out@;
    push_str(out, ",\"text\":\"");
    let mut text: Vec<char> = Vec::new();
    push_joined(&mut text, &p.verses);
    assert(text@ =~= joined_text(p.verses@));
    push_escaped(out, &text);
    push_str(out, "\",\"translation\":\"");
    let tr = chars_of(translation);
    push_escaped(out, &tr);
    push_str(out, "\"}");
    assert(out@ =~= start + json_body(*p, translation@));
}

/// The JSON-LD document of an assembled passage of reference `r`: its
/// context, its type ("Verse" or "Passage"), its identifier, book, chapter,
/// verse or verse range, text and translation.
pub fn to_json_ld(canon: &Canon, r: &Reference, p: &Passage, translation: &str) -> (s: String)
    requires
        r.book < canon.books().len(),
    ensures
        s@ == json_ld(*canon, *r, *p, translation@),
{
    let mut out: Vec<char> = Vec::new();
    push_json_head(&mut out, canon, r);
    push_json_place(&mut out, r, p);
    push_json_body(&mut out, p, translation);
    assert(out@ =~= json_ld(*canon, *r, *p, translation@));
    string_of(&out)
}

} // verus!
