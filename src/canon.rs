//! The canon: the fixed catalogue of books with their names, aliases and
//! chapter and verse extents, loaded once and read from then on.
use vstd::prelude::*;
use crate::text::{chars_of, check_book_key, check_proper_prefix, check_within_one_edit, is_proper_prefix, within_one_edit, is_book_key, key_of, key_of_str, same_chars};

verus! {

/// A book as it is loaded: its canonical name, further accepted names, the
/// number of verses of each chapter, and whether a lone number after its name
/// is a verse (books of one chapter).
pub struct Book {
    pub name: String,
    pub aliases: Vec<String>,
    pub verse_counts: Vec<u32>,
    pub single_chapter: bool,
}

/// The matching keys of a book: that of its name first, then those of its
/// aliases in order.
pub open spec fn book_keys(b: Book) -> Seq<Seq<char>> {
    seq![key_of(b.name@)] + b.aliases@.map_values(|a: String| key_of(a@))
}

/// A book that the canon accepts: its name holds a letter and no digit after
/// its first letter, it has at least
/// one chapter, each chapter at least one verse, and a book marked as having
/// one chapter has exactly one.
pub open spec fn book_ok(b: Book) -> bool {
    &&& is_book_key(b.name@)
    &&& 1 <= b.verse_counts@.len() <= u32::MAX
    &&& forall|c: int| 0 <= c < b.verse_counts@.len() ==> #[trigger] b.verse_counts@[c] >= 1
    &&& b.single_chapter ==> b.verse_counts@.len() == 1
}

/// No key of one book is a key of another.
pub open spec fn keys_unique(books: Seq<Book>) -> bool {
    forall|i: int, j: int, a: int, b: int|
        0 <= i < books.len() && 0 <= j < books.len() && i != j
            && 0 <= a < book_keys(books[i]).len() && 0 <= b < book_keys(books[j]).len()
            ==> #[trigger] book_keys(books[i])[a] != #[trigger] book_keys(books[j])[b]
}

/// A catalogue that the canon accepts.
pub open spec fn canon_ok(books: Seq<Book>) -> bool {
    &&& forall|i: int| 0 <= i < books.len() ==> book_ok(#[trigger] books[i])
    &&& keys_unique(books)
}

/// Why a catalogue was refused.
#[derive(Debug, Clone, Copy, PartialEq, Eq)]
pub enum CanonError {
    /// The book's name holds no letter, or a digit after a letter.
    BadName(usize),
    /// The book has no chapters.
    NoChapters(usize),
    /// The book has more chapters than a `u32` counts.
    TooManyChapters(usize),
    /// A chapter of the book (1-based) has no verses.
    EmptyChapter(usize, usize),
    /// The book is marked as having one chapter but has another count.
    NotSingleChapter(usize),
    /// Two books share a name or alias.
    DuplicateAlias(usize, usize),
}

/// How well a book's keys match a queried key: one of them is the key, the
/// key is a proper prefix of one, or one is a single edit away from it.
#[derive(Debug, Clone, Copy, PartialEq, Eq, Structural)]
pub enum Confidence {
    Exact,
    Prefix,
    Fuzzy,
}

/// Whether key `k` of a book matches the queried key `q` at confidence `c`.
pub open spec fn key_matches(q: Seq<char>, k: Seq<char>, c: Confidence) -> bool {
    match c {
        Confidence::Exact => k == q,
        Confidence::Prefix => is_proper_prefix(q, k),
        Confidence::Fuzzy => within_one_edit(q, k),
    }
}

/// The loaded canon. Books are numbered by their position, which is also
/// their canonical order.
pub struct Canon {
    books: Vec<Book>,
    keys: Vec<Vec<Vec<char>>>,
}

impl Canon {
    /// The books, in canonical order.
    pub closed spec fn books(&self) -> Seq<Book> {
        self.books@
    }

    /// The keys of each book, as held.
    pub closed spec fn held_keys(&self, b: int) -> Seq<Seq<char>> {
        self.keys@[b]@.map_values(|k: Vec<char>| k@)
    }

    /// The catalogue is accepted, and the keys held are those of its books.
    pub closed spec fn wf(&self) -> bool {
        &&& canon_ok(self.books@)
        &&& self.books@.len() <= usize::MAX
        &&& self.keys@.len() == self.books@.len()
        &&& forall|b: int| 0 <= b < self.books@.len() ==> #[trigger] self.held_keys(b) == book_keys(self.books@[b])
    }

    /// The number of chapters of book `b`, or 0 for an unknown book.
    pub open spec fn chapters(&self, b: int) -> nat {
        if 0 <= b < self.books().len() {
            self.books()[b].verse_counts@.len()
        } else {
            0
        }
    }

    /// The number of verses of chapter `c` (1-based) of book `b`, or 0 where
    /// there is no such chapter.
    pub open spec fn verses(&self, b: int, c: int) -> nat {
        if 1 <= c <= self.chapters(b) {
            self.books()[b].verse_counts@[c - 1] as nat
        } else {
            0
        }
    }

    /// Book `b` has `k` among its keys.
    pub open spec fn has_key(&self, b: int, k: Seq<char>) -> bool {
        0 <= b < self.books().len() && book_keys(self.books()[b]).contains(k)
    }

    /// A well-formed canon holds an accepted catalogue, of at most
    /// `usize::MAX` books.
    pub proof fn lemma_wf(&self)
        requires
            self.wf(),
        ensures
            canon_ok(self.books()),
            self.books().len() <= usize::MAX,
    {
    }

    /// Some key of book `b` matches `q` at confidence `c`.
    pub open spec fn matches_at(&self, b: int, q: Seq<char>, c: Confidence) -> bool {
        let ks = book_keys(self.books()[b]);
        exists|k: int| 0 <= k < ks.len() && key_matches(q, #[trigger] ks[k], c)
    }

    /// The best confidence at which book `b` matches `q`.
    pub open spec fn confidence_of(&self, b: int, q: Seq<char>) -> Option<Confidence> {
        if self.matches_at(b, q, Confidence::Exact) {
            Some(Confidence::Exact)
        } else if self.matches_at(b, q, Confidence::Prefix) {
            Some(Confidence::Prefix)
        } else if self.matches_at(b, q, Confidence::Fuzzy) {
            Some(Confidence::Fuzzy)
        } else {
            None
        }
    }

    /// The books below `n` whose best match for `q` is `c`, in canonical order.
    pub open spec fn books_at(&self, q: Seq<char>, c: Confidence, n: int) -> Seq<(usize, Confidence)>
        decreases n,
    {
        if n <= 0 {
            Seq::empty()
        } else if self.confidence_of(n - 1, q) == Some(c) {
            self.books_at(q, c, n - 1).push(((n - 1) as usize, c))
        } else {
            self.books_at(q, c, n - 1)
        }
    }

    /// The books listed below `n` are below `n`.
    pub proof fn lemma_books_at_below(&self, q: Seq<char>, c: Confidence, n: int)
        requires
            n <= usize::MAX + 1,
        ensures
            forall|k: int| 0 <= k < self.books_at(q, c, n).len() ==> (#[trigger] self.books_at(q, c, n)[k]).0 < n
                && self.books_at(q, c, n)[k].1 == c,
        decreases n,
    {
        if n > 0 {
            self.lemma_books_at_below(q, c, n - 1);
            let prev = self.books_at(q, c, n - 1);
            assert forall|k: int| 0 <= k < self.books_at(q, c, n).len() implies (#[trigger] self.books_at(q, c, n)[k]).0 < n
                && self.books_at(q, c, n)[k].1 == c by {
                if k < prev.len() {
                    assert(self.books_at(q, c, n)[k] == prev[k]);
                }
            }
        }
    }

    /// Where book `x` alone below `n` matches `q` best at `c`, it alone is listed.
    pub proof fn lemma_books_at_one(&self, q: Seq<char>, c: Confidence, n: int, x: int)
        requires
            0 <= x < n <= usize::MAX + 1,
            self.confidence_of(x, q) == Some(c),
            forall|j: int| 0 <= j < n && j != x ==> self.confidence_of(j, q) != Some(c),
        ensures
            self.books_at(q, c, n) == seq![(x as usize, c)],
        decreases n,
    {
        if n - 1 == x {
            self.lemma_books_at_none(q, c, n - 1);
            assert(self.books_at(q, c, n) =~= seq![(x as usize, c)]);
        } else {
            self.lemma_books_at_one(q, c, n - 1, x);
        }
    }

    /// Where no book below `n` matches `q` best at `c`, none is listed.
    pub proof fn lemma_books_at_none(&self, q: Seq<char>, c: Confidence, n: int)
        requires
            forall|j: int| 0 <= j < n ==> self.confidence_of(j, q) != Some(c),
        ensures
            self.books_at(q, c, n) == Seq::<(usize, Confidence)>::empty(),
        decreases n,
    {
        if n > 0 {
            self.lemma_books_at_none(q, c, n - 1);
        }
    }

    /// The books that match `q`: best confidence first, canonical order within
    /// one confidence.
    pub open spec fn candidates_of(&self, q: Seq<char>) -> Seq<(usize, Confidence)> {
        let n = self.books().len() as int;
        self.books_at(q, Confidence::Exact, n) + self.books_at(q, Confidence::Prefix, n)
            + self.books_at(q, Confidence::Fuzzy, n)
    }

    /// The number of books.
    pub fn book_count(&self) -> (r: usize)
        ensures
            r == self.books().len(),
    {
        self.books.len()
    }

    /// Book `b`.
    pub fn book(&self, b: usize) -> (r: &Book)
        requires
            b < self.books().len(),
        ensures
            *r == self.books()[b as int],
    {
        &self.books[b]
    }

    /// The number of chapters of book `b`; 0 for an unknown book.
    pub fn chapter_count(&self, b: usize) -> (r: u32)
        requires
            self.wf(),
        ensures
            r == self.chapters(b as int),
    {
        if b < self.books.len() {
            assert(book_ok(self.books()[b as int]));
            self.books[b].verse_counts.len() as u32
        } else {
            0
        }
    }

    /// The number of verses of chapter `c` (1-based) of book `b`; 0 where there
    /// is no such chapter.
    pub fn verse_count(&self, b: usize, c: u32) -> (r: u32)
        ensures
            r == self.verses(b as int, c as int),
    {
        if b < self.books.len() && 1 <= c && (c as usize) <= self.books[b].verse_counts.len() {
            self.books[b].verse_counts[(c - 1) as usize]
        } else {
            0
        }
    }

    /// Whether some key of book `b` matches `q` at confidence `c`.
    fn book_matches(&self, b: usize, q: &Vec<char>, c: Confidence) -> (r: bool)
        requires
            self.wf(),
            b < self.books().len(),
        ensures
            r == self.matches_at(b as int, q@, c),
    {
        let ks = &self.keys[b];
        assert(self.held_keys(b as int) == book_keys(self.books()[b as int]));
        let mut k: usize = 0;
        while k < ks.len()
            invariant
                k <= ks@.len(),
                ks@.map_values(|v: Vec<char>| v@) == book_keys(self.books()[b as int]),
                forall|j: int| 0 <= j < k ==> !key_matches(q@, #[trigger] book_keys(self.books()[b as int])[j], c),
            decreases ks@.len() - k,
        {
            let key = &ks[k];
            assert(book_keys(self.books()[b as int])[k as int] == key@);
            let hit = match c {
                Confidence::Exact => same_chars(key, q),
                Confidence::Prefix => check_proper_prefix(q, key),
                Confidence::Fuzzy => check_within_one_edit(q, key),
            };
            if hit {
                return true;
            }
            k = k + 1;
        }
        false
    }

    /// The best confidence at which book `b` matches `q`, if any.
    pub fn confidence(&self, b: usize, q: &Vec<char>) -> (r: Option<Confidence>)
        requires
            self.wf(),
            b < self.books().len(),
        ensures
            r == self.confidence_of(b as int, q@),
    {
        if self.book_matches(b, q, Confidence::Exact) {
            Some(Confidence::Exact)
        } else if self.book_matches(b, q, Confidence::Prefix) {
            Some(Confidence::Prefix)
        } else if self.book_matches(b, q, Confidence::Fuzzy) {
            Some(Confidence::Fuzzy)
        } else {
            None
        }
    }

    fn push_books_at(&self, q: &Vec<char>, c: Confidence, out: &mut Vec<(usize, Confidence)>)
        requires
            self.wf(),
        ensures
            final(out)@ == old(out)@ + self.books_at(q@, c, self.books().len() as int),
    {
        let ghost start = out@;
        let mut b: usize = 0;
        while b < self.books.len()
            invariant
                self.wf(),
                b <= self.books().len(),
                out@ == start + self.books_at(q@, c, b as int),
            decreases self.books().len() - b,
        {
            if self.confidence(b, q) == Some(c) {
                out.push((b, c));
            }
            assert(out@ =~= start + self.books_at(q@, c, b + 1));
            b = b + 1;
        }
    }

    /// The books that match key `q`, best confidence first and in canonical
    /// order within one confidence.
    pub fn candidates(&self, q: &Vec<char>) -> (r: Vec<(usize, Confidence)>)
        requires
            self.wf(),
        ensures
            r@ == self.candidates_of(q@),
    {
        let mut r: Vec<(usize, Confidence)> = Vec::new();
        self.push_books_at(q, Confidence::Exact, &mut r);
        self.push_books_at(q, Confidence::Prefix, &mut r);
        self.push_books_at(q, Confidence::Fuzzy, &mut r);
        assert(r@ =~= self.candidates_of(q@));
        r
    }

    /// The book that has the matching key of `name` among its name and
    /// aliases, ignoring case, spaces and punctuation.
    pub fn lookup_book(&self, name: &str) -> (r: Option<usize>)
        requires
            self.wf(),
        ensures
            r matches Some(b) ==> self.has_key(b as int, key_of(name@)),
            r is None ==> forall|b: int| !self.has_key(b, key_of(name@)),
    {
        let q = key_of_str(name);
        let mut b: usize = 0;
        while b < self.books.len()
            invariant
                self.wf(),
                b <= self.books().len(),
                q@ == key_of(name@),
                forall|j: int| 0 <= j < b ==> !self.has_key(j, q@),
            decreases self.books().len() - b,
        {
            if self.book_matches(b, &q, Confidence::Exact) {
                proof {
                    let ks = book_keys(self.books()[b as int]);
                    let k = choose|k: int| 0 <= k < ks.len() && key_matches(q@, #[trigger] ks[k], Confidence::Exact);
                    assert(ks[k] == q@);
                }
                return Some(b);
            }
            proof {
                let ks = book_keys(self.books()[b as int]);
                if ks.contains(q@) {
                    let k = choose|k: int| 0 <= k < ks.len() && ks[k] == q@;
                    assert(key_matches(q@, ks[k], Confidence::Exact));
                }
            }
            b = b + 1;
        }
        None
    }

    /// Loads a catalogue, refusing one with a malformed book or with a name
    /// or alias shared by two books.
    pub fn new(books: Vec<Book>) -> (r: Result<Canon, CanonError>)
        ensures
            r is Ok <==> canon_ok(books@),
            r matches Ok(c) ==> c.wf() && c.books() == books@,
            r matches Err(CanonError::BadName(i)) ==> i < books@.len() && !is_book_key(books@[i as int].name@),
            r matches Err(CanonError::NoChapters(i)) ==> i < books@.len() && books@[i as int].verse_counts@.len() == 0,
            r matches Err(CanonError::TooManyChapters(i)) ==> i < books@.len() && books@[i as int].verse_counts@.len() > u32::MAX,
            r matches Err(CanonError::EmptyChapter(i, c)) ==> i < books@.len() && 1 <= c <= books@[i as int].verse_counts@.len()
                && books@[i as int].verse_counts@[c - 1] == 0,
            r matches Err(CanonError::NotSingleChapter(i)) ==> i < books@.len() && books@[i as int].single_chapter
                && books@[i as int].verse_counts@.len() != 1,
            r matches Err(CanonError::DuplicateAlias(i, j)) ==> i < j < books@.len()
                && exists|a: int, b: int| 0 <= a < book_keys(books@[i as int]).len() && 0 <= b < book_keys(books@[j as int]).len()
                    && book_keys(books@[i as int])[a] == book_keys(books@[j as int])[b],
    {
        let mut keys: Vec<Vec<Vec<char>>> = Vec::new();
        let mut i: usize = 0;
        while i < books.len()
            invariant
                i <= books@.len(),
                keys@.len() == i,
                forall|b: int| 0 <= b < i ==> book_ok(#[trigger] books@[b]),
                forall|b: int| 0 <= b < i ==> (#[trigger] keys@[b])@.map_values(|k: Vec<char>| k@) == book_keys(books@[b]),
            decreases books@.len() - i,
        {
            let book = &books[i];
            let name_chars = chars_of(book.name.as_str());
            if !check_book_key(&name_chars) {
                return Err(CanonError::BadName(i));
            }
            if book.verse_counts.len() == 0 {
                return Err(CanonError::NoChapters(i));
            }
            if book.verse_counts.len() > 4294967295usize {
                return Err(CanonError::TooManyChapters(i));
            }
            if book.single_chapter && book.verse_counts.len() != 1 {
                return Err(CanonError::NotSingleChapter(i));
            }
            let mut c: usize = 0;
            while c < book.verse_counts.len()
                invariant
                    i < books@.len(),
                    *book == books@[i as int],
                    c <= book.verse_counts@.len(),
                    forall|k: int| 0 <= k < c ==> #[trigger] book.verse_counts@[k] >= 1,
                decreases book.verse_counts@.len() - c,
            {
                if book.verse_counts[c] == 0 {
                    return Err(CanonError::EmptyChapter(i, c + 1));
                }
                c = c + 1;
            }
            let mut bk: Vec<Vec<char>> = Vec::new();
            let name_key = key_of_str(book.name.as_str());
            bk.push(name_key);
            let mut a: usize = 0;
            while a < book.aliases.len()
                invariant
                    i < books@.len(),
                    *book == books@[i as int],
                    a <= book.aliases@.len(),
                    bk@.len() == a + 1,
                    bk@.map_values(|k: Vec<char>| k@) == seq![key_of(book.name@)]
                        + book.aliases@.subrange(0, a as int).map_values(|s: String| key_of(s@)),
                decreases book.aliases@.len() - a,
            {
                let k = key_of_str(book.aliases[a].as_str());
                let ghost prev = bk@;
                bk.push(k);
                assert(bk@.map_values(|k: Vec<char>| k@) =~= prev.map_values(|k: Vec<char>| k@).push(key_of(book.aliases@[a as int]@)));
                assert(book.aliases@.subrange(0, a + 1).map_values(|s: String| key_of(s@))
                    =~= book.aliases@.subrange(0, a as int).map_values(|s: String| key_of(s@)).push(key_of(book.aliases@[a as int]@)));
                assert(bk@.map_values(|k: Vec<char>| k@) =~= seq![key_of(book.name@)]
                    + book.aliases@.subrange(0, a + 1).map_values(|s: String| key_of(s@)));
                a = a + 1;
            }
            assert(book.aliases@.subrange(0, a as int) =~= book.aliases@);
            keys.push(bk);
            i = i + 1;
        }
        // every pair of books, every pair of keys
        let mut x: usize = 0;
        while x < books.len()
            invariant
                keys@.len() == books@.len(),
                x <= books@.len(),
                forall|b: int| 0 <= b < books@.len() ==> (#[trigger] keys@[b])@.map_values(|k: Vec<char>| k@) == book_keys(books@[b]),
                forall|i1: int, j1: int, a1: int, b1: int|
                    0 <= i1 < x && i1 < j1 < books@.len()
                        && 0 <= a1 < book_keys(books@[i1]).len() && 0 <= b1 < book_keys(books@[j1]).len()
                        ==> #[trigger] book_keys(books@[i1])[a1] != #[trigger] book_keys(books@[j1])[b1],
            decreases books@.len() - x,
        {
            let mut y: usize = x + 1;
            while y < books.len()
                invariant
                    keys@.len() == books@.len(),
                    x < books@.len(),
                    x < y <= books@.len(),
                    forall|b: int| 0 <= b < books@.len() ==> (#[trigger] keys@[b])@.map_values(|k: Vec<char>| k@) == book_keys(books@[b]),
                    forall|i1: int, j1: int, a1: int, b1: int|
                        0 <= i1 < x && i1 < j1 < books@.len()
                            && 0 <= a1 < book_keys(books@[i1]).len() && 0 <= b1 < book_keys(books@[j1]).len()
                            ==> #[trigger] book_keys(books@[i1])[a1] != #[trigger] book_keys(books@[j1])[b1],
                    forall|j1: int, a1: int, b1: int|
                        x < j1 < y
                            && 0 <= a1 < book_keys(books@[x as int]).len() && 0 <= b1 < book_keys(books@[j1]).len()
                            ==> #[trigger] book_keys(books@[x as int])[a1] != #[trigger] book_keys(books@[j1])[b1],
                decreases books@.len() - y,
            {
                let kx = &keys[x];
                let ky = &keys[y];
                assert(kx@.map_values(|k: Vec<char>| k@) == book_keys(books@[x as int]));
                assert(ky@.map_values(|k: Vec<char>| k@) == book_keys(books@[y as int]));
                let mut a: usize = 0;
                while a < kx.len()
                    invariant
                        x < y < books@.len(),
                        keys@.len() == books@.len(),
                        a <= kx@.len(),
                        kx@.map_values(|k: Vec<char>| k@) == book_keys(books@[x as int]),
                        ky@.map_values(|k: Vec<char>| k@) == book_keys(books@[y as int]),
                        forall|a1: int, b1: int| 0 <= a1 < a && 0 <= b1 < ky@.len() ==> kx@[a1]@ != ky@[b1]@,
                    decreases kx@.len() - a,
                {
                    let mut b: usize = 0;
                    while b < ky.len()
                        invariant
                            x < y < books@.len(),
                            keys@.len() == books@.len(),
                            a < kx@.len(),
                            b <= ky@.len(),
                            kx@.map_values(|k: Vec<char>| k@) == book_keys(books@[x as int]),
                            ky@.map_values(|k: Vec<char>| k@) == book_keys(books@[y as int]),
                            forall|a1: int, b1: int| 0 <= a1 < a && 0 <= b1 < ky@.len() ==> kx@[a1]@ != ky@[b1]@,
                            forall|b1: int| 0 <= b1 < b ==> kx@[a as int]@ != ky@[b1]@,
                        decreases ky@.len() - b,
                    {
                        if same_chars(&kx[a], &ky[b]) {
                            assert(book_keys(books@[x as int])[a as int] == kx@[a as int]@);
                            assert(book_keys(books@[y as int])[b as int] == ky@[b as int]@);
                            return Err(CanonError::DuplicateAlias(x, y));
                        }
                        b = b + 1;
                    }
                    a = a + 1;
                }
                assert forall|a1: int, b1: int|
                    0 <= a1 < book_keys(books@[x as int]).len() && 0 <= b1 < book_keys(books@[y as int]).len()
                        implies #[trigger] book_keys(books@[x as int])[a1] != #[trigger] book_keys(books@[y as int])[b1] by {
                    assert(book_keys(books@[x as int])[a1] == kx@[a1]@);
                    assert(book_keys(books@[y as int])[b1] == ky@[b1]@);
                }
                y = y + 1;
            }
            x = x + 1;
        }
        let _ = books.len();
        let c = Canon { books, keys };
        assert forall|b: int| 0 <= b < c.books@.len() implies #[trigger] c.held_keys(b) == book_keys(c.books@[b]) by {
            assert(c.keys@[b]@.map_values(|k: Vec<char>| k@) == book_keys(c.books@[b]));
        }
        assert(keys_unique(c.books@)) by {
            assert forall|i1: int, j1: int, a1: int, b1: int|
                0 <= i1 < c.books@.len() && 0 <= j1 < c.books@.len() && i1 != j1
                    && 0 <= a1 < book_keys(c.books@[i1]).len() && 0 <= b1 < book_keys(c.books@[j1]).len()
                    implies #[trigger] book_keys(c.books@[i1])[a1] != #[trigger] book_keys(c.books@[j1])[b1] by {
                if i1 > j1 {
                    assert(book_keys(c.books@[j1])[b1] != book_keys(c.books@[i1])[a1]);
                }
            }
        }
        Ok(c)
    }
}

} // verus!
