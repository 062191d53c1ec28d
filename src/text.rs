//! Character classes, normalised keys and decimal numbers.
use vstd::prelude::*;

verus! {

/// The plain lower-case letter under a Latin-1 accented letter ('\u{E9}' is
/// an 'e'), if `c` is one.
pub open spec fn accent_base(c: char) -> Option<char> {
    if ('\u{C0}' <= c && c <= '\u{C5}') || ('\u{E0}' <= c && c <= '\u{E5}') {
        Some('a')
    } else if c == '\u{C7}' || c == '\u{E7}' {
        Some('c')
    } else if ('\u{C8}' <= c && c <= '\u{CB}') || ('\u{E8}' <= c && c <= '\u{EB}') {
        Some('e')
    } else if ('\u{CC}' <= c && c <= '\u{CF}') || ('\u{EC}' <= c && c <= '\u{EF}') {
        Some('i')
    } else if c == '\u{D1}' || c == '\u{F1}' {
        Some('n')
    } else if ('\u{D2}' <= c && c <= '\u{D6}') || c == '\u{D8}' || ('\u{F2}' <= c && c <= '\u{F6}') || c == '\u{F8}' {
        Some('o')
    } else if ('\u{D9}' <= c && c <= '\u{DC}') || ('\u{F9}' <= c && c <= '\u{FC}') {
        Some('u')
    } else if c == '\u{DD}' || c == '\u{FD}' || c == '\u{FF}' {
        Some('y')
    } else {
        None
    }
}

/// A letter: an ASCII letter or a Latin-1 accented one.
pub open spec fn is_letter(c: char) -> bool {
    ('a' <= c && c <= 'z') || ('A' <= c && c <= 'Z') || accent_base(c) is Some
}

/// An ASCII decimal digit.
pub open spec fn is_digit(c: char) -> bool {
    '0' <= c && c <= '9'
}

/// Folds a letter to plain lower case: an ASCII capital to its small letter,
/// an accented letter to its plain one; every other character stays as it is.
pub open spec fn fold(c: char) -> char {
    if 'A' <= c && c <= 'Z' {
        (((c as u32) + 32) as u8) as char
    } else if accent_base(c) is Some {
        accent_base(c).unwrap()
    } else {
        c
    }
}

/// The matching key of a name: its letters, folded, and its digits, in
/// order; everything else (spaces, dots, other punctuation) is dropped.
pub open spec fn key_of(s: Seq<char>) -> Seq<char>
    decreases s.len(),
{
    if s.len() == 0 {
        Seq::empty()
    } else {
        let c = s.last();
        let rest = key_of(s.drop_last());
        if is_letter(c) || is_digit(c) {
            rest.push(fold(c))
        } else {
            rest
        }
    }
}

/// The value of a digit character.
pub open spec fn digit_value(c: char) -> nat {
    ((c as u32) - ('0' as u32)) as nat
}

/// The character of a digit value below ten.
pub open spec fn digit_char(d: nat) -> char {
    ((('0' as u32) + d) as u8) as char
}

/// The number that a run of digits writes in decimal.
pub open spec fn num_of(s: Seq<char>) -> nat
    decreases s.len(),
{
    if s.len() == 0 {
        0
    } else {
        num_of(s.drop_last()) * 10 + digit_value(s.last())
    }
}

/// The decimal writing of a number, without leading zeros.
pub open spec fn dec(n: nat) -> Seq<char>
    decreases n,
{
    if n < 10 {
        seq![digit_char(n)]
    } else {
        dec(n / 10).push(digit_char(n % 10))
    }
}

/// The first index at or after `i` whose character satisfies `p`, or the
/// length of `s` where there is none.
pub open spec fn first_at(s: Seq<char>, i: int, p: spec_fn(char) -> bool) -> int
    decreases s.len() - i,
{
    if i >= s.len() {
        s.len() as int
    } else if p(s[i]) {
        i
    } else {
        first_at(s, i + 1, p)
    }
}

/// `first_at` is the index that a scan stopping at the first hit finds.
pub proof fn lemma_first_at(s: Seq<char>, i: int, j: int, p: spec_fn(char) -> bool)
    requires
        0 <= i <= j <= s.len(),
        forall|k: int| i <= k < j ==> !p(#[trigger] s[k]),
        j == s.len() || p(s[j]),
    ensures
        first_at(s, i, p) == j,
    decreases j - i,
{
    if i < j {
        lemma_first_at(s, i + 1, j, p);
    }
}

/// A digit character reads back as its value.
pub proof fn lemma_digit_char(d: nat)
    requires
        d < 10,
    ensures
        digit_value(digit_char(d)) == d,
        is_digit(digit_char(d)),
{
    let b: u8 = (('0' as u32) + d) as u8;
    assert(b as u32 == 48 + d);
    assert((b as char) as u32 == b as u32);
}

/// Decimal writing and reading are inverse, and the writing is all digits.
pub proof fn lemma_dec(n: nat)
    ensures
        num_of(dec(n)) == n,
        dec(n).len() >= 1,
        forall|k: int| 0 <= k < dec(n).len() ==> is_digit(#[trigger] dec(n)[k]),
    decreases n,
{
    lemma_digit_char(n % 10);
    if n < 10 {
        assert(dec(n).drop_last() =~= Seq::<char>::empty());
        assert(num_of(Seq::<char>::empty()) == 0);
        assert(dec(n).last() == digit_char(n));
    } else {
        lemma_dec(n / 10);
        let d = dec(n / 10).push(digit_char(n % 10));
        assert(d.drop_last() =~= dec(n / 10));
        vstd::arithmetic::div_mod::lemma_fundamental_div_mod(n as int, 10);
        assert(num_of(d) == num_of(dec(n / 10)) * 10 + digit_value(digit_char(n % 10)));
        assert forall|k: int| 0 <= k < dec(n).len() implies is_digit(#[trigger] dec(n)[k]) by {
            if k < dec(n / 10).len() {
                assert(dec(n)[k] == dec(n / 10)[k]);
            }
        }
    }
}

/// Folds a letter to plain lower case.
pub fn fold_char(c: char) -> (r: char)
    ensures
        r == fold(c),
{
    if 'A' <= c && c <= 'Z' {
        ((c as u8) + 32) as char
    } else {
        match accent_base_of(c) {
            Some(b) => b,
            None => c,
        }
    }
}

/// The plain letter under an accented one.
fn accent_base_of(c: char) -> (r: Option<char>)
    ensures
        r == accent_base(c),
{
    if ('\u{C0}' <= c && c <= '\u{C5}') || ('\u{E0}' <= c && c <= '\u{E5}') {
        Some('a')
    } else if c == '\u{C7}' || c == '\u{E7}' {
        Some('c')
    } else if ('\u{C8}' <= c && c <= '\u{CB}') || ('\u{E8}' <= c && c <= '\u{EB}') {
        Some('e')
    } else if ('\u{CC}' <= c && c <= '\u{CF}') || ('\u{EC}' <= c && c <= '\u{EF}') {
        Some('i')
    } else if c == '\u{D1}' || c == '\u{F1}' {
        Some('n')
    } else if ('\u{D2}' <= c && c <= '\u{D6}') || c == '\u{D8}' || ('\u{F2}' <= c && c <= '\u{F6}') || c == '\u{F8}' {
        Some('o')
    } else if ('\u{D9}' <= c && c <= '\u{DC}') || ('\u{F9}' <= c && c <= '\u{FC}') {
        Some('u')
    } else if c == '\u{DD}' || c == '\u{FD}' || c == '\u{FF}' {
        Some('y')
    } else {
        None
    }
}

/// Whether `c` is a letter.
pub fn is_letter_char(c: char) -> (r: bool)
    ensures
        r == is_letter(c),
{
    ('a' <= c && c <= 'z') || ('A' <= c && c <= 'Z') || accent_base_of(c).is_some()
}

/// Whether `c` is an ASCII digit.
pub fn is_digit_char(c: char) -> (r: bool)
    ensures
        r == is_digit(c),
{
    '0' <= c && c <= '9'
}

/// The characters of a string.
pub fn chars_of(s: &str) -> (r: Vec<char>)
    ensures
        r@ == s@,
{
    let n = s.unicode_len();
    let mut r: Vec<char> = Vec::new();
    let mut i: usize = 0;
    while i < n
        invariant
            n == s@.len(),
            i <= n,
            r@ == s@.subrange(0, i as int),
        decreases n - i,
    {
        r.push(s.get_char(i));
        i = i + 1;
    }
    assert(r@ =~= s@);
    r
}

/// The matching key of a run of characters.
pub fn key_of_chars(s: &Vec<char>, from: usize, to: usize) -> (r: Vec<char>)
    requires
        from <= to <= s@.len(),
    ensures
        r@ == key_of(s@.subrange(from as int, to as int)),
{
    let mut r: Vec<char> = Vec::new();
    let mut i: usize = from;
    while i < to
        invariant
            from <= i <= to <= s@.len(),
            r@ == key_of(s@.subrange(from as int, i as int)),
        decreases to - i,
    {
        let c = s[i];
        if is_letter_char(c) || is_digit_char(c) {
            r.push(fold_char(c));
        }
        assert(s@.subrange(from as int, i + 1).drop_last() =~= s@.subrange(from as int, i as int));
        i = i + 1;
    }
    r
}

/// The matching key of a string.
pub fn key_of_str(s: &str) -> (r: Vec<char>)
    ensures
        r@ == key_of(s@),
{
    let c = chars_of(s);
    let r = key_of_chars(&c, 0, c.len());
    assert(c@.subrange(0, c@.len() as int) =~= s@);
    r
}

/// Appends the decimal writing of `n`.
pub fn push_dec(out: &mut Vec<char>, n: u32)
    ensures
        final(out)@ == old(out)@ + dec(n as nat),
    decreases n,
{
    if n >= 10 {
        push_dec(out, n / 10);
        let d = (n % 10) as u32;
        out.push(char_of_digit(d));
    } else {
        out.push(char_of_digit(n));
    }
}

/// The character of a digit value.
fn char_of_digit(d: u32) -> (c: char)
    requires
        d < 10,
    ensures
        c == digit_char(d as nat),
{
    match d {
        0 => '0',
        1 => '1',
        2 => '2',
        3 => '3',
        4 => '4',
        5 => '5',
        6 => '6',
        7 => '7',
        8 => '8',
        _ => '9',
    }
}

/// A key that can be the canonical key of a book: it holds a letter, and no
/// digit follows its first letter (a leading number such as in "1john" is fine).
pub open spec fn is_book_key(k: Seq<char>) -> bool {
    &&& exists|i: int| 0 <= i < k.len() && is_letter(#[trigger] k[i])
    &&& forall|i: int, j: int|
        0 <= i < j < k.len() && is_letter(#[trigger] k[i]) ==> !is_digit(#[trigger] k[j])
}

/// `a` is a proper prefix of `b`.
pub open spec fn is_proper_prefix(a: Seq<char>, b: Seq<char>) -> bool {
    a.len() < b.len() && b.subrange(0, a.len() as int) == a
}

/// `a` and `b` are at most one edit apart: one character changed, inserted
/// or removed.
pub open spec fn within_one_edit(a: Seq<char>, b: Seq<char>) -> bool {
    ||| (a.len() == b.len() && forall|i: int, j: int|
        0 <= i < j < a.len() ==> #[trigger] a[i] == b[i] || #[trigger] a[j] == b[j])
    ||| one_removed(a, b)
    ||| one_removed(b, a)
}

/// Removing one character from `long` gives `short`.
pub open spec fn one_removed(long: Seq<char>, short: Seq<char>) -> bool {
    long.len() == short.len() + 1 && exists|i: int| 0 <= i < long.len() && #[trigger] long.remove(i) == short
}

/// Whether two character sequences are equal.
pub fn same_chars(a: &Vec<char>, b: &Vec<char>) -> (r: bool)
    ensures
        r == (a@ == b@),
{
    if a.len() != b.len() {
        return false;
    }
    let mut i: usize = 0;
    while i < a.len()
        invariant
            a@.len() == b@.len(),
            i <= a@.len(),
            forall|k: int| 0 <= k < i ==> a@[k] == b@[k],
        decreases a@.len() - i,
    {
        if a[i] != b[i] {
            return false;
        }
        i = i + 1;
    }
    assert(a@ =~= b@);
    true
}

/// Whether removing one character from `long` gives `short`.
fn check_one_removed(long: &Vec<char>, short: &Vec<char>) -> (r: bool)
    ensures
        r == one_removed(long@, short@),
{
    if long.len() == 0 || long.len() - 1 != short.len() {
        return false;
    }
    let n = short.len();
    let mut p: usize = 0;
    while p < n && long[p] == short[p]
        invariant
            long@.len() == n + 1,
            short@.len() == n,
            p <= n,
            forall|k: int| 0 <= k < p ==> long@[k] == short@[k],
        decreases n - p,
    {
        p = p + 1;
    }
    let mut k: usize = p;
    while k < n
        invariant
            long@.len() == n + 1,
            short@.len() == n,
            p <= k <= n,
            p == n || long@[p as int] != short@[p as int],
            forall|j: int| p <= j < k ==> long@[j + 1] == short@[j],
        decreases n - k,
    {
        if long[k + 1] != short[k] {
            assert forall|i: int| 0 <= i < long@.len() implies #[trigger] long@.remove(i) != short@ by {
                if long@.remove(i) == short@ {
                    if i > p {
                        assert(long@.remove(i)[p as int] == long@[p as int]);
                    }
                    assert(i <= k);
                    assert(long@.remove(i) =~= long@.subrange(0, i) + long@.subrange(i + 1, long@.len() as int));
                    assert(long@.remove(i)[k as int] == long@[k + 1]);
                }
            }
            return false;
        }
        k = k + 1;
    }
    assert(long@.remove(p as int) =~= short@);
    true
}

/// Whether `a` and `b` are at most one edit apart.
pub fn check_within_one_edit(a: &Vec<char>, b: &Vec<char>) -> (r: bool)
    ensures
        r == within_one_edit(a@, b@),
{
    if a.len() == b.len() {
        let mut seen: bool = false;
        let mut at: usize = 0;
        let mut i: usize = 0;
        while i < a.len()
            invariant
                a@.len() == b@.len(),
                i <= a@.len(),
                seen ==> at < i && a@[at as int] != b@[at as int],
                forall|j: int| 0 <= j < i && a@[j] != b@[j] ==> seen && j == at,
            decreases a@.len() - i,
        {
            if a[i] != b[i] {
                if seen {
                    assert(!(a@[at as int] == b@[at as int] || a@[i as int] == b@[i as int]));
                    return check_one_removed(a, b) || check_one_removed(b, a);
                }
                seen = true;
                at = i;
            }
            i = i + 1;
        }
        return true;
    }
    check_one_removed(a, b) || check_one_removed(b, a)
}

/// Whether `k` can be the canonical key of a book.
pub fn check_book_key(k: &Vec<char>) -> (r: bool)
    ensures
        r == is_book_key(k@),
{
    let mut seen: bool = false;
    let mut first: usize = 0;
    let mut i: usize = 0;
    while i < k.len()
        invariant
            i <= k@.len(),
            seen ==> first < i && is_letter(k@[first as int]),
            seen ==> forall|j: int| first < j < i ==> !is_digit(#[trigger] k@[j]),
            seen ==> forall|j: int| 0 <= j < first ==> !is_letter(#[trigger] k@[j]),
            !seen ==> forall|j: int| 0 <= j < i ==> !is_letter(#[trigger] k@[j]),
        decreases k@.len() - i,
    {
        let c = k[i];
        if seen {
            if is_digit_char(c) {
                assert(!is_book_key(k@)) by {
                    assert(is_letter(k@[first as int]) && is_digit(k@[i as int]));
                }
                return false;
            }
        } else if is_letter_char(c) {
            seen = true;
            first = i;
        }
        i = i + 1;
    }
    if !seen {
        assert(!is_book_key(k@));
        return false;
    }
    assert forall|a: int, b: int|
        0 <= a < b < k@.len() && is_letter(#[trigger] k@[a]) implies !is_digit(#[trigger] k@[b]) by {
        assert(a >= first as int);
    }
    true
}

/// Whether `a` is a proper prefix of `b`.
pub fn check_proper_prefix(a: &Vec<char>, b: &Vec<char>) -> (r: bool)
    ensures
        r == is_proper_prefix(a@, b@),
{
    if a.len() >= b.len() {
        return false;
    }
    let mut i: usize = 0;
    while i < a.len()
        invariant
            a@.len() < b@.len(),
            i <= a@.len(),
            forall|k: int| 0 <= k < i ==> a@[k] == b@[k],
        decreases a@.len() - i,
    {
        if a[i] != b[i] {
            assert(b@.subrange(0, a@.len() as int)[i as int] != a@[i as int]);
            return false;
        }
        i = i + 1;
    }
    assert(b@.subrange(0, a@.len() as int) =~= a@);
    true
}

} // verus!
