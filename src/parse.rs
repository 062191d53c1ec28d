//! The reference grammar: a book part, then `chapter`, `chapter:verse`,
//! `chapter:verse-verse` or `chapter:verse,verse` (`.` may stand for `:`),
//! or for books of one chapter also `verse-verse` and `verse,verse`.
use vstd::prelude::*;
use crate::text::{first_at, is_digit, is_digit_char, is_letter, is_letter_char, key_of, key_of_chars, lemma_first_at, num_of};

verus! {

/// How a second verse number joins the first: a range, or a second verse.
#[derive(Debug, Clone, Copy, PartialEq, Eq, Structural)]
pub enum Joint {
    Through,
    And,
}

/// The numbers that follow the book part, as written.
#[derive(Debug, Clone, Copy, PartialEq, Eq, Structural)]
pub enum Locator {
    /// No numbers: the book alone.
    Nothing,
    /// `n`
    One(u32),
    /// `n:m`
    Two(u32, u32),
    /// `n:m-k` or `n:m,k`
    Three(u32, u32, Joint, u32),
    /// `m-k` or `m,k`
    Span(u32, Joint, u32),
}

pub open spec fn letter_p() -> spec_fn(char) -> bool {
    |c: char| is_letter(c)
}

pub open spec fn digit_p() -> spec_fn(char) -> bool {
    |c: char| is_digit(c)
}

pub open spec fn non_digit_p() -> spec_fn(char) -> bool {
    |c: char| !is_digit(c)
}

/// The end of the run of digits that starts at `i`.
pub open spec fn run_end(s: Seq<char>, i: int) -> int {
    first_at(s, i, non_digit_p())
}

/// The number written by the run of digits at `i`.
pub open spec fn number_at(s: Seq<char>, i: int) -> nat {
    num_of(s.subrange(i, run_end(s, i)))
}

/// The run of digits at `i` writes a number from 1 to `u32::MAX`.
pub open spec fn number_ok(s: Seq<char>, i: int) -> bool {
    1 <= number_at(s, i) <= u32::MAX
}

pub open spec fn digit_at(s: Seq<char>, i: int) -> bool {
    0 <= i < s.len() && is_digit(s[i])
}

pub open spec fn is_sep(c: char) -> bool {
    c == ':' || c == '.'
}

pub open spec fn joint_of(c: char) -> Option<Joint> {
    if c == '-' {
        Some(Joint::Through)
    } else if c == ',' {
        Some(Joint::And)
    } else {
        None
    }
}

/// Where the book part of `s` ends: at the first digit after its first
/// letter.
pub open spec fn book_end(s: Seq<char>) -> int {
    first_at(s, first_at(s, 0, letter_p()), digit_p())
}

/// What a joint and a last number at `e` (just after a number) read as, given
/// how the numbers before read: `Ok(None)` where `e` is the end, an error
/// position where the text is not a joint and a number that ends the text.
pub open spec fn joined_at(s: Seq<char>, e: int) -> Result<Option<(Joint, u32)>, int> {
    if e == s.len() {
        Ok(None)
    } else if joint_of(s[e]) is Some && digit_at(s, e + 1) {
        if !number_ok(s, e + 1) {
            Err(e + 1)
        } else if run_end(s, e + 1) != s.len() {
            Err(run_end(s, e + 1))
        } else {
            Ok(Some((joint_of(s[e]).unwrap(), number_at(s, e + 1) as u32)))
        }
    } else {
        Err(e)
    }
}

/// The numbers of `s` from `b`, a digit, to the end; or the position at which
/// the text stops being a locator.
pub open spec fn locator_at(s: Seq<char>, b: int) -> Result<Locator, int> {
    let e1 = run_end(s, b);
    let n1 = number_at(s, b) as u32;
    if !number_ok(s, b) {
        Err(b)
    } else if e1 < s.len() && is_sep(s[e1]) && digit_at(s, e1 + 1) {
        let e2 = run_end(s, e1 + 1);
        let n2 = number_at(s, e1 + 1) as u32;
        if !number_ok(s, e1 + 1) {
            Err(e1 + 1)
        } else {
            match joined_at(s, e2) {
                Ok(None) => Ok(Locator::Two(n1, n2)),
                Ok(Some((j, n3))) => Ok(Locator::Three(n1, n2, j, n3)),
                Err(p) => Err(p),
            }
        }
    } else {
        match joined_at(s, e1) {
            Ok(None) => Ok(Locator::One(n1)),
            Ok(Some((j, n3))) => Ok(Locator::Span(n1, j, n3)),
            Err(p) => Err(p),
        }
    }
}

/// A reference as written: the matching key of its book part, the position
/// where its numbers start, and its locator; or the position of the first
/// text that cannot stand there (0 where the text holds no letter).
pub open spec fn scan(s: Seq<char>) -> Result<(Seq<char>, int, Locator), int> {
    let b = book_end(s);
    let key = key_of(s.subrange(0, b));
    if first_at(s, 0, letter_p()) == s.len() {
        Err(0)
    } else if b == s.len() {
        Ok((key, b, Locator::Nothing))
    } else {
        match locator_at(s, b) {
            Ok(l) => Ok((key, b, l)),
            Err(p) => Err(p),
        }
    }
}

/// The first letter at or after `i`.
fn find_letter(s: &Vec<char>, i: usize) -> (r: usize)
    requires
        i <= s@.len(),
    ensures
        r == first_at(s@, i as int, letter_p()),
        i <= r <= s@.len(),
{
    let mut k: usize = i;
    while k < s.len() && !is_letter_char(s[k])
        invariant
            i <= k <= s@.len(),
            forall|j: int| i <= j < k ==> !letter_p()(#[trigger] s@[j]),
        decreases s@.len() - k,
    {
        k = k + 1;
    }
    proof {
        lemma_first_at(s@, i as int, k as int, letter_p());
    }
    k
}

/// The first digit at or after `i`.
fn find_digit(s: &Vec<char>, i: usize) -> (r: usize)
    requires
        i <= s@.len(),
    ensures
        r == first_at(s@, i as int, digit_p()),
        i <= r <= s@.len(),
{
    let mut k: usize = i;
    while k < s.len() && !is_digit_char(s[k])
        invariant
            i <= k <= s@.len(),
            forall|j: int| i <= j < k ==> !digit_p()(#[trigger] s@[j]),
        decreases s@.len() - k,
    {
        k = k + 1;
    }
    proof {
        lemma_first_at(s@, i as int, k as int, digit_p());
    }
    k
}

/// Reads the run of digits at `i`: where it ends, and its number where that
/// is from 1 to `u32::MAX`.
fn read_number(s: &Vec<char>, i: usize) -> (r: (Option<u32>, usize))
    requires
        i <= s@.len(),
    ensures
        r.1 == run_end(s@, i as int),
        i <= r.1 <= s@.len(),
        r.0 is Some <==> number_ok(s@, i as int),
        r.0 matches Some(n) ==> n == number_at(s@, i as int),
{
    let mut k: usize = i;
    let mut acc: u64 = 0;
    let mut big: bool = false;
    while k < s.len() && is_digit_char(s[k])
        invariant
            i <= k <= s@.len(),
            forall|j: int| i <= j < k ==> is_digit(#[trigger] s@[j]),
            !big ==> acc == num_of(s@.subrange(i as int, k as int)) && acc <= u32::MAX,
            big ==> num_of(s@.subrange(i as int, k as int)) > u32::MAX,
        decreases s@.len() - k,
    {
        let c = s[k];
        assert(s@.subrange(i as int, k + 1).drop_last() =~= s@.subrange(i as int, k as int));
        if !big {
            let v = acc * 10 + ((c as u32) - ('0' as u32)) as u64;
            if v > 4294967295u64 {
                big = true;
            } else {
                acc = v;
            }
        }
        k = k + 1;
    }
    proof {
        lemma_first_at(s@, i as int, k as int, non_digit_p());
    }
    if big || acc == 0 {
        (None, k)
    } else {
        (Some(acc as u32), k)
    }
}

fn joint_char(c: char) -> (r: Option<Joint>)
    ensures
        r == joint_of(c),
{
    if c == '-' {
        Some(Joint::Through)
    } else if c == ',' {
        Some(Joint::And)
    } else {
        None
    }
}

fn joined(s: &Vec<char>, e: usize) -> (r: Result<Option<(Joint, u32)>, usize>)
    requires
        e <= s@.len(),
    ensures
        match r {
            Ok(x) => joined_at(s@, e as int) == Ok::<Option<(Joint, u32)>, int>(x),
            Err(p) => joined_at(s@, e as int) == Err::<Option<(Joint, u32)>, int>(p as int) && p <= s@.len(),
        },
{
    if e == s.len() {
        return Ok(None);
    }
    let j = joint_char(s[e]);
    match j {
        Some(j) => {
            if e + 1 < s.len() && is_digit_char(s[e + 1]) {
                let (n, end) = read_number(s, e + 1);
                match n {
                    None => Err(e + 1),
                    Some(n) => {
                        if end != s.len() {
                            Err(end)
                        } else {
                            Ok(Some((j, n)))
                        }
                    },
                }
            } else {
                Err(e)
            }
        },
        None => Err(e),
    }
}

/// Splits a reference into the matching key of its book part, the position
/// where its numbers start, and its locator.
pub fn scan_chars(s: &Vec<char>) -> (r: Result<(Vec<char>, usize, Locator), usize>)
    ensures
        match r {
            Ok((k, b, l)) => scan(s@) == Ok::<(Seq<char>, int, Locator), int>((k@, b as int, l)) && b <= s@.len(),
            Err(p) => scan(s@) == Err::<(Seq<char>, int, Locator), int>(p as int) && p <= s@.len(),
        },
{
    let f = find_letter(s, 0);
    if f == s.len() {
        return Err(0);
    }
    let b = find_digit(s, f);
    let key = key_of_chars(s, 0, b);
    if b == s.len() {
        return Ok((key, b, Locator::Nothing));
    }
    let (n1, e1) = read_number(s, b);
    let n1 = match n1 {
        None => return Err(b),
        Some(n) => n,
    };
    if e1 < s.len() && (s[e1] == ':' || s[e1] == '.') && e1 + 1 < s.len() && is_digit_char(s[e1 + 1]) {
        let (n2, e2) = read_number(s, e1 + 1);
        let n2 = match n2 {
            None => return Err(e1 + 1),
            Some(n) => n,
        };
        match joined(s, e2) {
            Ok(None) => Ok((key, b, Locator::Two(n1, n2))),
            Ok(Some((j, n3))) => Ok((key, b, Locator::Three(n1, n2, j, n3))),
            Err(p) => Err(p),
        }
    } else {
        match joined(s, e1) {
            Ok(None) => Ok((key, b, Locator::One(n1))),
            Ok(Some((j, n3))) => Ok((key, b, Locator::Span(n1, j, n3))),
            Err(p) => Err(p),
        }
    }
}

} // verus!
