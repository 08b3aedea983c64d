//! File name heuristics: a display title and year from a media file or show
//! directory name, a season number from a season directory name, and an
//! episode number from an episode file name.

use vstd::prelude::*;
use crate::text::{find_first, find_last, first_index, last_index, lemma_last_index_bounds, opt_view};

verus! {

/// The name without its extension: the text before the first `.`.
pub open spec fn stem(s: Seq<char>) -> Seq<char> {
    s.take(first_index(s, '.'))
}

/// The last space separated token of `s`.
pub open spec fn tail_token(s: Seq<char>) -> Seq<char> {
    s.skip(last_index(s, ' ') + 1)
}

pub open spec fn is_digit(c: char) -> bool {
    '0' <= c && c <= '9'
}

pub open spec fn is_digits(t: Seq<char>) -> bool {
    forall|i: int| 0 <= i < t.len() ==> is_digit(#[trigger] t[i])
}

/// The decimal value of a run of ASCII digits.
pub open spec fn digits_value(t: Seq<char>) -> nat
    decreases t.len(),
{
    if t.len() == 0 {
        0
    } else {
        digits_value(t.drop_last()) * 10 + ((t.last() as u32) - ('0' as u32)) as nat
    }
}

/// A non-empty run of digits whose value fits an `i32`, read as that value.
pub open spec fn number_spec(t: Seq<char>) -> Option<i32> {
    if t.len() > 0 && is_digits(t) && digits_value(t) <= i32::MAX {
        Some(digits_value(t) as i32)
    } else {
        None
    }
}

/// The year of an extension-free name: a final token of exactly four digits
/// that is not the whole name.
pub open spec fn year_spec(s: Seq<char>) -> Option<Seq<char>> {
    if last_index(s, ' ') >= 0 && tail_token(s).len() == 4 && is_digits(tail_token(s)) {
        Some(tail_token(s))
    } else {
        None
    }
}

/// The title of an extension-free name: the tokens before the year, or the
/// whole name when it has no year.
pub open spec fn title_spec(s: Seq<char>) -> Seq<char> {
    if year_spec(s) is Some {
        s.take(last_index(s, ' '))
    } else {
        s
    }
}

/// The season number of a directory name: its final token, all digits, when
/// that token is not the whole name.
pub open spec fn season_spec(s: Seq<char>) -> Option<i32> {
    if last_index(s, ' ') >= 0 {
        number_spec(tail_token(s))
    } else {
        None
    }
}

/// The episode number of a file name: the digits after the last `E` of the
/// final token of its stem.
pub open spec fn episode_spec(s: Seq<char>) -> Option<i32> {
    let tok = tail_token(stem(s));
    let e = last_index(tok, 'E');
    if e >= 0 {
        number_spec(tok.skip(e + 1))
    } else {
        None
    }
}

/// Title and optional year read from a file or directory name.
pub struct ParsedName {
    pub title: String,
    pub year: Option<String>,
}

proof fn lemma_digits_value_grows(t: Seq<char>, i: int)
    requires
        0 <= i <= t.len(),
        is_digits(t),
    ensures
        digits_value(t.take(i)) <= digits_value(t),
    decreases t.len(),
{
    if i < t.len() {
        assert(is_digit(t[t.len() - 1]));
        let d = t.drop_last();
        assert(is_digits(d)) by {
            assert forall|j: int| 0 <= j < d.len() implies is_digit(#[trigger] d[j]) by {
                assert(d[j] == t[j]);
            }
        }
        lemma_digits_value_grows(d, i);
        assert(d.take(i) =~= t.take(i));
    } else {
        assert(t.take(i) =~= t);
    }
}

/// Whether every character of `s` is an ASCII digit.
pub fn all_digits(s: &str) -> (r: bool)
    ensures
        r == is_digits(s@),
{
    let n = s.unicode_len();
    let mut i: usize = 0;
    while i < n
        invariant
            n == s@.len(),
            i <= n,
            forall|j: int| 0 <= j < i ==> is_digit(#[trigger] s@[j]),
        decreases n - i,
    {
        let c = s.get_char(i);
        if !('0' <= c && c <= '9') {
            return false;
        }
        i = i + 1;
    }
    true
}

/// The value of a non-empty run of digits that fits an `i32`.
pub fn number_value(t: &str) -> (r: Option<i32>)
    ensures
        r == number_spec(t@),
{
    let n = t.unicode_len();
    if n == 0 {
        return None;
    }
    let mut acc: u64 = 0;
    let mut i: usize = 0;
    while i < n
        invariant
            n == t@.len(),
            i <= n,
            acc == digits_value(t@.take(i as int)),
            acc <= i32::MAX,
            is_digits(t@.take(i as int)),
        decreases n - i,
    {
        let c = t.get_char(i);
        if !('0' <= c && c <= '9') {
            assert(!is_digit(t@[i as int]));
            return None;
        }
        proof {
            assert(t@.take(i + 1).drop_last() =~= t@.take(i as int));
            assert(is_digits(t@.take(i + 1))) by {
                assert forall|j: int| 0 <= j < i + 1 implies is_digit(#[trigger] t@.take(i + 1)[j]) by {
                    if j < i {
                        assert(t@.take(i + 1)[j] == t@.take(i as int)[j]);
                    }
                }
            }
        }
        acc = acc * 10 + ((c as u32) - ('0' as u32)) as u64;
        i = i + 1;
        if acc > 2147483647 {
            proof {
                if is_digits(t@) {
                    lemma_digits_value_grows(t@, i as int);
                }
            }
            return None;
        }
    }
    assert(t@.take(n as int) =~= t@);
    Some(acc as i32)
}

/// Splits a name into title and year: the extension is dropped, and a final
/// space separated token of exactly four digits that is not the whole name is
/// the year, the tokens before it the title; otherwise the whole
/// extension-free name is the title.
pub fn parse_name(name: &str) -> (r: ParsedName)
    ensures
        r.title@ == title_spec(stem(name@)),
        opt_view(r.year) == year_spec(stem(name@)),
{
    let k = find_first(name, '.');
    let st = name.substring_char(0, k);
    assert(st@ =~= stem(name@));
    proof {
        lemma_last_index_bounds(st@, ' ');
    }
    match find_last(st, ' ') {
        None => ParsedName { title: String::from_str(st), year: None },
        Some(p) => {
            let n = st.unicode_len();
            let tok = st.substring_char(p + 1, n);
            assert(tok@ =~= tail_token(st@));
            if tok.unicode_len() == 4 && all_digits(tok) {
                let head = st.substring_char(0, p);
                assert(head@ =~= st@.take(p as int));
                ParsedName { title: String::from_str(head), year: Some(String::from_str(tok)) }
            } else {
                ParsedName { title: String::from_str(st), year: None }
            }
        },
    }
}

/// The season number of a season directory name.
pub fn season_number(name: &str) -> (r: Option<i32>)
    ensures
        r == season_spec(name@),
{
    proof {
        lemma_last_index_bounds(name@, ' ');
    }
    let n = name.unicode_len();
    match find_last(name, ' ') {
        None => None,
        Some(p) => {
            let tok = name.substring_char(p + 1, n);
            assert(tok@ =~= tail_token(name@));
            number_value(tok)
        },
    }
}

/// The episode number of an episode file name.
pub fn episode_number(name: &str) -> (r: Option<i32>)
    ensures
        r == episode_spec(name@),
{
    let k = find_first(name, '.');
    let st = name.substring_char(0, k);
    assert(st@ =~= stem(name@));
    proof {
        lemma_last_index_bounds(st@, ' ');
    }
    let start: usize = match find_last(st, ' ') {
        None => 0,
        Some(p) => p + 1,
    };
    let tok = st.substring_char(start, st.unicode_len());
    assert(tok@ =~= tail_token(st@));
    proof {
        lemma_last_index_bounds(tok@, 'E');
    }
    match find_last(tok, 'E') {
        None => None,
        Some(e) => {
            let digits = tok.substring_char(e + 1, tok.unicode_len());
            assert(digits@ =~= tok@.skip(e + 1));
            number_value(digits)
        },
    }
}

} // verus!
