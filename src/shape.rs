//! Shape codes and preview entries.
//!
//! A shape code is written `<height>x<width>`, both in decimal digits, and a
//! preview entry is written `<card type>-<shape code>`: the card type runs up
//! to the first `-`.

use vstd::prelude::*;
use crate::text::{index_of, lemma_index_of};

verus! {

pub open spec fn is_digit(c: char) -> bool {
    '0' <= c && c <= '9'
}

/// A non-empty run of decimal digits.
pub open spec fn all_digits(s: Seq<char>) -> bool {
    s.len() > 0 && forall|i: int| 0 <= i < s.len() ==> is_digit(#[trigger] s[i])
}

pub open spec fn digit_value(c: char) -> nat {
    ((c as u32) - ('0' as u32)) as nat
}

/// The number that a run of decimal digits writes.
pub open spec fn decimal(s: Seq<char>) -> nat
    decreases s.len(),
{
    if s.len() == 0 {
        0
    } else {
        decimal(s.drop_last()) * 10 + digit_value(s.last())
    }
}

/// The parts of `s` before and after the first `sep`.
pub open spec fn split_once(s: Seq<char>, sep: char) -> Option<(Seq<char>, Seq<char>)> {
    match index_of(s, sep) {
        Some(i) => Some((s.take(i), s.skip(i + 1))),
        None => None,
    }
}

/// Height and width that a shape code gives.
pub open spec fn shape_code(s: Seq<char>) -> Option<(nat, nat)> {
    match split_once(s, 'x') {
        Some((a, b)) => if all_digits(a) && all_digits(b) {
            Some((decimal(a), decimal(b)))
        } else {
            None
        },
        None => None,
    }
}

/// Card type, height and width that a preview entry gives.
pub open spec fn cell_entry(s: Seq<char>) -> Option<(Seq<char>, nat, nat)> {
    match split_once(s, '-') {
        Some((ty, code)) => match shape_code(code) {
            Some((h, w)) => Some((ty, h, w)),
            None => None,
        },
        None => None,
    }
}

proof fn lemma_decimal_grows(s: Seq<char>, k: int)
    requires
        0 <= k <= s.len(),
    ensures
        decimal(s.take(k)) <= decimal(s),
    decreases s.len() - k,
{
    if k < s.len() {
        lemma_decimal_grows(s, k + 1);
        assert(s.take(k + 1).drop_last() =~= s.take(k));
    } else {
        assert(s.take(k) =~= s);
    }
}

/// The position of the first `sep` in `s`.
fn find_first(s: &str, sep: char) -> (r: Option<usize>)
    ensures
        r matches Some(i) ==> index_of(s@, sep) == Some(i as int) && i < s@.len(),
        r is None ==> index_of(s@, sep) is None,
{
    let n = s.unicode_len();
    let mut i: usize = 0;
    while i < n
        invariant
            n == s@.len(),
            i <= n,
            forall|j: int| 0 <= j < i ==> s@[j] != sep,
        decreases n - i,
    {
        if s.get_char(i) == sep {
            proof {
                lemma_index_of(s@, sep, i as int);
            }
            return Some(i);
        }
        i = i + 1;
    }
    proof {
        lemma_index_of(s@, sep, i as int);
    }
    None
}

/// The number that `s` writes in decimal digits, where it is such a run and
/// the number fits in `usize`.
pub fn parse_decimal(s: &str) -> (r: Option<usize>)
    ensures
        r matches Some(v) ==> all_digits(s@) && v == decimal(s@),
        r is None ==> !all_digits(s@) || decimal(s@) > usize::MAX,
{
    let n = s.unicode_len();
    if n == 0 {
        return None;
    }
    let mut v: usize = 0;
    let mut i: usize = 0;
    while i < n
        invariant
            n == s@.len(),
            i <= n,
            forall|j: int| 0 <= j < i ==> is_digit(#[trigger] s@[j]),
            v == decimal(s@.take(i as int)),
        decreases n - i,
    {
        let c = s.get_char(i);
        if c < '0' || c > '9' {
            return None;
        }
        let d = (c as u32 - '0' as u32) as usize;
        proof {
            assert(s@.take(i + 1).drop_last() =~= s@.take(i as int));
        }
        if v > (usize::MAX - d) / 10 {
            proof {
                assert(decimal(s@.take(i + 1)) == v * 10 + d);
                assert(v * 10 + d > usize::MAX) by (nonlinear_arith)
                    requires
                        v > (usize::MAX - d) / 10,
                        d <= 9,
                ;
                lemma_decimal_grows(s@, i + 1);
                assert(all_digits(s@) ==> decimal(s@) > usize::MAX);
            }
            return None;
        }
        proof {
            assert(v * 10 + d <= usize::MAX) by (nonlinear_arith)
                requires
                    v <= (usize::MAX - d) / 10,
                    d <= 9,
            ;
        }
        v = v * 10 + d;
        i = i + 1;
    }
    assert(s@.take(n as int) =~= s@);
    Some(v)
}

/// Whether a size fits in `usize` in both directions.
pub open spec fn fits_usize(hw: (nat, nat)) -> bool {
    hw.0 <= usize::MAX && hw.1 <= usize::MAX
}

/// Height and width of a shape code `<height>x<width>`.
pub fn parse_shape(code: &str) -> (r: Option<(usize, usize)>)
    ensures
        match shape_code(code@) {
            Some(hw) => if fits_usize(hw) {
                r == Some((hw.0 as usize, hw.1 as usize))
            } else {
                r is None
            },
            None => r is None,
        },
{
    let n = code.unicode_len();
    match find_first(code, 'x') {
        Some(i) => {
            let a = code.substring_char(0, i);
            let b = code.substring_char(i + 1, n);
            assert(a@ =~= code@.take(i as int));
            assert(b@ =~= code@.skip(i + 1));
            match (parse_decimal(a), parse_decimal(b)) {
                (Some(h), Some(w)) => Some((h, w)),
                _ => None,
            }
        },
        None => None,
    }
}

/// Card type, height and width of a preview entry `<card type>-<shape code>`.
pub fn parse_entry(entry: &str) -> (r: Option<(String, usize, usize)>)
    ensures
        match cell_entry(entry@) {
            Some((ty, h, w)) => if fits_usize((h, w)) {
                r matches Some((t, rh, rw)) && t@ == ty && rh == h && rw == w
            } else {
                r is None
            },
            None => r is None,
        },
{
    let n = entry.unicode_len();
    match find_first(entry, '-') {
        Some(i) => {
            let ty = entry.substring_char(0, i);
            let code = entry.substring_char(i + 1, n);
            assert(ty@ =~= entry@.take(i as int));
            assert(code@ =~= entry@.skip(i + 1));
            match parse_shape(code) {
                Some((h, w)) => Some((ty.to_owned(), h, w)),
                None => None,
            }
        },
        None => None,
    }
}

} // verus!
