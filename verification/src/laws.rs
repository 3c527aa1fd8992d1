//! The library's general laws, stated and proved once and for all over the
//! model in [`crate::model`].  Together with the exact contracts of
//! [`crate::reader::Json`]'s methods they transfer to every run of the
//! executable parser.

use vstd::prelude::*;

use crate::model::advanced;
use crate::model::ci_eq;
use crate::model::digit_char;
use crate::model::is_valid_number;
use crate::model::lemma_ci_match3;
use crate::model::lemma_ci_match4;
use crate::model::lemma_window3_is;
use crate::model::look_window;
use crate::model::number_char;
use crate::model::number_scan_len;
use crate::model::parse_result;
use crate::model::ErrorKind;
use crate::model::Value;

verus! {

/// A run made of ASCII decimal digits only.
pub open spec fn all_digits(u: Seq<char>) -> bool {
    forall|i: int| 0 <= i < u.len() ==> digit_char(#[trigger] u[i])
}

/// The unsigned part of a plain numeric literal: digits with a single `.`
/// at position `k`, neither first nor last.
pub open spec fn dotted_at(u: Seq<char>, k: int) -> bool {
    &&& 0 < k < u.len() - 1
    &&& u[k] == '.'
    &&& forall|i: int| 0 <= i < k ==> digit_char(#[trigger] u[i])
    &&& forall|i: int| k < i < u.len() ==> digit_char(#[trigger] u[i])
}

/// A numeric literal of the plain shape: an optional `-`, then one or more
/// digits, then optionally a `.` followed by one or more digits.
pub open spec fn is_simple_numeric(t: Seq<char>) -> bool {
    let u = if t.len() > 0 && t[0] == '-' {
        t.skip(1)
    } else {
        t
    };
    &&& t.len() > 0
    &&& u.len() > 0
    &&& (all_digits(u) || (exists|k: int| #[trigger] dotted_at(u, k)))
}

/// A simple numeric literal is one the host floating-point parser accepts.
pub proof fn lemma_simple_numeric_is_valid(t: Seq<char>)
    requires
        is_simple_numeric(t),
    ensures
        is_valid_number(t),
{
    let start: int = if t.len() > 0 && t[0] == '-' {
        1
    } else {
        0
    };
    let u = if t.len() > 0 && t[0] == '-' {
        t.skip(1)
    } else {
        t
    };
    assert(u.len() == t.len() - start);
    assert forall|i: int| start <= i < t.len() implies t[i] == u[i - start] by {
        if start == 1 {
            assert(u[i - start] == t[i]);
        }
    }
    if all_digits(u) {
        assert(digit_char(u[0]));
        assert(t[start] == u[0]);
        assert forall|i: int| start <= i < t.len() implies digit_char(#[trigger] t[i]) || t[i]
            == '.' by {
            assert(t[i] == u[i - start] && digit_char(u[i - start]));
        }
        assert forall|i: int, j: int|
            start <= i < j < t.len() && t[i] == '.' implies t[j] != '.' by {
            assert(t[i] == u[i - start] && digit_char(u[i - start]));
        }
    } else {
        assert(exists|k: int| #[trigger] dotted_at(u, k));
        let k = choose|k: int| #[trigger] dotted_at(u, k);
        assert(digit_char(u[0]));
        assert(t[start] == u[0]);
        assert forall|i: int| start <= i < t.len() implies digit_char(#[trigger] t[i]) || t[i]
            == '.' by {
            assert(t[i] == u[i - start]);
            assert(i - start == k || digit_char(u[i - start]));
        }
        assert forall|i: int, j: int|
            start <= i < j < t.len() && t[i] == '.' implies t[j] != '.' by {
            assert(t[i] == u[i - start] && t[j] == u[j - start]);
            assert(u[i - start] == '.' ==> i - start == k);
            assert(u[j - start] == '.' ==> j - start == k);
        }
    }
}

/// The number scanner takes exactly a run of number characters delimited by
/// the end of the input or a character of another class.
pub proof fn lemma_scan_exact(s: Seq<char>, p: int, n: int)
    requires
        0 <= p,
        0 <= n,
        p + n <= s.len(),
        forall|i: int| p <= i < p + n ==> number_char(#[trigger] s[i]),
        p + n == s.len() || !number_char(s[p + n]),
    ensures
        number_scan_len(s, p) == n,
    decreases n,
{
    if n > 0 {
        lemma_scan_exact(s, p + 1, n - 1);
    }
}

/// Booleans parse under arbitrary letter casing: at a `t` or `T` followed by
/// `rue` in any casing, parsing yields the boolean true and moves the cursor
/// exactly past the four-character literal.
pub proof fn lemma_true_literal(s: Seq<char>, p: int)
    requires
        0 <= p,
        s.len() <= usize::MAX,
        p + 4 <= s.len(),
        s[p] == 't' || s[p] == 'T',
        ci_eq(s[p + 1], 'r'),
        ci_eq(s[p + 2], 'u'),
        ci_eq(s[p + 3], 'e'),
    ensures
        parse_result(s, p) == (Ok::<Value, ErrorKind>(Value::Bool(true)), p + 4),
{
    lemma_ci_match3(s, p, 'r', 'u', 'e');
}

/// As [`lemma_true_literal`]: at an `f` or `F` followed by `alse` in any
/// casing, parsing yields the boolean false and consumes five characters.
pub proof fn lemma_false_literal(s: Seq<char>, p: int)
    requires
        0 <= p,
        s.len() <= usize::MAX,
        p + 5 <= s.len(),
        s[p] == 'f' || s[p] == 'F',
        ci_eq(s[p + 1], 'a'),
        ci_eq(s[p + 2], 'l'),
        ci_eq(s[p + 3], 's'),
        ci_eq(s[p + 4], 'e'),
    ensures
        parse_result(s, p) == (Ok::<Value, ErrorKind>(Value::Bool(false)), p + 5),
{
    lemma_ci_match4(s, p, 'a', 'l', 's', 'e');
}

/// Any numeric literal of the plain shape, delimited by the end of the input
/// or a character outside the number class, parses to exactly that text and
/// moves the cursor exactly past it.  Leading zeros are accepted: the scan
/// is purely by character class.
pub proof fn lemma_numeric_literal(s: Seq<char>, p: int, t: Seq<char>)
    requires
        0 <= p,
        s.len() <= usize::MAX,
        p + t.len() <= s.len(),
        s.subrange(p, p + t.len()) == t,
        is_simple_numeric(t),
        p + t.len() == s.len() || !number_char(s[p + t.len()]),
    ensures
        parse_result(s, p) == (Ok::<Value, ErrorKind>(Value::Number(t)), p + t.len()),
{
    let n = t.len() as int;
    lemma_simple_numeric_is_valid(t);
    assert(forall|i: int| 0 <= i < n ==> t[i] == s[#[trigger] (p + i)]);
    let start: int = if t[0] == '-' {
        1
    } else {
        0
    };
    assert forall|i: int| p <= i < p + n implies number_char(#[trigger] s[i]) by {
        let j = i - p;
        assert(s[i] == t[j]);
        if j >= start {
            assert(digit_char(t[j]) || t[j] == '.');
        }
    }
    lemma_scan_exact(s, p, n);
    assert(s[p] == t[0]);
    assert(digit_char(t[0]) || t[0] == '-') by {
        if t[0] != '-' {
            assert(digit_char(t[0]) || t[0] == '.');
            assert(t[0] != '.') by {
                if t[0] == '.' {
                    let u = t;
                    assert(!all_digits(u)) by {
                        assert(!digit_char(u[0]));
                    }
                    let k = choose|k: int| #[trigger] dotted_at(u, k);
                    assert(digit_char(u[0]));
                }
            }
        }
    }
    assert(crate::model::scanned_number(s, p) == t);
}

/// `null` parses case-sensitively: at a cursor whose next three characters
/// are exactly `ull`, parsing at an `n` or `N` yields `Null` and consumes
/// four characters.
pub proof fn lemma_null_literal(s: Seq<char>, p: int)
    requires
        0 <= p < s.len(),
        s.len() <= usize::MAX,
        s[p] == 'n' || s[p] == 'N',
        p + 4 <= s.len(),
        s[p + 1] == 'u',
        s[p + 2] == 'l',
        s[p + 3] == 'l',
    ensures
        parse_result(s, p) == (Ok::<Value, ErrorKind>(Value::Null), p + 4),
{
    lemma_window3_is(s, p, 'u', 'l', 'l');
}

/// At an `n` or `N` whose following characters are anything but exactly
/// `ull` — a different spelling, or too little input — parsing fails with
/// `InvalidFormat` and the cursor does not move.
pub proof fn lemma_null_malformed(s: Seq<char>, p: int)
    requires
        0 <= p < s.len(),
        s[p] == 'n' || s[p] == 'N',
        look_window(s, p, 3) != seq!['u', 'l', 'l'],
    ensures
        parse_result(s, p) == (Err::<Value, ErrorKind>(ErrorKind::InvalidFormat), p),
{
}

/// Lookahead truncates at end-of-input: asking for at least as many
/// characters as remain past the cursor yields exactly the remainder, and
/// asking from at or past the end yields nothing.  That lookahead never
/// moves the cursor is already in the type of [`crate::Json::look_ahead`],
/// which borrows the parser immutably.
pub proof fn lemma_look_ahead_remainder(s: Seq<char>, p: int, n: int)
    requires
        0 <= p,
        0 <= n,
        p + 1 + n >= s.len(),
    ensures
        p + 1 <= s.len() ==> look_window(s, p, n) == s.subrange(p + 1, s.len() as int),
        p + 1 > s.len() ==> look_window(s, p, n) == Seq::<char>::empty(),
{
    if p + 1 > s.len() {
        assert(look_window(s, p, n) =~= Seq::<char>::empty());
    }
}

/// Advancing the cursor never moves it backwards and never leaves the
/// machine's range: it is plain addition, saturating only at `usize::MAX`.
pub proof fn lemma_advance_monotonic(p: int, n: int)
    requires
        0 <= p <= usize::MAX,
        0 <= n,
    ensures
        p <= advanced(p, n) <= usize::MAX,
        p + n <= usize::MAX ==> advanced(p, n) == p + n,
{
}

} // verus!
