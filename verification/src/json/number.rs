//! How JSON writes a number: an optional minus sign, an integer part without
//! needless leading zeros, an optional fraction and an optional exponent.

use crate::text::{chars_of, string_of};
use crate::url::is_digit;
use vstd::prelude::*;

verus! {

/// Where the run of digits that starts at `i` ends.
pub open spec fn digits_end(s: Seq<char>, i: int) -> int
    decreases s.len() - i,
{
    if 0 <= i < s.len() && is_digit(s[i]) {
        digits_end(s, i + 1)
    } else {
        i
    }
}

/// Where the sign and integer part that start at `i` end.
pub open spec fn integer_end(s: Seq<char>, i: int) -> Option<int> {
    let a = if 0 <= i < s.len() && s[i] == '-' {
        i + 1
    } else {
        i
    };
    if 0 <= a < s.len() && is_digit(s[a]) {
        if s[a] == '0' {
            Some(a + 1)
        } else {
            Some(digits_end(s, a))
        }
    } else {
        None
    }
}

/// Where the fraction at `i` ends; `i` itself where there is no point at `i`.
pub open spec fn fraction_end(s: Seq<char>, i: int) -> Option<int> {
    if 0 <= i < s.len() && s[i] == '.' {
        if i + 1 < s.len() && is_digit(s[i + 1]) {
            Some(digits_end(s, i + 1))
        } else {
            None
        }
    } else {
        Some(i)
    }
}

/// Where the exponent at `i` ends; `i` itself where there is no `e` at `i`.
pub open spec fn exponent_end(s: Seq<char>, i: int) -> Option<int> {
    if 0 <= i < s.len() && (s[i] == 'e' || s[i] == 'E') {
        let d = if i + 1 < s.len() && (s[i + 1] == '+' || s[i + 1] == '-') {
            i + 2
        } else {
            i + 1
        };
        if d < s.len() && is_digit(s[d]) {
            Some(digits_end(s, d))
        } else {
            None
        }
    } else {
        Some(i)
    }
}

/// Where the number that starts at `i` ends; `None` where no number starts
/// at `i`.
pub open spec fn number_end(s: Seq<char>, i: int) -> Option<int> {
    match integer_end(s, i) {
        Some(a) => match fraction_end(s, a) {
            Some(b) => exponent_end(s, b),
            None => None,
        },
        None => None,
    }
}

/// Whether `t` is a number, all of it.
pub open spec fn is_number(t: Seq<char>) -> bool {
    number_end(t, 0) == Some(t.len() as int)
}

/// A character that can make a number longer when it follows one.
pub open spec fn extends_number(c: char) -> bool {
    is_digit(c) || c == '.' || c == 'e' || c == 'E'
}

/// `t` stands in `s` at `i`.
pub open spec fn occurs_at(s: Seq<char>, i: int, t: Seq<char>) -> bool {
    &&& 0 <= i
    &&& i + t.len() <= s.len()
    &&& s.subrange(i, i + t.len()) == t
}

pub proof fn lemma_digits_end_bounds(s: Seq<char>, i: int)
    requires
        0 <= i <= s.len(),
    ensures
        i <= digits_end(s, i) <= s.len(),
        forall|k: int| i <= k < digits_end(s, i) ==> is_digit(#[trigger] s[k]),
        digits_end(s, i) < s.len() ==> !is_digit(s[digits_end(s, i)]),
    decreases s.len() - i,
{
    if i < s.len() && is_digit(s[i]) {
        lemma_digits_end_bounds(s, i + 1);
    }
}

/// A run of digits ends at `e` if digits lead up to `e` and none stands at
/// `e`.
pub proof fn lemma_digits_end_is(s: Seq<char>, i: int, e: int)
    requires
        0 <= i <= e <= s.len(),
        forall|k: int| i <= k < e ==> is_digit(#[trigger] s[k]),
        e < s.len() ==> !is_digit(s[e]),
    ensures
        digits_end(s, i) == e,
    decreases e - i,
{
    if i < e {
        assert(is_digit(s[i]));
        lemma_digits_end_bounds(s, i);
        lemma_digits_end_is(s, i + 1, e);
    }
}

/// The end of a number is past its start and within the text.
pub proof fn lemma_number_end_bounds(s: Seq<char>, i: int)
    requires
        0 <= i <= s.len(),
        number_end(s, i) is Some,
    ensures
        i < number_end(s, i).unwrap() <= s.len(),
        s[i] == '-' || is_digit(s[i]),
{
    let a = if i < s.len() && s[i] == '-' {
        i + 1
    } else {
        i
    };
    lemma_digits_end_bounds(s, a);
    let b = integer_end(s, i).unwrap();
    if b < s.len() {
        lemma_digits_end_bounds(s, b + 1);
    }
    let c = fraction_end(s, b).unwrap();
    if c + 1 <= s.len() {
        lemma_digits_end_bounds(s, c + 1);
    }
    if c + 2 <= s.len() {
        lemma_digits_end_bounds(s, c + 2);
    }
}

/// A run of digits that stands in `s` from `p` on, within the `n` characters
/// that `s` from `i` and `t` from `j` share, ends in `t` where it ends in
/// `s`, if no digit follows the shared part in `t`.
proof fn lemma_digits_transfer(s: Seq<char>, i: int, t: Seq<char>, j: int, n: int, p: int)
    requires
        0 <= i,
        0 <= j,
        0 <= n,
        i + n <= s.len(),
        j + n <= t.len(),
        s.subrange(i, i + n) == t.subrange(j, j + n),
        i <= p <= i + n,
        digits_end(s, p) <= i + n,
        j + n < t.len() ==> !is_digit(t[j + n]),
    ensures
        digits_end(t, p - i + j) == digits_end(s, p) - i + j,
{
    lemma_digits_end_bounds(s, p);
    let q = digits_end(s, p);
    let ss = s.subrange(i, i + n);
    let tt = t.subrange(j, j + n);
    assert forall|k: int| p - i + j <= k < q - i + j implies is_digit(#[trigger] t[k]) by {
        assert(ss[k - j] == tt[k - j]);
        assert(is_digit(s[k - j + i]));
    }
    if q < i + n {
        assert(ss[q - i] == tt[q - i]);
    }
    lemma_digits_end_is(t, p - i + j, q - i + j);
}

/// A number that fills the `n` characters of `s` from `i` on also fills the
/// same `n` characters where they stand in `t` from `j` on, if what follows
/// them in `t` cannot make a number longer.
pub proof fn lemma_number_transfer(s: Seq<char>, i: int, t: Seq<char>, j: int, n: int)
    requires
        0 <= i,
        0 <= j,
        0 <= n,
        i + n <= s.len(),
        j + n <= t.len(),
        s.subrange(i, i + n) == t.subrange(j, j + n),
        number_end(s, i) == Some(i + n),
        j + n < t.len() ==> !extends_number(t[j + n]),
    ensures
        number_end(t, j) == Some(j + n),
{
    lemma_number_end_bounds(s, i);
    let a = if s[i] == '-' {
        i + 1
    } else {
        i
    };
    lemma_digits_end_bounds(s, a);
    let b = integer_end(s, i).unwrap();
    if b < s.len() {
        lemma_digits_end_bounds(s, b + 1);
    }
    let c = fraction_end(s, b).unwrap();
    let d = if c + 1 < s.len() && (s[c + 1] == '+' || s[c + 1] == '-') {
        c + 2
    } else {
        c + 1
    };
    if d <= s.len() {
        lemma_digits_end_bounds(s, d);
    }
    assert(a <= b <= c <= i + n);
    let ss = s.subrange(i, i + n);
    let tt = t.subrange(j, j + n);
    assert(ss[0] == tt[0]);
    assert(ss[a - i] == tt[a - i]);
    let ta = a - i + j;
    assert(t[ta] == s[a]);
    if s[a] != '0' {
        lemma_digits_transfer(s, i, t, j, n, a);
    }
    let tb = b - i + j;
    assert(integer_end(t, j) == Some(tb));
    if b < i + n {
        assert(ss[b - i] == tt[b - i]);
    }
    if b < s.len() && s[b] == '.' {
        assert(b + 1 < i + n);
        assert(ss[b + 1 - i] == tt[b + 1 - i]);
        lemma_digits_transfer(s, i, t, j, n, b + 1);
    }
    let tc = c - i + j;
    assert(fraction_end(t, tb) == Some(tc));
    if c < i + n {
        assert(ss[c - i] == tt[c - i]);
    }
    if c < s.len() && (s[c] == 'e' || s[c] == 'E') {
        assert(c + 1 < i + n);
        assert(ss[c + 1 - i] == tt[c + 1 - i]);
        assert(d < i + n);
        assert(ss[d - i] == tt[d - i]);
        lemma_digits_transfer(s, i, t, j, n, d);
    }
}

/// What [`number_end`] takes from a text is a number by itself.
pub proof fn lemma_number_alone(s: Seq<char>, i: int, e: int)
    requires
        0 <= i <= s.len(),
        number_end(s, i) == Some(e),
    ensures
        i < e <= s.len(),
        is_number(s.subrange(i, e)),
{
    lemma_number_end_bounds(s, i);
    let t = s.subrange(i, e);
    assert(t.subrange(0, e - i) =~= t);
    lemma_number_transfer(s, i, t, 0, e - i);
}

/// A number that stands in a text is found there, if what follows it cannot
/// make it longer.
pub proof fn lemma_number_found(s: Seq<char>, i: int, t: Seq<char>)
    requires
        is_number(t),
        occurs_at(s, i, t),
        i + t.len() < s.len() ==> !extends_number(s[i + t.len()]),
    ensures
        number_end(s, i) == Some(i + t.len()),
{
    assert(t.subrange(0, t.len() as int) =~= t);
    lemma_number_transfer(t, 0, s, i, t.len() as int);
}

fn digit(c: char) -> (b: bool)
    ensures
        b == is_digit(c),
{
    '0' <= c && c <= '9'
}

fn scan_digits(chars: &Vec<char>, i: usize) -> (e: usize)
    requires
        i <= chars.len(),
    ensures
        e == digits_end(chars@, i as int),
        i <= e <= chars.len(),
{
    let mut e: usize = i;
    while e < chars.len() && digit(chars[e])
        invariant
            i <= e <= chars.len(),
            digits_end(chars@, i as int) == digits_end(chars@, e as int),
        decreases chars.len() - e,
    {
        e += 1;
    }
    e
}

/// Finds the end of the number that starts at `i`.
pub fn scan_number(chars: &Vec<char>, i: usize) -> (r: Option<usize>)
    requires
        i <= chars.len(),
    ensures
        match r {
            Some(e) => number_end(chars@, i as int) == Some(e as int) && i < e <= chars.len(),
            None => number_end(chars@, i as int) is None,
        },
{
    let n = chars.len();
    let a: usize = if i < n && chars[i] == '-' {
        i + 1
    } else {
        i
    };
    if !(a < n && digit(chars[a])) {
        return None;
    }
    let b: usize = if chars[a] == '0' {
        a + 1
    } else {
        scan_digits(chars, a)
    };
    let c: usize = if b < n && chars[b] == '.' {
        if b + 1 < n && digit(chars[b + 1]) {
            scan_digits(chars, b + 1)
        } else {
            return None;
        }
    } else {
        b
    };
    let e: usize = if c < n && (chars[c] == 'e' || chars[c] == 'E') {
        let d: usize = if c + 1 < n && (chars[c + 1] == '+' || chars[c + 1] == '-') {
            c + 2
        } else {
            c + 1
        };
        if d < n && digit(chars[d]) {
            scan_digits(chars, d)
        } else {
            return None;
        }
    } else {
        c
    };
    proof {
        lemma_number_end_bounds(chars@, i as int);
    }
    Some(e)
}

/// A JSON number, held as the text it is written as.
///
/// Every value of this type satisfies [`is_number`].
#[derive(Debug, PartialEq, Eq)]
pub struct Number {
    text: String,
}

impl View for Number {
    type V = Seq<char>;

    closed spec fn view(&self) -> Seq<char> {
        self.text@
    }
}

impl Number {
    #[verifier::type_invariant]
    spec fn inv(&self) -> bool {
        is_number(self.text@)
    }

    /// Reads a number: `Some` exactly where all of `text` is a number as JSON
    /// writes it, and then the number holds `text` unchanged.
    pub fn parse(text: &str) -> (r: Option<Number>)
        ensures
            match r {
                Some(n) => is_number(text@) && n@ == text@,
                None => !is_number(text@),
            },
    {
        let chars = chars_of(text);
        match scan_number(&chars, 0) {
            Some(e) => {
                if e == chars.len() {
                    Some(Number { text: text.to_owned() })
                } else {
                    None
                }
            },
            None => None,
        }
    }

    /// The number made of `chars[from..to]`.
    pub(crate) fn from_chars(chars: &Vec<char>, from: usize, to: usize) -> (r: Number)
        requires
            from <= to <= chars.len(),
            is_number(chars@.subrange(from as int, to as int)),
        ensures
            r@ == chars@.subrange(from as int, to as int),
    {
        Number { text: string_of(chars, from, to) }
    }

    /// Whether `self` and `other` are written alike.
    pub fn same_text(&self, other: &Number) -> (b: bool)
        ensures
            b == (self@ == other@),
    {
        self.text == other.text
    }

    /// The text of the number.
    pub fn as_str(&self) -> (s: &str)
        ensures
            s@ == self@,
            is_number(s@),
    {
        proof {
            use_type_invariant(self);
        }
        self.text.as_str()
    }
}

impl Clone for Number {
    fn clone(&self) -> (r: Self)
        ensures
            r@ == self@,
    {
        proof {
            use_type_invariant(self);
        }
        Number { text: self.text.clone() }
    }
}

} // verus!
