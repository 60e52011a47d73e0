use crate::error::Error;
use crate::text::chars_of;
use vstd::prelude::*;

verus! {

/// A letter of the ASCII alphabet.
pub open spec fn is_alpha(c: char) -> bool {
    ('a' <= c && c <= 'z') || ('A' <= c && c <= 'Z')
}

/// A decimal digit.
pub open spec fn is_digit(c: char) -> bool {
    '0' <= c && c <= '9'
}

/// A character that may follow the first letter of a scheme.
pub open spec fn is_scheme_char(c: char) -> bool {
    is_alpha(c) || is_digit(c) || c == '+' || c == '-' || c == '.'
}

/// A character that a URL may hold after its scheme: a letter, a digit, or
/// one of ``-._~:/?#[]@!$&'()*+,;=%``.
pub open spec fn is_url_char(c: char) -> bool {
    is_alpha(c) || is_digit(c) || c == '-' || c == '.' || c == '_' || c == '~' || c == ':' || c
        == '/' || c == '?' || c == '#' || c == '[' || c == ']' || c == '@' || c == '!' || c == '$'
        || c == '&' || c == '\'' || c == '(' || c == ')' || c == '*' || c == '+' || c == ','
        || c == ';' || c == '=' || c == '%'
}

/// A scheme: a letter, then letters, digits, `+`, `-` or `.`.
pub open spec fn is_scheme(t: Seq<char>) -> bool {
    &&& t.len() >= 1
    &&& is_alpha(t[0])
    &&& forall|i: int| 0 < i < t.len() ==> is_scheme_char(#[trigger] t[i])
}

/// The shape of a URL: a scheme, a colon, and then only characters that a
/// URL may hold. Nothing is asked of what the URL points to.
pub open spec fn is_url(s: Seq<char>) -> bool {
    exists|n: int|
        {
            &&& 0 < n < s.len()
            &&& s[n] == ':'
            &&& #[trigger] is_scheme(s.take(n))
            &&& forall|i: int| n < i < s.len() ==> is_url_char(#[trigger] s[i])
        }
}

/// Where the scheme of `s` can end: only at the first character that no
/// scheme holds.
proof fn lemma_scheme_end(s: Seq<char>, i: int, n: int)
    requires
        0 < i <= s.len(),
        forall|j: int| 0 < j < i ==> is_scheme_char(#[trigger] s[j]),
        i < s.len() ==> !is_scheme_char(s[i]),
        0 < n < s.len(),
        s[n] == ':',
        is_scheme(s.take(n)),
    ensures
        n == i,
{
    if n < i {
        assert(is_scheme_char(s[n]));
    } else if n > i {
        assert(s.take(n)[i] == s[i]);
    }
}

fn alpha(c: char) -> (b: bool)
    ensures
        b == is_alpha(c),
{
    ('a' <= c && c <= 'z') || ('A' <= c && c <= 'Z')
}

fn digit(c: char) -> (b: bool)
    ensures
        b == is_digit(c),
{
    '0' <= c && c <= '9'
}

fn scheme_char(c: char) -> (b: bool)
    ensures
        b == is_scheme_char(c),
{
    alpha(c) || digit(c) || c == '+' || c == '-' || c == '.'
}

fn url_char(c: char) -> (b: bool)
    ensures
        b == is_url_char(c),
{
    alpha(c) || digit(c) || c == '-' || c == '.' || c == '_' || c == '~' || c == ':' || c == '/'
        || c == '?' || c == '#' || c == '[' || c == ']' || c == '@' || c == '!' || c == '$' || c
        == '&' || c == '\'' || c == '(' || c == ')' || c == '*' || c == '+' || c == ',' || c
        == ';' || c == '=' || c == '%'
}

/// Whether `chars` has the shape of a URL.
pub fn check_url(chars: &Vec<char>) -> (b: bool)
    ensures
        b == is_url(chars@),
{
    let ghost s = chars@;
    let n = chars.len();
    if n == 0 || !alpha(chars[0]) {
        assert(!is_url(s)) by {
            if is_url(s) {
                let m = choose|m: int|
                    {
                        &&& 0 < m < s.len()
                        &&& s[m] == ':'
                        &&& #[trigger] is_scheme(s.take(m))
                        &&& forall|i: int| m < i < s.len() ==> is_url_char(#[trigger] s[i])
                    };
                assert(s.take(m)[0] == s[0]);
            }
        }
        return false;
    }
    let mut i: usize = 1;
    while i < n && scheme_char(chars[i])
        invariant
            n == chars.len(),
            1 <= i <= n,
            forall|j: int| 0 < j < i ==> is_scheme_char(#[trigger] chars@[j]),
        decreases n - i,
    {
        i += 1;
    }
    if i >= n || chars[i] != ':' {
        assert(!is_url(s)) by {
            if is_url(s) {
                let m = choose|m: int|
                    {
                        &&& 0 < m < s.len()
                        &&& s[m] == ':'
                        &&& #[trigger] is_scheme(s.take(m))
                        &&& forall|i: int| m < i < s.len() ==> is_url_char(#[trigger] s[i])
                    };
                lemma_scheme_end(s, i as int, m);
            }
        }
        return false;
    }
    let colon = i;
    i += 1;
    while i < n
        invariant
            n == chars.len(),
            s == chars@,
            0 < colon < i <= n,
            s[colon as int] == ':',
            forall|j: int| 0 < j < colon ==> is_scheme_char(#[trigger] s[j]),
            forall|j: int| colon < j < i ==> is_url_char(#[trigger] s[j]),
        decreases n - i,
    {
        if !url_char(chars[i]) {
            assert(!is_url(s)) by {
                if is_url(s) {
                    let m = choose|m: int|
                        {
                            &&& 0 < m < s.len()
                            &&& s[m] == ':'
                            &&& #[trigger] is_scheme(s.take(m))
                            &&& forall|i: int| m < i < s.len() ==> is_url_char(#[trigger] s[i])
                        };
                    lemma_scheme_end(s, colon as int, m);
                    assert(is_url_char(s[i as int]));
                }
            }
            return false;
        }
        i += 1;
    }
    assert(is_url(s)) by {
        let t = s.take(colon as int);
        assert forall|j: int| 0 < j < t.len() implies is_scheme_char(#[trigger] t[j]) by {
            assert(t[j] == s[j]);
        }
        assert(t[0] == s[0]);
        assert(is_scheme(s.take(colon as int)));
    }
    true
}

/// A URL, held as the text it was given as.
///
/// Every value of this type has the shape that [`is_url`] describes.
#[derive(Debug, PartialEq, Eq)]
pub struct Url {
    text: String,
}

impl View for Url {
    type V = Seq<char>;

    closed spec fn view(&self) -> Seq<char> {
        self.text@
    }
}

impl Url {
    #[verifier::type_invariant]
    spec fn inv(&self) -> bool {
        is_url(self.text@)
    }

    /// Reads a URL: `Ok` exactly where `input` has the shape of a URL, and
    /// then the URL holds `input` unchanged.
    pub fn parse(input: &str) -> (r: Result<Url, Error>)
        ensures
            match r {
                Ok(u) => is_url(input@) && u@ == input@,
                Err(e) => !is_url(input@) && e == Error::InvalidUrl,
            },
    {
        let chars = chars_of(input);
        if check_url(&chars) {
            Ok(Url { text: input.to_owned() })
        } else {
            Err(Error::InvalidUrl)
        }
    }

    /// The text of the URL.
    pub fn as_str(&self) -> (s: &str)
        ensures
            s@ == self@,
            is_url(s@),
    {
        proof {
            use_type_invariant(self);
        }
        self.text.as_str()
    }

    /// Gives up the URL for its text.
    pub fn into_string(self) -> (s: String)
        ensures
            s@ == self@,
            is_url(s@),
    {
        proof {
            use_type_invariant(&self);
        }
        self.text
    }
}

impl Clone for Url {
    fn clone(&self) -> (r: Self)
        ensures
            r@ == self@,
    {
        proof {
            use_type_invariant(self);
        }
        Url { text: self.text.clone() }
    }
}

} // verus!
