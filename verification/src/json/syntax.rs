//! JSON text: how a value is written, and which value a text stands for.

use crate::json::model::{has_key, Json, Members};
use crate::json::number::{number_end, occurs_at};
use vstd::prelude::*;

verus! {

/// White space between the tokens of a text.
pub open spec fn is_space(c: char) -> bool {
    c == ' ' || c == '\t' || c == '\n' || c == '\r'
}

/// Where the white space that starts at `i` ends.
pub open spec fn spaces_end(s: Seq<char>, i: int) -> int
    decreases s.len() - i,
{
    if 0 <= i < s.len() && is_space(s[i]) {
        spaces_end(s, i + 1)
    } else {
        i
    }
}

/// The digit that `c` stands for in base sixteen.
pub open spec fn hex_value(c: char) -> Option<int> {
    if '0' <= c && c <= '9' {
        Some(c as int - '0' as int)
    } else if 'a' <= c && c <= 'f' {
        Some(c as int - 'a' as int + 10)
    } else if 'A' <= c && c <= 'F' {
        Some(c as int - 'A' as int + 10)
    } else {
        None
    }
}

/// The number that the four characters from `i` on stand for in base
/// sixteen.
pub open spec fn hex4(s: Seq<char>, i: int) -> Option<int> {
    if 0 <= i && i + 4 <= s.len() && hex_value(s[i]) is Some && hex_value(s[i + 1]) is Some
        && hex_value(s[i + 2]) is Some && hex_value(s[i + 3]) is Some {
        Some(
            hex_value(s[i]).unwrap() * 4096 + hex_value(s[i + 1]).unwrap() * 256 + hex_value(
                s[i + 2],
            ).unwrap() * 16 + hex_value(s[i + 3]).unwrap(),
        )
    } else {
        None
    }
}

/// The character that the escape at `i` stands for, and where the escape
/// ends; `i` is the place after the backslash. `\u` takes four digits in
/// base sixteen; a character beyond `U+FFFF` is written as a pair of
/// surrogates, and a surrogate that is not part of such a pair stands for
/// nothing.
pub open spec fn escape_end(s: Seq<char>, i: int) -> Option<(char, int)> {
    if !(0 <= i < s.len()) {
        None
    } else if s[i] == '"' || s[i] == '\\' || s[i] == '/' {
        Some((s[i], i + 1))
    } else if s[i] == 'b' {
        Some(('\u{8}', i + 1))
    } else if s[i] == 'f' {
        Some(('\u{c}', i + 1))
    } else if s[i] == 'n' {
        Some(('\n', i + 1))
    } else if s[i] == 'r' {
        Some(('\r', i + 1))
    } else if s[i] == 't' {
        Some(('\t', i + 1))
    } else if s[i] == 'u' {
        match hex4(s, i + 1) {
            None => None,
            Some(high) => if 0xD800 <= high <= 0xDBFF {
                if i + 6 < s.len() && s[i + 5] == '\\' && s[i + 6] == 'u' {
                    match hex4(s, i + 7) {
                        Some(low) => if 0xDC00 <= low <= 0xDFFF {
                            Some(
                                (
                                    (0x10000 + (high - 0xD800) * 0x400 + (low - 0xDC00)) as char,
                                    i + 11,
                                ),
                            )
                        } else {
                            None
                        },
                        None => None,
                    }
                } else {
                    None
                }
            } else if 0xDC00 <= high <= 0xDFFF {
                None
            } else {
                Some((high as char, i + 5))
            },
        }
    } else {
        None
    }
}

/// What the string that goes on at `i` holds, after `acc`, and where the
/// text goes on behind its closing quote.
pub open spec fn string_end(s: Seq<char>, i: int, acc: Seq<char>) -> Option<(Seq<char>, int)>
    decreases s.len() - i,
{
    if !(0 <= i < s.len()) {
        None
    } else if s[i] == '"' {
        Some((acc, i + 1))
    } else if s[i] == '\\' {
        match escape_end(s, i + 1) {
            Some((c, j)) => string_end(s, j, acc.push(c)),
            None => None,
        }
    } else if (s[i] as int) < 0x20 {
        None
    } else {
        string_end(s, i + 1, acc.push(s[i]))
    }
}

/// The text `null`.
pub open spec fn null_text() -> Seq<char> {
    seq!['n', 'u', 'l', 'l']
}

/// The text `true`.
pub open spec fn true_text() -> Seq<char> {
    seq!['t', 'r', 'u', 'e']
}

/// The text `false`.
pub open spec fn false_text() -> Seq<char> {
    seq!['f', 'a', 'l', 's', 'e']
}

/// The value that starts at `i`, and where the text goes on behind it.
pub open spec fn parse_value(s: Seq<char>, i: int) -> Option<(Json, int)>
    decreases s.len() - i, 0nat,
{
    if !(0 <= i < s.len()) {
        None
    } else if s[i] == 'n' {
        if occurs_at(s, i, null_text()) {
            Some((Json::Null, i + 4))
        } else {
            None
        }
    } else if s[i] == 't' {
        if occurs_at(s, i, true_text()) {
            Some((Json::Bool(true), i + 4))
        } else {
            None
        }
    } else if s[i] == 'f' {
        if occurs_at(s, i, false_text()) {
            Some((Json::Bool(false), i + 5))
        } else {
            None
        }
    } else if s[i] == '"' {
        match string_end(s, i + 1, Seq::empty()) {
            Some((t, j)) => Some((Json::String(t), j)),
            None => None,
        }
    } else if s[i] == '[' {
        let j = spaces_end(s, i + 1);
        if !(i < j < s.len()) {
            None
        } else if s[j] == ']' {
            Some((Json::Array(Seq::empty()), j + 1))
        } else {
            parse_items(s, j, Seq::empty())
        }
    } else if s[i] == '{' {
        let j = spaces_end(s, i + 1);
        if !(i < j < s.len()) {
            None
        } else if s[j] == '}' {
            Some((Json::Object(Seq::empty()), j + 1))
        } else {
            parse_members(s, j, Seq::empty())
        }
    } else {
        match number_end(s, i) {
            Some(j) => Some((Json::Number(s.subrange(i, j)), j)),
            None => None,
        }
    }
}

/// The array whose first items are `acc` and whose next item starts at `i`,
/// and where the text goes on behind the array.
pub open spec fn parse_items(s: Seq<char>, i: int, acc: Seq<Json>) -> Option<(Json, int)>
    decreases s.len() - i, 1nat,
{
    match parse_value(s, i) {
        None => None,
        Some((v, j)) => {
            let k = spaces_end(s, j);
            if !(0 <= i < j <= k < s.len()) {
                None
            } else if s[k] == ']' {
                Some((Json::Array(acc.push(v)), k + 1))
            } else if s[k] == ',' {
                let next = spaces_end(s, k + 1);
                if k < next <= s.len() {
                    parse_items(s, next, acc.push(v))
                } else {
                    None
                }
            } else {
                None
            }
        },
    }
}

/// The object whose first members are `acc` and whose next member starts at
/// `i`, and where the text goes on behind the object. A name that `acc`
/// holds already makes the text stand for nothing.
pub open spec fn parse_members(s: Seq<char>, i: int, acc: Members) -> Option<(Json, int)>
    decreases s.len() - i, 1nat,
{
    if !(0 <= i < s.len() && s[i] == '"') {
        None
    } else {
        match string_end(s, i + 1, Seq::empty()) {
            None => None,
            Some((key, j)) => {
                let k = spaces_end(s, j);
                if !(0 <= i < j <= k < s.len() && s[k] == ':') {
                    None
                } else {
                    let a = spaces_end(s, k + 1);
                    if !(k < a <= s.len()) {
                        None
                    } else {
                        match parse_value(s, a) {
                            None => None,
                            Some((v, b)) => {
                                let c = spaces_end(s, b);
                                if !(a < b <= c < s.len()) || has_key(acc, key) {
                                    None
                                } else if s[c] == '}' {
                                    Some((Json::Object(acc.push((key, v))), c + 1))
                                } else if s[c] == ',' {
                                    let next = spaces_end(s, c + 1);
                                    if c < next <= s.len() {
                                        parse_members(s, next, acc.push((key, v)))
                                    } else {
                                        None
                                    }
                                } else {
                                    None
                                }
                            },
                        }
                    }
                }
            },
        }
    }
}

/// The value that the whole of `s` stands for: one value, with nothing but
/// white space before and behind it.
pub open spec fn parse_document(s: Seq<char>) -> Option<Json> {
    match parse_value(s, spaces_end(s, 0)) {
        Some((v, j)) => if spaces_end(s, j) == s.len() {
            Some(v)
        } else {
            None
        },
        None => None,
    }
}

/// The digit of base sixteen that stands for `n`.
pub open spec fn hex_digit(n: int) -> char {
    if n < 10 {
        ('0' as int + n) as char
    } else {
        ('a' as int + n - 10) as char
    }
}

/// How a character is written inside a string: a quote and a backslash
/// behind a backslash, a control character as `\b`, `\f`, `\n`, `\r`, `\t`
/// or `\u00` and two digits, every other character as itself.
pub open spec fn escape(c: char) -> Seq<char> {
    if c == '"' {
        seq!['\\', '"']
    } else if c == '\\' {
        seq!['\\', '\\']
    } else if c == '\u{8}' {
        seq!['\\', 'b']
    } else if c == '\u{c}' {
        seq!['\\', 'f']
    } else if c == '\n' {
        seq!['\\', 'n']
    } else if c == '\r' {
        seq!['\\', 'r']
    } else if c == '\t' {
        seq!['\\', 't']
    } else if (c as int) < 0x20 {
        seq!['\\', 'u', '0', '0', hex_digit(c as int / 16), hex_digit(c as int % 16)]
    } else {
        seq![c]
    }
}

/// How the characters of `t` from place `k` on are written inside a
/// string.
pub open spec fn escaped_from(t: Seq<char>, k: int) -> Seq<char>
    decreases t.len() - k,
{
    if 0 <= k < t.len() {
        escape(t[k]) + escaped_from(t, k + 1)
    } else {
        Seq::empty()
    }
}

/// How the string `t` is written: between quotes.
pub open spec fn quoted(t: Seq<char>) -> Seq<char> {
    seq!['"'] + escaped_from(t, 0) + seq!['"']
}

/// A comma, unless `k` is the last place of a list of `n`.
pub open spec fn separator(k: int, n: nat) -> Seq<char> {
    if k + 1 < n {
        seq![',']
    } else {
        Seq::empty()
    }
}

/// How the value `v` is written: without white space, the items of an
/// array and the members of an object in their order.
pub open spec fn render(v: Json) -> Seq<char>
    decreases v,
{
    match v {
        Json::Null => null_text(),
        Json::Bool(b) => if b {
            true_text()
        } else {
            false_text()
        },
        Json::Number(t) => t,
        Json::String(t) => quoted(t),
        Json::Array(items) => seq!['['] + render_items(items, 0) + seq![']'],
        Json::Object(m) => seq!['{'] + render_members(m, 0) + seq!['}'],
    }
}

/// How the items from place `k` on are written, with commas between them.
pub open spec fn render_items(items: Seq<Json>, k: int) -> Seq<char>
    decreases items, items.len() - k,
{
    if 0 <= k < items.len() {
        render(items[k]) + separator(k, items.len()) + render_items(items, k + 1)
    } else {
        Seq::empty()
    }
}

/// How the members from place `k` on are written: each as its name, a
/// colon and its value, with commas between them.
pub open spec fn render_members(m: Members, k: int) -> Seq<char>
    decreases m, m.len() - k,
{
    if 0 <= k < m.len() {
        quoted(m[k].0) + seq![':'] + render(m[k].1) + separator(k, m.len()) + render_members(
            m,
            k + 1,
        )
    } else {
        Seq::empty()
    }
}

} // verus!
