//! Reading text as values.

use crate::error::Error;
use crate::json::model::Json;
use crate::json::number::{lemma_number_alone, occurs_at, scan_number, Number};
use crate::json::syntax::{
    escape_end, false_text, hex4, hex_value, parse_document, parse_items, parse_members,
    parse_value, spaces_end, string_end,
};
use crate::json::value::{models, Object, Value};
use crate::text::chars_of;
use vstd::prelude::*;

verus! {

fn skip_spaces(s: &Vec<char>, i: usize) -> (j: usize)
    requires
        i <= s.len(),
    ensures
        j == spaces_end(s@, i as int),
        i <= j <= s.len(),
{
    let mut j: usize = i;
    while j < s.len() && (s[j] == ' ' || s[j] == '\t' || s[j] == '\n' || s[j] == '\r')
        invariant
            i <= j <= s.len(),
            spaces_end(s@, i as int) == spaces_end(s@, j as int),
        decreases s.len() - j,
    {
        j += 1;
    }
    j
}

fn hex_value_of(c: char) -> (r: Option<u32>)
    ensures
        match r {
            Some(n) => hex_value(c) == Some(n as int) && n < 16,
            None => hex_value(c) is None,
        },
{
    if '0' <= c && c <= '9' {
        Some(c as u32 - '0' as u32)
    } else if 'a' <= c && c <= 'f' {
        Some(c as u32 - 'a' as u32 + 10)
    } else if 'A' <= c && c <= 'F' {
        Some(c as u32 - 'A' as u32 + 10)
    } else {
        None
    }
}

fn read_hex4(s: &Vec<char>, i: usize) -> (r: Option<u32>)
    requires
        i <= s.len(),
    ensures
        match r {
            Some(n) => hex4(s@, i as int) == Some(n as int) && n < 0x10000 && i + 4 <= s.len(),
            None => hex4(s@, i as int) is None,
        },
{
    if s.len() - i < 4 {
        return None;
    }
    let a = match hex_value_of(s[i]) {
        Some(a) => a,
        None => {
            return None;
        },
    };
    let b = match hex_value_of(s[i + 1]) {
        Some(b) => b,
        None => {
            return None;
        },
    };
    let c = match hex_value_of(s[i + 2]) {
        Some(c) => c,
        None => {
            return None;
        },
    };
    let d = match hex_value_of(s[i + 3]) {
        Some(d) => d,
        None => {
            return None;
        },
    };
    Some(a * 4096 + b * 256 + c * 16 + d)
}

/// Reads the escape whose backslash stands before `i`.
fn read_escape(s: &Vec<char>, i: usize) -> (r: Option<(char, usize)>)
    requires
        i <= s.len(),
    ensures
        match r {
            Some((c, j)) => escape_end(s@, i as int) == Some((c, j as int)) && i < j <= s.len(),
            None => escape_end(s@, i as int) is None,
        },
{
    if i >= s.len() {
        return None;
    }
    let c = s[i];
    if c == '"' || c == '\\' || c == '/' {
        Some((c, i + 1))
    } else if c == 'b' {
        Some(('\u{8}', i + 1))
    } else if c == 'f' {
        Some(('\u{c}', i + 1))
    } else if c == 'n' {
        Some(('\n', i + 1))
    } else if c == 'r' {
        Some(('\r', i + 1))
    } else if c == 't' {
        Some(('\t', i + 1))
    } else if c == 'u' {
        let high = match read_hex4(s, i + 1) {
            Some(high) => high,
            None => {
                return None;
            },
        };
        if 0xD800 <= high && high <= 0xDBFF {
            if s.len() - i > 6 && s[i + 5] == '\\' && s[i + 6] == 'u' {
                let low = match read_hex4(s, i + 7) {
                    Some(low) => low,
                    None => {
                        return None;
                    },
                };
                if 0xDC00 <= low && low <= 0xDFFF {
                    let code: u32 = 0x10000 + (high - 0xD800) * 0x400 + (low - 0xDC00);
                    match char::from_u32(code) {
                        Some(ch) => Some((ch, i + 11)),
                        None => None,
                    }
                } else {
                    None
                }
            } else {
                None
            }
        } else if 0xDC00 <= high && high <= 0xDFFF {
            None
        } else {
            match char::from_u32(high) {
                Some(ch) => Some((ch, i + 5)),
                None => None,
            }
        }
    } else {
        None
    }
}

fn is_control(c: char) -> (b: bool)
    ensures
        b == ((c as int) < 0x20),
{
    (c as u32) < 0x20
}

/// Reads the string whose opening quote stands before `i`.
fn read_string(s: &Vec<char>, i: usize) -> (r: Option<(String, usize)>)
    requires
        i <= s.len(),
    ensures
        match r {
            Some((t, j)) => string_end(s@, i as int, Seq::empty()) == Some((t@, j as int)) && i
                < j <= s.len(),
            None => string_end(s@, i as int, Seq::empty()) is None,
        },
{
    let mut acc = String::new();
    let mut k: usize = i;
    loop
        invariant
            i <= k <= s.len(),
            string_end(s@, i as int, Seq::empty()) == string_end(s@, k as int, acc@),
        decreases s.len() - k,
    {
        if k >= s.len() {
            return None;
        }
        let c = s[k];
        if c == '"' {
            return Some((acc, k + 1));
        } else if c == '\\' {
            match read_escape(s, k + 1) {
                Some((ch, j)) => {
                    acc.push(ch);
                    k = j;
                },
                None => {
                    return None;
                },
            }
        } else if is_control(c) {
            return None;
        } else {
            acc.push(c);
            k += 1;
        }
    }
}

/// Whether the four characters `a`, `b`, `c`, `d` stand at `i`.
fn four_at(s: &Vec<char>, i: usize, a: char, b: char, c: char, d: char) -> (r: bool)
    requires
        i <= s.len(),
    ensures
        r == occurs_at(s@, i as int, seq![a, b, c, d]),
{
    let ghost t = seq![a, b, c, d];
    if s.len() - i >= 4 && s[i] == a && s[i + 1] == b && s[i + 2] == c && s[i + 3] == d {
        assert(s@.subrange(i as int, i + 4) =~= t);
        true
    } else {
        proof {
            if occurs_at(s@, i as int, t) {
                let u = s@.subrange(i as int, i + 4);
                assert(u[0] == a && u[1] == b && u[2] == c && u[3] == d);
            }
        }
        false
    }
}

/// Reads the value that starts at `i`.
fn read_value(s: &Vec<char>, i: usize) -> (r: Option<(Value, usize)>)
    requires
        i <= s.len(),
    ensures
        match r {
            Some((v, j)) => parse_value(s@, i as int) == Some((v@, j as int)) && i < j <= s.len(),
            None => parse_value(s@, i as int) is None,
        },
    decreases s.len() - i, 0nat,
{
    if i >= s.len() {
        return None;
    }
    let c = s[i];
    if c == 'n' {
        if four_at(s, i, 'n', 'u', 'l', 'l') {
            Some((Value::Null, i + 4))
        } else {
            None
        }
    } else if c == 't' {
        if four_at(s, i, 't', 'r', 'u', 'e') {
            Some((Value::Bool(true), i + 4))
        } else {
            None
        }
    } else if c == 'f' {
        if s.len() - i >= 5 && s[i + 1] == 'a' && s[i + 2] == 'l' && s[i + 3] == 's' && s[i + 4]
            == 'e' {
            assert(s@.subrange(i as int, i + 5) =~= false_text());
            Some((Value::Bool(false), i + 5))
        } else {
            proof {
                if occurs_at(s@, i as int, false_text()) {
                    let u = s@.subrange(i as int, i + 5);
                    assert(u[1] == 'a' && u[2] == 'l' && u[3] == 's' && u[4] == 'e');
                }
            }
            None
        }
    } else if c == '"' {
        match read_string(s, i + 1) {
            Some((t, j)) => Some((Value::String(t), j)),
            None => None,
        }
    } else if c == '[' {
        let j = skip_spaces(s, i + 1);
        if j >= s.len() {
            None
        } else if s[j] == ']' {
            let items: Vec<Value> = Vec::new();
            assert(models(items@) =~= Seq::<Json>::empty());
            Some((Value::Array(items), j + 1))
        } else {
            read_items(s, j)
        }
    } else if c == '{' {
        let j = skip_spaces(s, i + 1);
        if j >= s.len() {
            None
        } else if s[j] == '}' {
            Some((Value::Object(Object::new()), j + 1))
        } else {
            read_members(s, j)
        }
    } else {
        match scan_number(s, i) {
            Some(j) => {
                proof {
                    lemma_number_alone(s@, i as int, j as int);
                }
                Some((Value::Number(Number::from_chars(s, i, j)), j))
            },
            None => None,
        }
    }
}

/// Reads the items of the array whose first item starts at `i`.
fn read_items(s: &Vec<char>, i: usize) -> (r: Option<(Value, usize)>)
    requires
        i < s.len(),
    ensures
        match r {
            Some((v, j)) => parse_items(s@, i as int, Seq::empty()) == Some((v@, j as int)) && i
                < j <= s.len(),
            None => parse_items(s@, i as int, Seq::empty()) is None,
        },
    decreases s.len() - i, 1nat,
{
    let mut items: Vec<Value> = Vec::new();
    let mut at: usize = i;
    assert(models(items@) =~= Seq::<Json>::empty());
    loop
        invariant
            i <= at <= s.len(),
            parse_items(s@, i as int, Seq::empty()) == parse_items(
                s@,
                at as int,
                models(items@),
            ),
        decreases s.len() - at,
    {
        let ghost acc = models(items@);
        match read_value(s, at) {
            None => {
                return None;
            },
            Some((v, j)) => {
                let k = skip_spaces(s, j);
                if k >= s.len() {
                    return None;
                }
                items.push(v);
                assert(models(items@) =~= acc.push(v@));
                if s[k] == ']' {
                    return Some((Value::Array(items), k + 1));
                } else if s[k] == ',' {
                    at = skip_spaces(s, k + 1);
                } else {
                    return None;
                }
            },
        }
    }
}

/// Reads the members of the object whose first member starts at `i`.
fn read_members(s: &Vec<char>, i: usize) -> (r: Option<(Value, usize)>)
    requires
        i < s.len(),
    ensures
        match r {
            Some((v, j)) => parse_members(s@, i as int, Seq::empty()) == Some((v@, j as int))
                && i < j <= s.len(),
            None => parse_members(s@, i as int, Seq::empty()) is None,
        },
    decreases s.len() - i, 1nat,
{
    let mut object = Object::new();
    let mut at: usize = i;
    loop
        invariant
            i <= at <= s.len(),
            parse_members(s@, i as int, Seq::empty()) == parse_members(s@, at as int, object@),
        decreases s.len() - at,
    {
        if at >= s.len() || s[at] != '"' {
            return None;
        }
        let (key, j) = match read_string(s, at + 1) {
            Some(found) => found,
            None => {
                return None;
            },
        };
        let k = skip_spaces(s, j);
        if k >= s.len() || s[k] != ':' {
            return None;
        }
        let a = skip_spaces(s, k + 1);
        let (v, b) = match read_value(s, a) {
            Some(found) => found,
            None => {
                return None;
            },
        };
        let c = skip_spaces(s, b);
        if c >= s.len() || object.contains_key(key.as_str()) {
            return None;
        }
        object.push_new(key, v);
        if s[c] == '}' {
            return Some((Value::Object(object), c + 1));
        } else if s[c] == ',' {
            at = skip_spaces(s, c + 1);
        } else {
            return None;
        }
    }
}

impl Value {
    /// Reads a JSON text: one value, with nothing but white space around
    /// it. A text that is no such thing, or in which an object names a
    /// member twice, is refused.
    pub fn from_json(text: &str) -> (r: Result<Value, Error>)
        ensures
            match r {
                Ok(v) => parse_document(text@) == Some(v@),
                Err(e) => e == Error::Syntax && parse_document(text@) is None,
            },
    {
        let s = chars_of(text);
        let i = skip_spaces(&s, 0);
        match read_value(&s, i) {
            Some((v, j)) => {
                let k = skip_spaces(&s, j);
                if k == s.len() {
                    Ok(v)
                } else {
                    Err(Error::Syntax)
                }
            },
            None => Err(Error::Syntax),
        }
    }
}

} // verus!
