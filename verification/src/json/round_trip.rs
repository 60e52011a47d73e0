//! Reading is the inverse of writing.

use crate::json::model::{distinct_keys, has_key, well_formed, Json, Members};
use crate::json::number::{extends_number, lemma_number_end_bounds, lemma_number_found, occurs_at};
use crate::json::syntax::{
    escape, escape_end, escaped_from, hex4, hex_digit, hex_value, is_space, parse_document,
    parse_items, parse_members, parse_value, quoted, render, render_items, render_members,
    separator, spaces_end, string_end,
};
use crate::url::is_digit;
use vstd::prelude::*;

verus! {

/// A text that stands at `i` has its characters there.
proof fn lemma_occurs_char(s: Seq<char>, i: int, t: Seq<char>, k: int)
    requires
        occurs_at(s, i, t),
        0 <= k < t.len(),
    ensures
        s[i + k] == t[k],
{
    assert(s.subrange(i, i + t.len())[k] == s[i + k]);
}

/// Where a text of two parts stands, its parts stand one after the other.
proof fn lemma_occurs_split(s: Seq<char>, i: int, a: Seq<char>, b: Seq<char>)
    requires
        occurs_at(s, i, a + b),
    ensures
        occurs_at(s, i, a),
        occurs_at(s, i + a.len(), b),
{
    let w = s.subrange(i, i + (a + b).len());
    assert(s.subrange(i, i + a.len()) =~= a) by {
        assert forall|k: int| 0 <= k < a.len() implies s.subrange(i, i + a.len())[k] == a[k] by {
            assert(w[k] == (a + b)[k]);
        }
    }
    assert(s.subrange(i + a.len(), i + a.len() + b.len()) =~= b) by {
        assert forall|k: int| 0 <= k < b.len() implies s.subrange(
            i + a.len(),
            i + a.len() + b.len(),
        )[k] == b[k] by {
            assert(w[a.len() + k] == (a + b)[a.len() + k]);
        }
    }
}

/// No white space is skipped where none stands.
proof fn lemma_no_spaces(s: Seq<char>, i: int)
    requires
        0 <= i <= s.len(),
        i < s.len() ==> !is_space(s[i]),
    ensures
        spaces_end(s, i) == i,
{
}

/// The text of a well-formed value is not empty, and its first character
/// tells what kind of value it is.
proof fn lemma_render_start(v: Json)
    requires
        well_formed(v),
    ensures
        render(v).len() > 0,
        !is_space(render(v)[0]),
        render(v)[0] != ']',
        render(v)[0] != '}',
        v is Null ==> render(v)[0] == 'n',
        v is Bool ==> render(v)[0] == 't' || render(v)[0] == 'f',
        v is String ==> render(v)[0] == '"',
        v is Array ==> render(v)[0] == '[',
        v is Object ==> render(v)[0] == '{',
        v is Number ==> render(v)[0] == '-' || is_digit(render(v)[0]),
{
    match v {
        Json::Number(t) => {
            lemma_number_end_bounds(t, 0);
        },
        Json::String(t) => {
            assert(quoted(t)[0] == '"');
        },
        Json::Array(items) => {
            assert(render(v)[0] == '[');
        },
        Json::Object(m) => {
            assert(render(v)[0] == '{');
        },
        _ => {},
    }
}

/// The digits of base sixteen stand for themselves.
proof fn lemma_hex_digit(n: int)
    requires
        0 <= n < 16,
    ensures
        hex_value(hex_digit(n)) == Some(n),
{
}

/// A character that was written inside a string is read as itself.
proof fn lemma_escape_read(s: Seq<char>, i: int, c: char, acc: Seq<char>)
    requires
        occurs_at(s, i, escape(c)),
    ensures
        string_end(s, i, acc) == string_end(s, i + escape(c).len(), acc.push(c)),
{
    let e = escape(c);
    lemma_occurs_char(s, i, e, 0);
    if e.len() >= 2 {
        lemma_occurs_char(s, i, e, 1);
    }
    if c == '"' || c == '\\' || c == '\u{8}' || c == '\u{c}' || c == '\n' || c == '\r' || c
        == '\t' {
        assert(escape_end(s, i + 1) == Some((c, i + 2)));
    } else if (c as int) < 0x20 {
        lemma_occurs_char(s, i, e, 2);
        lemma_occurs_char(s, i, e, 3);
        lemma_occurs_char(s, i, e, 4);
        lemma_occurs_char(s, i, e, 5);
        let n = c as int;
        lemma_hex_digit(n / 16);
        lemma_hex_digit(n % 16);
        assert(hex_value('0') == Some(0int));
        assert(hex4(s, i + 2) == Some(n));
        assert(n as char == c);
        assert(escape_end(s, i + 1) == Some((c, i + 6)));
    } else {
    }
}

/// A string that was written is read as itself: where the characters of
/// `t` from `k` on and a closing quote stand at `i`, the string that holds
/// the first `k` characters of `t` already is completed to `t`.
proof fn lemma_string_read(s: Seq<char>, i: int, t: Seq<char>, k: int)
    requires
        0 <= k <= t.len(),
        occurs_at(s, i, escaped_from(t, k) + seq!['"']),
    ensures
        string_end(s, i, t.take(k)) == Some((t, i + escaped_from(t, k).len() + 1)),
    decreases t.len() - k,
{
    if k == t.len() {
        assert(escaped_from(t, k) + seq!['"'] =~= seq!['"']);
        lemma_occurs_char(s, i, seq!['"'], 0);
        assert(t.take(k) =~= t);
    } else {
        let e = escape(t[k]);
        let rest = escaped_from(t, k + 1);
        assert(escaped_from(t, k) + seq!['"'] =~= e + (rest + seq!['"']));
        lemma_occurs_split(s, i, e, rest + seq!['"']);
        lemma_escape_read(s, i, t[k], t.take(k));
        assert(t.take(k).push(t[k]) =~= t.take(k + 1));
        lemma_string_read(s, i + e.len(), t, k + 1);
    }
}

/// A quoted string that stands at `i` is read as the string it was written
/// from.
proof fn lemma_quoted_read(s: Seq<char>, i: int, t: Seq<char>)
    requires
        occurs_at(s, i, quoted(t)),
    ensures
        s[i] == '"',
        string_end(s, i + 1, Seq::empty()) == Some((t, i + quoted(t).len())),
{
    let body = escaped_from(t, 0) + seq!['"'];
    assert(quoted(t) =~= seq!['"'] + body);
    lemma_occurs_split(s, i, seq!['"'], body);
    lemma_occurs_char(s, i, seq!['"'], 0);
    lemma_string_read(s, i + 1, t, 0);
    assert(t.take(0) =~= Seq::<char>::empty());
}

/// A value that was written is read as itself: where the text of a
/// well-formed value stands, followed by nothing that could make a number
/// longer, that value is read and the text goes on behind it.
pub proof fn lemma_value_read(s: Seq<char>, i: int, v: Json)
    requires
        well_formed(v),
        occurs_at(s, i, render(v)),
        i + render(v).len() < s.len() ==> !extends_number(s[i + render(v).len()]),
    ensures
        parse_value(s, i) == Some((v, i + render(v).len())),
    decreases v,
{
    lemma_render_start(v);
    lemma_occurs_char(s, i, render(v), 0);
    match v {
        Json::Null => {},
        Json::Bool(b) => {},
        Json::Number(t) => {
            lemma_number_found(s, i, t);
        },
        Json::String(t) => {
            lemma_quoted_read(s, i, t);
        },
        Json::Array(items) => {
            let body = render_items(items, 0) + seq![']'];
            assert(render(v) =~= seq!['['] + body);
            lemma_occurs_split(s, i, seq!['['], body);
            lemma_occurs_char(s, i + 1, body, 0);
            if items.len() == 0 {
                assert(body =~= seq![']']);
                lemma_no_spaces(s, i + 1);
                assert(items =~= Seq::<Json>::empty());
            } else {
                lemma_render_start(items[0]);
                assert(body[0] == render(items[0])[0]);
                lemma_no_spaces(s, i + 1);
                assert(items.take(0) =~= Seq::<Json>::empty());
                lemma_items_read(s, i + 1, items, 0);
            }
        },
        Json::Object(m) => {
            let body = render_members(m, 0) + seq!['}'];
            assert(render(v) =~= seq!['{'] + body);
            lemma_occurs_split(s, i, seq!['{'], body);
            lemma_occurs_char(s, i + 1, body, 0);
            if m.len() == 0 {
                assert(body =~= seq!['}']);
                lemma_no_spaces(s, i + 1);
                assert(m =~= Seq::<(Seq<char>, Json)>::empty());
            } else {
                assert(body[0] == '"');
                lemma_no_spaces(s, i + 1);
                assert(m.take(0) =~= Seq::<(Seq<char>, Json)>::empty());
                lemma_members_read(s, i + 1, m, 0);
            }
        },
    }
}

/// The items of an array that were written are read as themselves.
proof fn lemma_items_read(s: Seq<char>, i: int, items: Seq<Json>, k: int)
    requires
        0 <= k < items.len(),
        forall|j: int| 0 <= j < items.len() ==> well_formed(#[trigger] items[j]),
        occurs_at(s, i, render_items(items, k) + seq![']']),
    ensures
        parse_items(s, i, items.take(k)) == Some(
            (Json::Array(items), i + render_items(items, k).len() + 1),
        ),
    decreases items, items.len() - k,
{
    let a = render(items[k]);
    let sep = separator(k, items.len());
    let rest = render_items(items, k + 1);
    let tail = sep + rest + seq![']'];
    let j = i + a.len();
    assert(render_items(items, k) + seq![']'] =~= a + tail);
    lemma_occurs_split(s, i, a, tail);
    lemma_render_start(items[k]);
    lemma_occurs_char(s, j, tail, 0);
    lemma_value_read(s, i, items[k]);
    lemma_no_spaces(s, j);
    assert(items.take(k).push(items[k]) =~= items.take(k + 1));
    if k + 1 < items.len() {
        let after = rest + seq![']'];
        assert(tail =~= seq![','] + after);
        lemma_occurs_split(s, j, seq![','], after);
        lemma_render_start(items[k + 1]);
        assert(after[0] == render(items[k + 1])[0]);
        lemma_occurs_char(s, j + 1, after, 0);
        lemma_no_spaces(s, j + 1);
        lemma_items_read(s, j + 1, items, k + 1);
    } else {
        assert(tail =~= seq![']']);
        assert(items.take(k + 1) =~= items);
    }
}

/// The members of an object that were written are read as themselves.
proof fn lemma_members_read(s: Seq<char>, i: int, m: Members, k: int)
    requires
        0 <= k < m.len(),
        distinct_keys(m),
        forall|j: int| 0 <= j < m.len() ==> well_formed((#[trigger] m[j]).1),
        occurs_at(s, i, render_members(m, k) + seq!['}']),
    ensures
        parse_members(s, i, m.take(k)) == Some(
            (Json::Object(m), i + render_members(m, k).len() + 1),
        ),
    decreases m, m.len() - k,
{
    let key = quoted(m[k].0);
    let a = render(m[k].1);
    let sep = separator(k, m.len());
    let rest = render_members(m, k + 1);
    let tail = sep + rest + seq!['}'];
    let colon = i + key.len();
    let j = colon + 1 + a.len();
    assert(render_members(m, k) + seq!['}'] =~= key + (seq![':'] + (a + tail)));
    lemma_occurs_split(s, i, key, seq![':'] + (a + tail));
    lemma_occurs_split(s, colon, seq![':'], a + tail);
    lemma_occurs_split(s, colon + 1, a, tail);
    lemma_quoted_read(s, i, m[k].0);
    lemma_occurs_char(s, colon, seq![':'], 0);
    lemma_no_spaces(s, colon);
    assert(well_formed(m[k].1));
    lemma_render_start(m[k].1);
    lemma_occurs_char(s, colon + 1, a, 0);
    lemma_no_spaces(s, colon + 1);
    lemma_occurs_char(s, j, tail, 0);
    lemma_value_read(s, colon + 1, m[k].1);
    lemma_no_spaces(s, j);
    assert(!has_key(m.take(k), m[k].0)) by {
        if has_key(m.take(k), m[k].0) {
            let c = choose|c: int| 0 <= c < m.take(k).len() && (#[trigger] m.take(k)[c]).0 == m[k].0;
            assert(m[c].0 != m[k].0);
        }
    }
    assert(m.take(k).push((m[k].0, m[k].1)) =~= m.take(k + 1));
    if k + 1 < m.len() {
        let after = rest + seq!['}'];
        assert(tail =~= seq![','] + after);
        lemma_occurs_split(s, j, seq![','], after);
        assert(after[0] == '"');
        lemma_occurs_char(s, j + 1, after, 0);
        lemma_no_spaces(s, j + 1);
        lemma_members_read(s, j + 1, m, k + 1);
    } else {
        assert(tail =~= seq!['}']);
        assert(m.take(k + 1) =~= m);
    }
}

/// Reading is the inverse of writing: the text of a well-formed value
/// stands for that value.
pub proof fn theorem_round_trip(v: Json)
    requires
        well_formed(v),
    ensures
        parse_document(render(v)) == Some(v),
{
    let s = render(v);
    lemma_render_start(v);
    lemma_no_spaces(s, 0);
    assert(s.subrange(0, s.len() as int) =~= s);
    lemma_value_read(s, 0, v);
    lemma_no_spaces(s, s.len() as int);
}

} // verus!
