//! Writing values as text.

use crate::json::model::well_formed;
use crate::json::round_trip::theorem_round_trip;
use crate::json::syntax::{
    escape, escaped_from, false_text, hex_digit, null_text, parse_document, quoted, render,
    render_items, render_members, separator, true_text,
};
use crate::json::value::{members_of, models, Value};
use crate::text::chars_of;
use vstd::prelude::*;

verus! {

fn hex_digit_of(n: u32) -> (c: char)
    requires
        n < 16,
    ensures
        c == hex_digit(n as int),
{
    if n < 10 {
        (48u8 + n as u8) as char
    } else {
        (87u8 + n as u8) as char
    }
}

/// Appends `c` as it is written inside a string.
fn write_char(c: char, out: &mut String)
    ensures
        final(out)@ == old(out)@ + escape(c),
{
    let ghost before = out@;
    if c == '"' {
        out.push('\\');
        out.push('"');
    } else if c == '\\' {
        out.push('\\');
        out.push('\\');
    } else if c == '\u{8}' {
        out.push('\\');
        out.push('b');
    } else if c == '\u{c}' {
        out.push('\\');
        out.push('f');
    } else if c == '\n' {
        out.push('\\');
        out.push('n');
    } else if c == '\r' {
        out.push('\\');
        out.push('r');
    } else if c == '\t' {
        out.push('\\');
        out.push('t');
    } else if (c as u32) < 0x20 {
        let code = c as u32;
        out.push('\\');
        out.push('u');
        out.push('0');
        out.push('0');
        out.push(hex_digit_of(code / 16));
        out.push(hex_digit_of(code % 16));
    } else {
        out.push(c);
    }
    assert(out@ =~= before + escape(c));
}

/// Appends the string `t` between quotes.
pub fn write_string(t: &str, out: &mut String)
    ensures
        final(out)@ == old(out)@ + quoted(t@),
{
    let ghost before = out@;
    let chars = chars_of(t);
    out.push('"');
    let ghost base = out@;
    let mut k: usize = 0;
    while k < chars.len()
        invariant
            k <= chars@.len(),
            out@ + escaped_from(chars@, k as int) == base + escaped_from(chars@, 0),
        decreases chars@.len() - k,
    {
        let ghost current = out@;
        write_char(chars[k], out);
        assert(out@ + escaped_from(chars@, k + 1) =~= current + escaped_from(chars@, k as int));
        k += 1;
    }
    assert(out@ =~= base + escaped_from(chars@, 0));
    out.push('"');
    assert(out@ =~= before + quoted(t@));
}

/// Appends the characters of `t` as they are.
fn write_plain(t: &str, out: &mut String)
    ensures
        final(out)@ == old(out)@ + t@,
{
    let ghost before = out@;
    let chars = chars_of(t);
    let mut k: usize = 0;
    while k < chars.len()
        invariant
            k <= chars@.len(),
            out@ == before + chars@.take(k as int),
        decreases chars@.len() - k,
    {
        out.push(chars[k]);
        assert(out@ =~= before + chars@.take(k + 1));
        k += 1;
    }
    assert(chars@.take(chars@.len() as int) =~= chars@);
}

/// Appends the text of `v`.
pub fn write_value(v: &Value, out: &mut String)
    ensures
        final(out)@ == old(out)@ + render(v@),
        well_formed(v@),
    decreases v,
{
    let ghost before = out@;
    match v {
        Value::Null => {
            out.push('n');
            out.push('u');
            out.push('l');
            out.push('l');
            assert(out@ =~= before + null_text());
        },
        Value::Bool(b) => {
            if *b {
                out.push('t');
                out.push('r');
                out.push('u');
                out.push('e');
                assert(out@ =~= before + true_text());
            } else {
                out.push('f');
                out.push('a');
                out.push('l');
                out.push('s');
                out.push('e');
                assert(out@ =~= before + false_text());
            }
        },
        Value::Number(n) => {
            write_plain(n.as_str(), out);
        },
        Value::String(t) => {
            write_string(t.as_str(), out);
        },
        Value::Array(items) => {
            out.push('[');
            write_items(items, out);
            out.push(']');
            assert(out@ =~= before + render(v@));
        },
        Value::Object(o) => {
            out.push('{');
            write_members(o.entries(), out);
            out.push('}');
            assert(out@ =~= before + render(v@));
        },
    }
}

/// Appends the texts of `items`, with commas between them.
fn write_items(items: &Vec<Value>, out: &mut String)
    ensures
        final(out)@ == old(out)@ + render_items(models(items@), 0),
        forall|k: int| 0 <= k < items@.len() ==> well_formed(#[trigger] models(items@)[k]),
    decreases items,
{
    let ghost before = out@;
    let ghost ms = models(items@);
    let n = items.len();
    let mut k: usize = 0;
    while k < n
        invariant
            k <= n,
            n == items@.len(),
            ms == models(items@),
            out@ + render_items(ms, k as int) == before + render_items(ms, 0),
            forall|j: int| 0 <= j < k ==> well_formed(#[trigger] ms[j]),
        decreases n - k,
    {
        let ghost current = out@;
        write_value(&items[k], out);
        if k + 1 < n {
            out.push(',');
        }
        assert(out@ =~= current + render(ms[k as int]) + separator(k as int, ms.len()));
        assert(out@ + render_items(ms, k + 1) =~= current + render_items(ms, k as int));
        k += 1;
    }
    assert(out@ =~= before + render_items(ms, 0));
}

/// Appends the texts of `entries`, with commas between them.
fn write_members(entries: &Vec<(String, Value)>, out: &mut String)
    ensures
        final(out)@ == old(out)@ + render_members(members_of(entries@), 0),
        forall|k: int|
            0 <= k < entries@.len() ==> well_formed((#[trigger] members_of(entries@)[k]).1),
    decreases entries,
{
    let ghost before = out@;
    let ghost ms = members_of(entries@);
    let n = entries.len();
    let mut k: usize = 0;
    while k < n
        invariant
            k <= n,
            n == entries@.len(),
            ms == members_of(entries@),
            out@ + render_members(ms, k as int) == before + render_members(ms, 0),
            forall|j: int| 0 <= j < k ==> well_formed((#[trigger] ms[j]).1),
        decreases n - k,
    {
        let ghost current = out@;
        write_string(entries[k].0.as_str(), out);
        out.push(':');
        write_value(&entries[k].1, out);
        if k + 1 < n {
            out.push(',');
        }
        assert(out@ =~= current + quoted(ms[k as int].0) + seq![':'] + render(ms[k as int].1)
            + separator(k as int, ms.len()));
        assert(out@ + render_members(ms, k + 1) =~= current + render_members(ms, k as int));
        k += 1;
    }
    assert(out@ =~= before + render_members(ms, 0));
}

impl Value {
    /// The text of the value, without white space. What it returns stands
    /// for `self` when it is read.
    pub fn to_json(&self) -> (text: String)
        ensures
            text@ == render(self@),
            well_formed(self@),
            parse_document(text@) == Some(self@),
    {
        let mut out = String::new();
        write_value(self, &mut out);
        assert(out@ =~= render(self@));
        proof {
            theorem_round_trip(self@);
        }
        out
    }
}

} // verus!
