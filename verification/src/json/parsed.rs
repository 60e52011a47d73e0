//! What is read is well-formed.

use crate::json::model::{distinct_keys, well_formed, Json, Members};
use crate::json::number::{lemma_number_alone, number_end};
use crate::json::round_trip::theorem_round_trip;
use crate::json::syntax::{
    parse_document, parse_items, parse_members, parse_value, render, spaces_end, string_end,
};
use vstd::prelude::*;

verus! {

/// A value that is read from a text is well-formed.
pub proof fn lemma_parsed_value(s: Seq<char>, i: int)
    requires
        parse_value(s, i) is Some,
    ensures
        well_formed(parse_value(s, i).unwrap().0),
    decreases s.len() - i, 0nat,
{
    if s[i] == '[' {
        let j = spaces_end(s, i + 1);
        if s[j] != ']' {
            lemma_parsed_items(s, j, Seq::empty());
        }
    } else if s[i] == '{' {
        let j = spaces_end(s, i + 1);
        if s[j] != '}' {
            lemma_parsed_members(s, j, Seq::empty());
        }
    } else if s[i] != 'n' && s[i] != 't' && s[i] != 'f' && s[i] != '"' {
        lemma_number_alone(s, i, number_end(s, i).unwrap());
    }
}

/// An array that is read from a text after well-formed items is
/// well-formed.
proof fn lemma_parsed_items(s: Seq<char>, i: int, acc: Seq<Json>)
    requires
        parse_items(s, i, acc) is Some,
        forall|k: int| 0 <= k < acc.len() ==> well_formed(#[trigger] acc[k]),
    ensures
        well_formed(parse_items(s, i, acc).unwrap().0),
    decreases s.len() - i, 1nat,
{
    lemma_parsed_value(s, i);
    let (v, j) = parse_value(s, i).unwrap();
    let k = spaces_end(s, j);
    let next = acc.push(v);
    assert forall|n: int| 0 <= n < next.len() implies well_formed(#[trigger] next[n]) by {
        if n < acc.len() {
            assert(next[n] == acc[n]);
        }
    }
    if s[k] == ',' {
        lemma_parsed_items(s, spaces_end(s, k + 1), next);
    }
}

/// An object that is read from a text after well-formed members with
/// distinct names is well-formed.
proof fn lemma_parsed_members(s: Seq<char>, i: int, acc: Members)
    requires
        parse_members(s, i, acc) is Some,
        distinct_keys(acc),
        forall|k: int| 0 <= k < acc.len() ==> well_formed((#[trigger] acc[k]).1),
    ensures
        well_formed(parse_members(s, i, acc).unwrap().0),
    decreases s.len() - i, 1nat,
{
    let (key, j) = string_end(s, i + 1, Seq::empty()).unwrap();
    let k = spaces_end(s, j);
    let a = spaces_end(s, k + 1);
    lemma_parsed_value(s, a);
    let (v, b) = parse_value(s, a).unwrap();
    let c = spaces_end(s, b);
    let next = acc.push((key, v));
    assert forall|n: int| 0 <= n < next.len() implies well_formed((#[trigger] next[n]).1) by {
        if n < acc.len() {
            assert(next[n] == acc[n]);
        }
    }
    assert forall|m: int, n: int| 0 <= m < n < next.len() implies (#[trigger] next[m]).0 != (
    #[trigger] next[n]).0 by {
        if n < acc.len() {
            assert(acc[m].0 != acc[n].0);
        } else {
            assert(next[m] == acc[m]);
        }
    }
    if s[c] == ',' {
        lemma_parsed_members(s, spaces_end(s, c + 1), next);
    }
}

/// The value that a text stands for is well-formed, and the text that
/// this value is written as stands for it too.
pub proof fn lemma_parsed_document(s: Seq<char>)
    requires
        parse_document(s) is Some,
    ensures
        well_formed(parse_document(s).unwrap()),
        parse_document(render(parse_document(s).unwrap())) == parse_document(s),
{
    lemma_parsed_value(s, spaces_end(s, 0));
    theorem_round_trip(parse_document(s).unwrap());
}

} // verus!
