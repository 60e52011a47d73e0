//! JSON values as mathematics.

use crate::json::number::is_number;
use vstd::prelude::*;

verus! {

/// A JSON value. A number is held as the text it is written as, so that no
/// digit of it is lost; an object is the list of its members in the order in
/// which they are written.
pub enum Json {
    Null,
    Bool(bool),
    Number(Seq<char>),
    String(Seq<char>),
    Array(Seq<Json>),
    Object(Seq<(Seq<char>, Json)>),
}

/// The members of an object: names with their values.
pub type Members = Seq<(Seq<char>, Json)>;

/// Whether a member of `m` is named `k`.
pub open spec fn has_key(m: Members, k: Seq<char>) -> bool {
    exists|i: int| 0 <= i < m.len() && (#[trigger] m[i]).0 == k
}

/// The place of a member of `m` that is named `k`, where there is one.
pub open spec fn key_index(m: Members, k: Seq<char>) -> int {
    choose|i: int| 0 <= i < m.len() && (#[trigger] m[i]).0 == k
}

/// The value of the member of `m` that is named `k`.
pub open spec fn lookup(m: Members, k: Seq<char>) -> Option<Json> {
    if has_key(m, k) {
        Some(m[key_index(m, k)].1)
    } else {
        None
    }
}

/// No two members of `m` share a name.
pub open spec fn distinct_keys(m: Members) -> bool {
    forall|i: int, j: int| 0 <= i < j < m.len() ==> (#[trigger] m[i]).0 != (#[trigger] m[j]).0
}

/// The values that can be written and read back: every number in `v` is
/// written as JSON writes numbers, and no object in `v` names a member twice.
pub open spec fn well_formed(v: Json) -> bool
    decreases v,
{
    match v {
        Json::Number(t) => is_number(t),
        Json::Array(items) => forall|i: int|
            0 <= i < items.len() ==> well_formed(#[trigger] items[i]),
        Json::Object(m) => {
            &&& distinct_keys(m)
            &&& forall|i: int| 0 <= i < m.len() ==> well_formed((#[trigger] m[i]).1)
        },
        _ => true,
    }
}

/// Whether `a` and `b` are the same value: the same kind of value with the
/// same content, where the content of an object is which names it holds and
/// what value each name has, not the order of its members.
pub open spec fn same(a: Json, b: Json) -> bool
    decreases a,
{
    match a {
        Json::Array(x) => (b matches Json::Array(y) && x.len() == y.len() && forall|i: int|
            0 <= i < x.len() ==> same(#[trigger] x[i], y[i])),
        Json::Object(x) => (b matches Json::Object(y) && (forall|i: int|
            0 <= i < x.len() ==> has_key(y, (#[trigger] x[i]).0) && same(
                x[i].1,
                y[key_index(y, x[i].0)].1,
            )) && forall|j: int| 0 <= j < y.len() ==> has_key(x, (#[trigger] y[j]).0)),
        _ => a == b,
    }
}

/// Whether every member of `x` is found in `y`, under its name and with the
/// same value.
pub open spec fn found_in(x: Members, y: Members) -> bool {
    forall|i: int|
        0 <= i < x.len() ==> has_key(y, (#[trigger] x[i]).0) && same(
            x[i].1,
            y[key_index(y, x[i].0)].1,
        )
}

/// With distinct names, the member at place `i` is the one that its name
/// finds.
pub proof fn lemma_lookup_at(m: Members, i: int)
    requires
        distinct_keys(m),
        0 <= i < m.len(),
    ensures
        has_key(m, m[i].0),
        key_index(m, m[i].0) == i,
        lookup(m, m[i].0) == Some(m[i].1),
{
    let k = m[i].0;
    assert(has_key(m, k));
    let c = key_index(m, k);
    assert(0 <= c < m.len() && m[c].0 == k);
    if c < i {
        assert(m[c].0 != m[i].0);
    } else if c > i {
        assert(m[i].0 != m[c].0);
    }
}

} // verus!
