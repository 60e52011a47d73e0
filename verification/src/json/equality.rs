//! When two values are equal.

use crate::json::model::{
    found_in, has_key, key_index, lemma_lookup_at, same, well_formed, Json,
};
use crate::json::value::{members_of, models, Object, Value};
use vstd::prelude::*;

verus! {

/// A well-formed value is the same as itself.
pub proof fn lemma_same_reflexive(v: Json)
    requires
        well_formed(v),
    ensures
        same(v, v),
    decreases v,
{
    match v {
        Json::Array(x) => {
            assert forall|i: int| 0 <= i < x.len() implies same(#[trigger] x[i], x[i]) by {
                lemma_same_reflexive(x[i]);
            }
        },
        Json::Object(x) => {
            assert forall|i: int| 0 <= i < x.len() implies has_key(x, (#[trigger] x[i]).0)
                && same(x[i].1, x[key_index(x, x[i].0)].1) by {
                lemma_lookup_at(x, i);
                lemma_same_reflexive(x[i].1);
            }
        },
        _ => {},
    }
}

/// Where `a` is the same as `b`, `b` is the same as `a`.
pub proof fn lemma_same_symmetric(a: Json, b: Json)
    requires
        well_formed(a),
        well_formed(b),
        same(a, b),
    ensures
        same(b, a),
    decreases a,
{
    match a {
        Json::Array(x) => {
            let y = b->Array_0;
            assert forall|i: int| 0 <= i < y.len() implies same(#[trigger] y[i], x[i]) by {
                assert(same(x[i], y[i]));
                lemma_same_symmetric(x[i], y[i]);
            }
        },
        Json::Object(x) => {
            let y = b->Object_0;
            assert forall|j: int| 0 <= j < y.len() implies has_key(x, (#[trigger] y[j]).0)
                && same(y[j].1, x[key_index(x, y[j].0)].1) by {
                let i = key_index(x, y[j].0);
                assert(has_key(y, x[i].0) && same(x[i].1, y[key_index(y, x[i].0)].1));
                lemma_lookup_at(y, j);
                lemma_same_symmetric(x[i].1, y[j].1);
            }
            assert forall|i: int| 0 <= i < x.len() implies has_key(y, (#[trigger] x[i]).0) by {}
        },
        _ => {},
    }
}

/// Where `a` is the same as `b` and `b` the same as `c`, `a` is the same
/// as `c`.
pub proof fn lemma_same_transitive(a: Json, b: Json, c: Json)
    requires
        well_formed(a),
        well_formed(b),
        well_formed(c),
        same(a, b),
        same(b, c),
    ensures
        same(a, c),
    decreases a,
{
    match a {
        Json::Array(x) => {
            let y = b->Array_0;
            let z = c->Array_0;
            assert forall|i: int| 0 <= i < x.len() implies same(#[trigger] x[i], z[i]) by {
                assert(same(x[i], y[i]));
                assert(same(y[i], z[i]));
                lemma_same_transitive(x[i], y[i], z[i]);
            }
        },
        Json::Object(x) => {
            let y = b->Object_0;
            let z = c->Object_0;
            assert forall|i: int| 0 <= i < x.len() implies has_key(z, (#[trigger] x[i]).0)
                && same(x[i].1, z[key_index(z, x[i].0)].1) by {
                let j = key_index(y, x[i].0);
                assert(has_key(z, y[j].0) && same(y[j].1, z[key_index(z, y[j].0)].1));
                lemma_same_transitive(x[i].1, y[j].1, z[key_index(z, x[i].0)].1);
            }
            assert forall|l: int| 0 <= l < z.len() implies has_key(x, (#[trigger] z[l]).0) by {
                let j = key_index(y, z[l].0);
                assert(has_key(x, y[j].0));
            }
        },
        _ => {},
    }
}

/// Whether `a` and `b` are the same value.
fn same_value(a: &Value, b: &Value) -> (r: bool)
    ensures
        r == same(a@, b@),
    decreases a,
{
    match a {
        Value::Null => match b {
            Value::Null => true,
            _ => false,
        },
        Value::Bool(x) => match b {
            Value::Bool(y) => *x == *y,
            _ => false,
        },
        Value::Number(x) => match b {
            Value::Number(y) => x.same_text(y),
            _ => false,
        },
        Value::String(x) => match b {
            Value::String(y) => *x == *y,
            _ => false,
        },
        Value::Array(x) => match b {
            Value::Array(y) => {
                assert(models(x@).len() == x@.len() && models(y@).len() == y@.len());
                same_items(x, y)
            },
            _ => false,
        },
        Value::Object(x) => match b {
            Value::Object(y) => same_object(x, y),
            _ => false,
        },
    }
}

/// Whether `a` and `b` hold the same names with the same values.
fn same_object(a: &Object, b: &Object) -> (r: bool)
    ensures
        r == same(Json::Object(a@), Json::Object(b@)),
    decreases a,
{
    let mine = a.entries();
    let theirs = b.entries();
    let ghost x = a@;
    let ghost y = b@;
    assert(Json::Object(x)->Object_0 == x && Json::Object(y)->Object_0 == y);
    if !all_found(mine, b) {
        return false;
    }
    names_found(theirs, a)
}

/// Whether `a` and `b` hold the same values in the same order.
fn same_items(a: &Vec<Value>, b: &Vec<Value>) -> (r: bool)
    ensures
        r == (a@.len() == b@.len() && forall|i: int|
            0 <= i < a@.len() ==> same(#[trigger] models(a@)[i], models(b@)[i])),
    decreases a,
{
    if a.len() != b.len() {
        return false;
    }
    let mut i: usize = 0;
    while i < a.len()
        invariant
            i <= a@.len(),
            a@.len() == b@.len(),
            forall|j: int| 0 <= j < i ==> same(#[trigger] models(a@)[j], models(b@)[j]),
        decreases a@.len() - i,
    {
        if !same_value(&a[i], &b[i]) {
            assert(!same(models(a@)[i as int], models(b@)[i as int]));
            return false;
        }
        i += 1;
    }
    true
}

/// Whether every member of `a` is found in `b` with the same value.
fn all_found(a: &Vec<(String, Value)>, b: &Object) -> (r: bool)
    ensures
        r == found_in(members_of(a@), b@),
    decreases a,
{
    let ghost x = members_of(a@);
    let entries = b.entries();
    let mut i: usize = 0;
    while i < a.len()
        invariant
            i <= a@.len(),
            x == members_of(a@),
            members_of(entries@) == b@,
            forall|j: int|
                0 <= j < i ==> has_key(b@, (#[trigger] x[j]).0) && same(
                    x[j].1,
                    b@[key_index(b@, x[j].0)].1,
                ),
        decreases a@.len() - i,
    {
        match b.find(a[i].0.as_str()) {
            Some(j) => {
                assert(b@[j as int].1 == entries@[j as int].1@);
                if !same_value(&a[i].1, &entries[j].1) {
                    assert(!same(x[i as int].1, b@[key_index(b@, x[i as int].0)].1));
                    return false;
                }
            },
            None => {
                assert(!has_key(b@, x[i as int].0));
                return false;
            },
        }
        i += 1;
    }
    true
}

/// Whether every name of `a` is a name of `b`.
fn names_found(a: &Vec<(String, Value)>, b: &Object) -> (r: bool)
    ensures
        r == (forall|j: int|
            0 <= j < a@.len() ==> has_key(b@, (#[trigger] members_of(a@)[j]).0)),
{
    let ghost x = members_of(a@);
    let mut i: usize = 0;
    while i < a.len()
        invariant
            i <= a@.len(),
            x == members_of(a@),
            forall|j: int| 0 <= j < i ==> has_key(b@, (#[trigger] x[j]).0),
        decreases a@.len() - i,
    {
        if !b.contains_key(a[i].0.as_str()) {
            assert(!has_key(b@, x[i as int].0));
            return false;
        }
        i += 1;
    }
    true
}

impl PartialEq for Value {
    fn eq(&self, other: &Self) -> (r: bool) {
        same_value(self, other)
    }
}

impl vstd::std_specs::cmp::PartialEqSpecImpl for Value {
    open spec fn obeys_eq_spec() -> bool {
        true
    }

    open spec fn eq_spec(&self, other: &Self) -> bool {
        same(self@, other@)
    }
}

impl PartialEq for Object {
    fn eq(&self, other: &Self) -> (r: bool) {
        same_object(self, other)
    }
}

impl vstd::std_specs::cmp::PartialEqSpecImpl for Object {
    open spec fn obeys_eq_spec() -> bool {
        true
    }

    open spec fn eq_spec(&self, other: &Self) -> bool {
        same(Json::Object(self@), Json::Object(other@))
    }
}

} // verus!
