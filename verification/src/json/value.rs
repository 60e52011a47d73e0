//! JSON values as data.

use crate::json::model::{distinct_keys, has_key, key_index, lemma_lookup_at, lookup, Json, Members};
use crate::json::number::Number;
use vstd::prelude::*;

verus! {

/// A JSON value.
#[derive(Debug)]
pub enum Value {
    Null,
    Bool(bool),
    Number(Number),
    String(String),
    Array(Vec<Value>),
    Object(Object),
}

/// A JSON object: members with distinct names, in the order in which they
/// were added.
///
/// The members are only reached through the functions below, so no value of
/// this type names a member twice. Two objects are equal where they hold
/// the same names with equal values, in whatever order.
#[derive(Debug)]
pub struct Object {
    entries: Vec<(String, Value)>,
}

/// The values that `items` stand for.
pub open spec fn models(items: Seq<Value>) -> Seq<Json>
    decreases items,
{
    Seq::new(
        items.len(),
        |i: int|
            if 0 <= i < items.len() {
                items[i].view()
            } else {
                Json::Null
            },
    )
}

/// The members that `entries` stand for.
pub open spec fn members_of(entries: Seq<(String, Value)>) -> Members
    decreases entries,
{
    Seq::new(
        entries.len(),
        |i: int|
            if 0 <= i < entries.len() {
                (entries[i].0@, entries[i].1.view())
            } else {
                (Seq::empty(), Json::Null)
            },
    )
}

impl Value {
    /// The value that `self` stands for.
    pub open spec fn view(&self) -> Json
        decreases self,
    {
        match self {
            Value::Null => Json::Null,
            Value::Bool(b) => Json::Bool(*b),
            Value::Number(n) => Json::Number(n@),
            Value::String(s) => Json::String(s@),
            Value::Array(items) => Json::Array(models(items@)),
            Value::Object(o) => Json::Object(o.view()),
        }
    }
}

impl Object {
    /// The members of `self`, in order.
    pub closed spec fn view(&self) -> Members
        decreases self,
    {
        members_of(self.entries@)
    }

    #[verifier::type_invariant]
    spec fn inv(&self) -> bool {
        distinct_keys(self.view())
    }

    /// The object without members.
    pub fn new() -> (r: Self)
        ensures
            r@ == Seq::<(Seq<char>, Json)>::empty(),
    {
        let r = Object { entries: Vec::new() };
        assert(r@ =~= Seq::<(Seq<char>, Json)>::empty());
        r
    }

    /// The number of members.
    pub fn len(&self) -> (n: usize)
        ensures
            n == self@.len(),
            distinct_keys(self@),
    {
        proof {
            use_type_invariant(self);
        }
        self.entries.len()
    }

    /// Whether there is no member.
    pub fn is_empty(&self) -> (b: bool)
        ensures
            b == (self@.len() == 0),
    {
        self.entries.len() == 0
    }

    /// The place of the member named `key`.
    pub(crate) fn find(&self, key: &str) -> (r: Option<usize>)
        ensures
            distinct_keys(self@),
            match r {
                Some(i) => i < self@.len() && self@[i as int].0 == key@ && has_key(self@, key@)
                    && key_index(self@, key@) == i,
                None => !has_key(self@, key@),
            },
    {
        proof {
            use_type_invariant(self);
        }
        let wanted = key.to_owned();
        let mut i: usize = 0;
        while i < self.entries.len()
            invariant
                i <= self.entries@.len(),
                wanted@ == key@,
                distinct_keys(self@),
                self@.len() == self.entries@.len(),
                forall|j: int| 0 <= j < i ==> (#[trigger] self@[j]).0 != key@,
            decreases self.entries@.len() - i,
        {
            if self.entries[i].0 == wanted {
                proof {
                    assert(self@[i as int].0 == key@);
                    lemma_lookup_at(self@, i as int);
                }
                return Some(i);
            }
            i += 1;
        }
        None
    }

    /// Whether a member is named `key`.
    pub fn contains_key(&self, key: &str) -> (b: bool)
        ensures
            b == has_key(self@, key@),
    {
        self.find(key).is_some()
    }

    /// The value of the member named `key`.
    pub fn get(&self, key: &str) -> (r: Option<&Value>)
        ensures
            match r {
                Some(v) => lookup(self@, key@) == Some(v@),
                None => lookup(self@, key@) is None,
            },
    {
        match self.find(key) {
            Some(i) => Some(&self.entries[i].1),
            None => None,
        }
    }

    /// The name and the value of the member at place `i`.
    pub fn entry(&self, i: usize) -> (r: Option<(&String, &Value)>)
        ensures
            match r {
                Some((k, v)) => i < self@.len() && self@[i as int] == (k@, v@),
                None => i >= self@.len(),
            },
    {
        if i < self.entries.len() {
            Some((&self.entries[i].0, &self.entries[i].1))
        } else {
            None
        }
    }

    /// The members as they are held.
    pub(crate) fn entries(&self) -> (r: &Vec<(String, Value)>)
        ensures
            members_of(r@) == self@,
            distinct_keys(self@),
            decreases_to!(self => r),
    {
        proof {
            use_type_invariant(self);
        }
        &self.entries
    }

    /// Adds a member at the end. The name must be new.
    pub(crate) fn push_new(&mut self, key: String, value: Value)
        requires
            !has_key(old(self)@, key@),
        ensures
            final(self)@ == old(self)@.push((key@, value@)),
    {
        proof {
            use_type_invariant(&*self);
        }
        let ghost before = self@;
        let mut entries: Vec<(String, Value)> = Vec::new();
        core::mem::swap(&mut self.entries, &mut entries);
        entries.push((key, value));
        proof {
            let after = members_of(entries@);
            assert(after =~= before.push((key@, value@)));
            assert forall|i: int, j: int| 0 <= i < j < after.len() implies (#[trigger] after[i]).0
                != (#[trigger] after[j]).0 by {
                if j == before.len() {
                    assert(before[i].0 != key@);
                } else {
                    assert(before[i].0 != before[j].0);
                }
            }
        }
        self.entries = entries;
    }

    /// Gives the member named `key` the value `value`. Where there was such
    /// a member, it keeps its place and its former value is returned; where
    /// there was none, the member is added at the end.
    pub fn insert(&mut self, key: String, value: Value) -> (r: Option<Value>)
        ensures
            match r {
                Some(former) => has_key(old(self)@, key@) && lookup(old(self)@, key@) == Some(
                    former@,
                ) && final(self)@ == old(self)@.update(
                    key_index(old(self)@, key@),
                    (key@, value@),
                ),
                None => !has_key(old(self)@, key@) && final(self)@ == old(self)@.push(
                    (key@, value@),
                ),
            },
    {
        match self.find(key.as_str()) {
            Some(i) => {
                let ghost before = self@;
                let mut entries: Vec<(String, Value)> = Vec::new();
                core::mem::swap(&mut self.entries, &mut entries);
                let former = entries.remove(i);
                entries.insert(i, (key, value));
                proof {
                    let after = members_of(entries@);
                    assert(after =~= before.update(i as int, (key@, value@)));
                    assert forall|a: int, b: int| 0 <= a < b < after.len() implies (
                    #[trigger] after[a]).0 != (#[trigger] after[b]).0 by {
                        assert(before[a].0 != before[b].0);
                    }
                    assert(former.1@ == before[i as int].1);
                }
                self.entries = entries;
                Some(former.1)
            },
            None => {
                self.push_new(key, value);
                None
            },
        }
    }

    /// Takes out the member named `key` and returns its value; the other
    /// members keep their order.
    pub fn remove(&mut self, key: &str) -> (r: Option<Value>)
        ensures
            match r {
                Some(former) => has_key(old(self)@, key@) && lookup(old(self)@, key@) == Some(
                    former@,
                ) && final(self)@ == old(self)@.remove(key_index(old(self)@, key@)),
                None => !has_key(old(self)@, key@) && final(self)@ == old(self)@,
            },
    {
        match self.find(key) {
            Some(i) => {
                let ghost before = self@;
                let mut entries: Vec<(String, Value)> = Vec::new();
                core::mem::swap(&mut self.entries, &mut entries);
                let former = entries.remove(i);
                proof {
                    let after = members_of(entries@);
                    assert(after =~= before.remove(i as int));
                    assert forall|a: int, b: int| 0 <= a < b < after.len() implies (
                    #[trigger] after[a]).0 != (#[trigger] after[b]).0 by {
                        let a0 = if a < i { a } else { a + 1 };
                        let b0 = if b < i { b } else { b + 1 };
                        assert(before[a0].0 != before[b0].0);
                    }
                    assert(former.1@ == before[i as int].1);
                }
                self.entries = entries;
                Some(former.1)
            },
            None => None,
        }
    }
}

/// A copy of `v`.
fn copy_value(v: &Value) -> (r: Value)
    ensures
        r@ == v@,
    decreases v,
{
    match v {
        Value::Null => Value::Null,
        Value::Bool(b) => Value::Bool(*b),
        Value::Number(n) => Value::Number(n.clone()),
        Value::String(s) => Value::String(s.clone()),
        Value::Array(items) => Value::Array(copy_items(items)),
        Value::Object(o) => {
            proof {
                use_type_invariant(o);
            }
            let entries = copy_entries(&o.entries);
            Value::Object(Object { entries })
        },
    }
}

/// A copy of `items`.
fn copy_items(items: &Vec<Value>) -> (r: Vec<Value>)
    ensures
        models(r@) == models(items@),
    decreases items,
{
    let mut r: Vec<Value> = Vec::new();
    let mut i: usize = 0;
    while i < items.len()
        invariant
            i <= items@.len(),
            r@.len() == i,
            forall|j: int| 0 <= j < i ==> (#[trigger] r@[j])@ == items@[j]@,
        decreases items@.len() - i,
    {
        r.push(copy_value(&items[i]));
        i += 1;
    }
    assert(models(r@) =~= models(items@));
    r
}

/// A copy of `entries`.
fn copy_entries(entries: &Vec<(String, Value)>) -> (r: Vec<(String, Value)>)
    ensures
        members_of(r@) == members_of(entries@),
    decreases entries,
{
    let mut r: Vec<(String, Value)> = Vec::new();
    let mut i: usize = 0;
    while i < entries.len()
        invariant
            i <= entries@.len(),
            r@.len() == i,
            forall|j: int|
                0 <= j < i ==> (#[trigger] r@[j]).0@ == entries@[j].0@ && r@[j].1@
                    == entries@[j].1@,
        decreases entries@.len() - i,
    {
        let key = entries[i].0.clone();
        let value = copy_value(&entries[i].1);
        r.push((key, value));
        i += 1;
    }
    assert(members_of(r@) =~= members_of(entries@));
    r
}

impl Clone for Value {
    fn clone(&self) -> (r: Self)
        ensures
            r@ == self@,
    {
        copy_value(self)
    }
}

impl Clone for Object {
    fn clone(&self) -> (r: Self)
        ensures
            r@ == self@,
    {
        proof {
            use_type_invariant(self);
        }
        Object { entries: copy_entries(&self.entries) }
    }
}

} // verus!
