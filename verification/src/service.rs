//! The refresh service record and the JSON object that stands for it.

use crate::error::Error;
use crate::json::model::{distinct_keys, has_key, key_index, lookup, well_formed, Json, Members};
use crate::json::round_trip::theorem_round_trip;
use crate::json::syntax::{parse_document, render};
use crate::json::value::{models, Object, Value};
use crate::laws::{law_read_is_valid, law_round_trip};
use crate::one_or_many::OneOrMany;
use crate::text::views;
use crate::url::{is_url, Url};
use vstd::prelude::*;

verus! {

/// What a refresh service record holds.
pub struct Record {
    /// The identifier, a URL.
    pub id: Seq<char>,
    /// The type tags, in order.
    pub types: Seq<Seq<char>>,
    /// The further properties, by name.
    pub properties: Members,
}

/// The name `id`.
pub open spec fn id_key() -> Seq<char> {
    seq!['i', 'd']
}

/// The name `type`.
pub open spec fn type_key() -> Seq<char> {
    seq!['t', 'y', 'p', 'e']
}

/// Whether the properties `m` leave the names of the fixed fields alone.
pub open spec fn no_reserved_key(m: Members) -> bool {
    !has_key(m, id_key()) && !has_key(m, type_key())
}

/// The records that can be written: the identifier is a URL, there is at
/// least one type tag, and the properties are members of a well-formed
/// object, none of them named `id` or `type`.
pub open spec fn valid(r: Record) -> bool {
    &&& is_url(r.id)
    &&& r.types.len() >= 1
    &&& well_formed(Json::Object(r.properties))
    &&& no_reserved_key(r.properties)
}

/// The JSON strings of `items`.
pub open spec fn strings(items: Seq<Seq<char>>) -> Seq<Json> {
    Seq::new(items.len(), |i: int| Json::String(items[i]))
}

/// How type tags are written: one tag as a bare string, several as an array
/// of strings in their order.
pub open spec fn types_json(types: Seq<Seq<char>>) -> Json {
    if types.len() == 1 {
        Json::String(types[0])
    } else {
        Json::Array(strings(types))
    }
}

/// The members of the object that stands for `r`: `id`, then `type`, then
/// every property as a member of its own.
pub open spec fn members(r: Record) -> Members {
    seq![(id_key(), Json::String(r.id)), (type_key(), types_json(r.types))] + r.properties
}

/// The JSON object that stands for `r`.
pub open spec fn encode(r: Record) -> Json {
    Json::Object(members(r))
}

/// Whether every one of `items` is a string.
pub open spec fn all_strings(items: Seq<Json>) -> bool {
    forall|i: int| 0 <= i < items.len() ==> (#[trigger] items[i]) is String
}

/// What the strings `items` hold.
pub open spec fn texts(items: Seq<Json>) -> Seq<Seq<char>> {
    Seq::new(items.len(), |i: int| items[i]->String_0)
}

/// The type tags that `v` stands for: a string is one tag, an array of
/// strings that is not empty is its strings in order.
pub open spec fn decode_types(v: Json) -> Result<Seq<Seq<char>>, Error> {
    match v {
        Json::String(t) => Ok(seq![t]),
        Json::Array(items) => if items.len() == 0 {
            Err(Error::EmptyType)
        } else if all_strings(items) {
            Ok(texts(items))
        } else {
            Err(Error::InvalidType)
        },
        _ => Err(Error::InvalidType),
    }
}

/// The members `m` without the one named `k`.
pub open spec fn without_key(m: Members, k: Seq<char>) -> Members {
    if has_key(m, k) {
        m.remove(key_index(m, k))
    } else {
        m
    }
}

/// The record that `v` stands for. The fixed fields are read first, `id`
/// before `type`; all other members are the properties.
pub open spec fn decode(v: Json) -> Result<Record, Error> {
    match v {
        Json::Object(m) => match lookup(m, id_key()) {
            None => Err(Error::MissingId),
            Some(Json::String(id)) => if !is_url(id) {
                Err(Error::InvalidUrl)
            } else {
                match lookup(m, type_key()) {
                    None => Err(Error::MissingType),
                    Some(t) => match decode_types(t) {
                        Err(e) => Err(e),
                        Ok(types) => Ok(
                            Record {
                                id,
                                types,
                                properties: without_key(without_key(m, id_key()), type_key()),
                            },
                        ),
                    },
                }
            },
            Some(_) => Err(Error::InvalidId),
        },
        _ => Err(Error::NotAnObject),
    }
}

/// The text of the record `r`: the text of the object that stands for it.
pub open spec fn to_text(r: Record) -> Seq<char> {
    render(encode(r))
}

/// The record that the text stands for: the text is read as a JSON value,
/// and the value as a record.
pub open spec fn from_text(text: Seq<char>) -> Result<Record, Error> {
    match parse_document(text) {
        Some(v) => decode(v),
        None => Err(Error::Syntax),
    }
}

/// Information used to refresh a credential or to assert its status.
#[derive(Debug, PartialEq)]
pub struct RefreshService {
    /// The URL of the refresh service.
    pub id: Url,
    /// The type or types of the refresh service.
    pub types: OneOrMany,
    /// Further properties of the refresh service.
    pub properties: Object,
}

impl View for RefreshService {
    type V = Record;

    open spec fn view(&self) -> Record {
        Record { id: self.id@, types: self.types@, properties: self.properties@ }
    }
}

impl RefreshService {
    /// A record without further properties.
    pub fn new(id: Url, types: OneOrMany) -> (r: Self)
        ensures
            r.id == id,
            r.types == types,
            r.properties@ == Seq::<(Seq<char>, Json)>::empty(),
    {
        Self::with_properties(id, types, Object::new())
    }

    /// A record with the given properties, kept as they are.
    pub fn with_properties(id: Url, types: OneOrMany, properties: Object) -> (r: Self)
        ensures
            r.id == id,
            r.types == types,
            r.properties == properties,
    {
        RefreshService { id, types, properties }
    }

    /// The JSON object that stands for the record. A record with a property
    /// named `id` or `type` has none: it is refused, not repaired.
    pub fn to_value(&self) -> (r: Result<Value, Error>)
        ensures
            match r {
                Ok(v) => no_reserved_key(self.properties@) && v@ == encode(self@),
                Err(e) => e == Error::ReservedProperty && !no_reserved_key(self.properties@),
            },
    {
        proof {
            reveal_strlit("id");
            reveal_strlit("type");
            assert("id"@ =~= id_key());
            assert("type"@ =~= type_key());
        }
        if self.properties.contains_key("id") || self.properties.contains_key("type") {
            return Err(Error::ReservedProperty);
        }
        let ghost props = self.properties@;
        let ghost head = seq![
            (id_key(), Json::String(self.id@)),
            (type_key(), types_json(self.types@)),
        ];
        let mut object = Object::new();
        object.push_new("id".to_owned(), Value::String(self.id.as_str().to_owned()));
        proof {
            assert(!has_key(object@, type_key())) by {
                if has_key(object@, type_key()) {
                    let j = key_index(object@, type_key());
                    assert(object@[j].0.len() == 2);
                }
            }
        }
        object.push_new("type".to_owned(), types_value(&self.types));
        assert(object@ =~= head);
        let n = self.properties.len();
        let mut i: usize = 0;
        while i < n
            invariant
                i <= n,
                n == props.len(),
                props == self.properties@,
                distinct_keys(props),
                no_reserved_key(props),
                head.len() == 2,
                head[0].0 == id_key(),
                head[1].0 == type_key(),
                object@ == head + props.take(i as int),
            decreases n - i,
        {
            match self.properties.entry(i) {
                Some((key, value)) => {
                    proof {
                        let m = object@;
                        let k = key@;
                        assert(props[i as int].0 == k);
                        if has_key(m, k) {
                            let j = key_index(m, k);
                            if j >= 2 {
                                assert(m[j] == props[j - 2]);
                                assert(props[j - 2].0 != props[i as int].0);
                            }
                        }
                    }
                    object.push_new(key.clone(), value.clone());
                    assert(object@ =~= head + props.take(i + 1));
                },
                None => {},
            }
            i += 1;
        }
        assert(props.take(n as int) =~= props);
        Ok(Value::Object(object))
    }

    /// The text of the record: one flat JSON object without white space,
    /// `id` first, `type` second, then the properties in their order. What
    /// it returns is read back as this record. A record with a property
    /// named `id` or `type` is refused.
    pub fn to_json(&self) -> (r: Result<String, Error>)
        ensures
            match r {
                Ok(text) => valid(self@) && text@ == to_text(self@) && from_text(text@) == Ok::<
                    Record,
                    Error,
                >(self@),
                Err(e) => e == Error::ReservedProperty && !no_reserved_key(self.properties@),
            },
    {
        match self.to_value() {
            Ok(v) => {
                let text = v.to_json();
                let id = self.id.as_str();
                let count = self.types.len();
                proof {
                    let r = self@;
                    let m = members(r);
                    assert(v@ == Json::Object(m));
                    assert(distinct_keys(r.properties)) by {
                        assert forall|i: int, j: int|
                            0 <= i < j < r.properties.len() implies (
                        #[trigger] r.properties[i]).0 != (#[trigger] r.properties[j]).0 by {
                            assert(m[i + 2] == r.properties[i]);
                            assert(m[j + 2] == r.properties[j]);
                        }
                    }
                    assert forall|i: int| 0 <= i < r.properties.len() implies well_formed(
                        (#[trigger] r.properties[i]).1,
                    ) by {
                        assert(m[i + 2] == r.properties[i]);
                    }
                    theorem_round_trip(v@);
                    law_round_trip(r);
                }
                Ok(text)
            },
            Err(e) => Err(e),
        }
    }

    /// The record that the JSON text stands for. Such a record is valid.
    pub fn from_json(text: &str) -> (r: Result<Self, Error>)
        ensures
            match r {
                Ok(s) => from_text(text@) == Ok::<Record, Error>(s@) && valid(s@),
                Err(e) => from_text(text@) == Err::<Record, Error>(e),
            },
    {
        match Value::from_json(text) {
            Ok(v) => {
                let r = Self::from_value(&v);
                proof {
                    if r is Ok {
                        law_read_is_valid(text@);
                    }
                }
                r
            },
            Err(e) => Err(e),
        }
    }

    /// The record that the JSON value `v` stands for.
    pub fn from_value(v: &Value) -> (r: Result<Self, Error>)
        ensures
            match r {
                Ok(s) => decode(v@) == Ok::<Record, Error>(s@),
                Err(e) => decode(v@) == Err::<Record, Error>(e),
            },
    {
        proof {
            reveal_strlit("id");
            reveal_strlit("type");
            assert("id"@ =~= id_key());
            assert("type"@ =~= type_key());
        }
        let object = match v {
            Value::Object(o) => o,
            _ => {
                return Err(Error::NotAnObject);
            },
        };
        let id = match object.get("id") {
            None => {
                return Err(Error::MissingId);
            },
            Some(Value::String(text)) => match Url::parse(text.as_str()) {
                Ok(url) => url,
                Err(e) => {
                    return Err(e);
                },
            },
            Some(_) => {
                return Err(Error::InvalidId);
            },
        };
        let types = match object.get("type") {
            None => {
                return Err(Error::MissingType);
            },
            Some(t) => match read_types(t) {
                Ok(types) => types,
                Err(e) => {
                    return Err(e);
                },
            },
        };
        let mut properties = object.clone();
        properties.remove("id");
        properties.remove("type");
        Ok(RefreshService { id, types, properties })
    }
}

/// The JSON value that stands for the type tags.
fn types_value(types: &OneOrMany) -> (r: Value)
    ensures
        r@ == types_json(types@),
{
    let n = types.len();
    if n == 1 {
        Value::String(types.first().clone())
    } else {
        let mut items: Vec<Value> = Vec::new();
        let mut i: usize = 0;
        while i < n
            invariant
                i <= n,
                n == types@.len(),
                items@.len() == i,
                forall|j: int| 0 <= j < i ==> (#[trigger] items@[j])@ == Json::String(types@[j]),
            decreases n - i,
        {
            match types.get(i) {
                Some(tag) => {
                    items.push(Value::String(tag.clone()));
                },
                None => {},
            }
            i += 1;
        }
        assert(models(items@) =~= strings(types@));
        Value::Array(items)
    }
}

/// The type tags that the JSON value `v` stands for.
fn read_types(v: &Value) -> (r: Result<OneOrMany, Error>)
    ensures
        match r {
            Ok(types) => decode_types(v@) == Ok::<Seq<Seq<char>>, Error>(types@),
            Err(e) => decode_types(v@) == Err::<Seq<Seq<char>>, Error>(e),
        },
{
    match v {
        Value::String(tag) => Ok(OneOrMany::one(tag.clone())),
        Value::Array(items) => {
            if items.len() == 0 {
                return Err(Error::EmptyType);
            }
            let ghost js = models(items@);
            let mut tags: Vec<String> = Vec::new();
            let mut i: usize = 0;
            while i < items.len()
                invariant
                    i <= items@.len(),
                    items@.len() > 0,
                    js == models(items@),
                    v@ == Json::Array(js),
                    tags@.len() == i,
                    forall|j: int| 0 <= j < i ==> (#[trigger] js[j]) is String,
                    forall|j: int| 0 <= j < i ==> (#[trigger] tags@[j])@ == js[j]->String_0,
                decreases items@.len() - i,
            {
                match &items[i] {
                    Value::String(tag) => {
                        assert(js[i as int] == Json::String(tag@));
                        tags.push(tag.clone());
                    },
                    _ => {
                        assert(!(js[i as int] is String));
                        return Err(Error::InvalidType);
                    },
                }
                i += 1;
            }
            assert(all_strings(js));
            assert(views(tags@) =~= texts(js));
            match OneOrMany::many(tags) {
                Some(types) => Ok(types),
                None => Err(Error::EmptyType),
            }
        },
        _ => Err(Error::InvalidType),
    }
}

} // verus!
