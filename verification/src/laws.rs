//! What holds of every record and of every text.

use crate::error::Error;
use crate::json::model::{
    distinct_keys, has_key, key_index, lemma_lookup_at, lookup, well_formed, Json, Members,
};
use crate::json::parsed::lemma_parsed_document;
use crate::json::round_trip::theorem_round_trip;
use crate::json::syntax::parse_document;
use crate::service::{
    all_strings, decode, decode_types, encode, from_text, id_key, members, strings, texts,
    to_text, type_key, types_json, valid, without_key, Record,
};
use vstd::prelude::*;

verus! {

/// The object that stands for a valid record names no member twice, and
/// is well-formed throughout.
pub proof fn lemma_encode_well_formed(r: Record)
    requires
        valid(r),
    ensures
        distinct_keys(members(r)),
        well_formed(encode(r)),
{
    let m = members(r);
    let p = r.properties;
    assert(id_key().len() != type_key().len());
    assert forall|i: int, j: int| 0 <= i < j < m.len() implies (#[trigger] m[i]).0 != (
    #[trigger] m[j]).0 by {
        if j >= 2 {
            assert(m[j] == p[j - 2]);
            if i >= 2 {
                assert(m[i] == p[i - 2]);
            } else {
                assert(p[j - 2].0 != id_key());
                assert(p[j - 2].0 != type_key());
            }
        }
    }
    assert forall|i: int| 0 <= i < m.len() implies well_formed((#[trigger] m[i]).1) by {
        if i >= 2 {
            assert(m[i] == p[i - 2]);
            assert(well_formed(p[i - 2].1));
        } else if i == 1 {
            if r.types.len() != 1 {
                assert forall|k: int| 0 <= k < strings(r.types).len() implies well_formed(
                    #[trigger] strings(r.types)[k],
                ) by {}
            }
        }
    }
}

/// Type tags that are written can be read back.
pub proof fn lemma_types_round_trip(types: Seq<Seq<char>>)
    requires
        types.len() >= 1,
    ensures
        decode_types(types_json(types)) == Ok::<Seq<Seq<char>>, Error>(types),
{
    if types.len() == 1 {
        assert(seq![types[0]] =~= types);
    } else {
        let items = strings(types);
        assert(all_strings(items));
        assert(texts(items) =~= types);
    }
}

/// Reading is the inverse of writing: the object that stands for a valid
/// record stands for that record and no other.
pub proof fn law_round_trip(r: Record)
    requires
        valid(r),
    ensures
        decode(encode(r)) == Ok::<Record, Error>(r),
{
    let m = members(r);
    lemma_encode_well_formed(r);
    lemma_lookup_at(m, 0);
    lemma_lookup_at(m, 1);
    lemma_types_round_trip(r.types);
    let m1 = without_key(m, id_key());
    assert(m1 =~= seq![(type_key(), types_json(r.types))] + r.properties);
    assert(m1[0].0 == type_key());
    assert(distinct_keys(m1)) by {
        assert forall|i: int, j: int| 0 <= i < j < m1.len() implies (#[trigger] m1[i]).0 != (
        #[trigger] m1[j]).0 by {
            assert(m1[i] == m[i + 1]);
            assert(m1[j] == m[j + 1]);
        }
    }
    lemma_lookup_at(m1, 0);
    let m2 = without_key(m1, type_key());
    assert(m2 =~= r.properties);
}

/// Reading is the inverse of writing, for text as well: the text of a valid
/// record stands for that record.
pub proof fn law_text_round_trip(r: Record)
    requires
        valid(r),
    ensures
        from_text(to_text(r)) == Ok::<Record, Error>(r),
{
    lemma_encode_well_formed(r);
    theorem_round_trip(encode(r));
    law_round_trip(r);
}

/// What is read is valid: the record that an object without a flaw stands
/// for has a URL as its identifier, at least one type tag, and properties
/// with distinct names, none of them `id` or `type`.
pub proof fn law_decoded_is_valid(v: Json)
    requires
        well_formed(v),
        decode(v) is Ok,
    ensures
        valid(decode(v).unwrap()),
{
    let m = v->Object_0;
    let m1 = without_key(m, id_key());
    let m2 = without_key(m1, type_key());
    lemma_without_key(m, id_key());
    lemma_without_key(m1, type_key());
    assert(id_key().len() != type_key().len());
    assert(!has_key(m2, id_key())) by {
        if has_key(m2, id_key()) {
            let i = choose|i: int| 0 <= i < m2.len() && (#[trigger] m2[i]).0 == id_key();
            assert(has_key(m1, m2[i].0));
        }
    }
}

/// Taking a member out leaves members of the object it came from, still
/// under distinct names and no longer under the name taken out.
pub proof fn lemma_without_key(m: Members, k: Seq<char>)
    requires
        well_formed(Json::Object(m)),
    ensures
        well_formed(Json::Object(without_key(m, k))),
        !has_key(without_key(m, k), k),
        forall|i: int|
            0 <= i < without_key(m, k).len() ==> has_key(m, (#[trigger] without_key(m, k)[i]).0),
{
    let w = without_key(m, k);
    if has_key(m, k) {
        let at = choose|i: int| 0 <= i < m.len() && (#[trigger] m[i]).0 == k;
        assert(at == key_index(m, k));
        assert forall|i: int| 0 <= i < w.len() implies (#[trigger] w[i]) == m[if i < at {
            i
        } else {
            i + 1
        }] by {}
        assert forall|i: int, j: int| 0 <= i < j < w.len() implies (#[trigger] w[i]).0 != (
        #[trigger] w[j]).0 by {
            let i0 = if i < at { i } else { i + 1 };
            let j0 = if j < at { j } else { j + 1 };
            assert(m[i0].0 != m[j0].0);
        }
        assert forall|i: int| 0 <= i < w.len() implies well_formed((#[trigger] w[i]).1) by {
            let i0 = if i < at { i } else { i + 1 };
            assert(well_formed(m[i0].1));
        }
        assert forall|i: int| 0 <= i < w.len() implies has_key(m, (#[trigger] w[i]).0) by {
            let i0 = if i < at { i } else { i + 1 };
            assert(m[i0].0 == w[i].0);
        }
        if has_key(w, k) {
            let j = choose|j: int| 0 <= j < w.len() && (#[trigger] w[j]).0 == k;
            let j0 = if j < at { j } else { j + 1 };
            if j0 < at {
                assert(m[j0].0 != m[at].0);
            } else {
                assert(m[at].0 != m[j0].0);
            }
        }
    } else {
        assert forall|i: int| 0 <= i < w.len() implies has_key(m, (#[trigger] w[i]).0) by {}
    }
}

/// What is read from a text is valid.
pub proof fn law_read_is_valid(text: Seq<char>)
    requires
        from_text(text) is Ok,
    ensures
        valid(from_text(text).unwrap()),
{
    lemma_parsed_document(text);
    law_decoded_is_valid(parse_document(text).unwrap());
}

/// One type tag is written as a bare string; several are written as an
/// array of as many strings, in the same order. Either way it is the member
/// named `type`.
pub proof fn law_type_shape(r: Record)
    requires
        valid(r),
    ensures
        parse_document(to_text(r)) == Some(Json::Object(members(r))),
        lookup(members(r), type_key()) == Some(types_json(r.types)),
        r.types.len() == 1 ==> types_json(r.types) == Json::String(r.types[0]),
        r.types.len() > 1 ==> (types_json(r.types) matches Json::Array(items) && items.len()
            == r.types.len() && forall|i: int|
            0 <= i < items.len() ==> #[trigger] items[i] == Json::String(r.types[i])),
{
    lemma_encode_well_formed(r);
    theorem_round_trip(encode(r));
    lemma_lookup_at(members(r), 1);
}

/// Every property of a valid record is a member of the object that its text
/// stands for, beside `id` and `type` and under its own name, and none of
/// them is named `id` or `type`.
pub proof fn law_flattening(r: Record, i: int)
    requires
        valid(r),
        0 <= i < r.properties.len(),
    ensures
        parse_document(to_text(r)) == Some(Json::Object(members(r))),
        members(r).len() == r.properties.len() + 2,
        lookup(members(r), r.properties[i].0) == Some(r.properties[i].1),
        r.properties[i].0 != id_key(),
        r.properties[i].0 != type_key(),
{
    lemma_encode_well_formed(r);
    theorem_round_trip(encode(r));
    assert(members(r)[i + 2] == r.properties[i]);
    lemma_lookup_at(members(r), i + 2);
}

/// A text that stands for an object without a member named `id` stands for
/// no record.
pub proof fn law_missing_id_rejected(text: Seq<char>, m: Members)
    requires
        parse_document(text) == Some(Json::Object(m)),
        !has_key(m, id_key()),
    ensures
        from_text(text) == Err::<Record, Error>(Error::MissingId),
{
}

/// A text that stands for an object without a member named `type` stands
/// for no record.
pub proof fn law_missing_type_rejected(text: Seq<char>, m: Members)
    requires
        parse_document(text) == Some(Json::Object(m)),
        !has_key(m, type_key()),
    ensures
        from_text(text) is Err,
        has_key(m, id_key()) && decode(Json::Object(m)) != Err::<Record, Error>(Error::InvalidId)
            && decode(Json::Object(m)) != Err::<Record, Error>(Error::InvalidUrl)
            ==> from_text(text) == Err::<Record, Error>(Error::MissingType),
{
}

/// A text that stands for an object whose member named `type` is the empty
/// array stands for no record.
pub proof fn law_empty_type_rejected(text: Seq<char>, m: Members)
    requires
        parse_document(text) == Some(Json::Object(m)),
        lookup(m, type_key()) == Some(Json::Array(Seq::<Json>::empty())),
    ensures
        from_text(text) is Err,
        has_key(m, id_key()) && decode(Json::Object(m)) != Err::<Record, Error>(Error::InvalidId)
            && decode(Json::Object(m)) != Err::<Record, Error>(Error::InvalidUrl)
            ==> from_text(text) == Err::<Record, Error>(Error::EmptyType),
{
}

/// A text that stands for no JSON value, or for one that is no object,
/// stands for no record.
pub proof fn law_not_an_object_rejected(text: Seq<char>)
    requires
        !(parse_document(text) matches Some(Json::Object(_))),
    ensures
        from_text(text) is Err,
        parse_document(text) is None ==> from_text(text) == Err::<Record, Error>(Error::Syntax),
        parse_document(text) is Some ==> from_text(text) == Err::<Record, Error>(
            Error::NotAnObject,
        ),
{
}

} // verus!
