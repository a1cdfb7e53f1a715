//! What the values and requests of the library say.
use crate::request::Request;
use crate::value::{json_fields, json_items, single_named, Json, Value};
use vstd::prelude::*;

verus! {

/// A value says what it holds: each item of a list in its place.
pub proof fn law_what_values_say(value: Value)
    ensures
        match (value, value@) {
            (Value::Null, Json::Null) => true,
            (Value::Bool(flag), Json::Bool(said)) => said == flag,
            (Value::Number(number), Json::Number(said)) => said == number,
            (Value::String(text), Json::Text(said)) => said == text@,
            (Value::Array(items), Json::Array(said)) => said.len() == items@.len() && forall|i: int|
                0 <= i < said.len() ==> #[trigger] said[i] == items@[i]@,
            (Value::Object(fields), Json::Object(said)) => said == json_fields(fields@),
            _ => false,
        },
{
    if let Value::Array(items) = value {
        lemma_items(items@);
    }
}

proof fn lemma_items(items: Seq<Value>)
    ensures
        json_items(items).len() == items.len(),
        forall|i: int| 0 <= i < items.len() ==> #[trigger] json_items(items)[i] == items[i]@,
    decreases items.len(),
{
    if items.len() > 0 {
        lemma_items(items.drop_last());
        assert forall|i: int| 0 <= i < items.len() implies #[trigger] json_items(items)[i]
            == items[i]@ by {
            if i < items.len() - 1 {
                assert(json_items(items)[i] == json_items(items.drop_last())[i]);
            }
        }
    }
}

/// An object has the names of its fields and no others, and under each of them
/// what the last field of that name holds.
pub proof fn law_what_fields_say(fields: Seq<(String, Value)>)
    ensures
        forall|name: Seq<char>| #[trigger]
            json_fields(fields).contains_key(name) <==> exists|i: int|
                0 <= i < fields.len() && (#[trigger] fields[i]).0@ == name,
        forall|i: int|
            0 <= i < fields.len() && (forall|j: int|
                i < j < fields.len() ==> (#[trigger] fields[j]).0@ != fields[i].0@) ==> json_fields(
                fields,
            )[(#[trigger] fields[i]).0@] == fields[i].1@,
    decreases fields.len(),
{
    if fields.len() > 0 {
        let rest = fields.drop_last();
        let last = fields.len() - 1;
        law_what_fields_say(rest);
        assert forall|name: Seq<char>| #[trigger]
            json_fields(fields).contains_key(name) <==> exists|i: int|
                0 <= i < fields.len() && (#[trigger] fields[i]).0@ == name by {
            if json_fields(rest).contains_key(name) {
                let i = choose|i: int| 0 <= i < rest.len() && (#[trigger] rest[i]).0@ == name;
                assert(fields[i] == rest[i]);
            }
            if name == fields[last].0@ {
                assert(fields[last].0@ == name);
            }
            if exists|i: int| 0 <= i < fields.len() && (#[trigger] fields[i]).0@ == name {
                let i = choose|i: int| 0 <= i < fields.len() && (#[trigger] fields[i]).0@ == name;
                if i < last {
                    assert(rest[i].0@ == name);
                }
            }
        }
        assert forall|i: int|
            0 <= i < fields.len() && (forall|j: int|
                i < j < fields.len() ==> (#[trigger] fields[j]).0@
                    != fields[i].0@) implies json_fields(fields)[(#[trigger] fields[i]).0@]
            == fields[i].1@ by {
            if i < last {
                assert(fields[last].0@ != fields[i].0@);
                assert(rest[i] == fields[i]);
                assert forall|j: int| i < j < rest.len() implies (#[trigger] rest[j]).0@
                    != rest[i].0@ by {
                    assert(fields[j].0@ != fields[i].0@);
                }
                assert(json_fields(rest)[rest[i].0@] == rest[i].1@);
            }
        }
    }
}

/// Where no name stands twice, two fields of an object have two names, and so it
/// is in what the fields and the items hold.
pub proof fn law_no_name_twice(value: Value)
    requires
        single_named(value),
    ensures
        match value {
            Value::Object(fields) => forall|i: int, j: int|
                0 <= i < j < fields@.len() ==> (#[trigger] fields@[i]).0@ != (
                #[trigger] fields@[j]).0@,
            _ => true,
        },
        match value {
            Value::Object(fields) => forall|i: int|
                0 <= i < fields@.len() ==> single_named((#[trigger] fields@[i]).1),
            Value::Array(items) => forall|i: int|
                0 <= i < items@.len() ==> single_named(#[trigger] items@[i]),
            _ => true,
        },
{
    if let Value::Array(items) = value {
        assert forall|i: int| 0 <= i < items@.len() implies single_named(#[trigger] items@[i]) by {
            assert(single_named(value->Array_0@[i]));
        }
    }
}

/// A request says its address, its headers in their order, and its body.
pub proof fn law_what_requests_say(request: Request)
    ensures
        request@.url == request.url@,
        request@.body == request.body@,
        request@.headers.len() == request.headers@.len(),
        forall|i: int|
            0 <= i < request.headers@.len() ==> #[trigger] request@.headers[i] == (
                request.headers@[i].0@,
                request.headers@[i].1@,
            ),
{
}

} // verus!
