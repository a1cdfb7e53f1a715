//! The JSON values that reports are made of.
use crate::text::same_text;
use vstd::prelude::*;

verus! {

/// A JSON value. The fields of an object that the library makes have a name
/// each; where a name stands twice, the last field with it counts.
#[derive(Debug, PartialEq, Eq)]
pub enum Value {
    Null,
    Bool(bool),
    Number(serde_json::Number),
    String(String),
    Array(Vec<Value>),
    Object(Vec<(String, Value)>),
}

/// What a `Value` says: the model that contracts speak of.
pub enum Json {
    Null,
    Bool(bool),
    Number(serde_json::Number),
    Text(Seq<char>),
    Array(Seq<Json>),
    Object(Map<Seq<char>, Json>),
}

/// The model of a value.
pub open spec fn json(value: Value) -> Json
    decreases value,
{
    match value {
        Value::Null => Json::Null,
        Value::Bool(flag) => Json::Bool(flag),
        Value::Number(number) => Json::Number(number),
        Value::String(text) => Json::Text(text@),
        Value::Array(items) => Json::Array(json_items(items@)),
        Value::Object(fields) => Json::Object(json_fields(fields@)),
    }
}

/// The models of a list of values.
pub open spec fn json_items(items: Seq<Value>) -> Seq<Json>
    decreases items,
{
    if items.len() == 0 {
        seq![]
    } else {
        json_items(items.drop_last()).push(json(items.last()))
    }
}

/// The model of a list of fields, of which a later one replaces an earlier one
/// of the same name.
pub open spec fn json_fields(fields: Seq<(String, Value)>) -> Map<Seq<char>, Json>
    decreases fields,
{
    if fields.len() == 0 {
        Map::empty()
    } else {
        json_fields(fields.drop_last()).insert(fields.last().0@, json(fields.last().1))
    }
}

impl View for Value {
    type V = Json;

    open spec fn view(&self) -> Json {
        json(*self)
    }
}

/// The model of a value that may not be there.
pub open spec fn json_of(value: Option<Value>) -> Option<Json> {
    match value {
        Some(value) => Some(value@),
        None => None,
    }
}

/// No two fields have the same name.
pub open spec fn names_once(fields: Seq<(String, Value)>) -> bool {
    forall|i: int, j: int|
        0 <= i < j < fields.len() ==> (#[trigger] fields[i]).0@ != (#[trigger] fields[j]).0@
}

/// At no depth there is an object that has two fields of the same name.
pub open spec fn single_named(value: Value) -> bool
    decreases value,
{
    match value {
        Value::Array(items) => forall|i: int|
            0 <= i < items@.len() ==> single_named(#[trigger] items@[i]),
        Value::Object(fields) => names_once(fields@) && forall|i: int|
            0 <= i < fields@.len() ==> single_named((#[trigger] fields@[i]).1),
        _ => true,
    }
}

/// `single_named`, of the fields of an object.
pub open spec fn single_fields(fields: Seq<(String, Value)>) -> bool {
    names_once(fields) && forall|i: int|
        0 <= i < fields.len() ==> single_named((#[trigger] fields[i]).1)
}

/// `single_named`, of a value that may not be there.
pub open spec fn single_if_any(value: Option<Value>) -> bool {
    value matches Some(value) ==> single_named(value)
}

pub proof fn lemma_json_push(items: Seq<Value>, item: Value)
    ensures
        json_items(items.push(item)) == json_items(items).push(item@),
{
    assert(items.push(item).drop_last() == items);
}

pub proof fn lemma_fields_push(fields: Seq<(String, Value)>, name: String, value: Value)
    ensures
        json_fields(fields.push((name, value))) == json_fields(fields).insert(name@, value@),
{
    assert(fields.push((name, value)).drop_last() == fields);
}

/// To write the last field of a name is to write what the name stands for.
proof fn lemma_fields_update(fields: Seq<(String, Value)>, i: int, name: String, value: Value)
    requires
        0 <= i < fields.len(),
        fields[i].0@ == name@,
        forall|j: int| i < j < fields.len() ==> (#[trigger] fields[j]).0@ != name@,
    ensures
        json_fields(fields.update(i, (name, value))) == json_fields(fields).insert(name@, value@),
    decreases fields.len(),
{
    let written = fields.update(i, (name, value));
    if i == fields.len() - 1 {
        assert(written.drop_last() =~= fields.drop_last());
        assert(json_fields(written) =~= json_fields(fields).insert(name@, value@));
    } else {
        assert(fields[fields.len() - 1].0@ != name@);
        assert(written.drop_last() =~= fields.drop_last().update(i, (name, value)));
        assert forall|j: int| i < j < fields.drop_last().len() implies (
        #[trigger] fields.drop_last()[j]).0@ != name@ by {
            assert(fields[j].0@ != name@);
        }
        lemma_fields_update(fields.drop_last(), i, name, value);
        assert(json_fields(written) =~= json_fields(fields).insert(name@, value@));
    }
}

/// What holds of a list holds of its items.
proof fn lemma_single_item(items: Vec<Value>, i: int)
    requires
        single_named(Value::Array(items)),
        0 <= i < items@.len(),
    ensures
        single_named(items@[i]),
{
    let value = Value::Array(items);
    assert(single_named(value->Array_0@[i]));
}

impl Clone for Value {
    fn clone(&self) -> (copy: Self)
        ensures
            copy@ == self@,
            single_named(*self) ==> single_named(copy),
        decreases self,
    {
        match self {
            Value::Null => Value::Null,
            Value::Bool(flag) => Value::Bool(*flag),
            Value::Number(number) => Value::Number(number.clone()),
            Value::String(text) => Value::String(text.clone()),
            Value::Array(items) => {
                let mut copies: Vec<Value> = Vec::new();
                let mut i: usize = 0;
                while i < items.len()
                    invariant
                        i <= items@.len(),
                        json_items(copies@) == json_items(items@.take(i as int)),
                        copies@.len() == i,
                        single_named(*self) ==> forall|k: int|
                            0 <= k < copies@.len() ==> single_named(#[trigger] copies@[k]),
                        *self == Value::Array(*items),
                        decreases_to!(self => items),
                    decreases items@.len() - i,
                {
                    let copy: Value = items[i].clone();
                    proof {
                        if single_named(*self) {
                            lemma_single_item(*items, i as int);
                        }
                        lemma_json_push(copies@, copy);
                        lemma_json_push(items@.take(i as int), items@[i as int]);
                        assert(items@.take(i as int).push(items@[i as int]) == items@.take(i + 1));
                    }
                    copies.push(copy);
                    i += 1;
                }
                assert(items@.take(i as int) == items@);
                Value::Array(copies)
            },
            Value::Object(fields) => {
                let mut copies: Vec<(String, Value)> = Vec::new();
                let mut i: usize = 0;
                while i < fields.len()
                    invariant
                        i <= fields@.len(),
                        json_fields(copies@) == json_fields(fields@.take(i as int)),
                        copies@.len() == i,
                        forall|k: int|
                            0 <= k < copies@.len() ==> (#[trigger] copies@[k]).0@ == fields@[k].0@,
                        single_named(*self) ==> forall|k: int|
                            0 <= k < copies@.len() ==> single_named((#[trigger] copies@[k]).1),
                        *self == Value::Object(*fields),
                        decreases_to!(self => fields),
                    decreases fields@.len() - i,
                {
                    let name: String = fields[i].0.clone();
                    let value: Value = fields[i].1.clone();
                    proof {
                        let field = fields@[i as int];
                        lemma_fields_push(copies@, name, value);
                        lemma_fields_push(fields@.take(i as int), field.0, field.1);
                        assert(fields@.take(i as int).push(field) == fields@.take(i + 1));
                    }
                    copies.push((name, value));
                    i += 1;
                }
                assert(fields@.take(i as int) == fields@);
                Value::Object(copies)
            },
        }
    }
}

impl Value {
    /// The field `name` of an object.
    pub fn get(&self, name: &str) -> (found: Option<&Value>)
        ensures
            match found {
                Some(value) => self@ matches Json::Object(fields) && fields.contains_key(name@)
                    && value@ == fields[name@],
                None => !(self@ matches Json::Object(fields) && fields.contains_key(name@)),
            },
    {
        match self {
            Value::Object(fields) => {
                let mut left: usize = fields.len();
                assert(fields@.take(left as int) == fields@);
                while left > 0
                    invariant
                        self == Value::Object(*fields),
                        left <= fields@.len(),
                        json_fields(fields@).contains_key(name@) <==> json_fields(
                            fields@.take(left as int),
                        ).contains_key(name@),
                        json_fields(fields@).contains_key(name@) ==> json_fields(fields@)[name@]
                            == json_fields(fields@.take(left as int))[name@],
                    decreases left,
                {
                    left -= 1;
                    proof {
                        let field = fields@[left as int];
                        lemma_fields_push(fields@.take(left as int), field.0, field.1);
                        assert(fields@.take(left as int).push(field) == fields@.take(left + 1));
                    }
                    if same_text(fields[left].0.as_str(), name) {
                        return Some(&fields[left].1);
                    }
                }
                assert(fields@.take(0).len() == 0);
                None
            },
            _ => None,
        }
    }
}

/// Writes the field `name` of an object: in the place of the field of that name,
/// if there is one, and behind all others if there is none.
pub fn set_field(target: &mut Vec<(String, Value)>, name: String, value: Value)
    ensures
        json_fields(final(target)@) == json_fields(old(target)@).insert(name@, value@),
        names_once(old(target)@) ==> names_once(final(target)@),
        single_fields(old(target)@) && single_named(value) ==> single_fields(final(target)@),
{
    let ghost before = target@;
    let mut left: usize = target.len();
    while left > 0
        invariant
            target@ == before,
            before == old(target)@,
            left <= target@.len(),
            forall|j: int| left <= j < target@.len() ==> (#[trigger] target@[j]).0@ != name@,
        decreases left,
    {
        left -= 1;
        if same_text(target[left].0.as_str(), name.as_str()) {
            proof {
                lemma_fields_update(before, left as int, name, value);
            }
            target.set(left, (name, value));
            return;
        }
    }
    proof {
        lemma_fields_push(before, name, value);
    }
    target.push((name, value));
}

/// Writes the field `key` of an object, if there is something to write.
pub fn insert(target: &mut Vec<(String, Value)>, key: &str, value: Option<Value>)
    ensures
        json_fields(final(target)@) == put(
            json_fields(old(target)@),
            key@,
            json_of(value),
        ),
        names_once(old(target)@) ==> names_once(final(target)@),
        single_fields(old(target)@) && single_if_any(value) ==> single_fields(final(target)@),
{
    if let Some(value) = value {
        set_field(target, key.to_owned(), value);
    }
}

/// `fields` with `key` written, if there is something to write.
pub open spec fn put(fields: Map<Seq<char>, Json>, key: Seq<char>, value: Option<Json>) -> Map<
    Seq<char>,
    Json,
> {
    match value {
        Some(value) => fields.insert(key, value),
        None => fields,
    }
}

} // verus!
