//! Redacts a whole report: the last thing that it passes through.
use crate::keys::{is_secret_key, secret_key, texts};
use crate::sweep::{scrub_text, scrubbed_text, REDACTED};
use crate::text::same_text;
use crate::value::{
    json_fields, json_items, lemma_fields_push, lemma_json_push, set_field, single_fields,
    single_named, Json, Value,
};
use vstd::prelude::*;

verus! {

/// What stands for everything that is nested too deep.
pub const TRUNCATED: &'static str = "[truncated]";

/// Deep enough for real context objects, shallow enough to stay cheap.
pub const MAX_SCRUB_DEPTH: usize = 8;

/// What is left of `value`, met at `depth`, where `extra` holds the key names
/// that were added to the built-in list.
///
/// Fields that are named like a credential are redacted, other text is swept
/// where `text` asks for it, and what is nested too deep is cut off. Below a
/// field `user` text is left alone.
pub open spec fn scrubbed(value: Json, depth: int, text: bool, extra: Seq<Seq<char>>) -> Json
    decreases value,
{
    match value {
        Json::Text(inner) => if text {
            Json::Text(scrubbed_text(inner))
        } else {
            value
        },
        Json::Array(items) => if depth >= MAX_SCRUB_DEPTH {
            Json::Text(TRUNCATED@)
        } else {
            Json::Array(
                Seq::new(
                    items.len(),
                    |i: int|
                        if 0 <= i < items.len() {
                            scrubbed(items[i], depth + 1, text, extra)
                        } else {
                            Json::Null
                        },
                ),
            )
        },
        Json::Object(fields) => if depth >= MAX_SCRUB_DEPTH {
            Json::Text(TRUNCATED@)
        } else {
            Json::Object(
                Map::new(
                    |key: Seq<char>| fields.contains_key(key),
                    |key: Seq<char>|
                        if !fields.contains_key(key) {
                            Json::Null
                        } else if secret_key(key, extra) {
                            Json::Text(REDACTED@)
                        } else {
                            scrubbed(fields[key], depth + 1, text && key != "user"@, extra)
                        },
                ),
            )
        },
        _ => value,
    }
}

/// What is left of the value of the field `key`.
pub open spec fn scrubbed_field(
    key: Seq<char>,
    value: Json,
    depth: int,
    text: bool,
    extra: Seq<Seq<char>>,
) -> Json {
    if secret_key(key, extra) {
        Json::Text(REDACTED@)
    } else {
        scrubbed(value, depth + 1, text && key != "user"@, extra)
    }
}

/// Redacts credential-shaped keys anywhere in the payload, and strips secrets
/// out of the free text around them. `user` is the field you deliberately fill
/// with an identity, so its strings are left alone; its keys are still checked.
/// Of several fields with one name, the last is what is left.
pub fn scrub_value(value: Value, depth: usize, text: bool, extra: &Vec<String>) -> (out: Value)
    ensures
        out@ == scrubbed(value@, depth as int, text, texts(extra@)),
        single_named(out),
    decreases (if depth < MAX_SCRUB_DEPTH { MAX_SCRUB_DEPTH - depth } else { 0 }),
{
    match value {
        Value::String(inner) => if text {
            Value::String(scrub_text(inner.as_str()))
        } else {
            Value::String(inner)
        },
        Value::Array(items) => {
            if depth >= MAX_SCRUB_DEPTH {
                return Value::String(TRUNCATED.to_owned());
            }
            let ghost all = items@;
            let mut kept: Vec<Value> = Vec::new();
            for item in given: items
                invariant
                    given.seq() == all,
                    depth < MAX_SCRUB_DEPTH,
                    json_items(kept@).len() == given.index(),
                    forall|i: int| 0 <= i < kept@.len() ==> single_named(#[trigger] kept@[i]),
                    json_items(all.take(given.index() as int)).len() == given.index(),
                    forall|i: int|
                        0 <= i < given.index() ==> #[trigger] json_items(kept@)[i] == scrubbed(
                            json_items(all.take(given.index() as int))[i],
                            depth + 1,
                            text,
                            texts(extra@),
                        ),
            {
                let ghost seen = all.take(given.index() as int);
                let ghost done = kept@;
                let ghost met = item;
                let item: Value = scrub_value(item, depth + 1, text, extra);
                proof {
                    lemma_json_push(seen, met);
                    lemma_json_push(done, item);
                    assert(seen.push(met) == all.take(given.index() + 1));
                }
                kept.push(item);
            }
            assert(all.take(all.len() as int) == all);
            let out: Value = Value::Array(kept);
            proof {
                assert(json_items(kept@) =~= scrubbed(
                    value@,
                    depth as int,
                    text,
                    texts(extra@),
                )->Array_0);
            }
            out
        },
        Value::Object(fields) => {
            if depth >= MAX_SCRUB_DEPTH {
                return Value::String(TRUNCATED.to_owned());
            }
            let ghost all = fields@;
            let mut kept: Vec<(String, Value)> = Vec::new();
            for field in given: fields
                invariant
                    given.seq() == all,
                    depth < MAX_SCRUB_DEPTH,
                    single_fields(kept@),
                    json_fields(kept@).dom() == json_fields(all.take(given.index() as int)).dom(),
                    forall|key: Seq<char>|
                        json_fields(kept@).contains_key(key) ==> #[trigger] json_fields(kept@)[key]
                            == scrubbed_field(
                            key,
                            json_fields(all.take(given.index() as int))[key],
                            depth as int,
                            text,
                            texts(extra@),
                        ),
            {
                let ghost seen = all.take(given.index() as int);
                let ghost done = json_fields(kept@);
                let ghost met = field;
                let (key, nested) = field;
                let value: Value = if is_secret_key(key.as_str(), extra) {
                    Value::String(REDACTED.to_owned())
                } else {
                    let text: bool = text && !same_text(key.as_str(), "user");
                    scrub_value(nested, depth + 1, text, extra)
                };
                proof {
                    lemma_fields_push(seen, met.0, met.1);
                    assert(seen.push(met) == all.take(given.index() + 1));
                    assert(done.insert(key@, value@).dom() =~= json_fields(seen.push(met)).dom());
                }
                set_field(&mut kept, key, value);
            }
            assert(all.take(all.len() as int) == all);
            let out: Value = Value::Object(kept);
            proof {
                assert(json_fields(kept@) =~= scrubbed(
                    value@,
                    depth as int,
                    text,
                    texts(extra@),
                )->Object_0);
            }
            out
        },
        other => other,
    }
}

} // verus!
