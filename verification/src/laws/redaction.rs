//! What redaction leaves of a report.
use crate::keys::secret_key;
use crate::laws::sweep::{
    emails_behind_marks, free_of, law_clean_text_is_kept, law_swept_text, lemma_literals_are_free,
};
use crate::patterns::Pattern;
use crate::scrub::{scrubbed, MAX_SCRUB_DEPTH};
use crate::sweep::{scrubbed_text, REDACTED};
use crate::value::Json;
use vstd::prelude::*;
use vstd::utf8::encode_utf8;

verus! {

/// At any depth, a field that is named like a credential holds `[redacted]`.
pub open spec fn guarded(value: Json, extra: Seq<Seq<char>>) -> bool
    decreases value,
{
    match value {
        Json::Array(items) => forall|i: int|
            0 <= i < items.len() ==> guarded(#[trigger] items[i], extra),
        Json::Object(fields) => forall|key: Seq<char>| #[trigger]
            fields.contains_key(key) ==> if secret_key(key, extra) {
                fields[key] == Json::Text(REDACTED@)
            } else {
                guarded(fields[key], extra)
            },
        _ => true,
    }
}

/// No list and no object is nested in more than `levels` others, itself
/// counted.
pub open spec fn nested_within(value: Json, levels: int) -> bool
    decreases value,
{
    match value {
        Json::Array(items) => levels > 0 && forall|i: int|
            0 <= i < items.len() ==> nested_within(#[trigger] items[i], levels - 1),
        Json::Object(fields) => levels > 0 && forall|key: Seq<char>| #[trigger]
            fields.contains_key(key) ==> nested_within(fields[key], levels - 1),
        _ => true,
    }
}

/// At no depth there is a field that is named like a credential.
pub open spec fn innocent(value: Json, extra: Seq<Seq<char>>) -> bool
    decreases value,
{
    match value {
        Json::Array(items) => forall|i: int|
            0 <= i < items.len() ==> innocent(#[trigger] items[i], extra),
        Json::Object(fields) => forall|key: Seq<char>| #[trigger]
            fields.contains_key(key) ==> !secret_key(key, extra) && innocent(fields[key], extra),
        _ => true,
    }
}

/// No text but those below a field `user` holds a bearer token, a JWT or a card
/// number, and an email address in it begins only right behind a `[redacted]`.
pub open spec fn free_of_secrets(value: Json) -> bool
    decreases value,
{
    match value {
        Json::Text(text) => free_of(Pattern::Bearer, encode_utf8(text)) && free_of(
            Pattern::Jwt,
            encode_utf8(text),
        ) && free_of(Pattern::CardNumber, encode_utf8(text)) && emails_behind_marks(
            encode_utf8(text),
        ),
        Json::Array(items) => forall|i: int|
            0 <= i < items.len() ==> free_of_secrets(#[trigger] items[i]),
        Json::Object(fields) => forall|key: Seq<char>| #[trigger]
            fields.contains_key(key) && key != "user"@ ==> free_of_secrets(fields[key]),
        _ => true,
    }
}

/// Whatever is redacted, no credential is left under its name, at any depth.
pub proof fn law_credentials_are_redacted(
    value: Json,
    depth: int,
    text: bool,
    extra: Seq<Seq<char>>,
)
    ensures
        guarded(scrubbed(value, depth, text, extra), extra),
    decreases value,
{
    if depth < MAX_SCRUB_DEPTH {
        match value {
            Json::Array(items) => {
                let out = scrubbed(value, depth, text, extra)->Array_0;
                assert forall|i: int| 0 <= i < out.len() implies guarded(
                    #[trigger] out[i],
                    extra,
                ) by {
                    law_credentials_are_redacted(items[i], depth + 1, text, extra);
                }
            },
            Json::Object(fields) => {
                let out = scrubbed(value, depth, text, extra)->Object_0;
                assert forall|key: Seq<char>| #[trigger] out.contains_key(key) && !secret_key(
                    key,
                    extra,
                ) implies guarded(out[key], extra) by {
                    law_credentials_are_redacted(
                        fields[key],
                        depth + 1,
                        text && key != "user"@,
                        extra,
                    );
                }
            },
            _ => {},
        }
    }
}

/// What is redacted is nested no deeper than the limit.
pub proof fn law_nesting_is_bounded(value: Json, depth: int, text: bool, extra: Seq<Seq<char>>)
    requires
        0 <= depth <= MAX_SCRUB_DEPTH,
    ensures
        nested_within(scrubbed(value, depth, text, extra), MAX_SCRUB_DEPTH - depth),
    decreases value,
{
    if depth < MAX_SCRUB_DEPTH {
        match value {
            Json::Array(items) => {
                let out = scrubbed(value, depth, text, extra)->Array_0;
                assert forall|i: int| 0 <= i < out.len() implies nested_within(
                    #[trigger] out[i],
                    MAX_SCRUB_DEPTH - depth - 1,
                ) by {
                    law_nesting_is_bounded(items[i], depth + 1, text, extra);
                }
            },
            Json::Object(fields) => {
                let out = scrubbed(value, depth, text, extra)->Object_0;
                assert forall|key: Seq<char>| #[trigger]
                    out.contains_key(key) implies nested_within(
                    out[key],
                    MAX_SCRUB_DEPTH - depth - 1,
                ) by {
                    if !secret_key(key, extra) {
                        law_nesting_is_bounded(
                            fields[key],
                            depth + 1,
                            text && key != "user"@,
                            extra,
                        );
                    }
                }
            },
            _ => {},
        }
    }
}

/// No bearer token, no JWT and no card number is left in any text of a report but
/// those below a field `user`, and no email address but right behind a
/// `[redacted]`.
pub proof fn law_no_secret_text_leaves(value: Json, depth: int, extra: Seq<Seq<char>>)
    ensures
        free_of_secrets(scrubbed(value, depth, true, extra)),
    decreases value,
{
    lemma_literals_are_free();
    match value {
        Json::Text(inner) => {
            law_swept_text(inner);
        },
        Json::Array(items) => {
            if depth < MAX_SCRUB_DEPTH {
                let out = scrubbed(value, depth, true, extra)->Array_0;
                assert forall|i: int| 0 <= i < out.len() implies free_of_secrets(
                    #[trigger] out[i],
                ) by {
                    law_no_secret_text_leaves(items[i], depth + 1, extra);
                }
            }
        },
        Json::Object(fields) => {
            if depth < MAX_SCRUB_DEPTH {
                let out = scrubbed(value, depth, true, extra)->Object_0;
                assert forall|key: Seq<char>| #[trigger]
                    out.contains_key(key) && key != "user"@ implies free_of_secrets(out[key]) by {
                    if !secret_key(key, extra) {
                        law_no_secret_text_leaves(fields[key], depth + 1, extra);
                    }
                }
            }
        },
        _ => {},
    }
}

/// Below `user`, what holds no credential and is not nested too deep is
/// reported exactly as it was set.
pub proof fn law_identity_is_kept(value: Json, depth: int, extra: Seq<Seq<char>>)
    requires
        innocent(value, extra),
        nested_within(value, MAX_SCRUB_DEPTH - depth),
    ensures
        scrubbed(value, depth, false, extra) == value,
    decreases value,
{
    match value {
        Json::Array(items) => {
            let out = scrubbed(value, depth, false, extra)->Array_0;
            assert forall|i: int| 0 <= i < items.len() implies out[i] == #[trigger] items[i] by {
                law_identity_is_kept(items[i], depth + 1, extra);
            }
            assert(out =~= items);
        },
        Json::Object(fields) => {
            let out = scrubbed(value, depth, false, extra)->Object_0;
            assert forall|key: Seq<char>| #[trigger] fields.contains_key(key) implies out[key]
                == fields[key] by {
                law_identity_is_kept(fields[key], depth + 1, extra);
            }
            assert(out =~= fields);
        },
        _ => {},
    }
}

/// A field of `user` that is not named like a credential and holds a text is
/// reported exactly as it was set, and one that is comes out as `[redacted]`.
/// This holds unless `user` is itself a name to redact.
pub proof fn law_user_field(
    fields: Map<Seq<char>, Json>,
    user: Map<Seq<char>, Json>,
    name: Seq<char>,
    text: Seq<char>,
    extra: Seq<Seq<char>>,
)
    requires
        !secret_key("user"@, extra),
        fields.contains_key("user"@),
        fields["user"@] == Json::Object(user),
        user.contains_key(name),
        user[name] == Json::Text(text),
    ensures
        scrubbed(Json::Object(fields), 0, true, extra) matches Json::Object(left)
            && left.contains_key("user"@) && (left["user"@] matches Json::Object(kept)
            && kept.contains_key(name) && kept[name] == if secret_key(name, extra) {
            Json::Text(REDACTED@)
        } else {
            Json::Text(text)
        }),
{
    let kept = scrubbed(fields["user"@], 1, false, extra);
    assert(scrubbed(user[name], 2, false && name != "user"@, extra) == Json::Text(text));
    assert(kept is Object);
    assert(kept->Object_0.contains_key(name));
}

/// A text in another field of the report is swept.
pub proof fn law_field_is_swept(
    fields: Map<Seq<char>, Json>,
    name: Seq<char>,
    text: Seq<char>,
    extra: Seq<Seq<char>>,
)
    requires
        fields.contains_key(name),
        name != "user"@,
        !secret_key(name, extra),
        fields[name] == Json::Text(text),
    ensures
        scrubbed(Json::Object(fields), 0, true, extra) matches Json::Object(left)
            && left.contains_key(name) && left[name] == Json::Text(scrubbed_text(text)),
{
    assert(scrubbed(fields[name], 1, true, extra) == Json::Text(scrubbed_text(text)));
}

/// Above the limit, redaction keeps the shape of a report: every field under its
/// name, every item of a list, and what is neither text nor nested as it is.
pub proof fn law_shape_is_kept(value: Json, depth: int, text: bool, extra: Seq<Seq<char>>)
    requires
        depth < MAX_SCRUB_DEPTH,
    ensures
        match (value, scrubbed(value, depth, text, extra)) {
            (Json::Text(_), Json::Text(_)) => true,
            (Json::Array(items), Json::Array(kept)) => kept.len() == items.len(),
            (Json::Object(fields), Json::Object(kept)) => kept.dom() == fields.dom(),
            (other, kept) => kept == other,
        },
{
    if let Json::Object(fields) = value {
        let kept = scrubbed(value, depth, text, extra)->Object_0;
        assert(kept.dom() =~= fields.dom());
    }
}

/// To redact what was redacted changes nothing, where text is left alone.
pub proof fn law_redacted_once(value: Json, depth: int, extra: Seq<Seq<char>>)
    ensures
        ({
            let once = scrubbed(value, depth, false, extra);
            scrubbed(once, depth, false, extra) == once
        }),
    decreases value,
{
    if depth < MAX_SCRUB_DEPTH {
        match value {
            Json::Array(items) => {
                let once = scrubbed(value, depth, false, extra)->Array_0;
                let twice = scrubbed(Json::Array(once), depth, false, extra)->Array_0;
                assert forall|i: int| 0 <= i < once.len() implies twice[i] == #[trigger] once[i] by {
                    law_redacted_once(items[i], depth + 1, extra);
                }
                assert(twice =~= once);
            },
            Json::Object(fields) => {
                let once = scrubbed(value, depth, false, extra)->Object_0;
                let twice = scrubbed(Json::Object(once), depth, false, extra)->Object_0;
                assert forall|key: Seq<char>| #[trigger] once.contains_key(key) implies twice[key]
                    == once[key] by {
                    if !secret_key(key, extra) {
                        law_redacted_once(fields[key], depth + 1, extra);
                    }
                }
                assert(twice =~= once);
            },
            _ => {},
        }
    }
}

/// One step into a value.
pub ghost enum Step {
    /// Into the field of this name.
    Field(Seq<char>),
    /// Into the item at this place of a list.
    Item(int),
}

/// What stands in `value` at the end of `path`.
pub open spec fn reached(value: Json, path: Seq<Step>) -> Option<Json>
    decreases path.len(),
{
    if path.len() == 0 {
        Some(value)
    } else {
        match (path[0], value) {
            (Step::Field(name), Json::Object(fields)) => if fields.contains_key(name) {
                reached(fields[name], path.drop_first())
            } else {
                None
            },
            (Step::Item(i), Json::Array(items)) => if 0 <= i < items.len() {
                reached(items[i], path.drop_first())
            } else {
                None
            },
            _ => None,
        }
    }
}

/// `path` leads through no field that is named like a credential.
pub open spec fn avoids_credentials(path: Seq<Step>, extra: Seq<Seq<char>>) -> bool {
    forall|i: int|
        0 <= i < path.len() ==> ((#[trigger] path[i]) matches Step::Field(name) ==> !secret_key(
            name,
            extra,
        ))
}

/// `path` leads through a field `user`.
pub open spec fn leads_through_user(path: Seq<Step>) -> bool {
    exists|i: int| 0 <= i < path.len() && #[trigger] path[i] == Step::Field("user"@)
}

/// What redaction makes of what it meets `depth` steps down, where `swept` tells
/// whether text is swept there.
pub open spec fn handled(met: Json, depth: int, swept: bool, left: Json) -> bool {
    match met {
        Json::Text(text) => left == Json::Text(
            if swept {
                scrubbed_text(text)
            } else {
                text
            },
        ),
        Json::Array(items) => if depth >= 8 {
            left == Json::Text("[truncated]"@)
        } else {
            left matches Json::Array(kept) && kept.len() == items.len()
        },
        Json::Object(fields) => if depth >= 8 {
            left == Json::Text("[truncated]"@)
        } else {
            left matches Json::Object(kept) && kept.dom() == fields.dom()
        },
        _ => left == met,
    }
}

/// Whatever path of fields and list items leads to a place of a value, if no
/// field on it is named like a credential and it is no longer than the limit:
/// in what redaction leaves, the same path leads to the same place. A text is
/// there exactly as the sweep leaves it, or as it was below a field `user`; a
/// list has as many items and an object the same names, or is cut off at the
/// limit; all else is as it was.
pub proof fn law_every_place_is_handled(
    value: Json,
    depth: int,
    text: bool,
    extra: Seq<Seq<char>>,
    path: Seq<Step>,
)
    requires
        0 <= depth,
        path.len() == 0 || depth + path.len() <= 8,
        reached(value, path) is Some,
        avoids_credentials(path, extra),
    ensures
        reached(scrubbed(value, depth, text, extra), path) matches Some(left) && handled(
            reached(value, path)->Some_0,
            depth + path.len(),
            text && !leads_through_user(path),
            left,
        ),
    decreases path.len(),
{
    let out = scrubbed(value, depth, text, extra);
    if path.len() == 0 {
        if let Json::Object(fields) = value {
            if depth < 8 {
                assert(out->Object_0.dom() =~= fields.dom());
            }
        }
        assert(!leads_through_user(path));
    } else {
        let rest = path.drop_first();
        assert forall|i: int| 0 <= i < rest.len() implies ((#[trigger] rest[i]) matches Step::Field(
            name,
        ) ==> !secret_key(name, extra)) by {
            assert(rest[i] == path[i + 1]);
        }
        lemma_user_steps(path);
        match (path[0], value) {
            (Step::Field(name), Json::Object(fields)) => {
                assert(!secret_key(name, extra));
                law_every_place_is_handled(
                    fields[name],
                    depth + 1,
                    text && name != "user"@,
                    extra,
                    rest,
                );
                assert(out->Object_0[name] == scrubbed(
                    fields[name],
                    depth + 1,
                    text && name != "user"@,
                    extra,
                ));
            },
            (Step::Item(i), Json::Array(items)) => {
                law_every_place_is_handled(items[i], depth + 1, text, extra, rest);
                assert(out->Array_0[i] == scrubbed(items[i], depth + 1, text, extra));
            },
            _ => {},
        }
    }
}

proof fn lemma_user_steps(path: Seq<Step>)
    requires
        path.len() > 0,
    ensures
        leads_through_user(path) <==> path[0] == Step::Field("user"@) || leads_through_user(
            path.drop_first(),
        ),
{
    let rest = path.drop_first();
    if leads_through_user(rest) {
        let i = choose|i: int| 0 <= i < rest.len() && #[trigger] rest[i] == Step::Field("user"@);
        assert(path[i + 1] == Step::Field("user"@));
    }
    if leads_through_user(path) && path[0] != Step::Field("user"@) {
        let i = choose|i: int| 0 <= i < path.len() && #[trigger] path[i] == Step::Field("user"@);
        assert(rest[i - 1] == Step::Field("user"@));
    }
}

/// At the end of any such path, a field that is named like a credential holds
/// `[redacted]`, whatever it held.
pub proof fn law_every_credential_is_handled(
    value: Json,
    depth: int,
    text: bool,
    extra: Seq<Seq<char>>,
    path: Seq<Step>,
    name: Seq<char>,
)
    requires
        0 <= depth,
        depth + path.len() < 8,
        avoids_credentials(path, extra),
        secret_key(name, extra),
        reached(value, path.push(Step::Field(name))) is Some,
    ensures
        reached(scrubbed(value, depth, text, extra), path.push(Step::Field(name))) == Some(
            Json::Text("[redacted]"@),
        ),
    decreases path.len(),
{
    let out = scrubbed(value, depth, text, extra);
    let longer = path.push(Step::Field(name));
    if path.len() == 0 {
        let rest = longer.drop_first();
        assert(rest.len() == 0);
        assert(longer[0] == Step::Field(name));
        assert(out->Object_0[name] == Json::Text(REDACTED@));
        assert(reached(out->Object_0[name], rest) == Some(out->Object_0[name]));
    } else {
        let rest = path.drop_first();
        assert(longer.drop_first() =~= rest.push(Step::Field(name)));
        assert(longer[0] == path[0]);
        assert forall|i: int| 0 <= i < rest.len() implies ((#[trigger] rest[i]) matches Step::Field(
            name,
        ) ==> !secret_key(name, extra)) by {
            assert(rest[i] == path[i + 1]);
        }
        match (path[0], value) {
            (Step::Field(first), Json::Object(fields)) => {
                assert(!secret_key(first, extra));
                law_every_credential_is_handled(
                    fields[first],
                    depth + 1,
                    text && first != "user"@,
                    extra,
                    rest,
                    name,
                );
                assert(out->Object_0[first] == scrubbed(
                    fields[first],
                    depth + 1,
                    text && first != "user"@,
                    extra,
                ));
            },
            (Step::Item(i), Json::Array(items)) => {
                law_every_credential_is_handled(items[i], depth + 1, text, extra, rest, name);
                assert(out->Array_0[i] == scrubbed(items[i], depth + 1, text, extra));
            },
            _ => {},
        }
    }
}

/// No text holds anything that a sweep takes out.
pub open spec fn plain(value: Json) -> bool
    decreases value,
{
    match value {
        Json::Text(text) => free_of(Pattern::Bearer, encode_utf8(text)) && free_of(
            Pattern::Jwt,
            encode_utf8(text),
        ) && free_of(Pattern::CardNumber, encode_utf8(text)) && free_of(
            Pattern::Email,
            encode_utf8(text),
        ),
        Json::Array(items) => forall|i: int| 0 <= i < items.len() ==> plain(#[trigger] items[i]),
        Json::Object(fields) => forall|key: Seq<char>| #[trigger]
            fields.contains_key(key) ==> plain(fields[key]),
        _ => true,
    }
}

/// What holds no credential and no text to sweep, and is not nested too deep,
/// is reported exactly as it was set.
pub proof fn law_plain_values_are_kept(value: Json, depth: int, text: bool, extra: Seq<Seq<char>>)
    requires
        innocent(value, extra),
        plain(value),
        nested_within(value, 8 - depth),
    ensures
        scrubbed(value, depth, text, extra) == value,
    decreases value,
{
    match value {
        Json::Text(inner) => {
            law_clean_text_is_kept(inner);
        },
        Json::Array(items) => {
            let out = scrubbed(value, depth, text, extra)->Array_0;
            assert forall|i: int| 0 <= i < items.len() implies out[i] == #[trigger] items[i] by {
                law_plain_values_are_kept(items[i], depth + 1, text, extra);
            }
            assert(out =~= items);
        },
        Json::Object(fields) => {
            let out = scrubbed(value, depth, text, extra)->Object_0;
            assert forall|key: Seq<char>| #[trigger] fields.contains_key(key) implies out[key]
                == fields[key] by {
                law_plain_values_are_kept(fields[key], depth + 1, text && key != "user"@, extra);
            }
            assert(out =~= fields);
        },
        _ => {},
    }
}

} // verus!
