//! Which keys are redacted, however they are spelled.
use crate::ascii::{alphanumeric, lower, lowercase};
use crate::keys::{lemma_plain_name, names_any, normalized, occurs_in, scrub_keys, secret_key, texts};
use crate::monitor::{slices, with_keys};
use vstd::prelude::*;

verus! {

/// `normalized` goes through a key from left to right.
proof fn lemma_normalized_concat(left: Seq<char>, right: Seq<char>)
    ensures
        normalized(left + right) == normalized(left) + normalized(right),
{
    let keep = |c: char| alphanumeric(c);
    Seq::filter_distributes_over_add(left, right, keep);
    assert(normalized(left + right) =~= normalized(left) + normalized(right));
}

/// A character that is no ASCII letter and no digit makes no difference to a
/// key.
pub proof fn law_separators_are_ignored(
    left: Seq<char>,
    separator: char,
    right: Seq<char>,
    extra: Seq<Seq<char>>,
)
    requires
        !alphanumeric(separator),
    ensures
        secret_key(left.push(separator) + right, extra) == secret_key(left + right, extra),
{
    reveal(Seq::filter);
    assert(left.push(separator).drop_last() =~= left);
    assert(normalized(left.push(separator)) == normalized(left));
    lemma_normalized_concat(left.push(separator), right);
    lemma_normalized_concat(left, right);
}

/// Case makes no difference to a key.
pub proof fn law_case_is_ignored(key: Seq<char>, other: Seq<char>, extra: Seq<Seq<char>>)
    requires
        lowercase(key) == lowercase(other),
    ensures
        secret_key(key, extra) == secret_key(other, extra),
{
    lemma_normalized_lowercase(key);
    lemma_normalized_lowercase(other);
}

proof fn lemma_normalized_lowercase(key: Seq<char>)
    ensures
        normalized(lowercase(key)) == normalized(key),
    decreases key.len(),
{
    reveal(Seq::filter);
    if key.len() > 0 {
        lemma_normalized_lowercase(key.drop_last());
        assert(lowercase(key).drop_last() =~= lowercase(key.drop_last()));
        let last = key.last();
        assert(lowercase(key).last() == lower(last));
        assert(alphanumeric(lower(last)) == alphanumeric(last));
        assert(lower(lower(last)) == lower(last));
        let shorter = key.drop_last();
        let before = normalized(shorter);
        if alphanumeric(last) {
            assert(normalized(key) =~= before.push(lower(last)));
            assert(normalized(lowercase(key)) =~= normalized(lowercase(shorter)).push(lower(last)));
        } else {
            assert(normalized(key) =~= before);
            assert(normalized(lowercase(key)) =~= normalized(lowercase(shorter)));
        }
    }
}

proof fn lemma_occurs_in_longer(
    part: Seq<char>,
    left: Seq<char>,
    text: Seq<char>,
    right: Seq<char>,
)
    requires
        occurs_in(part, text),
    ensures
        occurs_in(part, left + text + right),
{
    let i = choose|i: int|
        0 <= i <= text.len() - part.len() && #[trigger] text.subrange(i, i + part.len()) == part;
    let j = left.len() + i;
    assert((left + text + right).subrange(j, j + part.len()) =~= part);
}

/// The test is a substring one: what stands around a secret key does not make
/// it less of one.
pub proof fn law_longer_keys_are_secret(
    left: Seq<char>,
    key: Seq<char>,
    right: Seq<char>,
    extra: Seq<Seq<char>>,
)
    requires
        secret_key(key, extra),
    ensures
        secret_key(left + key + right, extra),
{
    let name = normalized(key);
    let longer = normalized(left) + name + normalized(right);
    lemma_normalized_concat(left, key);
    lemma_normalized_concat(left + key, right);
    assert(normalized(left + key + right) == longer);
    if names_any(name, scrub_keys()) {
        let i = choose|i: int|
            0 <= i < scrub_keys().len() && occurs_in(#[trigger] scrub_keys()[i], name);
        lemma_occurs_in_longer(scrub_keys()[i], normalized(left), name, normalized(right));
    } else {
        let i = choose|i: int| 0 <= i < extra.len() && occurs_in(#[trigger] extra[i], name);
        lemma_occurs_in_longer(extra[i], normalized(left), name, normalized(right));
    }
}

/// A key that spells a name on one of the lists is secret.
proof fn lemma_named_is_secret(key: Seq<char>, names: Seq<Seq<char>>, i: int)
    requires
        0 <= i < names.len(),
        normalized(key) == names[i],
    ensures
        names_any(normalized(key), names),
{
    let name = names[i];
    let start: int = 0;
    assert(name.subrange(start, start + name.len()) =~= name);
    assert(occurs_in(names[i], name));
}

/// Some of `fields` occurs in `key`, both normalized.
pub open spec fn names_field(key: Seq<char>, fields: Seq<Seq<char>>) -> bool {
    exists|i: int|
        0 <= i < fields.len() && normalized(#[trigger] fields[i]).len() > 0 && occurs_in(
            normalized(fields[i]),
            normalized(key),
        )
}

/// When names are added, the keys that were redacted stay so, every key in which
/// an added name occurs is redacted from then on, an added name itself among
/// them, and no other key is.
pub proof fn law_added_names(names: Seq<Seq<char>>, fields: Seq<Seq<char>>, key: Seq<char>)
    ensures
        secret_key(key, with_keys(names, fields)) <==> secret_key(key, names) || names_field(
            key,
            fields,
        ),
        fields.contains(key) && normalized(key).len() > 0 ==> names_field(key, fields),
{
    lemma_with_keys(names, fields);
    let all = with_keys(names, fields);
    let name = normalized(key);
    if names_any(name, names) {
        let i = choose|i: int| 0 <= i < names.len() && occurs_in(#[trigger] names[i], name);
        assert(all[i] == names[i]);
        assert(occurs_in(all[i], name));
    }
    if names_field(key, fields) {
        let i = choose|i: int|
            0 <= i < fields.len() && normalized(#[trigger] fields[i]).len() > 0 && occurs_in(
                normalized(fields[i]),
                name,
            );
        assert(all.contains(normalized(fields[i])));
        let j = choose|j: int| 0 <= j < all.len() && all[j] == normalized(fields[i]);
        assert(occurs_in(all[j], name));
    }
    if fields.contains(key) && name.len() > 0 {
        let i = choose|i: int| 0 <= i < fields.len() && fields[i] == key;
        let start: int = 0;
        assert(name.subrange(start, start + name.len()) =~= name);
        assert(normalized(fields[i]) == name);
    }
    if names_any(name, all) && !names_any(name, names) {
        let i = choose|i: int| 0 <= i < all.len() && occurs_in(#[trigger] all[i], name);
        if i < names.len() {
            assert(all[i] == names[i]);
        }
    }
}

/// The list starts with the names that were there, holds every added one, and
/// nothing else.
proof fn lemma_with_keys(names: Seq<Seq<char>>, fields: Seq<Seq<char>>)
    ensures
        ({
            let all = with_keys(names, fields);
            &&& names.len() <= all.len()
            &&& forall|i: int| 0 <= i < names.len() ==> #[trigger] all[i] == names[i]
            &&& forall|i: int|
                0 <= i < fields.len() && normalized(#[trigger] fields[i]).len() > 0
                    ==> all.contains(normalized(fields[i]))
            &&& forall|i: int|
                names.len() <= i < all.len() ==> exists|j: int|
                    0 <= j < fields.len() && normalized(#[trigger] fields[j]).len() > 0
                        && normalized(fields[j]) == #[trigger] all[i]
        }),
    decreases fields.len(),
{
    if fields.len() > 0 {
        let last = fields.len() - 1;
        let rest = fields.drop_last();
        let before = with_keys(names, rest);
        let all = with_keys(names, fields);
        let key = normalized(fields[last]);
        lemma_with_keys(names, rest);
        assert forall|i: int|
            0 <= i < fields.len() && normalized(#[trigger] fields[i]).len()
                > 0 implies all.contains(normalized(fields[i])) by {
            if i < last {
                assert(before.contains(normalized(rest[i])));
                let j = choose|j: int| 0 <= j < before.len() && before[j] == normalized(rest[i]);
                assert(all[j] == before[j]);
            } else if !before.contains(key) {
                assert(all[all.len() - 1] == key);
            }
        }
        assert forall|i: int| names.len() <= i < all.len() implies exists|j: int|
            0 <= j < fields.len() && normalized(#[trigger] fields[j]).len() > 0 && normalized(
                fields[j],
            ) == #[trigger] all[i] by {
            if i < before.len() {
                assert(all[i] == before[i]);
                let j = choose|j: int|
                    0 <= j < rest.len() && normalized(#[trigger] rest[j]).len() > 0 && normalized(
                        rest[j],
                    ) == before[i];
                assert(fields[j] == rest[j]);
            } else {
                assert(normalized(fields[last]) == all[i]);
            }
        }
    }
}

/// To add names again, in the same or in another spelling, changes nothing.
pub proof fn law_names_are_added_once(
    names: Seq<Seq<char>>,
    fields: Seq<Seq<char>>,
    again: Seq<Seq<char>>,
)
    requires
        forall|j: int|
            0 <= j < again.len() ==> normalized(#[trigger] again[j]).len() == 0 || spelled_in(
                again[j],
                fields,
            ),
    ensures
        with_keys(with_keys(names, fields), again) == with_keys(names, fields),
{
    lemma_with_keys(names, fields);
    let all = with_keys(names, fields);
    assert forall|j: int|
        0 <= j < again.len() && normalized(#[trigger] again[j]).len() > 0 implies all.contains(
        normalized(again[j]),
    ) by {
        let i = choose|i: int|
            0 <= i < fields.len() && normalized(#[trigger] fields[i]) == normalized(again[j]);
        assert(all.contains(normalized(fields[i])));
    }
    lemma_known_names(all, again);
}

/// One of `fields` is `name` in this or in another spelling.
pub open spec fn spelled_in(name: Seq<char>, fields: Seq<Seq<char>>) -> bool {
    exists|i: int| 0 <= i < fields.len() && normalized(#[trigger] fields[i]) == normalized(name)
}

proof fn lemma_known_names(names: Seq<Seq<char>>, fields: Seq<Seq<char>>)
    requires
        forall|i: int|
            0 <= i < fields.len() && normalized(#[trigger] fields[i]).len() > 0 ==> names.contains(
                normalized(fields[i]),
            ),
    ensures
        with_keys(names, fields) == names,
    decreases fields.len(),
{
    if fields.len() > 0 {
        assert forall|i: int|
            0 <= i < fields.drop_last().len() && normalized(
                #[trigger] fields.drop_last()[i],
            ).len() > 0 implies names.contains(normalized(fields.drop_last()[i])) by {
            assert(fields.drop_last()[i] == fields[i]);
        }
        lemma_known_names(names, fields.drop_last());
        assert(fields.last() == fields[fields.len() - 1]);
    }
}

/// Each name of the built-in list is redacted, whatever else was added.
pub proof fn law_builtin_names(i: int, extra: Seq<Seq<char>>)
    requires
        0 <= i < scrub_keys().len(),
    ensures
        secret_key(scrub_keys()[i], extra),
{
    let name = scrub_keys()[i];
    reveal_strlit("password");
    reveal_strlit("passwd");
    reveal_strlit("passphrase");
    reveal_strlit("secret");
    reveal_strlit("token");
    reveal_strlit("apikey");
    reveal_strlit("authorization");
    reveal_strlit("credential");
    reveal_strlit("cookie");
    reveal_strlit("session");
    reveal_strlit("privatekey");
    reveal_strlit("accesskey");
    reveal_strlit("cardnumber");
    reveal_strlit("creditcard");
    reveal_strlit("cvv");
    reveal_strlit("ssn");
    assert(forall|k: int| 0 <= k < name.len() ==> 'a' <= #[trigger] name[k] <= 'z');
    lemma_plain_name(name);
    lemma_named_is_secret(name, scrub_keys(), i);
}

/// A key is normalized part by part: an ASCII letter or digit stands for its
/// lower-case form, and any other character for nothing.
pub proof fn law_normalized_by_character(left: Seq<char>, c: char, right: Seq<char>)
    ensures
        normalized(left.push(c) + right) == normalized(left) + (if 'A' <= c <= 'Z' {
            seq![(c as u32 + 32) as char]
        } else if 'a' <= c <= 'z' || '0' <= c <= '9' {
            seq![c]
        } else {
            seq![]
        }) + normalized(right),
        normalized(seq![]) == Seq::<char>::empty(),
{
    reveal(Seq::filter);
    lemma_normalized_concat(left.push(c), right);
    assert(left.push(c).drop_last() =~= left);
    let own = if 'A' <= c <= 'Z' {
        seq![(c as u32 + 32) as char]
    } else if 'a' <= c <= 'z' || '0' <= c <= '9' {
        seq![c]
    } else {
        seq![]
    };
    assert(normalized(left.push(c)) =~= normalized(left) + own);
    assert(normalized(seq![]) =~= Seq::<char>::empty());
}

/// The names that a key is redacted for.
pub open spec fn credential_names() -> Set<Seq<char>> {
    set![
        "password"@,
        "passwd"@,
        "passphrase"@,
        "secret"@,
        "token"@,
        "apikey"@,
        "authorization"@,
        "credential"@,
        "cookie"@,
        "session"@,
        "privatekey"@,
        "accesskey"@,
        "cardnumber"@,
        "creditcard"@,
        "cvv"@,
        "ssn"@,
    ]
}

/// `text` is `name` with something in front and something behind.
pub open spec fn stands_between(
    left: Seq<char>,
    name: Seq<char>,
    right: Seq<char>,
    text: Seq<char>,
) -> bool {
    text == left + name + right
}

proof fn lemma_occurs_between(name: Seq<char>, text: Seq<char>)
    ensures
        occurs_in(name, text) <==> exists|left: Seq<char>, right: Seq<char>| #[trigger]
            stands_between(left, name, right, text),
{
    if occurs_in(name, text) {
        let i = choose|i: int|
            0 <= i <= text.len() - name.len() && #[trigger] text.subrange(i, i + name.len())
                == name;
        let left = text.take(i);
        let right = text.skip(i + name.len());
        assert(left + text.subrange(i, i + name.len()) + right =~= text);
        assert(stands_between(left, name, right, text));
    }
    if exists|left: Seq<char>, right: Seq<char>| #[trigger] stands_between(left, name, right, text) {
        let (left, right) = choose|left: Seq<char>, right: Seq<char>| #[trigger]
            stands_between(left, name, right, text);
        let i = left.len() as int;
        assert(text.subrange(i, i + name.len()) =~= name);
    }
}

/// A key is redacted exactly if what is left of it when it is normalized is
/// something, and one of the credential names or of the added ones stands in it.
pub proof fn law_which_keys_are_secret(key: Seq<char>, extra: Seq<Seq<char>>)
    ensures
        secret_key(key, extra) <==> normalized(key).len() > 0 && exists|
            name: Seq<char>,
            left: Seq<char>,
            right: Seq<char>,
        |
            (credential_names().contains(name) || extra.contains(name))
                && #[trigger] stands_between(left, name, right, normalized(key)),
{
    let text = normalized(key);
    assert forall|name: Seq<char>| credential_names().contains(
        name,
    ) <==> #[trigger] scrub_keys().contains(name) by {
        assert(scrub_keys()[0] == "password"@);
        assert(scrub_keys()[1] == "passwd"@);
        assert(scrub_keys()[2] == "passphrase"@);
        assert(scrub_keys()[3] == "secret"@);
        assert(scrub_keys()[4] == "token"@);
        assert(scrub_keys()[5] == "apikey"@);
        assert(scrub_keys()[6] == "authorization"@);
        assert(scrub_keys()[7] == "credential"@);
        assert(scrub_keys()[8] == "cookie"@);
        assert(scrub_keys()[9] == "session"@);
        assert(scrub_keys()[10] == "privatekey"@);
        assert(scrub_keys()[11] == "accesskey"@);
        assert(scrub_keys()[12] == "cardnumber"@);
        assert(scrub_keys()[13] == "creditcard"@);
        assert(scrub_keys()[14] == "cvv"@);
        assert(scrub_keys()[15] == "ssn"@);
    }
    if secret_key(key, extra) {
        let names = if names_any(text, scrub_keys()) {
            scrub_keys()
        } else {
            extra
        };
        let i = choose|i: int| 0 <= i < names.len() && occurs_in(#[trigger] names[i], text);
        lemma_occurs_between(names[i], text);
        assert(names.contains(names[i]));
        let (left, right) = choose|left: Seq<char>, right: Seq<char>| #[trigger]
            stands_between(left, names[i], right, text);
        assert(stands_between(left, names[i], right, text));
    }
    if exists|name: Seq<char>, left: Seq<char>, right: Seq<char>|
        (credential_names().contains(name) || extra.contains(name)) && #[trigger] stands_between(
            left,
            name,
            right,
            text,
        ) {
        let (name, left, right) = choose|name: Seq<char>, left: Seq<char>, right: Seq<char>|
            (credential_names().contains(name) || extra.contains(name))
                && #[trigger] stands_between(left, name, right, text);
        lemma_occurs_between(name, text);
        if credential_names().contains(name) {
            assert(scrub_keys().contains(name));
            let i = choose|i: int| 0 <= i < scrub_keys().len() && scrub_keys()[i] == name;
            assert(occurs_in(scrub_keys()[i], text));
        } else {
            let i = choose|i: int| 0 <= i < extra.len() && extra[i] == name;
            assert(occurs_in(extra[i], text));
        }
    }
}

/// The names are the texts of the strings that hold them, one for one.
pub proof fn law_texts(strings: Seq<String>, given: Seq<&str>)
    ensures
        texts(strings).len() == strings.len(),
        forall|i: int| 0 <= i < strings.len() ==> #[trigger] texts(strings)[i] == strings[i]@,
        slices(given).len() == given.len(),
        forall|i: int| 0 <= i < given.len() ==> #[trigger] slices(given)[i] == given[i]@,
{
}

/// The names that were there stay in front, in their order, and behind them
/// stands each name that was added, once.
pub proof fn law_names_in_order(names: Seq<Seq<char>>, fields: Seq<Seq<char>>)
    ensures
        names.is_prefix_of(with_keys(names, fields)),
        names.no_duplicates() ==> with_keys(names, fields).no_duplicates(),
        forall|i: int|
            0 <= i < fields.len() && normalized(#[trigger] fields[i]).len() > 0 ==> with_keys(
                names,
                fields,
            ).contains(normalized(fields[i])),
{
    lemma_with_keys(names, fields);
    let all = with_keys(names, fields);
    assert(all.subrange(0, names.len() as int) =~= names);
    lemma_no_name_twice(names, fields);
}

proof fn lemma_no_name_twice(names: Seq<Seq<char>>, fields: Seq<Seq<char>>)
    ensures
        names.no_duplicates() ==> with_keys(names, fields).no_duplicates(),
    decreases fields.len(),
{
    if fields.len() > 0 {
        lemma_no_name_twice(names, fields.drop_last());
    }
}

} // verus!
