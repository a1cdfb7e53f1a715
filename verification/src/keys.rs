//! Which field names hold credentials.
use crate::ascii::{alphanumeric, is_alphanumeric, lower, lowercase, to_lower};
use vstd::prelude::*;
use vstd::utf8::*;

verus! {

/// `key` without its separators and in lower case.
pub open spec fn normalized(key: Seq<char>) -> Seq<char> {
    lowercase(key.filter(|c: char| alphanumeric(c)))
}

/// `part` occurs in `text`.
pub open spec fn occurs_in(part: Seq<char>, text: Seq<char>) -> bool {
    exists|i: int|
        0 <= i <= text.len() - part.len() && #[trigger] text.subrange(i, i + part.len()) == part
}

/// Keys whose value never leaves the process. Compared against the key with
/// case and separators removed, so `api_key`, `apiKey` and `API-KEY` all match
/// `apikey`, and the test is a substring one, so `stripe_secret_key` matches too.
pub open spec fn scrub_keys() -> Seq<Seq<char>> {
    seq![
        "password"@,
        "passwd"@,
        "passphrase"@,
        "secret"@,
        "token"@,
        "apikey"@,
        "authorization"@,
        "credential"@,
        "cookie"@,
        "session"@,
        "privatekey"@,
        "accesskey"@,
        "cardnumber"@,
        "creditcard"@,
        "cvv"@,
        "ssn"@,
    ]
}

/// The texts of a list of strings.
pub open spec fn texts(strings: Seq<String>) -> Seq<Seq<char>> {
    strings.map_values(|s: String| s@)
}

/// One of `candidates` occurs in `text`.
pub open spec fn names_any(text: Seq<char>, candidates: Seq<Seq<char>>) -> bool {
    exists|i: int| 0 <= i < candidates.len() && occurs_in(#[trigger] candidates[i], text)
}

/// Whether the value under `key` is a credential, where `extra` holds the key
/// names that were added to the built-in list.
pub open spec fn secret_key(key: Seq<char>, extra: Seq<Seq<char>>) -> bool {
    let name = normalized(key);
    name.len() > 0 && (names_any(name, scrub_keys()) || names_any(name, extra))
}

/// A normalized key is ASCII.
pub proof fn lemma_normalized_chars(key: Seq<char>)
    ensures
        forall|i: int|
            0 <= i < normalized(key).len() ==> {
                let c = #[trigger] normalized(key)[i];
                alphanumeric(c) && lower(c) == c
            },
        is_ascii_chars(normalized(key)),
{
    let kept = key.filter(|c: char| alphanumeric(c));
    assert forall|i: int| 0 <= i < normalized(key).len() implies {
        let c = #[trigger] normalized(key)[i];
        alphanumeric(c) && lower(c) == c
    } by {
        key.lemma_filter_pred(|c: char| alphanumeric(c), i);
        assert(normalized(key)[i] == lower(kept[i]));
    }
}

/// Normalizing twice is normalizing once.
pub proof fn lemma_normalized_idempotent(key: Seq<char>)
    ensures
        normalized(normalized(key)) == normalized(key),
{
    lemma_normalized_chars(key);
    lemma_plain_name(normalized(key));
}

/// A name in lower-case letters and digits is normalized.
pub proof fn lemma_plain_name(name: Seq<char>)
    requires
        forall|i: int|
            0 <= i < name.len() ==> alphanumeric(#[trigger] name[i]) && lower(name[i]) == name[i],
    ensures
        normalized(name) == name,
{
    lemma_filter_all(name);
    assert(lowercase(name) =~= name);
}

/// Nothing is left out of a text of letters and digits.
proof fn lemma_filter_all(text: Seq<char>)
    requires
        forall|i: int| 0 <= i < text.len() ==> alphanumeric(#[trigger] text[i]),
    ensures
        text.filter(|c: char| alphanumeric(c)) == text,
    decreases text.len(),
{
    reveal(Seq::filter);
    if text.len() > 0 {
        assert(alphanumeric(text[text.len() - 1]));
        lemma_filter_all(text.drop_last());
        assert(text.drop_last().push(text.last()) == text);
    }
}

pub fn normalize_key(key: &str) -> (name: String)
    ensures
        name@ == normalized(key@),
{
    let mut name: String = String::new();
    for c in chars: key.chars()
        invariant
            chars.seq() == key@,
            name@ == normalized(key@.take(chars.index() as int)),
    {
        let ghost read = key@.take(chars.index() + 1);
        assert(read.drop_last() == key@.take(chars.index() as int));
        assert(read.last() == c);
        reveal(Seq::filter);
        if is_alphanumeric(c) {
            name.push(to_lower(c));
        }
        assert(name@ =~= normalized(read));
    }
    assert(key@.take(key@.len() as int) == key@);
    name
}

/// Whether `part` occurs in the ASCII `text`.
fn has_part(text: &str, part: &str) -> (result: bool)
    requires
        text.is_ascii(),
    ensures
        result == occurs_in(part@, text@),
{
    if !part.is_ascii() {
        proof {
            if occurs_in(part@, text@) {
                let i = choose|i: int|
                    0 <= i <= text@.len() - part@.len() && #[trigger] text@.subrange(
                        i,
                        i + part@.len(),
                    ) == part@;
                assert forall|k: int| 0 <= k < part@.len() implies '\0' <= #[trigger] part@[k]
                    <= '\u{7f}' by {
                    assert(part@[k] == text@[i + k]);
                }
            }
        }
        return false;
    }
    let hay: &[u8] = text.as_bytes();
    let needle: &[u8] = part.as_bytes();
    proof {
        is_ascii_chars_encode_utf8(text@);
        is_ascii_chars_encode_utf8(part@);
    }
    if hay.len() < needle.len() {
        return false;
    }
    let last: usize = hay.len() - needle.len();
    let mut start: usize = 0;
    loop
        invariant
            start <= last,
            hay@.len() == text@.len() == last + needle@.len(),
            needle@.len() == part@.len(),
            forall|k: int| 0 <= k < text@.len() ==> hay@[k] as char == #[trigger] text@[k],
            forall|k: int| 0 <= k < part@.len() ==> needle@[k] as char == #[trigger] part@[k],
            forall|i: int|
                0 <= i < start ==> #[trigger] text@.subrange(i, i + part@.len()) != part@,
        decreases last - start,
    {
        if same_bytes_at(hay, start, needle) {
            assert(text@.subrange(start as int, start + part@.len()) =~= part@) by {
                assert forall|k: int| 0 <= k < part@.len() implies text@[start + k] == part@[k] by {
                    assert(hay@[start + k] == needle@[k]);
                }
            }
            return true;
        }
        assert(text@.subrange(start as int, start + part@.len()) != part@) by {
            let k = choose|k: int| 0 <= k < needle@.len() && #[trigger] needle@[k] != hay@[start + k];
            assert(hay@[start + k] as char == text@[start + k]);
            assert(needle@[k] as char == part@[k]);
            assert(text@.subrange(start as int, start + part@.len())[k] == text@[start + k]);
        }
        if start == last {
            return false;
        }
        start += 1;
    }
}

/// Whether `needle` stands in `hay` at `start`.
fn same_bytes_at(hay: &[u8], start: usize, needle: &[u8]) -> (result: bool)
    requires
        start + needle@.len() <= hay@.len(),
    ensures
        result == forall|k: int| 0 <= k < needle@.len() ==> #[trigger] needle@[k] == hay@[start + k],
{
    let length: usize = hay.len();
    let mut k: usize = 0;
    while k < needle.len()
        invariant
            k <= needle@.len(),
            start + needle@.len() <= length == hay@.len(),
            forall|j: int| 0 <= j < k ==> #[trigger] needle@[j] == hay@[start + j],
        decreases needle@.len() - k,
    {
        if needle[k] != hay[start + k] {
            assert(needle@[k as int] != hay@[start + k as int]);
            return false;
        }
        k += 1;
    }
    true
}

/// Whether one of the built-in key names occurs in `name`.
fn names_builtin(name: &str) -> (result: bool)
    requires
        name.is_ascii(),
    ensures
        result == names_any(name@, scrub_keys()),
{
    let candidates: [&str; 16] = [
        "password",
        "passwd",
        "passphrase",
        "secret",
        "token",
        "apikey",
        "authorization",
        "credential",
        "cookie",
        "session",
        "privatekey",
        "accesskey",
        "cardnumber",
        "creditcard",
        "cvv",
        "ssn",
    ];
    let mut i: usize = 0;
    while i < 16
        invariant
            name.is_ascii(),
            i <= 16,
            candidates@.len() == 16,
            candidates@.map_values(|s: &str| s@) =~= scrub_keys(),
            forall|k: int| 0 <= k < i ==> !occurs_in(#[trigger] scrub_keys()[k], name@),
        decreases 16 - i,
    {
        assert(candidates@.map_values(|s: &str| s@)[i as int] == candidates@[i as int]@);
        if has_part(name, candidates[i]) {
            assert(occurs_in(scrub_keys()[i as int], name@));
            return true;
        }
        i += 1;
    }
    false
}

/// Whether the value under `key` is a credential.
pub fn is_secret_key(key: &str, extra: &Vec<String>) -> (result: bool)
    ensures
        result == secret_key(key@, texts(extra@)),
{
    let name: String = normalize_key(key);
    proof {
        lemma_normalized_chars(key@);
    }
    if name.as_str().is_empty() {
        return false;
    }
    if names_builtin(name.as_str()) {
        return true;
    }
    let mut i: usize = 0;
    while i < extra.len()
        invariant
            i <= extra@.len(),
            name@ == normalized(key@),
            name@.len() > 0,
            name.is_ascii(),
            forall|k: int| 0 <= k < i ==> !occurs_in(#[trigger] texts(extra@)[k], name@),
        decreases extra@.len() - i,
    {
        if has_part(name.as_str(), extra[i].as_str()) {
            assert(occurs_in(texts(extra@)[i as int], name@));
            return true;
        }
        i += 1;
    }
    false
}

} // verus!
