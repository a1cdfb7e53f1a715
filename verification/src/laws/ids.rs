//! What identifiers and keys look like.
use crate::ids::{
    event_id_for, fresh_id, fresh_nonzero_id, header_safe, hex_id, hex_text, key_safe,
    lemma_hex_text, nonzero, only_zeros,
};
use vstd::prelude::*;
use vstd::utf8::encode_utf8;

verus! {

/// A byte is written with two hexadecimal digits, the higher one first.
pub proof fn law_two_digits_for_a_byte(bytes: Seq<u8>)
    ensures
        hex_text(bytes).len() == 2 * bytes.len(),
        forall|i: int|
            0 <= i < bytes.len() ==> {
                let byte = #[trigger] bytes[i] as int;
                &&& hex_text(bytes)[2 * i] == "0123456789abcdef"@[byte / 16]
                &&& hex_text(bytes)[2 * i + 1] == "0123456789abcdef"@[byte % 16]
            },
    decreases bytes.len(),
{
    reveal_strlit("0123456789abcdef");
    if bytes.len() > 0 {
        let rest = bytes.drop_last();
        law_two_digits_for_a_byte(rest);
        let last = bytes[bytes.len() - 1] as int;
        lemma_hex_char(last / 16);
        lemma_hex_char(last % 16);
        assert forall|i: int| 0 <= i < bytes.len() implies {
            let byte = #[trigger] bytes[i] as int;
            &&& hex_text(bytes)[2 * i] == "0123456789abcdef"@[byte / 16]
            &&& hex_text(bytes)[2 * i + 1] == "0123456789abcdef"@[byte % 16]
        } by {
            if i < rest.len() {
                assert(rest[i] == bytes[i]);
                assert(hex_text(bytes)[2 * i] == hex_text(rest)[2 * i]);
                assert(hex_text(bytes)[2 * i + 1] == hex_text(rest)[2 * i + 1]);
            }
        }
    }
}

proof fn lemma_hex_char(value: int)
    requires
        0 <= value < 16,
    ensures
        crate::ids::hex_char(value) == "0123456789abcdef"@[value],
{
    reveal_strlit("0123456789abcdef");
    let digits = "0123456789abcdef"@;
    assert(digits[0] == '0' && digits[1] == '1' && digits[2] == '2' && digits[3] == '3');
    assert(digits[4] == '4' && digits[5] == '5' && digits[6] == '6' && digits[7] == '7');
    assert(digits[8] == '8' && digits[9] == '9' && digits[10] == 'a' && digits[11] == 'b');
    assert(digits[12] == 'c' && digits[13] == 'd' && digits[14] == 'e' && digits[15] == 'f');
    assert(value == 0 || value == 1 || value == 2 || value == 3 || value == 4 || value == 5 || value
        == 6 || value == 7 || value == 8 || value == 9 || value == 10 || value == 11 || value == 12
        || value == 13 || value == 14 || value == 15);
}

/// An id of `bytes` bytes has two digits for each, and nothing but the digits
/// `0` to `9` and `a` to `f`.
pub proof fn law_id_digits(text: Seq<char>, bytes: int)
    ensures
        hex_id(text, bytes) <==> text.len() == 2 * bytes && forall|i: int|
            0 <= i < text.len() ==> '0' <= #[trigger] text[i] <= '9' || 'a' <= text[i] <= 'f',
{
    if text.len() == 2 * bytes && forall|i: int|
        0 <= i < text.len() ==> '0' <= #[trigger] text[i] <= '9' || 'a' <= text[i] <= 'f' {
        assert forall|i: int| 0 <= i < text.len() implies crate::ascii::lower_hex_digit(
            #[trigger] text[i],
        ) by {
            assert('0' <= text[i] <= '9' || 'a' <= text[i] <= 'f');
        }
    }
    if hex_id(text, bytes) {
        assert forall|i: int| 0 <= i < text.len() implies '0' <= #[trigger] text[i] <= '9' || 'a'
            <= text[i] <= 'f' by {
            assert(crate::ascii::lower_hex_digit(text[i]));
        }
    }
}

/// Drawn bytes are kept as they are unless all of them are zero; then the last
/// one becomes a one.
pub proof fn law_only_zeros_are_changed(bytes: Seq<u8>)
    ensures
        (exists|i: int| 0 <= i < bytes.len() && #[trigger] bytes[i] != 0) ==> nonzero(bytes)
            == bytes,
        bytes.len() > 0 && (forall|i: int| 0 <= i < bytes.len() ==> #[trigger] bytes[i] == 0)
            ==> nonzero(bytes) == bytes.drop_last().push(1),
        nonzero(bytes).len() == bytes.len(),
        bytes.len() > 0 ==> exists|i: int|
            0 <= i < bytes.len() && #[trigger] nonzero(bytes)[i] != 0,
{
    if bytes.len() > 0 && forall|i: int| 0 <= i < bytes.len() ==> #[trigger] bytes[i] == 0 {
        assert(nonzero(bytes) =~= bytes.drop_last().push(1));
    }
    if bytes.len() > 0 && nonzero(bytes) != bytes {
        assert(nonzero(bytes)[bytes.len() - 1] == 1);
    }
    if bytes.len() > 0 && nonzero(bytes) == bytes {
        if forall|i: int| 0 <= i < bytes.len() ==> #[trigger] bytes[i] == 0 {
            assert(nonzero(bytes)[bytes.len() - 1] == 1);
            assert(bytes[bytes.len() - 1] == 0);
        } else {
            let i = choose|i: int| 0 <= i < bytes.len() && #[trigger] bytes[i] != 0;
            assert(nonzero(bytes)[i] != 0);
        }
    }
}

/// A value fits into a header exactly if it is not empty and has no carriage
/// return and no line feed in it; and it is fit to be a key if besides it takes
/// no more than 256 bytes.
pub proof fn law_what_is_fit_to_be_sent(text: Seq<char>)
    ensures
        header_safe(text) <==> text.len() > 0 && !text.contains('\r') && !text.contains('\n'),
        key_safe(text) <==> text.len() > 0 && !text.contains('\r') && !text.contains('\n')
            && encode_utf8(text).len() <= 256,
{
    if text.contains('\r') {
        let i = choose|i: int| 0 <= i < text.len() && text[i] == '\r';
        assert(text[i] == '\r');
    }
    if text.contains('\n') {
        let i = choose|i: int| 0 <= i < text.len() && text[i] == '\n';
        assert(text[i] == '\n');
    }
    if !text.contains('\r') && !text.contains('\n') {
        assert forall|i: int| 0 <= i < text.len() implies #[trigger] text[i] != '\r' && text[i]
            != '\n' by {
            if text[i] == '\r' {
                assert(text.contains('\r'));
            }
            if text[i] == '\n' {
                assert(text.contains('\n'));
            }
        }
    }
}

/// The id of an event is the one that was asked for if that one is fit to be
/// sent, and otherwise 32 hexadecimal digits.
pub proof fn law_event_id(wanted: Option<String>, id: Seq<char>)
    requires
        event_id_for(wanted, id),
    ensures
        ({
            ||| wanted matches Some(asked) && id == asked@
            ||| id.len() == 32 && forall|i: int|
                0 <= i < id.len() ==> '0' <= #[trigger] id[i] <= '9' || 'a' <= id[i] <= 'f'
        }),
        wanted matches Some(asked) ==> asked@.len() > 0 && !asked@.contains('\r')
            && !asked@.contains('\n') && encode_utf8(asked@).len() <= 256 ==> id == asked@,
        id.len() > 0 && !id.contains('\r') && !id.contains('\n') && encode_utf8(id).len() <= 256,
{
    if let Some(asked) = wanted {
        law_what_is_fit_to_be_sent(asked@);
    }
    law_id_digits(id, 16);
    if hex_id(id, 16) {
        crate::ids::lemma_hex_id_safe(id, 16);
    }
    law_what_is_fit_to_be_sent(id);
}

/// A fresh id spells the bytes that were drawn for it, and a fresh id that may
/// not be zero spells them too, unless they were.
pub proof fn law_fresh_ids_spell_the_draw(text: Seq<char>, bytes: int)
    ensures
        fresh_id(text, bytes) ==> exists|drawn: Seq<u8>| #[trigger]
            crate::ids::random_draw(drawn) && drawn.len() == bytes && text == hex_text(drawn),
        fresh_nonzero_id(text, bytes) ==> exists|drawn: Seq<u8>| #[trigger]
            crate::ids::random_draw(drawn) && drawn.len() == bytes && (text == hex_text(drawn)
                || forall|i: int| 0 <= i < bytes ==> #[trigger] drawn[i] == 0),
        fresh_nonzero_id(text, bytes) ==> exists|i: int|
            0 <= i < text.len() && #[trigger] text[i] != '0',
{
    if fresh_nonzero_id(text, bytes) {
        let drawn = choose|drawn: Seq<u8>| #[trigger]
            crate::ids::random_draw(drawn) && drawn.len() == bytes && text == hex_text(
                nonzero(drawn),
            );
        law_only_zeros_are_changed(drawn);
        assert(!only_zeros(text));
        lemma_hex_text(nonzero(drawn));
    }
}

} // verus!
