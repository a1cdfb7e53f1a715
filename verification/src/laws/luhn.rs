//! What the Luhn check tells.
use crate::ascii::digit;
use crate::patterns::{all_digits, luhn_sum, luhn_valid};
use vstd::prelude::*;

verus! {

/// The value of the digit that completes `digits`.
pub open spec fn check_digit(digits: Seq<u8>) -> int {
    (10 - luhn_sum(digits, true) % 10) % 10
}

/// Behind any digits, exactly one digit makes them pass.
pub proof fn law_one_check_digit(digits: Seq<u8>, byte: u8)
    requires
        digit(byte as char),
    ensures
        luhn_valid(digits.push(byte)) <==> byte as int - '0' as int == check_digit(digits),
        0 <= check_digit(digits) <= 9,
{
    assert(digits.push(byte).drop_last() =~= digits);
}

proof fn lemma_leading_zero(digits: Seq<u8>, doubled: bool)
    ensures
        luhn_sum(seq!['0' as u8] + digits, doubled) == luhn_sum(digits, doubled),
    decreases digits.len(),
{
    let longer = seq!['0' as u8] + digits;
    if digits.len() == 0 {
        assert(longer.drop_last() =~= digits);
        assert(luhn_sum(longer.drop_last(), !doubled) == 0);
    } else {
        assert(longer.drop_last() =~= seq!['0' as u8] + digits.drop_last());
        assert(longer.last() == digits.last());
        lemma_leading_zero(digits.drop_last(), !doubled);
    }
}

/// A zero in front changes nothing.
pub proof fn law_leading_zero(digits: Seq<u8>)
    ensures
        luhn_valid(seq!['0' as u8] + digits) == luhn_valid(digits),
{
    lemma_leading_zero(digits, false);
}

/// Another digit in the place of one changes the sum by less than ten, and not
/// by nothing.
proof fn lemma_changed_digit(digits: Seq<u8>, i: int, byte: u8, doubled: bool)
    requires
        all_digits(digits),
        0 <= i < digits.len(),
        digit(byte as char),
        byte != digits[i],
    ensures
        -10 < luhn_sum(digits.update(i, byte), doubled) - luhn_sum(digits, doubled) < 10,
        luhn_sum(digits.update(i, byte), doubled) != luhn_sum(digits, doubled),
    decreases digits.len(),
{
    let changed = digits.update(i, byte);
    assert(digit(digits[i] as char));
    if i == digits.len() - 1 {
        assert(changed.drop_last() =~= digits.drop_last());
    } else {
        assert(changed.drop_last() =~= digits.drop_last().update(i, byte));
        assert(changed.last() == digits.last());
        assert forall|k: int| 0 <= k < digits.drop_last().len() implies digit(
            #[trigger] digits.drop_last()[k] as char,
        ) by {
            assert(digit(digits[k] as char));
        }
        lemma_changed_digit(digits.drop_last(), i, byte, !doubled);
    }
}

/// Digits that pass do not pass any more with one of them changed.
pub proof fn law_changed_digit_is_told(digits: Seq<u8>, i: int, byte: u8)
    requires
        all_digits(digits),
        luhn_valid(digits),
        0 <= i < digits.len(),
        digit(byte as char),
        byte != digits[i],
    ensures
        !luhn_valid(digits.update(i, byte)),
{
    lemma_changed_digit(digits, i, byte, false);
}

/// What the digit adds that stands `place` places from the right: itself in an
/// even place, and in an odd one the decimal digits of its double.
pub open spec fn place_adds(digits: Seq<u8>, place: int) -> int {
    let d = digits[digits.len() - 1 - place] as int - 48;
    if place % 2 == 0 {
        d
    } else {
        (2 * d) / 10 + (2 * d) % 10
    }
}

/// What the last `places` digits add.
pub open spec fn places_add(digits: Seq<u8>, places: int) -> int
    decreases places,
{
    if places <= 0 {
        0
    } else {
        places_add(digits, places - 1) + place_adds(digits, places - 1)
    }
}

proof fn lemma_places(digits: Seq<u8>, places: int)
    requires
        forall|i: int| 0 <= i < digits.len() ==> 48 <= #[trigger] digits[i] <= 57,
        0 <= places <= digits.len(),
    ensures
        luhn_sum(digits, false) == places_add(digits, places) + luhn_sum(
            digits.take(digits.len() - places),
            places % 2 == 1,
        ),
    decreases places,
{
    if places == 0 {
        assert(digits.take(digits.len() as int) =~= digits);
    } else {
        lemma_places(digits, places - 1);
        let left = digits.take(digits.len() - places + 1);
        assert(left.drop_last() =~= digits.take(digits.len() - places));
        assert(left.last() == digits[digits.len() - places]);
        let d = left.last() as int - 48;
        assert(0 <= d <= 9);
    }
}

/// Digits pass exactly if what they add is a multiple of ten, counted from the
/// right, where every second digit is doubled and the decimal digits of the
/// double are added.
pub proof fn law_every_second_digit_is_doubled(digits: Seq<u8>)
    requires
        forall|i: int| 0 <= i < digits.len() ==> 48 <= #[trigger] digits[i] <= 57,
    ensures
        luhn_valid(digits) <==> places_add(digits, digits.len() as int) % 10 == 0,
{
    lemma_places(digits, digits.len() as int);
    assert(digits.take(0).len() == 0);
}

} // verus!
