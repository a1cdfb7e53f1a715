use octri_monitoring::patterns::{
    match_bearer, match_card_number, match_email, match_jwt, passes_luhn, Pattern,
};
use octri_monitoring::sweep::{replace_matches, scrub_text};

#[test]
fn a_bearer_token_needs_its_word_a_gap_and_a_token() {
    assert_eq!(match_bearer(b"Bearer abc", 0), Some(10));
    assert_eq!(match_bearer(b"bEARER \t a.b~c+d/e-f=_ x", 0), Some(22));
    assert_eq!(match_bearer(b"xBearer abc", 1), None);
    assert_eq!(match_bearer(b"Bearerabc", 0), None);
    assert_eq!(match_bearer(b"Bearer  ", 0), None);
    assert_eq!(match_bearer(b"Bear", 0), None);
    assert_eq!(match_bearer(b"", 0), None);
}

#[test]
fn a_jwt_has_three_segments() {
    assert_eq!(match_jwt(b"eyJa.b-c.d_e", 0), Some(12));
    assert_eq!(match_jwt(b"eyJa.b.c.d", 0), Some(8));
    assert_eq!(match_jwt(b"eyJa.b", 0), None);
    assert_eq!(match_jwt(b"eyJa..c", 0), None);
    assert_eq!(match_jwt(b"eyJa.b.", 0), None);
    assert_eq!(match_jwt(b"eyj.b.c", 0), None);
    assert_eq!(match_jwt(b"ey", 0), None);
    assert_eq!(match_jwt(b"_eyJa.b.c", 1), None);
    assert_eq!(match_jwt(b"-eyJa.b.c", 1), Some(9));
}

#[test]
fn an_email_address_needs_two_labels() {
    assert_eq!(match_email(b"ada@example.com", 0), Some(15));
    assert_eq!(match_email(b"a.b%c+d-e_f@x-1.y.z.", 0), Some(19));
    assert_eq!(match_email(b"ada@localhost", 0), None);
    assert_eq!(match_email(b"ada@localhost.", 0), None);
    assert_eq!(match_email(b"@example.com", 0), None);
    assert_eq!(match_email(b"ada", 0), None);
    assert_eq!(match_email(b"ada@.com", 0), None);
    assert_eq!(match_email(b"xada@example.com", 1), None);
}

#[test]
fn a_card_number_has_13_to_19_digits() {
    assert_eq!(match_card_number(b"4242424242424242", 0), Some(16));
    assert_eq!(match_card_number(b"4242 4242-4242 4242 ", 0), Some(19));
    assert_eq!(match_card_number(b"4222222222222", 0), Some(13));
    assert_eq!(match_card_number(b"0000000000000000000", 0), Some(19));
    assert_eq!(match_card_number(b"00000000000000000000", 0), None);
    assert_eq!(match_card_number(b"000000000000", 0), None);
    assert_eq!(match_card_number(b"4242424242424241", 0), None);
    assert_eq!(match_card_number(b"4242424242424242x", 0), None);
    assert_eq!(match_card_number(b"x4242424242424242", 1), None);
    assert_eq!(match_card_number(b" 4242424242424242", 0), None);
    assert_eq!(match_card_number(b"4242", 9), None);
}

#[test]
fn the_luhn_check_tells_a_wrong_digit() {
    assert!(passes_luhn("4242424242424242"));
    assert!(!passes_luhn("4242424242424241"));
    assert!(passes_luhn("79927398713"));
    assert!(!passes_luhn("79927398710"));
    assert!(passes_luhn(""));
    assert!(!passes_luhn("1234567890123"));
}

#[test]
fn exactly_one_check_digit_fits() {
    for front in ["", "7992739871", "424242424242424", "0"] {
        let fitting = (0..10)
            .filter(|check| passes_luhn(&format!("{front}{check}")))
            .count();
        assert_eq!(fitting, 1, "{front}");
    }
    assert!(passes_luhn("79927398713"));
}

#[test]
fn a_leading_zero_does_not_change_the_luhn_check() {
    for digits in ["79927398713", "79927398710", "4242424242424242", ""] {
        assert_eq!(passes_luhn(&format!("0{digits}")), passes_luhn(digits), "{digits}");
    }
}

#[test]
fn one_changed_digit_breaks_a_card_number() {
    let card = "4242424242424242";
    for i in 0..card.len() {
        for digit in b'0'..=b'9' {
            let mut bytes = card.as_bytes().to_vec();
            let same = bytes[i] == digit;
            bytes[i] = digit;
            let changed = String::from_utf8(bytes).expect("digits");
            assert_eq!(passes_luhn(&changed), same, "{changed}");
        }
    }
}

#[test]
fn every_match_of_one_pattern_is_replaced() {
    assert_eq!(
        replace_matches("a@b.c, d@e.f and g", Pattern::Email),
        "[redacted], [redacted] and g"
    );
    assert_eq!(
        replace_matches("Bearer a Bearer b", Pattern::Bearer),
        "[redacted] [redacted]"
    );
    assert_eq!(replace_matches("", Pattern::Jwt), "");
}

#[test]
fn text_around_a_match_is_kept_whatever_its_script() {
    assert_eq!(
        scrub_text("héllo \u{1f600}ada@example.com\u{1f600} wörld"),
        "héllo \u{1f600}[redacted]\u{1f600} wörld"
    );
    assert_eq!(scrub_text("日本語 4242 4242 4242 4242。"), "日本語 [redacted]。");
}

#[test]
fn clean_text_is_kept() {
    for clean in [
        "",
        "checkout.completed",
        "at 2026-01-02T03:04:05.678Z",
        "user@localhost said eyJ.",
        "日本語",
    ] {
        assert_eq!(scrub_text(clean), clean);
    }
}

#[test]
fn a_word_behind_bearer_reads_as_a_token() {
    assert_eq!(scrub_text("bearer of news"), "[redacted] news");
}

#[test]
fn a_number_is_redacted_only_if_it_is_a_card_number() {
    assert_eq!(scrub_text("4242424242424242"), "[redacted]");
    assert_eq!(scrub_text("1234567890123"), "1234567890123");
    assert_eq!(scrub_text("1700000000000"), "1700000000000");
    assert_eq!(scrub_text("42"), "42");
    assert_eq!(
        scrub_text("00000000000000000000"),
        "00000000000000000000"
    );
}

#[test]
fn a_text_that_is_a_secret_is_redacted() {
    assert_eq!(scrub_text("Bearer sk_live_abc123"), "[redacted]");
    assert_eq!(scrub_text("eyJhbGciOiJIUzI1NiJ9.eyJzdWIiOiIxIn0.7Hk2"), "[redacted]");
    assert_eq!(scrub_text("4242-4242-4242-4242"), "[redacted]");
    assert_eq!(scrub_text("ada@example.com"), "[redacted]");
    assert_eq!(scrub_text("[redacted]"), "[redacted]");
}

#[test]
fn what_an_earlier_search_takes_a_later_one_does_not_see() {
    assert_eq!(scrub_text("eyJa.b.c@example.com"), "[redacted]@example.com");
    assert_eq!(scrub_text("4242424242424242@example.com"), "[redacted]@example.com");
}

#[test]
fn card_numbers_side_by_side_are_all_redacted() {
    assert_eq!(
        scrub_text("4242424242424242 4242424242424242"),
        "[redacted] [redacted]"
    );
    assert_eq!(
        scrub_text("4242 4242 4242 4242 4242 4242 4242 4242"),
        "[redacted] [redacted]"
    );
    assert_eq!(
        scrub_text("4242 4242 4242 4242 4242x@b.c"),
        "[redacted] [redacted]"
    );
    assert_eq!(
        scrub_text("paid with 4242 4242 4242 4242 12/27"),
        "paid with [redacted] 12/27"
    );
}

#[test]
fn the_longest_card_number_is_taken() {
    assert_eq!(match_card_number(b"0000 0000 0000 0000 0 0", 0), Some(23));
    assert_eq!(match_card_number(b"0000 0000 0000 0000 0 5", 0), Some(21));
    assert_eq!(match_card_number(b"4242 4242 4242 4242 12/27", 0), Some(19));
    assert_eq!(match_card_number(b"4242 4242 4242 4242 4242 4242", 0), Some(19));
}

#[test]
fn an_email_address_that_is_left_stands_behind_a_redaction() {
    assert_eq!(scrub_text("a@b.c_d@e.f"), "[redacted]_d@e.f");
}
