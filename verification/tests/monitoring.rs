use octri_monitoring::ids::{
    resolve_event_id, safe_header_value, safe_idempotency_key, MAX_IDEMPOTENCY_KEY_LENGTH,
};
use octri_monitoring::request::scrub_payload;
use octri_monitoring::sweep::{scrub_text, REDACTED};
use octri_monitoring::value::insert;
use octri_monitoring::{
    add_scrub_fields, capture_error, clear_before_send, init, set_before_send, trace_from_header,
    Config, ErrorOptions, Monitor, Value,
};

type Unhooked = Monitor<fn(Value) -> Option<Value>>;

fn text(value: &str) -> Value {
    Value::String(value.to_string())
}

fn object(fields: Vec<(&str, Value)>) -> Value {
    Value::Object(
        fields
            .into_iter()
            .map(|(name, value)| (name.to_string(), value))
            .collect(),
    )
}

fn at<'a>(value: &'a Value, name: &str) -> &'a Value {
    value.get(name).expect("field")
}

#[test]
fn parses_traceparent() {
    let trace = trace_from_header(Some(
        "00-4bf92f3577b34da6a3ce929d0e0e4736-00f067aa0ba902b7-01",
    ));
    assert_eq!(trace.trace_id, "4bf92f3577b34da6a3ce929d0e0e4736");
    assert_eq!(trace.parent_span_id.as_deref(), Some("00f067aa0ba902b7"));
}

#[test]
fn rejects_zero_traceparent_identifiers() {
    let trace = trace_from_header(Some(
        "00-00000000000000000000000000000000-0000000000000000-01",
    ));
    assert_eq!(trace.trace_id.len(), 32);
    assert!(trace.trace_id.bytes().all(|byte| byte.is_ascii_hexdigit()));
    assert_ne!(trace.trace_id, "0".repeat(32));
    assert_eq!(trace.parent_span_id, None);
}

#[test]
fn replaces_oversized_event_ids() {
    let event_id = resolve_event_id(Some("e".repeat(MAX_IDEMPOTENCY_KEY_LENGTH + 1)));
    assert_eq!(event_id.len(), 32);
    assert!(safe_idempotency_key(&event_id));
}

#[test]
fn redacts_credential_shaped_keys_however_they_are_spelled() {
    let monitor: Unhooked = Monitor::new();
    let payload = scrub_payload(
        &monitor,
        object(vec![(
            "context",
            object(vec![
                ("api_key", text("sk_live_1")),
                ("apiKey", text("sk_live_2")),
                ("X-API-KEY", text("sk_live_3")),
                ("stripe_secret_key", text("sk_live_4")),
                ("Authorization", text("Bearer abc")),
                ("refresh_token", text("rt_1")),
                ("cookie", text("sid=1")),
                ("orderId", text("A-1024")),
                ("author", text("ada")),
            ]),
        )]),
    )
    .expect("payload");

    let context = at(&payload, "context");
    for key in [
        "api_key",
        "apiKey",
        "X-API-KEY",
        "stripe_secret_key",
        "Authorization",
        "refresh_token",
        "cookie",
    ] {
        assert_eq!(at(context, key), &text(REDACTED), "{key}");
    }
    assert_eq!(at(context, "orderId"), &text("A-1024"));
    assert_eq!(at(context, "author"), &text("ada"));
}

#[test]
fn redacts_nested_and_array_values() {
    let monitor: Unhooked = Monitor::new();
    let headers = Value::Array(vec![object(vec![("authorization", text("Bearer abc"))])]);
    let payload = scrub_payload(
        &monitor,
        object(vec![(
            "context",
            object(vec![("upstream", object(vec![("headers", headers)]))]),
        )]),
    )
    .expect("payload");

    match at(at(at(&payload, "context"), "upstream"), "headers") {
        Value::Array(items) => assert_eq!(at(&items[0], "authorization"), &text(REDACTED)),
        other => panic!("{other:?}"),
    }
}

#[test]
fn add_scrub_fields_is_additive() {
    let mut monitor: Unhooked = Monitor::new();
    add_scrub_fields(&mut monitor, &["account_number"]);
    let payload = scrub_payload(
        &monitor,
        object(vec![(
            "context",
            object(vec![
                ("accountNumber", text("12345678")),
                ("orderId", text("A-1024")),
            ]),
        )]),
    )
    .expect("payload");

    let context = at(&payload, "context");
    assert_eq!(at(context, "accountNumber"), &text(REDACTED));
    assert_eq!(at(context, "orderId"), &text("A-1024"));
}

#[test]
fn strips_secrets_that_leaked_into_free_text() {
    assert_eq!(
        scrub_text("401 from billing: Authorization: Bearer sk_live_abc123 rejected"),
        "401 from billing: Authorization: [redacted] rejected"
    );
    assert_eq!(
        scrub_text("token eyJhbGciOiJIUzI1NiJ9.eyJzdWIiOiIxIn0.7Hk2 expired"),
        "token [redacted] expired"
    );
    assert_eq!(
        scrub_text("no account for ada@example.com"),
        "no account for [redacted]"
    );
}

#[test]
fn strips_card_numbers_but_keeps_order_numbers() {
    let scrubbed = scrub_text("charge 4242 4242 4242 4242 failed for order 1234567890123");
    assert!(!scrubbed.contains("4242"), "{scrubbed}");
    assert!(scrubbed.contains("1234567890123"), "{scrubbed}");
}

#[test]
fn keeps_user_identity_but_not_user_credentials() {
    let monitor: Unhooked = Monitor::new();
    let payload = scrub_payload(
        &monitor,
        object(vec![
            ("message", text("no account for ada@example.com")),
            (
                "user",
                object(vec![
                    ("id", text("u_1")),
                    ("email", text("ada@example.com")),
                    ("session_token", text("st_1")),
                ]),
            ),
        ]),
    )
    .expect("payload");

    assert_eq!(at(&payload, "message"), &text("no account for [redacted]"));
    assert_eq!(at(at(&payload, "user"), "email"), &text("ada@example.com"));
    assert_eq!(at(at(&payload, "user"), "session_token"), &text(REDACTED));
}

#[test]
fn before_send_can_edit_or_drop_a_payload() {
    let mut monitor = Monitor::new();
    set_before_send(&mut monitor, |payload: Value| {
        if payload.get("message") == Some(&text("noise")) {
            return None;
        }
        match payload {
            Value::Object(mut fields) => {
                insert(
                    &mut fields,
                    "context",
                    Some(object(vec![("note", text("call ada@example.com"))])),
                );
                Some(Value::Object(fields))
            }
            other => Some(other),
        }
    });

    assert!(scrub_payload(&monitor, object(vec![("message", text("noise"))])).is_none());
    let payload =
        scrub_payload(&monitor, object(vec![("message", text("signal"))])).expect("payload");
    // Redaction runs after the hook, so a hook cannot leak a secret.
    assert_eq!(at(at(&payload, "context"), "note"), &text("call [redacted]"));

    clear_before_send(&mut monitor);
    assert!(scrub_payload(&monitor, object(vec![("message", text("noise"))])).is_some());
}

#[test]
fn replaces_unsafe_event_ids_and_keeps_concrete_error_type() {
    let event_id = resolve_event_id(Some("event\r\nX-Injected: true".into()));
    assert_eq!(event_id.len(), 32);
    assert!(safe_header_value(&event_id));

    let error = std::io::Error::new(std::io::ErrorKind::Other, "boom");
    let mut monitor: Unhooked = Monitor::new();
    init(
        &mut monitor,
        Config {
            url: "https://monitoring.example.com".into(),
            token: None,
            environment: "test".into(),
            release: None,
        },
    );
    let request = capture_error(
        &monitor,
        &error,
        "std::io::error::Error",
        ErrorOptions::default(),
    )
    .expect("request");
    let reported = at(&request.body, "error");
    match at(reported, "name") {
        Value::String(name) => assert!(name.contains("std::io::error::Error")),
        other => panic!("{other:?}"),
    }
    assert_eq!(at(reported, "message"), &text("boom"));
}
