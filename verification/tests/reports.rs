use octri_monitoring::capture::{error_payload, event_payload, span_payload, ErrorReport};
use octri_monitoring::ids::{
    hex_encode, make_nonzero, random_hex, random_nonzero_hex, resolve_event_id, safe_header_value,
    safe_idempotency_key,
};
use octri_monitoring::keys::{is_secret_key, normalize_key};
use octri_monitoring::request::{post, request_for, scrub_hooked};
use octri_monitoring::scrub::scrub_value;
use octri_monitoring::value::{insert, set_field};
use octri_monitoring::{
    add_scrub_fields, capture_error, capture_event, capture_span, init, set_before_send,
    trace_from_header, Config, ErrorOptions, EventOptions, Monitor, Request, Span, TraceContext,
    Value,
};

type Unhooked = Monitor<fn(Value) -> Option<Value>>;

fn text(value: &str) -> Value {
    Value::String(value.to_string())
}

fn integer(value: i64) -> Value {
    Value::Number(serde_json::Number::from(value))
}

fn object(fields: Vec<(&str, Value)>) -> Value {
    Value::Object(
        fields
            .into_iter()
            .map(|(name, value)| (name.to_string(), value))
            .collect(),
    )
}

fn fields(value: Value) -> Vec<(String, Value)> {
    match value {
        Value::Object(fields) => fields,
        other => panic!("{other:?}"),
    }
}

fn at<'a>(value: &'a Value, name: &str) -> &'a Value {
    value.get(name).expect("field")
}

fn string_at(value: &Value, name: &str) -> String {
    match at(value, name) {
        Value::String(text) => text.clone(),
        other => panic!("{other:?}"),
    }
}

fn header<'a>(request: &'a Request, name: &str) -> Option<&'a str> {
    request
        .headers
        .iter()
        .find(|header| header.0 == name)
        .map(|header| header.1.as_str())
}

fn config() -> Config {
    Config {
        url: "https://monitoring.example.com//".into(),
        token: Some("tok_1".into()),
        environment: "prod".into(),
        release: Some("abc".into()),
    }
}

fn configured() -> Unhooked {
    let mut monitor = Monitor::new();
    init(&mut monitor, config());
    monitor
}

fn span() -> Span {
    Span {
        trace_id: "t1".into(),
        span_id: "s1".into(),
        parent_span_id: None,
        name: "orders.list".into(),
        service: String::new(),
        operation_id: Some("listOrders".into()),
        start_time: "2026-01-02T03:04:05Z".into(),
        end_time: None,
        status: String::new(),
    }
}

fn is_hex(value: &str, len: usize) -> bool {
    value.len() == len
        && value
            .bytes()
            .all(|byte| byte.is_ascii_digit() || (b'a'..=b'f').contains(&byte))
}

fn is_timestamp(value: &str) -> bool {
    let bytes = value.as_bytes();
    value.len() == 24
        && bytes.iter().enumerate().all(|(i, byte)| match i {
            4 | 7 => *byte == b'-',
            10 => *byte == b'T',
            13 | 16 => *byte == b':',
            19 => *byte == b'.',
            23 => *byte == b'Z',
            _ => byte.is_ascii_digit(),
        })
}

#[test]
fn nothing_is_reported_before_init() {
    let monitor: Unhooked = Monitor::new();
    let error = std::fmt::Error;
    assert!(capture_event(&monitor, "hi".into(), EventOptions::default()).is_none());
    assert!(capture_error(&monitor, &error, "Error", ErrorOptions::default()).is_none());
    assert!(capture_span(&monitor, span()).is_none());
}

#[test]
fn init_takes_the_trailing_slashes_off() {
    let monitor = configured();
    let kept = monitor.config.expect("config");
    assert_eq!(kept.url, "https://monitoring.example.com");
    assert_eq!(kept.token.as_deref(), Some("tok_1"));
    assert_eq!(kept.environment, "prod");
    assert_eq!(kept.release.as_deref(), Some("abc"));

    let mut bare: Unhooked = Monitor::new();
    init(&mut bare, Config { url: "///".into(), ..config() });
    assert_eq!(bare.config.expect("config").url, "");
}

#[test]
fn an_event_says_what_its_options_say() {
    let options = EventOptions {
        timestamp: Some("2026-01-02T03:04:05.678Z".into()),
        level: Some("warning".into()),
        operation_id: Some("createOrder".into()),
        method: Some("POST".into()),
        path: Some("/orders".into()),
        status_code: Some(503),
        latency_ms: Some(Value::Number(serde_json::Number::from_f64(12.5).expect("number"))),
        attempt: Some(-2),
        request_id: Some("r_1".into()),
        user: Some(fields(object(vec![("id", text("u_1"))]))),
        tags: Some(fields(object(vec![("region", text("eu-west"))]))),
        context: Some(fields(object(vec![("orderId", text("A-1024"))]))),
        breadcrumbs: Some(vec![text("clicked")]),
        fingerprint: Some("fp".into()),
        trace: Some(TraceContext { trace_id: "t1".into(), parent_span_id: None }),
        span_id: Some("s1".into()),
        event_id: None,
    };
    let payload = event_payload(&config(), "hi".into(), options, "e1", "2026-01-02T03:04:05.678Z");
    assert_eq!(at(&payload, "eventId"), &text("e1"));
    assert_eq!(at(&payload, "timestamp"), &text("2026-01-02T03:04:05.678Z"));
    assert_eq!(at(&payload, "level"), &text("warning"));
    assert_eq!(at(&payload, "message"), &text("hi"));
    assert_eq!(at(&payload, "environment"), &text("prod"));
    assert_eq!(at(&payload, "release"), &text("abc"));
    assert_eq!(at(&payload, "operationId"), &text("createOrder"));
    assert_eq!(at(&payload, "method"), &text("POST"));
    assert_eq!(at(&payload, "path"), &text("/orders"));
    assert_eq!(at(&payload, "statusCode"), &integer(503));
    assert_eq!(
        at(&payload, "latencyMs"),
        &Value::Number(serde_json::Number::from_f64(12.5).expect("number"))
    );
    assert_eq!(at(&payload, "attempt"), &integer(-2));
    assert_eq!(at(&payload, "requestId"), &text("r_1"));
    assert_eq!(at(&payload, "user"), &object(vec![("id", text("u_1"))]));
    assert_eq!(at(at(&payload, "tags"), "octri.origin"), &text("standalone"));
    assert_eq!(at(at(&payload, "tags"), "region"), &text("eu-west"));
    assert_eq!(at(&payload, "context"), &object(vec![("orderId", text("A-1024"))]));
    assert_eq!(at(&payload, "breadcrumbs"), &Value::Array(vec![text("clicked")]));
    assert_eq!(at(&payload, "fingerprint"), &text("fp"));
    assert_eq!(at(&payload, "traceId"), &text("t1"));
    assert_eq!(at(&payload, "spanId"), &text("s1"));
    assert_eq!(fields(payload).len(), 20);
}

#[test]
fn an_event_leaves_out_what_is_not_set() {
    let payload = event_payload(
        &Config { release: None, ..config() },
        "hi".into(),
        EventOptions::default(),
        "e1",
        "now",
    );
    assert_eq!(
        payload,
        object(vec![
            ("eventId", text("e1")),
            ("timestamp", text("now")),
            ("level", text("info")),
            ("message", text("hi")),
            ("environment", text("prod")),
            ("tags", object(vec![("octri.origin", text("standalone"))])),
        ])
    );
}

#[test]
fn a_tag_of_the_caller_replaces_the_origin() {
    let options = EventOptions {
        tags: Some(fields(object(vec![("octri.origin", text("mine"))]))),
        ..EventOptions::default()
    };
    let payload = event_payload(&config(), "hi".into(), options, "e1", "now");
    assert_eq!(at(&payload, "tags"), &object(vec![("octri.origin", text("mine"))]));
}

#[test]
fn a_field_that_is_written_again_is_replaced() {
    let mut target = fields(object(vec![("a", integer(1)), ("b", integer(2))]));
    insert(&mut target, "a", Some(integer(3)));
    insert(&mut target, "b", None);
    set_field(&mut target, "c".into(), integer(4));
    assert_eq!(
        Value::Object(target),
        object(vec![("a", integer(3)), ("b", integer(2)), ("c", integer(4))])
    );
}

#[test]
fn no_name_is_left_twice_in_a_body() {
    let mut monitor = Monitor::new();
    init(&mut monitor, config());
    set_before_send(&mut monitor, |_: Value| {
        Some(object(vec![
            ("password", text("hunter1")),
            ("note", text("Bearer abc")),
            ("password", text("hunter2")),
            ("note", object(vec![("x", integer(1)), ("x", integer(2))])),
        ]))
    });
    let request = capture_span(&monitor, span()).expect("request");
    assert_eq!(
        request.body,
        object(vec![
            ("password", text("[redacted]")),
            ("note", object(vec![("x", integer(2))])),
        ])
    );
}

#[test]
fn a_hook_sees_the_payload() {
    let mut monitor = Monitor::new();
    init(&mut monitor, config());
    set_before_send(&mut monitor, |payload: Value| {
        Some(object(vec![("seen", Value::Bool(payload == span_payload(&config(), span())))]))
    });
    let request = capture_span(&monitor, span()).expect("request");
    assert_eq!(request.body, object(vec![("seen", Value::Bool(true))]));
}

#[test]
fn an_event_becomes_a_request() {
    let monitor = configured();
    let options = EventOptions {
        event_id: Some("order-1".into()),
        timestamp: Some("then".into()),
        ..EventOptions::default()
    };
    let request = capture_event(&monitor, "mail ada@example.com".into(), options).expect("request");
    assert_eq!(request.url, "https://monitoring.example.com/ingest");
    assert_eq!(
        request.headers,
        vec![
            ("content-type".to_string(), "application/json".to_string()),
            ("idempotency-key".to_string(), "order-1".to_string()),
            ("authorization".to_string(), "Bearer tok_1".to_string()),
        ]
    );
    assert_eq!(at(&request.body, "eventId"), &text("order-1"));
    assert_eq!(at(&request.body, "timestamp"), &text("then"));
    assert_eq!(at(&request.body, "message"), &text("mail [redacted]"));
}

#[test]
fn a_retried_event_keeps_its_key() {
    let monitor = configured();
    let options = EventOptions { event_id: Some("order-1".into()), ..EventOptions::default() };
    let first = capture_event(&monitor, "one".into(), options.clone()).expect("request");
    let second = capture_event(&monitor, "two".into(), options).expect("request");
    assert_eq!(first.headers, second.headers);
}

#[test]
fn an_event_gets_a_fresh_id_and_the_time_of_the_day() {
    let monitor = configured();
    let first = capture_event(&monitor, "hi".into(), EventOptions::default()).expect("request");
    let second = capture_event(&monitor, "hi".into(), EventOptions::default()).expect("request");
    let key = header(&first, "idempotency-key").expect("key");
    assert!(is_hex(key, 32));
    assert_eq!(string_at(&first.body, "eventId"), key);
    assert_ne!(header(&second, "idempotency-key"), Some(key));
    let timestamp = string_at(&first.body, "timestamp");
    assert!(is_timestamp(&timestamp), "{timestamp}");
    assert!(timestamp.as_str() > "2024-01-01T00:00:00.000Z", "{timestamp}");
    assert!(string_at(&second.body, "timestamp") >= timestamp);
}

#[test]
fn an_error_payload_describes_the_error() {
    let report = ErrorReport {
        name: "my::Error".into(),
        message: "boom".into(),
        stack: "0: main".into(),
    };
    let options = ErrorOptions {
        status_code: Some(500),
        method: Some("POST".into()),
        path: Some("/orders".into()),
        operation_id: Some("createOrder".into()),
        ..ErrorOptions::default()
    };
    let payload = error_payload(&config(), options, report, "e1", "now", "t1", "s1");
    assert_eq!(
        payload,
        object(vec![
            ("eventId", text("e1")),
            ("timestamp", text("now")),
            ("level", text("error")),
            ("environment", text("prod")),
            ("release", text("abc")),
            ("traceId", text("t1")),
            ("spanId", text("s1")),
            ("tags", object(vec![("octri.origin", text("server"))])),
            (
                "error",
                object(vec![
                    ("name", text("my::Error")),
                    ("message", text("boom")),
                    ("stack", text("0: main")),
                    ("frames", Value::Array(vec![])),
                ])
            ),
            ("operationId", text("createOrder")),
            ("method", text("POST")),
            ("path", text("/orders")),
            ("statusCode", integer(500)),
        ])
    );
}

#[test]
fn an_error_joins_the_trace_of_the_caller() {
    let monitor = configured();
    let error = std::io::Error::new(std::io::ErrorKind::Other, "mail ada@example.com");
    let trace =
        trace_from_header(Some("00-4bf92f3577b34da6a3ce929d0e0e4736-00f067aa0ba902b7-01"));
    let options = ErrorOptions {
        trace: Some(trace.clone()),
        level: Some("fatal".into()),
        ..ErrorOptions::default()
    };
    let request = capture_error(&monitor, &error, "std::io::Error", options).expect("request");
    assert_eq!(request.url, "https://monitoring.example.com/ingest");
    assert_eq!(string_at(&request.body, "traceId"), "4bf92f3577b34da6a3ce929d0e0e4736");
    assert_eq!(string_at(&request.body, "level"), "fatal");
    assert!(is_hex(&string_at(&request.body, "spanId"), 16));
    assert!(is_timestamp(&string_at(&request.body, "timestamp")));
    assert_eq!(
        header(&request, "idempotency-key"),
        Some(string_at(&request.body, "eventId").as_str())
    );
    let described = at(&request.body, "error");
    assert_eq!(at(described, "message"), &text("mail [redacted]"));
    assert!(!string_at(described, "stack").is_empty());

    let event = EventOptions { trace: Some(trace), ..EventOptions::default() };
    let joined = capture_event(&monitor, "hi".into(), event).expect("request");
    assert_eq!(string_at(&joined.body, "traceId"), string_at(&request.body, "traceId"));
}

#[test]
fn an_error_without_a_trace_starts_one() {
    let monitor = configured();
    let error = std::fmt::Error;
    let request = capture_error(&monitor, &error, "Error", ErrorOptions::default());
    assert!(is_hex(&string_at(&request.expect("request").body, "traceId"), 32));
}

#[test]
fn a_span_fills_in_what_is_empty() {
    let payload = span_payload(&config(), span());
    assert_eq!(
        payload,
        object(vec![
            ("traceId", text("t1")),
            ("spanId", text("s1")),
            ("parentSpanId", Value::Null),
            ("environment", text("prod")),
            ("name", text("orders.list")),
            ("service", text("server")),
            ("operationId", text("listOrders")),
            ("startTime", text("2026-01-02T03:04:05Z")),
            ("endTime", Value::Null),
            ("status", text("ok")),
        ])
    );
    let given = span_payload(
        &config(),
        Span {
            service: "worker".into(),
            status: "error".into(),
            parent_span_id: Some("p1".into()),
            end_time: Some("later".into()),
            operation_id: None,
            ..span()
        },
    );
    assert_eq!(at(&given, "service"), &text("worker"));
    assert_eq!(at(&given, "status"), &text("error"));
    assert_eq!(at(&given, "parentSpanId"), &text("p1"));
    assert_eq!(at(&given, "endTime"), &text("later"));
    assert_eq!(at(&given, "operationId"), &Value::Null);
}

#[test]
fn a_span_is_keyed_by_its_ids() {
    let monitor = configured();
    let request = capture_span(&monitor, span()).expect("request");
    assert_eq!(request.url, "https://monitoring.example.com/traces");
    assert_eq!(header(&request, "idempotency-key"), Some("t1:s1"));
    let other = capture_span(&monitor, Span { span_id: "s2".into(), ..span() }).expect("request");
    assert_eq!(header(&other, "idempotency-key"), Some("t1:s2"));
}

#[test]
fn an_incomplete_span_is_not_reported() {
    let monitor = configured();
    assert!(capture_span(&monitor, Span { trace_id: String::new(), ..span() }).is_none());
    assert!(capture_span(&monitor, Span { span_id: String::new(), ..span() }).is_none());
    assert!(capture_span(&monitor, Span { name: String::new(), ..span() }).is_none());
    assert!(capture_span(&monitor, Span { start_time: String::new(), ..span() }).is_none());
    assert!(capture_span(&monitor, Span { trace_id: "a\nb".into(), ..span() }).is_none());
    assert!(capture_span(&monitor, Span { trace_id: "t".repeat(300), ..span() }).is_none());
}

#[test]
fn a_token_that_spans_lines_is_never_sent() {
    let mut monitor: Unhooked = Monitor::new();
    init(&mut monitor, Config { token: Some("a\r\nb".into()), ..config() });
    assert!(capture_event(&monitor, "hi".into(), EventOptions::default()).is_none());

    init(&mut monitor, Config { token: Some(String::new()), ..config() });
    let request = capture_event(&monitor, "hi".into(), EventOptions::default()).expect("request");
    assert_eq!(header(&request, "authorization"), None);

    init(&mut monitor, Config { token: None, ..config() });
    let request = capture_event(&monitor, "hi".into(), EventOptions::default()).expect("request");
    assert_eq!(header(&request, "authorization"), None);
}

#[test]
fn a_report_with_an_unsafe_key_is_not_posted() {
    let monitor = configured();
    let config = config();
    assert!(post(&monitor, &config, "/ingest", Value::Null, String::new()).is_none());
    assert!(post(&monitor, &config, "/ingest", Value::Null, "a\nb".into()).is_none());
    assert!(post(&monitor, &config, "/ingest", Value::Null, "k".repeat(257)).is_none());
    assert!(post(&monitor, &config, "/ingest", Value::Null, "k".repeat(256)).is_some());
}

#[test]
fn a_request_carries_its_body_as_it_is() {
    let request = request_for(&config(), "/x", Value::Bool(true), "k".into());
    assert_eq!(request.url, "https://monitoring.example.com///x");
    assert_eq!(request.body, Value::Bool(true));
}

#[test]
fn a_hook_cannot_leak_a_credential() {
    let mut monitor = Monitor::new();
    init(&mut monitor, config());
    set_before_send(&mut monitor, |_: Value| {
        Some(object(vec![
            ("password", text("hunter2")),
            ("note", text("Bearer abc")),
        ]))
    });
    let request = capture_span(&monitor, span()).expect("request");
    assert_eq!(
        request.body,
        object(vec![("password", text("[redacted]")), ("note", text("[redacted]"))])
    );
}

#[test]
fn a_hook_can_drop_every_report() {
    let mut monitor = Monitor::new();
    init(&mut monitor, config());
    set_before_send(&mut monitor, |_: Value| None);
    assert!(capture_span(&monitor, span()).is_none());
    assert!(capture_event(&monitor, "hi".into(), EventOptions::default()).is_none());
    assert_eq!(scrub_hooked(None, &vec![]), None);
}

#[test]
fn a_hook_can_drop_by_path() {
    let mut monitor = Monitor::new();
    init(&mut monitor, config());
    set_before_send(&mut monitor, |payload: Value| {
        if payload.get("path") == Some(&text("/health")) {
            return None;
        }
        Some(payload)
    });
    let health = EventOptions { path: Some("/health".into()), ..EventOptions::default() };
    let orders = EventOptions { path: Some("/orders".into()), ..EventOptions::default() };
    assert!(capture_event(&monitor, "hi".into(), health).is_none());
    let request = capture_event(&monitor, "hi".into(), orders).expect("request");
    assert_eq!(at(&request.body, "path"), &text("/orders"));
}

#[test]
fn what_is_nested_too_deep_is_cut_off() {
    let mut value = text("Bearer abc");
    for _ in 0..9 {
        value = Value::Array(vec![value]);
    }
    let mut left = scrub_value(value, 0, true, &vec![]);
    for _ in 0..8 {
        left = match left {
            Value::Array(mut items) => items.remove(0),
            other => panic!("{other:?}"),
        };
    }
    assert_eq!(left, text("[truncated]"));

    let mut value = object(vec![("note", text("Bearer abc"))]);
    for _ in 0..7 {
        value = object(vec![("inner", value)]);
    }
    let mut left = scrub_value(value, 0, true, &vec![]);
    for _ in 0..7 {
        left = fields(left).remove(0).1;
    }
    assert_eq!(left, object(vec![("note", text("[redacted]"))]));
    assert_eq!(scrub_value(object(vec![]), 8, false, &vec![]), text("[truncated]"));
    assert_eq!(scrub_value(text("a@b.c"), 9, false, &vec![]), text("a@b.c"));
}

#[test]
fn what_is_neither_text_nor_nested_is_kept() {
    let value = object(vec![
        ("count", integer(4)),
        ("flag", Value::Bool(true)),
        ("nothing", Value::Null),
        ("token_count", integer(4)),
    ]);
    assert_eq!(
        scrub_value(value, 0, true, &vec![]),
        object(vec![
            ("count", integer(4)),
            ("flag", Value::Bool(true)),
            ("nothing", Value::Null),
            ("token_count", text("[redacted]")),
        ])
    );
}

#[test]
fn redacting_an_identity_again_changes_nothing() {
    let identity = object(vec![
        ("email", text("ada@example.com")),
        ("session_token", text("st_1")),
    ]);
    let once = scrub_value(identity, 1, false, &vec![]);
    assert_eq!(scrub_value(once.clone(), 1, false, &vec![]), once);
    assert_eq!(at(&once, "email"), &text("ada@example.com"));
}

#[test]
fn keys_are_compared_without_case_and_separators() {
    let none: Vec<String> = vec![];
    assert_eq!(normalize_key("X-API_Key é9"), "xapikey9");
    assert!(is_secret_key("A.P.I key", &none));
    assert!(is_secret_key("STRIPE_SECRET_KEY", &none));
    assert!(!is_secret_key("author", &none));
    assert!(!is_secret_key("", &none));
    assert!(!is_secret_key("--", &vec![String::new()]));
    for name in [
        "password",
        "passwd",
        "passphrase",
        "secret",
        "token",
        "apikey",
        "authorization",
        "credential",
        "cookie",
        "session",
        "privatekey",
        "accesskey",
        "cardnumber",
        "creditcard",
        "cvv",
        "ssn",
    ] {
        assert!(is_secret_key(name, &none), "{name}");
        assert!(is_secret_key(&format!("my-{}_2", name.to_uppercase()), &none), "{name}");
    }
}

#[test]
fn added_names_are_kept_once_and_in_order() {
    let mut monitor = configured();
    add_scrub_fields(&mut monitor, &["Account_Number", "otp", "--", "account-number"]);
    add_scrub_fields(&mut monitor, &["OTP", "pin"]);
    assert_eq!(monitor.extra_scrub_keys, vec!["accountnumber", "otp", "pin"]);
    assert!(is_secret_key("my_account_number", &monitor.extra_scrub_keys));
    assert!(is_secret_key("password", &monitor.extra_scrub_keys));
    assert!(!is_secret_key("order", &monitor.extra_scrub_keys));
    assert!(monitor.config.is_some());
    add_scrub_fields(&mut monitor, &["P.I.N", "o t p", "ACCOUNTNUMBER", ""]);
    assert_eq!(monitor.extra_scrub_keys, vec!["accountnumber", "otp", "pin"]);
    assert!(is_secret_key("shipping", &monitor.extra_scrub_keys));
}

#[test]
fn a_traceparent_is_read_in_either_case_and_between_spaces() {
    let trace = trace_from_header(Some(
        " \u{3000}\t00-4BF92F3577B34DA6A3CE929D0E0E4736-00F067AA0BA902B7-01\r\n",
    ));
    assert_eq!(trace.trace_id, "4bf92f3577b34da6a3ce929d0e0e4736");
    assert_eq!(trace.parent_span_id.as_deref(), Some("00f067aa0ba902b7"));
}

#[test]
fn a_malformed_traceparent_starts_a_fresh_trace() {
    for header in [
        "",
        "01-4bf92f3577b34da6a3ce929d0e0e4736-00f067aa0ba902b7-01",
        "00-4bf92f3577b34da6a3ce929d0e0e473-00f067aa0ba902b7-01",
        "00-4bf92f3577b34da6a3ce929d0e0e4736-00f067aa0ba902b-01",
        "00-4bf92f3577b34da6a3ce929d0e0e4736-00f067aa0ba902b7-1",
        "00-4bf92f3577b34da6a3ce929d0e0e4736-00f067aa0ba902b7-01-00",
        "00-4bf92f3577b34da6a3ce929d0e0e473g-00f067aa0ba902b7-01",
        "00-00000000000000000000000000000000-00f067aa0ba902b7-01",
        "00-4bf92f3577b34da6a3ce929d0e0e4736-0000000000000000-01",
    ] {
        let trace = trace_from_header(Some(header));
        assert!(is_hex(&trace.trace_id, 32), "{header}");
        assert_ne!(trace.trace_id, "4bf92f3577b34da6a3ce929d0e0e4736");
        assert_eq!(trace.parent_span_id, None, "{header}");
    }
    assert_eq!(trace_from_header(None).parent_span_id, None);
}

#[test]
fn random_ids_are_random_and_hexadecimal() {
    assert_eq!(hex_encode(&vec![0x00, 0x0f, 0xa5, 0xff]), "000fa5ff");
    assert!(is_hex(&random_hex(16), 32));
    assert!(is_hex(&random_hex(8), 16));
    assert_eq!(random_hex(0), "");
    assert_ne!(random_hex(16), random_hex(16));
    assert_ne!(random_hex(16), "0".repeat(32));
}

#[test]
fn a_fresh_trace_id_is_never_zero() {
    let mut zeros = vec![0u8; 16];
    make_nonzero(&mut zeros);
    assert_eq!(hex_encode(&zeros), "00000000000000000000000000000001");
    let mut kept = vec![0, 7, 0];
    make_nonzero(&mut kept);
    assert_eq!(kept, vec![0, 7, 0]);
    let mut none: Vec<u8> = vec![];
    make_nonzero(&mut none);
    assert!(none.is_empty());
    assert!(is_hex(&random_nonzero_hex(16), 32));
    assert_ne!(random_nonzero_hex(16), random_nonzero_hex(16));
}

#[test]
fn only_safe_event_ids_are_kept() {
    assert_eq!(resolve_event_id(Some("order-1".into())), "order-1");
    assert_eq!(resolve_event_id(Some("é".repeat(128))), "é".repeat(128));
    assert!(is_hex(&resolve_event_id(Some("é".repeat(129))), 32));
    assert!(is_hex(&resolve_event_id(Some(String::new())), 32));
    assert!(is_hex(&resolve_event_id(None), 32));
    assert!(safe_header_value("a b"));
    assert!(!safe_header_value(""));
    assert!(!safe_header_value("a\rb"));
    assert!(!safe_header_value("a\nb"));
    assert!(safe_idempotency_key(&"k".repeat(256)));
    assert!(!safe_idempotency_key(&"k".repeat(257)));
}
