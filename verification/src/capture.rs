//! Reports: application events, errors and completed spans.
use crate::ids::{
    event_id_for, fresh_id, fresh_nonzero_id, lemma_hex_id_safe, random_hex, resolve_event_id,
};
use crate::monitor::{Config, Monitor};
use crate::outside::{integer_number, now, number_from, utc_timestamp};
use crate::request::{
    hook_ready, post, posted, request_of, single_body, token_sendable, Request, RequestView,
};
use crate::trace::{trace_from_header, TraceContext};
use crate::value::{
    insert, json_fields, json_items, json_of, lemma_fields_push, names_once, put, set_field,
    single_fields, single_if_any, single_named, Json, Value,
};
use std::backtrace::Backtrace;
use vstd::prelude::*;
use vstd::string::to_string_from_display_ensures;

verus! {

#[derive(Clone, Debug)]
pub struct EventOptions {
    pub timestamp: Option<String>,
    pub level: Option<String>,
    pub operation_id: Option<String>,
    pub method: Option<String>,
    pub path: Option<String>,
    pub status_code: Option<i64>,
    /// A measured latency as JSON has it: a number, or null where the
    /// measurement is not a finite one.
    pub latency_ms: Option<Value>,
    pub attempt: Option<i64>,
    pub request_id: Option<String>,
    pub user: Option<Vec<(String, Value)>>,
    pub tags: Option<Vec<(String, Value)>>,
    pub context: Option<Vec<(String, Value)>>,
    pub breadcrumbs: Option<Vec<Value>>,
    pub fingerprint: Option<String>,
    pub trace: Option<TraceContext>,
    pub span_id: Option<String>,
    pub event_id: Option<String>,
}

#[derive(Clone, Debug)]
pub struct ErrorOptions {
    pub level: Option<String>,
    pub operation_id: Option<String>,
    pub method: Option<String>,
    pub path: Option<String>,
    pub status_code: Option<i64>,
    pub trace: Option<TraceContext>,
}

/// What is told of an error: the name of its type, what it says, and where it
/// happened.
#[derive(Clone, Debug)]
pub struct ErrorReport {
    pub name: String,
    pub message: String,
    pub stack: String,
}

#[derive(Clone, Debug)]
pub struct Span {
    pub trace_id: String,
    pub span_id: String,
    pub parent_span_id: Option<String>,
    pub name: String,
    pub service: String,
    pub operation_id: Option<String>,
    pub start_time: String,
    pub end_time: Option<String>,
    pub status: String,
}

impl Default for EventOptions {
    fn default() -> (options: Self)
        ensures
            options.timestamp is None,
            options.level is None,
            options.operation_id is None,
            options.method is None,
            options.path is None,
            options.status_code is None,
            options.latency_ms is None,
            options.attempt is None,
            options.request_id is None,
            options.user is None,
            options.tags is None,
            options.context is None,
            options.breadcrumbs is None,
            options.fingerprint is None,
            options.trace is None,
            options.span_id is None,
            options.event_id is None,
    {
        EventOptions {
            timestamp: None,
            level: None,
            operation_id: None,
            method: None,
            path: None,
            status_code: None,
            latency_ms: None,
            attempt: None,
            request_id: None,
            user: None,
            tags: None,
            context: None,
            breadcrumbs: None,
            fingerprint: None,
            trace: None,
            span_id: None,
            event_id: None,
        }
    }
}

impl Default for ErrorOptions {
    fn default() -> (options: Self)
        ensures
            options.level is None,
            options.operation_id is None,
            options.method is None,
            options.path is None,
            options.status_code is None,
            options.trace is None,
    {
        ErrorOptions {
            level: None,
            operation_id: None,
            method: None,
            path: None,
            status_code: None,
            trace: None,
        }
    }
}

pub open spec fn text_json(text: Option<String>) -> Option<Json> {
    match text {
        Some(text) => Some(Json::Text(text@)),
        None => None,
    }
}

pub open spec fn integer_json(number: Option<i64>) -> Option<Json> {
    match number {
        Some(number) => Some(Json::Number(integer_number(number))),
        None => None,
    }
}

pub open spec fn object_json(fields: Option<Vec<(String, Value)>>) -> Option<Json> {
    match fields {
        Some(fields) => Some(Json::Object(json_fields(fields@))),
        None => None,
    }
}

pub open spec fn array_json(items: Option<Vec<Value>>) -> Option<Json> {
    match items {
        Some(items) => Some(Json::Array(json_items(items@))),
        None => None,
    }
}

/// The text, or `null`.
pub open spec fn text_or_null(text: Option<String>) -> Json {
    match text {
        Some(text) => Json::Text(text@),
        None => Json::Null,
    }
}

/// The text, or `default` where there is none.
pub open spec fn text_or(text: Option<String>, default: Seq<char>) -> Seq<char> {
    match text {
        Some(text) => text@,
        None => default,
    }
}

/// The text, or `default` where it is empty.
pub open spec fn filled_or(text: Seq<char>, default: Seq<char>) -> Seq<char> {
    if text.len() == 0 {
        default
    } else {
        text
    }
}

/// The tags of an event: where it comes from, and what the caller adds. A tag
/// of the caller replaces the one of the library.
pub open spec fn event_tags(tags: Option<Vec<(String, Value)>>) -> Map<Seq<char>, Json> {
    let origin = Map::empty().insert("octri.origin"@, Json::Text("standalone"@));
    match tags {
        Some(tags) => origin.union_prefer_right(json_fields(tags@)),
        None => origin,
    }
}

/// The trace id of a trace, if there is one.
pub open spec fn trace_id_json(trace: Option<TraceContext>) -> Option<Json> {
    match trace {
        Some(trace) => Some(Json::Text(trace.trace_id@)),
        None => None,
    }
}

/// The fields of an event.
pub open spec fn event_fields(
    config: Config,
    message: Seq<char>,
    options: EventOptions,
    event_id: Seq<char>,
    timestamp: Seq<char>,
) -> Map<Seq<char>, Json> {
    let fields = Map::empty();
    let fields = fields.insert("eventId"@, Json::Text(event_id));
    let fields = fields.insert("timestamp"@, Json::Text(timestamp));
    let fields = fields.insert("level"@, Json::Text(text_or(options.level, "info"@)));
    let fields = fields.insert("message"@, Json::Text(message));
    let fields = fields.insert("environment"@, Json::Text(config.environment@));
    let fields = put(fields, "release"@, text_json(config.release));
    let fields = put(fields, "operationId"@, text_json(options.operation_id));
    let fields = put(fields, "method"@, text_json(options.method));
    let fields = put(fields, "path"@, text_json(options.path));
    let fields = put(fields, "statusCode"@, integer_json(options.status_code));
    let fields = put(fields, "latencyMs"@, json_of(options.latency_ms));
    let fields = put(fields, "attempt"@, integer_json(options.attempt));
    let fields = put(fields, "requestId"@, text_json(options.request_id));
    let fields = put(fields, "user"@, object_json(options.user));
    let fields = fields.insert("tags"@, Json::Object(event_tags(options.tags)));
    let fields = put(fields, "context"@, object_json(options.context));
    let fields = put(fields, "breadcrumbs"@, array_json(options.breadcrumbs));
    let fields = put(fields, "fingerprint"@, text_json(options.fingerprint));
    let fields = put(fields, "traceId"@, trace_id_json(options.trace));
    put(fields, "spanId"@, text_json(options.span_id))
}

/// No object in the items, if there are any, has two fields of the same name.
pub open spec fn single_items(items: Option<Vec<Value>>) -> bool {
    items matches Some(items) ==> forall|i: int|
        0 <= i < items@.len() ==> single_named(#[trigger] items@[i])
}

/// No object in what the options carry has two fields of the same name.
pub open spec fn single_options(options: EventOptions) -> bool {
    &&& single_if_any(options.latency_ms)
    &&& options.user matches Some(fields) ==> single_fields(fields@)
    &&& options.tags matches Some(fields) ==> single_fields(fields@)
    &&& options.context matches Some(fields) ==> single_fields(fields@)
    &&& single_items(options.breadcrumbs)
}

fn text_value(text: Option<String>) -> (value: Option<Value>)
    ensures
        json_of(value) == text_json(text),
        single_if_any(value),
{
    match text {
        Some(text) => Some(Value::String(text)),
        None => None,
    }
}

fn integer_value(number: Option<i64>) -> (value: Option<Value>)
    ensures
        json_of(value) == integer_json(number),
        single_if_any(value),
{
    match number {
        Some(number) => Some(Value::Number(number_from(number))),
        None => None,
    }
}

fn object_value(fields: Option<Vec<(String, Value)>>) -> (value: Option<Value>)
    ensures
        json_of(value) == object_json(fields),
        (fields matches Some(fields) ==> single_fields(fields@)) ==> single_if_any(value),
{
    match fields {
        Some(fields) => Some(Value::Object(fields)),
        None => None,
    }
}

fn array_value(items: Option<Vec<Value>>) -> (value: Option<Value>)
    ensures
        json_of(value) == array_json(items),
        single_items(items) ==> single_if_any(value),
{
    match items {
        Some(items) => Some(Value::Array(items)),
        None => None,
    }
}

fn value_or_null(text: Option<String>) -> (value: Value)
    ensures
        value@ == text_or_null(text),
        single_named(value),
{
    match text {
        Some(text) => Value::String(text),
        None => Value::Null,
    }
}

fn string_or(text: Option<String>, default: &str) -> (result: String)
    ensures
        result@ == text_or(text, default@),
{
    match text {
        Some(text) => text,
        None => default.to_owned(),
    }
}

/// A JSON string with the text of a string slice.
fn string(text: &str) -> (value: Value)
    ensures
        value@ == Json::Text(text@),
        single_named(value),
{
    Value::String(text.to_owned())
}

/// The payload of an event.
#[verifier::rlimit(30)]
pub fn event_payload(
    config: &Config,
    message: String,
    options: EventOptions,
    event_id: &str,
    timestamp: &str,
) -> (payload: Value)
    ensures
        payload@ == Json::Object(
            event_fields(*config, message@, options, event_id@, timestamp@),
        ),
        single_options(options) ==> single_named(payload),
{
    let mut payload: Vec<(String, Value)> = Vec::new();
    insert(&mut payload, "eventId", Some(string(event_id)));
    insert(&mut payload, "timestamp", Some(string(timestamp)));
    insert(&mut payload, "level", Some(Value::String(string_or(options.level, "info"))));
    insert(&mut payload, "message", Some(Value::String(message)));
    insert(&mut payload, "environment", Some(string(config.environment.as_str())));
    insert(&mut payload, "release", text_value(config.release.clone()));
    insert(&mut payload, "operationId", text_value(options.operation_id));
    insert(&mut payload, "method", text_value(options.method));
    insert(&mut payload, "path", text_value(options.path));
    insert(&mut payload, "statusCode", integer_value(options.status_code));
    insert(&mut payload, "latencyMs", options.latency_ms);
    insert(&mut payload, "attempt", integer_value(options.attempt));
    insert(&mut payload, "requestId", text_value(options.request_id));
    insert(&mut payload, "user", object_value(options.user));
    insert(&mut payload, "tags", Some(Value::Object(tags_with_origin(options.tags))));
    insert(&mut payload, "context", object_value(options.context));
    insert(&mut payload, "breadcrumbs", array_value(options.breadcrumbs));
    insert(&mut payload, "fingerprint", text_value(options.fingerprint));
    if let Some(trace) = options.trace {
        insert(&mut payload, "traceId", Some(Value::String(trace.trace_id)));
    }
    insert(&mut payload, "spanId", text_value(options.span_id));
    Value::Object(payload)
}

fn tags_with_origin(custom: Option<Vec<(String, Value)>>) -> (tags: Vec<(String, Value)>)
    ensures
        json_fields(tags@) == event_tags(custom),
        names_once(tags@),
        (custom matches Some(custom) ==> single_fields(custom@)) ==> single_fields(tags@),
{
    let mut tags: Vec<(String, Value)> = Vec::new();
    insert(&mut tags, "octri.origin", Some(string("standalone")));
    let ghost origin = json_fields(tags@);
    if let Some(custom) = custom {
        let ghost all = custom@;
        proof {
            assert(json_fields(all.take(0)) =~= Map::empty());
            assert(origin.union_prefer_right(Map::empty()) =~= origin);
        }
        for tag in given: custom
            invariant
                given.seq() == all,
                json_fields(tags@) == origin.union_prefer_right(
                    json_fields(all.take(given.index() as int)),
                ),
                names_once(tags@),
                single_fields(all) ==> single_fields(tags@),
        {
            let ghost seen = all.take(given.index() as int);
            let ghost done = json_fields(tags@);
            let ghost met = tag;
            let (name, value) = tag;
            proof {
                assert(all[given.index() as int] == met);
                lemma_fields_push(seen, name, value);
                assert(seen.push(met) == all.take(given.index() + 1));
                assert(done.insert(name@, value@) =~= origin.union_prefer_right(
                    json_fields(seen).insert(name@, value@),
                ));
            }
            set_field(&mut tags, name, value);
        }
        assert(all.take(all.len() as int) == all);
    }
    tags
}

/// `text` came out of a call for the current time.
pub closed spec fn clock_call(text: Seq<char>) -> bool {
    exists|read: String| #[trigger] call_ensures(now, (), read) && read@ == text
}

/// What came out of a call for the current time is what `now` gave.
pub(crate) proof fn law_clock_call(text: Seq<char>)
    requires
        clock_call(text),
    ensures
        exists|read: String| #[trigger] call_ensures(now, (), read) && read@ == text,
{
}

/// A time that was read from the clock, as it is reported.
pub open spec fn clock_reading(text: Seq<char>) -> bool {
    utc_timestamp(text) && clock_call(text)
}

/// Whether `text` is a timestamp for an event that asks for `wanted`.
pub open spec fn timestamp_for(wanted: Option<String>, text: Seq<char>) -> bool {
    match wanted {
        Some(wanted) => text == wanted@,
        None => clock_reading(text),
    }
}

/// Whether `request` is what becomes of an event with this id and this
/// timestamp, and these are what the event asks for.
pub open spec fn event_posted<H: Fn(Value) -> Option<Value>>(
    monitor: Monitor<H>,
    config: Config,
    message: Seq<char>,
    options: EventOptions,
    event_id: Seq<char>,
    timestamp: Seq<char>,
    request: Option<RequestView>,
) -> bool {
    &&& event_id_for(options.event_id, event_id)
    &&& timestamp_for(options.timestamp, timestamp)
    &&& exists|payload: Value|
        {
            &&& payload@ == Json::Object(
                event_fields(config, message, options, event_id, timestamp),
            )
            &&& single_options(options) ==> single_named(payload)
            &&& #[trigger] posted(monitor, config, "/ingest"@, payload, event_id, request)
        }
}

/// Log an application event without depending on a generated Octri API SDK.
pub fn capture_event<H: Fn(Value) -> Option<Value>>(
    monitor: &Monitor<H>,
    message: String,
    options: EventOptions,
) -> (request: Option<Request>)
    requires
        hook_ready(*monitor),
    ensures
        match monitor.config {
            Some(config) => exists|event_id: Seq<char>, timestamp: Seq<char>| #[trigger]
                event_posted(
                    *monitor,
                    config,
                    message@,
                    options,
                    event_id,
                    timestamp,
                    request_of(request),
                ),
            None => request is None,
        },
        monitor.config matches Some(config) ==> token_sendable(config)
            && monitor.before_send is None ==> request is Some,
        single_body(request),
{
    let config: &Config = match &monitor.config {
        Some(config) => config,
        None => {
            return None;
        },
    };
    let event_id: String = resolve_event_id(options.event_id.clone());
    let timestamp: String = match options.timestamp.clone() {
        Some(timestamp) => timestamp,
        None => now(),
    };
    let ghost said = message@;
    let ghost key = event_id@;
    let payload: Value = event_payload(
        config,
        message,
        options,
        event_id.as_str(),
        timestamp.as_str(),
    );
    let request: Option<Request> = post(monitor, config, "/ingest", payload, event_id);
    assert(event_posted(
        *monitor,
        *config,
        said,
        options,
        key,
        timestamp@,
        request_of(request),
    ));
    request
}

/// What a report of an error says that its caller does not: the ids, the time,
/// and what the error and the stack say.
pub ghost struct ErrorFacts {
    pub event_id: Seq<char>,
    pub timestamp: Seq<char>,
    pub trace_id: Seq<char>,
    pub span_id: Seq<char>,
    pub name: Seq<char>,
    pub message: Seq<char>,
    pub stack: Seq<char>,
}

/// The fields that describe an error.
pub open spec fn error_description(facts: ErrorFacts) -> Map<Seq<char>, Json> {
    Map::empty().insert("name"@, Json::Text(facts.name)).insert(
        "message"@,
        Json::Text(facts.message),
    ).insert("stack"@, Json::Text(facts.stack)).insert("frames"@, Json::Array(seq![]))
}

/// The fields of a report of an error.
pub open spec fn error_fields(config: Config, options: ErrorOptions, facts: ErrorFacts) -> Map<
    Seq<char>,
    Json,
> {
    let origin = Map::empty().insert("octri.origin"@, Json::Text("server"@));
    let fields = Map::empty();
    let fields = fields.insert("eventId"@, Json::Text(facts.event_id));
    let fields = fields.insert("timestamp"@, Json::Text(facts.timestamp));
    let fields = fields.insert("level"@, Json::Text(text_or(options.level, "error"@)));
    let fields = fields.insert("environment"@, Json::Text(config.environment@));
    let fields = put(fields, "release"@, text_json(config.release));
    let fields = fields.insert("traceId"@, Json::Text(facts.trace_id));
    let fields = fields.insert("spanId"@, Json::Text(facts.span_id));
    let fields = fields.insert("tags"@, Json::Object(origin));
    let fields = fields.insert("error"@, Json::Object(error_description(facts)));
    let fields = put(fields, "operationId"@, text_json(options.operation_id));
    let fields = put(fields, "method"@, text_json(options.method));
    let fields = put(fields, "path"@, text_json(options.path));
    put(fields, "statusCode"@, integer_json(options.status_code))
}

/// The payload of a report of an error.
pub fn error_payload(
    config: &Config,
    options: ErrorOptions,
    report: ErrorReport,
    event_id: &str,
    timestamp: &str,
    trace_id: &str,
    span_id: &str,
) -> (payload: Value)
    ensures
        payload@ == Json::Object(
            error_fields(
                *config,
                options,
                (ErrorFacts {
                    event_id: event_id@,
                    timestamp: timestamp@,
                    trace_id: trace_id@,
                    span_id: span_id@,
                    name: report.name@,
                    message: report.message@,
                    stack: report.stack@,
                }),
            ),
        ),
        single_named(payload),
{
    let mut tags: Vec<(String, Value)> = Vec::new();
    insert(&mut tags, "octri.origin", Some(string("server")));
    let mut error: Vec<(String, Value)> = Vec::new();
    insert(&mut error, "name", Some(Value::String(report.name)));
    insert(&mut error, "message", Some(Value::String(report.message)));
    insert(&mut error, "stack", Some(Value::String(report.stack)));
    insert(&mut error, "frames", Some(Value::Array(Vec::new())));
    let mut payload: Vec<(String, Value)> = Vec::new();
    insert(&mut payload, "eventId", Some(string(event_id)));
    insert(&mut payload, "timestamp", Some(string(timestamp)));
    insert(&mut payload, "level", Some(Value::String(string_or(options.level, "error"))));
    insert(&mut payload, "environment", Some(string(config.environment.as_str())));
    insert(&mut payload, "release", text_value(config.release.clone()));
    insert(&mut payload, "traceId", Some(string(trace_id)));
    insert(&mut payload, "spanId", Some(string(span_id)));
    insert(&mut payload, "tags", Some(Value::Object(tags)));
    insert(&mut payload, "error", Some(Value::Object(error)));
    insert(&mut payload, "operationId", text_value(options.operation_id));
    insert(&mut payload, "method", text_value(options.method));
    insert(&mut payload, "path", text_value(options.path));
    insert(&mut payload, "statusCode", integer_value(options.status_code));
    Value::Object(payload)
}

/// Whether `request` is what becomes of a report of `error` with these facts,
/// and the facts are fit for it: fresh ids, the trace that was asked for or a
/// fresh one, the name that was given, what the error says of itself, and what a
/// forced backtrace says. Which stack that is, is not said: it is the one of the
/// running thread.
pub open spec fn error_posted<H: Fn(Value) -> Option<Value>, E: std::fmt::Display>(
    monitor: Monitor<H>,
    config: Config,
    error: &E,
    name: Seq<char>,
    options: ErrorOptions,
    facts: ErrorFacts,
    request: Option<RequestView>,
) -> bool {
    &&& fresh_id(facts.event_id, 16)
    &&& clock_reading(facts.timestamp)
    &&& match options.trace {
        Some(trace) => facts.trace_id == trace.trace_id@,
        None => fresh_nonzero_id(facts.trace_id, 16),
    }
    &&& fresh_id(facts.span_id, 8)
    &&& facts.name == name
    &&& exists|said: String|
        #[trigger] to_string_from_display_ensures::<E>(error, said) && said@ == facts.message
    &&& exists|taken: Backtrace, written: String|
        {
            &&& call_ensures(Backtrace::force_capture, (), taken)
            &&& #[trigger] to_string_from_display_ensures::<Backtrace>(&taken, written)
            &&& written@ == facts.stack
        }
    &&& exists|payload: Value|
        {
            &&& payload@ == Json::Object(error_fields(config, options, facts))
            &&& single_named(payload)
            &&& #[trigger] posted(monitor, config, "/ingest"@, payload, facts.event_id, request)
        }
}

/// Capture a Rust error with a symbolic backtrace. `name` is the name of the
/// type of the error.
pub fn capture_error<H: Fn(Value) -> Option<Value>, E: std::fmt::Display>(
    monitor: &Monitor<H>,
    error: &E,
    name: &str,
    options: ErrorOptions,
) -> (request: Option<Request>)
    requires
        hook_ready(*monitor),
    ensures
        match monitor.config {
            Some(config) => exists|facts: ErrorFacts| #[trigger]
                error_posted(*monitor, config, error, name@, options, facts, request_of(request)),
            None => request is None,
        },
        monitor.config matches Some(config) ==> token_sendable(config)
            && monitor.before_send is None ==> request is Some,
        single_body(request),
{
    let config: &Config = match &monitor.config {
        Some(config) => config,
        None => {
            return None;
        },
    };
    let trace_id: String = match &options.trace {
        Some(trace) => trace.trace_id.clone(),
        None => trace_from_header(None).trace_id,
    };
    let event_id: String = random_hex(16);
    let timestamp: String = now();
    let span_id: String = random_hex(8);
    let message: String = error.to_string();
    let taken: Backtrace = Backtrace::force_capture();
    let stack: String = taken.to_string();
    let report: ErrorReport = ErrorReport { name: name.to_owned(), message, stack };
    let ghost facts = ErrorFacts {
        event_id: event_id@,
        timestamp: timestamp@,
        trace_id: trace_id@,
        span_id: span_id@,
        name: name@,
        message: message@,
        stack: stack@,
    };
    let payload: Value = error_payload(
        config,
        options,
        report,
        event_id.as_str(),
        timestamp.as_str(),
        trace_id.as_str(),
        span_id.as_str(),
    );
    let request: Option<Request> = post(monitor, config, "/ingest", payload, event_id);
    proof {
        lemma_hex_id_safe(facts.event_id, 16);
    }
    assert(error_posted(*monitor, *config, error, name@, options, facts, request_of(request)));
    request
}

/// Whether a span says enough to be reported: its ids, its name and when it
/// started.
pub open spec fn span_complete(span: Span) -> bool {
    span.trace_id@.len() > 0 && span.span_id@.len() > 0 && span.name@.len() > 0
        && span.start_time@.len() > 0
}

/// The idempotency key of a span, which depends on its ids alone.
pub open spec fn span_key(span: Span) -> Seq<char> {
    span.trace_id@ + ":"@ + span.span_id@
}

/// The fields of a span.
pub open spec fn span_fields(config: Config, span: Span) -> Map<Seq<char>, Json> {
    let fields = Map::empty();
    let fields = fields.insert("traceId"@, Json::Text(span.trace_id@));
    let fields = fields.insert("spanId"@, Json::Text(span.span_id@));
    let fields = fields.insert("parentSpanId"@, text_or_null(span.parent_span_id));
    let fields = fields.insert("environment"@, Json::Text(config.environment@));
    let fields = fields.insert("name"@, Json::Text(span.name@));
    let fields = fields.insert("service"@, Json::Text(filled_or(span.service@, "server"@)));
    let fields = fields.insert("operationId"@, text_or_null(span.operation_id));
    let fields = fields.insert("startTime"@, Json::Text(span.start_time@));
    let fields = fields.insert("endTime"@, text_or_null(span.end_time));
    fields.insert("status"@, Json::Text(filled_or(span.status@, "ok"@)))
}

fn filled_string(text: String, default: &str) -> (result: String)
    ensures
        result@ == filled_or(text@, default@),
{
    if text.as_str().is_empty() {
        default.to_owned()
    } else {
        text
    }
}

/// The payload of a span.
pub fn span_payload(config: &Config, span: Span) -> (payload: Value)
    ensures
        payload@ == Json::Object(span_fields(*config, span)),
        single_named(payload),
{
    let mut payload: Vec<(String, Value)> = Vec::new();
    insert(&mut payload, "traceId", Some(Value::String(span.trace_id)));
    insert(&mut payload, "spanId", Some(Value::String(span.span_id)));
    insert(&mut payload, "parentSpanId", Some(value_or_null(span.parent_span_id)));
    insert(&mut payload, "environment", Some(string(config.environment.as_str())));
    insert(&mut payload, "name", Some(Value::String(span.name)));
    insert(&mut payload, "service", Some(Value::String(filled_string(span.service, "server"))));
    insert(&mut payload, "operationId", Some(value_or_null(span.operation_id)));
    insert(&mut payload, "startTime", Some(Value::String(span.start_time)));
    insert(&mut payload, "endTime", Some(value_or_null(span.end_time)));
    insert(&mut payload, "status", Some(Value::String(filled_string(span.status, "ok"))));
    Value::Object(payload)
}

/// Whether `request` is what becomes of a span.
pub open spec fn span_posted<H: Fn(Value) -> Option<Value>>(
    monitor: Monitor<H>,
    config: Config,
    span: Span,
    request: Option<RequestView>,
) -> bool {
    exists|payload: Value|
        {
            &&& payload@ == Json::Object(span_fields(config, span))
            &&& single_named(payload)
            &&& #[trigger] posted(monitor, config, "/traces"@, payload, span_key(span), request)
        }
}

/// Report a completed distributed-trace span.
pub fn capture_span<H: Fn(Value) -> Option<Value>>(monitor: &Monitor<H>, span: Span) -> (request:
    Option<Request>)
    requires
        hook_ready(*monitor),
    ensures
        match monitor.config {
            Some(config) => if span_complete(span) {
                span_posted(*monitor, config, span, request_of(request))
            } else {
                request is None
            },
            None => request is None,
        },
        single_body(request),
{
    let config: &Config = match &monitor.config {
        Some(config) => config,
        None => {
            return None;
        },
    };
    if span.trace_id.as_str().is_empty() || span.span_id.as_str().is_empty()
        || span.name.as_str().is_empty() || span.start_time.as_str().is_empty() {
        return None;
    }
    let mut key: String = span.trace_id.clone();
    key.append(":");
    key.append(span.span_id.as_str());
    let payload: Value = span_payload(config, span);
    let ghost name = key@;
    let request: Option<Request> = post(monitor, config, "/traces", payload, key);
    assert(name == span_key(span));
    assert(posted(*monitor, *config, "/traces"@, payload, name, request_of(request)));
    request
}

} // verus!
