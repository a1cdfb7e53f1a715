//! What holds of every request that leaves.
use crate::capture::{
    clock_call, error_fields, error_posted, event_fields, event_posted, span_fields, span_key,
    span_posted, ErrorFacts, ErrorOptions, EventOptions, Span,
};
use crate::ids::{
    event_id_for, fresh_id, fresh_nonzero_id, header_safe, hex_id, key_safe, lemma_hex_id_safe,
};
use crate::keys::texts;
use crate::laws::ids::law_what_is_fit_to_be_sent;
use crate::laws::redaction::{
    free_of_secrets, guarded, law_credentials_are_redacted, law_nesting_is_bounded,
    law_no_secret_text_leaves, nested_within,
};
use crate::laws::reports::law_which_spans_are_reported;
use crate::monitor::{Config, Monitor};
use crate::outside::utc_timestamp;
use crate::request::{
    delivery, hook_gives, posted, scrubbed_report, sendable, token_sendable, RequestView,
    REQUEST_TIMEOUT_SECONDS,
};
use crate::scrub::{scrubbed, MAX_SCRUB_DEPTH};
use crate::text::without_trailing;
use crate::value::{json_of, Json, Value};
use std::backtrace::Backtrace;
use vstd::prelude::*;
use vstd::string::to_string_from_display_ensures;
use vstd::utf8::encode_utf8;

verus! {

/// Whatever the report says and whatever the hook makes of it: a request goes to
/// the configured place, carries an idempotency key, has no header that spans
/// lines, and its body holds no credential under its name, no bearer token, JWT
/// or card number in a text outside `user`, no email address there but right
/// behind a `[redacted]`, and is not nested too deep.
pub proof fn law_every_request_is_safe<H: Fn(Value) -> Option<Value>>(
    monitor: Monitor<H>,
    config: Config,
    path: Seq<char>,
    payload: Value,
    key: Seq<char>,
    request: RequestView,
)
    requires
        posted(monitor, config, path, payload, key, Some(request)),
    ensures
        request.url == config.url@ + path,
        key_safe(key),
        request.headers.contains(("idempotency-key"@, key)),
        forall|i: int|
            0 <= i < request.headers.len() ==> {
                let header = #[trigger] request.headers[i];
                header_safe(header.0) && header_safe(header.1)
            },
        guarded(request.body, monitor.extra()),
        free_of_secrets(request.body),
        nested_within(request.body, MAX_SCRUB_DEPTH as int),
{
    let hooked = choose|hooked: Option<Value>| #[trigger]
        hook_gives(monitor, payload, hooked) && Some(request) == (
        match scrubbed_report(json_of(hooked), monitor.extra()) {
            Some(body) => Some(delivery(config, path, body, key)),
            None => None,
        });
    let left = hooked->Some_0@;
    law_credentials_are_redacted(left, 0, true, monitor.extra());
    law_no_secret_text_leaves(left, 0, monitor.extra());
    law_nesting_is_bounded(left, 0, true, monitor.extra());
    reveal_strlit("content-type");
    reveal_strlit("application/json");
    reveal_strlit("idempotency-key");
    reveal_strlit("authorization");
    reveal_strlit("Bearer ");
    assert(request.headers[1] == ("idempotency-key"@, key));
    if let Some(token) = config.token {
        let value = "Bearer "@ + token@;
        assert forall|i: int| 0 <= i < value.len() && token@.len()
            > 0 implies #[trigger] value[i] != '\r' && value[i] != '\n' by {
            if i >= 7 {
                assert(value[i] == token@[i - 7]);
            }
        }
    }
}

/// Without a hook, a report that can be sent is sent, with all that redaction
/// leaves of it.
pub proof fn law_unhooked_report_is_sent<H: Fn(Value) -> Option<Value>>(
    monitor: Monitor<H>,
    config: Config,
    path: Seq<char>,
    payload: Value,
    key: Seq<char>,
    request: Option<RequestView>,
)
    requires
        monitor.before_send is None,
        sendable(config, key),
        posted(monitor, config, path, payload, key, request),
    ensures
        request == Some(
            delivery(config, path, scrubbed(payload@, 0, true, monitor.extra()), key),
        ),
{
}

/// What the hook drops is not sent.
pub proof fn law_dropped_report_is_not_sent<H: Fn(Value) -> Option<Value>>(
    monitor: Monitor<H>,
    config: Config,
    path: Seq<char>,
    payload: Value,
    key: Seq<char>,
    request: Option<RequestView>,
)
    requires
        posted(monitor, config, path, payload, key, request),
        forall|hooked: Option<Value>| #[trigger]
            hook_gives(monitor, payload, hooked) ==> hooked is None,
    ensures
        request is None,
{
}

/// Without a hook, every event is sent: an event always has a key to be sent
/// with.
pub proof fn law_event_is_sent<H: Fn(Value) -> Option<Value>>(
    monitor: Monitor<H>,
    config: Config,
    message: Seq<char>,
    options: EventOptions,
    event_id: Seq<char>,
    timestamp: Seq<char>,
    request: Option<RequestView>,
)
    requires
        monitor.before_send is None,
        token_sendable(config),
        event_posted(monitor, config, message, options, event_id, timestamp, request),
    ensures
        request == Some(
            delivery(
                config,
                "/ingest"@,
                scrubbed(
                    Json::Object(event_fields(config, message, options, event_id, timestamp)),
                    0,
                    true,
                    monitor.extra(),
                ),
                event_id,
            ),
        ),
{
    lemma_event_key(options, event_id);
}

/// The id of an event is fit to be its key.
proof fn lemma_event_key(options: EventOptions, event_id: Seq<char>)
    requires
        event_id_for(options.event_id, event_id),
    ensures
        key_safe(event_id),
{
    if hex_id(event_id, 16) {
        lemma_hex_id_safe(event_id, 16);
    }
}

/// Without a hook, every error is sent.
pub proof fn law_error_is_sent<H: Fn(Value) -> Option<Value>, E: std::fmt::Display>(
    monitor: Monitor<H>,
    config: Config,
    error: &E,
    name: Seq<char>,
    options: ErrorOptions,
    facts: ErrorFacts,
    request: Option<RequestView>,
)
    requires
        monitor.before_send is None,
        token_sendable(config),
        error_posted(monitor, config, error, name, options, facts, request),
    ensures
        request == Some(
            delivery(
                config,
                "/ingest"@,
                scrubbed(
                    Json::Object(error_fields(config, options, facts)),
                    0,
                    true,
                    monitor.extra(),
                ),
                facts.event_id,
            ),
        ),
{
    lemma_hex_id_safe(facts.event_id, 16);
}

/// An event that is reported again under the id that its caller gave it goes
/// out with the same headers, whatever else it says: the delivery is
/// idempotent.
pub proof fn law_retried_event_keeps_its_key<H: Fn(Value) -> Option<Value>>(
    monitor: Monitor<H>,
    config: Config,
    message: Seq<char>,
    options: EventOptions,
    event_id: Seq<char>,
    timestamp: Seq<char>,
    request: RequestView,
    again: Monitor<H>,
    message_again: Seq<char>,
    options_again: EventOptions,
    event_id_again: Seq<char>,
    timestamp_again: Seq<char>,
    request_again: RequestView,
)
    requires
        options.event_id matches Some(id) && key_safe(id@),
        options_again.event_id == options.event_id,
        event_posted(monitor, config, message, options, event_id, timestamp, Some(request)),
        event_posted(
            again,
            config,
            message_again,
            options_again,
            event_id_again,
            timestamp_again,
            Some(request_again),
        ),
    ensures
        event_id == options.event_id->Some_0@,
        request_again.headers == request.headers,
{
}

/// Two spans have the same key exactly if they have the same ids, where no trace
/// id has a colon in it.
pub proof fn law_span_keys(left: Span, right: Span)
    requires
        !left.trace_id@.contains(':'),
        !right.trace_id@.contains(':'),
    ensures
        span_key(left) == span_key(right) <==> left.trace_id@ == right.trace_id@ && left.span_id@
            == right.span_id@,
{
    reveal_strlit(":");
    let a = left.trace_id@;
    let b = right.trace_id@;
    if span_key(left) == span_key(right) {
        let key = span_key(left);
        assert(key[a.len() as int] == ':');
        assert(span_key(right)[b.len() as int] == ':');
        if a.len() < b.len() {
            assert(b[a.len() as int] == span_key(right)[a.len() as int]);
        }
        if b.len() < a.len() {
            assert(a[b.len() as int] == key[b.len() as int]);
        }
        assert(key.take(a.len() as int) =~= a);
        assert(span_key(right).take(b.len() as int) =~= b);
        assert(key.skip(a.len() as int + 1) =~= left.span_id@);
        assert(span_key(right).skip(b.len() as int + 1) =~= right.span_id@);
    }
}

/// The configured address ends without a slash, and nothing but slashes was
/// taken off.
pub proof fn law_trailing_slashes(url: Seq<char>)
    ensures
        ({
            let kept = without_trailing(url, '/');
            &&& kept.len() == 0 || kept.last() != '/'
            &&& kept.len() <= url.len() && kept == url.take(kept.len() as int)
            &&& forall|i: int| kept.len() <= i < url.len() ==> #[trigger] url[i] == '/'
        }),
    decreases url.len(),
{
    if url.len() > 0 && url.last() == '/' {
        law_trailing_slashes(url.drop_last());
        let kept = without_trailing(url, '/');
        assert(url.drop_last().take(kept.len() as int) =~= url.take(kept.len() as int));
        assert forall|i: int| kept.len() <= i < url.len() implies #[trigger] url[i] == '/' by {
            if i < url.len() - 1 {
                assert(url.drop_last()[i] == '/');
            }
        }
    } else {
        assert(url.take(url.len() as int) =~= url);
    }
}

/// What a request is: it goes to the address of the configuration and the path,
/// says that its body is JSON, carries the key, and the token if there is one
/// that is not empty, in this order, and its body is the one that it delivers.
pub proof fn law_what_a_request_is(config: Config, path: Seq<char>, body: Json, key: Seq<char>)
    ensures
        ({
            let request = delivery(config, path, body, key);
            let token = match config.token {
                Some(token) => token@,
                None => seq![],
            };
            &&& request.url == config.url@ + path
            &&& request.body == body
            &&& request.headers.len() == if token.len() > 0 {
                3nat
            } else {
                2nat
            }
            &&& request.headers[0] == ("content-type"@, "application/json"@)
            &&& request.headers[1] == ("idempotency-key"@, key)
            &&& token.len() > 0 ==> request.headers[2] == ("authorization"@, "Bearer "@ + token)
        }),
        REQUEST_TIMEOUT_SECONDS == 5,
{
}

/// A report can be sent exactly if its key is not empty, on one line and no
/// longer than 256 bytes, and its token, if there is one, is on one line.
pub proof fn law_which_reports_can_be_sent(config: Config, key: Seq<char>)
    ensures
        sendable(config, key) <==> {
            &&& key.len() > 0 && !key.contains('\r') && !key.contains('\n')
            &&& encode_utf8(key).len() <= 256
            &&& config.token matches Some(token) ==> !token@.contains('\r') && !token@.contains(
                '\n',
            )
        },
        token_sendable(config) <==> (config.token matches Some(token) ==> !token@.contains('\r')
            && !token@.contains('\n')),
{
    law_what_is_fit_to_be_sent(key);
    if let Some(token) = config.token {
        law_what_is_fit_to_be_sent(token@);
    }
}

/// A report that cannot be sent is not, whatever a hook makes of it.
pub proof fn law_unsendable_report_is_not_sent<H: Fn(Value) -> Option<Value>>(
    monitor: Monitor<H>,
    config: Config,
    path: Seq<char>,
    payload: Value,
    key: Seq<char>,
    request: Option<RequestView>,
)
    requires
        posted(monitor, config, path, payload, key, request),
        !sendable(config, key),
    ensures
        request is None,
{
}

/// With a hook, what becomes of a report that can be sent is what the hook made
/// of it: nothing if the hook gave nothing, and otherwise the request with what
/// redaction leaves of what the hook gave.
pub proof fn law_hooked_report<H: Fn(Value) -> Option<Value>>(
    monitor: Monitor<H>,
    hook: H,
    config: Config,
    path: Seq<char>,
    payload: Value,
    key: Seq<char>,
    request: Option<RequestView>,
)
    requires
        monitor.before_send == Some(hook),
        sendable(config, key),
        posted(monitor, config, path, payload, key, request),
    ensures
        exists|hooked: Option<Value>| #[trigger]
            call_ensures(hook, (payload,), hooked) && match hooked {
                Some(value) => request == Some(
                    delivery(
                        config,
                        path,
                        scrubbed(value@, 0, true, texts(monitor.extra_scrub_keys@)),
                        key,
                    ),
                ),
                None => request is None,
            },
{
    let hooked = choose|hooked: Option<Value>| #[trigger]
        hook_gives(monitor, payload, hooked) && request == (
        match scrubbed_report(json_of(hooked), monitor.extra()) {
            Some(body) => Some(delivery(config, path, body, key)),
            None => None,
        });
    assert(call_ensures(hook, (payload,), hooked));
}

/// Without a hook, every span that is reported is sent to where traces go, under
/// its own key, if that and the token can be sent.
pub proof fn law_span_is_sent<H: Fn(Value) -> Option<Value>>(
    monitor: Monitor<H>,
    config: Config,
    span: Span,
    request: Option<RequestView>,
)
    requires
        monitor.before_send is None,
        sendable(config, span_key(span)),
        span_posted(monitor, config, span, request),
    ensures
        request == Some(
            delivery(
                config,
                "/traces"@,
                scrubbed(
                    Json::Object(span_fields(config, span)),
                    0,
                    true,
                    texts(monitor.extra_scrub_keys@),
                ),
                span_key(span),
            ),
        ),
{
}

/// An event has the time that its options give, or one that was read from the
/// clock, and the id that they give if that can be sent; it is posted as an
/// object of its fields, under its id.
pub proof fn law_event_is_posted<H: Fn(Value) -> Option<Value>>(
    monitor: Monitor<H>,
    config: Config,
    message: Seq<char>,
    options: EventOptions,
    event_id: Seq<char>,
    timestamp: Seq<char>,
    request: Option<RequestView>,
)
    requires
        event_posted(monitor, config, message, options, event_id, timestamp, request),
    ensures
        match options.timestamp {
            Some(given) => timestamp == given@,
            None => utc_timestamp(timestamp) && clock_call(timestamp),
        },
        match options.event_id {
            Some(given) => if key_safe(given@) {
                event_id == given@
            } else {
                fresh_id(event_id, 16)
            },
            None => fresh_id(event_id, 16),
        },
        exists|payload: Value| #[trigger]
            posted(monitor, config, "/ingest"@, payload, event_id, request) && payload@
                == Json::Object(event_fields(config, message, options, event_id, timestamp)),
{
}

/// An error is posted as an object of its fields, under a fresh id and with a
/// fresh span, the time of the clock, the trace that was given or a fresh one,
/// the name that was given, what the error says of itself and a forced
/// backtrace.
pub proof fn law_error_is_posted<H: Fn(Value) -> Option<Value>, E: std::fmt::Display>(
    monitor: Monitor<H>,
    config: Config,
    error: &E,
    name: Seq<char>,
    options: ErrorOptions,
    facts: ErrorFacts,
    request: Option<RequestView>,
)
    requires
        error_posted(monitor, config, error, name, options, facts, request),
    ensures
        fresh_id(facts.event_id, 16) && fresh_id(facts.span_id, 8),
        utc_timestamp(facts.timestamp) && clock_call(facts.timestamp),
        match options.trace {
            Some(trace) => facts.trace_id == trace.trace_id@,
            None => fresh_nonzero_id(facts.trace_id, 16),
        },
        facts.name == name,
        exists|said: String|
            #[trigger] to_string_from_display_ensures::<E>(error, said) && said@ == facts.message,
        exists|taken: Backtrace, written: String|
            #[trigger] to_string_from_display_ensures::<Backtrace>(&taken, written) && written@
                == facts.stack && call_ensures(Backtrace::force_capture, (), taken),
        exists|payload: Value| #[trigger]
            posted(monitor, config, "/ingest"@, payload, facts.event_id, request) && payload@
                == Json::Object(error_fields(config, options, facts)),
{
}

/// A span is posted as an object of its fields, under its key.
pub proof fn law_span_is_posted<H: Fn(Value) -> Option<Value>>(
    monitor: Monitor<H>,
    config: Config,
    span: Span,
    request: Option<RequestView>,
)
    requires
        span_posted(monitor, config, span, request),
    ensures
        exists|payload: Value| #[trigger]
            posted(
                monitor,
                config,
                "/traces"@,
                payload,
                span.trace_id@.push(':') + span.span_id@,
                request,
            ) && payload@ == Json::Object(span_fields(config, span)),
{
    law_which_spans_are_reported(span);
}

} // verus!
