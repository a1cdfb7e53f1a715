//! What reports say, field by field.
use crate::capture::{
    error_fields, event_fields, span_complete, span_fields, span_key, ErrorFacts, ErrorOptions,
    EventOptions, Span,
};
use crate::monitor::Config;
use crate::outside::integer_number;
use crate::value::{json_fields, json_items, Json};
use vstd::prelude::*;

verus! {

/// Under `name` stands `value`, or there is no such field where there is no
/// value.
pub open spec fn says(fields: Map<Seq<char>, Json>, name: Seq<char>, value: Option<Json>) -> bool {
    match value {
        Some(value) => fields.contains_key(name) && fields[name] == value,
        None => !fields.contains_key(name),
    }
}

/// A text, if there is one.
pub open spec fn if_text(text: Option<String>) -> Option<Json> {
    match text {
        Some(text) => Some(Json::Text(text@)),
        None => None,
    }
}

/// An integer, if there is one.
pub open spec fn if_integer(number: Option<i64>) -> Option<Json> {
    match number {
        Some(number) => Some(Json::Number(integer_number(number))),
        None => None,
    }
}

/// A text, or null.
pub open spec fn text_else_null(text: Option<String>) -> Option<Json> {
    match text {
        Some(text) => Some(Json::Text(text@)),
        None => Some(Json::Null),
    }
}

/// The names of fields tell themselves apart by their length and their first
/// character, but for two of them.
proof fn lemma_names()
    ensures
        "eventId"@.len() == 7 && "eventId"@[0] == 'e',
        "timestamp"@.len() == 9 && "timestamp"@[0] == 't',
        "level"@.len() == 5 && "level"@[0] == 'l',
        "message"@.len() == 7 && "message"@[0] == 'm',
        "environment"@.len() == 11 && "environment"@[0] == 'e',
        "release"@.len() == 7 && "release"@[0] == 'r',
        "operationId"@.len() == 11 && "operationId"@[0] == 'o',
        "method"@.len() == 6 && "method"@[0] == 'm',
        "path"@.len() == 4 && "path"@[0] == 'p',
        "statusCode"@.len() == 10 && "statusCode"@[0] == 's',
        "latencyMs"@.len() == 9 && "latencyMs"@[0] == 'l',
        "attempt"@.len() == 7 && "attempt"@[0] == 'a',
        "requestId"@.len() == 9 && "requestId"@[0] == 'r',
        "user"@.len() == 4 && "user"@[0] == 'u',
        "tags"@.len() == 4 && "tags"@[0] == 't',
        "context"@.len() == 7 && "context"@[0] == 'c',
        "breadcrumbs"@.len() == 11 && "breadcrumbs"@[0] == 'b',
        "fingerprint"@.len() == 11 && "fingerprint"@[0] == 'f',
        "traceId"@.len() == 7 && "traceId"@[0] == 't',
        "spanId"@.len() == 6 && "spanId"@[0] == 's',
        "error"@.len() == 5 && "error"@[0] == 'e',
        "name"@.len() == 4 && "name"@[0] == 'n',
        "stack"@.len() == 5 && "stack"@[0] == 's',
        "frames"@.len() == 6 && "frames"@[0] == 'f',
        "parentSpanId"@.len() == 12 && "parentSpanId"@[0] == 'p',
        "service"@.len() == 7 && "service"@[0] == 's',
        "startTime"@.len() == 9 && "startTime"@[0] == 's',
        "endTime"@.len() == 7 && "endTime"@[0] == 'e',
        "status"@.len() == 6 && "status"@[0] == 's',
        "spanId"@[1] == 'p',
        "status"@[1] == 't',
{
    reveal_strlit("eventId");
    reveal_strlit("timestamp");
    reveal_strlit("level");
    reveal_strlit("message");
    reveal_strlit("environment");
    reveal_strlit("release");
    reveal_strlit("operationId");
    reveal_strlit("method");
    reveal_strlit("path");
    reveal_strlit("statusCode");
    reveal_strlit("latencyMs");
    reveal_strlit("attempt");
    reveal_strlit("requestId");
    reveal_strlit("user");
    reveal_strlit("tags");
    reveal_strlit("context");
    reveal_strlit("breadcrumbs");
    reveal_strlit("fingerprint");
    reveal_strlit("traceId");
    reveal_strlit("spanId");
    reveal_strlit("error");
    reveal_strlit("name");
    reveal_strlit("stack");
    reveal_strlit("frames");
    reveal_strlit("parentSpanId");
    reveal_strlit("service");
    reveal_strlit("startTime");
    reveal_strlit("endTime");
    reveal_strlit("status");
}

/// An event says its id, its time, its message, its environment and its release,
/// and its level, which is `info` where none is given.
#[verifier::rlimit(50)]
pub proof fn law_what_every_event_says(
    config: Config,
    message: Seq<char>,
    options: EventOptions,
    event_id: Seq<char>,
    timestamp: Seq<char>,
)
    ensures
        ({
            let fields = event_fields(config, message, options, event_id, timestamp);
            &&& says(fields, "eventId"@, Some(Json::Text(event_id)))
            &&& says(fields, "timestamp"@, Some(Json::Text(timestamp)))
            &&& says(
                fields,
                "level"@,
                Some(
                    match options.level {
                        Some(level) => Json::Text(level@),
                        None => Json::Text("info"@),
                    },
                ),
            )
            &&& says(fields, "message"@, Some(Json::Text(message)))
            &&& says(fields, "environment"@, Some(Json::Text(config.environment@)))
            &&& says(fields, "release"@, if_text(config.release))
        }),
{
    lemma_names();
}

/// An event says of the request that it belongs to what its options give, each
/// under its name, and nothing where they give nothing.
#[verifier::rlimit(50)]
pub proof fn law_what_an_event_says_of_the_request(
    config: Config,
    message: Seq<char>,
    options: EventOptions,
    event_id: Seq<char>,
    timestamp: Seq<char>,
)
    ensures
        ({
            let fields = event_fields(config, message, options, event_id, timestamp);
            &&& says(fields, "operationId"@, if_text(options.operation_id))
            &&& says(fields, "method"@, if_text(options.method))
            &&& says(fields, "path"@, if_text(options.path))
            &&& says(fields, "statusCode"@, if_integer(options.status_code))
            &&& says(
                fields,
                "latencyMs"@,
                match options.latency_ms {
                    Some(latency) => Some(latency@),
                    None => None,
                },
            )
            &&& says(fields, "attempt"@, if_integer(options.attempt))
            &&& says(fields, "requestId"@, if_text(options.request_id))
        }),
{
    lemma_names();
}

/// An event says who was there and what went before as its options give it, and
/// nothing where they give nothing.
#[verifier::rlimit(50)]
pub proof fn law_what_an_event_says_of_its_context(
    config: Config,
    message: Seq<char>,
    options: EventOptions,
    event_id: Seq<char>,
    timestamp: Seq<char>,
)
    ensures
        ({
            let fields = event_fields(config, message, options, event_id, timestamp);
            &&& says(
                fields,
                "user"@,
                match options.user {
                    Some(user) => Some(Json::Object(json_fields(user@))),
                    None => None,
                },
            )
            &&& says(
                fields,
                "context"@,
                match options.context {
                    Some(context) => Some(Json::Object(json_fields(context@))),
                    None => None,
                },
            )
            &&& says(
                fields,
                "breadcrumbs"@,
                match options.breadcrumbs {
                    Some(crumbs) => Some(Json::Array(json_items(crumbs@))),
                    None => None,
                },
            )
        }),
{
    lemma_names();
}

/// An event says its fingerprint, its trace and its span as its options give
/// them, and nothing where they give nothing.
#[verifier::rlimit(50)]
pub proof fn law_what_an_event_says_of_its_trace(
    config: Config,
    message: Seq<char>,
    options: EventOptions,
    event_id: Seq<char>,
    timestamp: Seq<char>,
)
    ensures
        ({
            let fields = event_fields(config, message, options, event_id, timestamp);
            &&& says(fields, "fingerprint"@, if_text(options.fingerprint))
            &&& says(
                fields,
                "traceId"@,
                match options.trace {
                    Some(trace) => Some(Json::Text(trace.trace_id@)),
                    None => None,
                },
            )
            &&& says(fields, "spanId"@, if_text(options.span_id))
            &&& fields.contains_key("tags"@)
        }),
{
    lemma_names();
}

/// An event has no fields but those, and its tags.
pub proof fn law_an_event_says_no_more(
    config: Config,
    message: Seq<char>,
    options: EventOptions,
    event_id: Seq<char>,
    timestamp: Seq<char>,
    name: Seq<char>,
)
    requires
        event_fields(config, message, options, event_id, timestamp).contains_key(name),
    ensures
        name == "eventId"@ || name == "timestamp"@ || name == "level"@ || name == "message"@ || name
            == "environment"@ || name == "release"@ || name == "operationId"@ || name == "method"@
            || name == "path"@ || name == "statusCode"@ || name == "latencyMs"@ || name
            == "attempt"@ || name == "requestId"@ || name == "user"@ || name == "tags"@ || name
            == "context"@ || name == "breadcrumbs"@ || name == "fingerprint"@ || name == "traceId"@
            || name == "spanId"@,
{
}

/// The tags of an event are all those that its options give, each with the value
/// that they give it, and where it comes from, unless they say that too.
pub proof fn law_tags_of_an_event(
    config: Config,
    message: Seq<char>,
    options: EventOptions,
    event_id: Seq<char>,
    timestamp: Seq<char>,
    name: Seq<char>,
)
    ensures
        ({
            let fields = event_fields(config, message, options, event_id, timestamp);
            let given = match options.tags {
                Some(tags) => json_fields(tags@),
                None => Map::empty(),
            };
            &&& fields.contains_key("tags"@)
            &&& fields["tags"@] matches Json::Object(tags)
            &&& given.contains_key(name) ==> says(tags, name, Some(given[name]))
            &&& name == "octri.origin"@ && !given.contains_key(name) ==> says(
                tags,
                name,
                Some(Json::Text("standalone"@)),
            )
            &&& name != "octri.origin"@ && !given.contains_key(name) ==> says(tags, name, None)
        }),
{
    lemma_names();
}

/// A report of an error says its ids, its time, its environment and its trace,
/// the level `error` where none is given, where it comes from, what its options
/// give, and what the error is called, what it says and where it happened.
pub proof fn law_what_an_error_says(config: Config, options: ErrorOptions, facts: ErrorFacts)
    ensures
        ({
            let fields = error_fields(config, options, facts);
            &&& says(fields, "eventId"@, Some(Json::Text(facts.event_id)))
            &&& says(fields, "timestamp"@, Some(Json::Text(facts.timestamp)))
            &&& says(
                fields,
                "level"@,
                Some(
                    match options.level {
                        Some(level) => Json::Text(level@),
                        None => Json::Text("error"@),
                    },
                ),
            )
            &&& says(fields, "environment"@, Some(Json::Text(config.environment@)))
            &&& says(fields, "release"@, if_text(config.release))
            &&& says(fields, "traceId"@, Some(Json::Text(facts.trace_id)))
            &&& says(fields, "spanId"@, Some(Json::Text(facts.span_id)))
            &&& says(fields, "operationId"@, if_text(options.operation_id))
            &&& says(fields, "method"@, if_text(options.method))
            &&& says(fields, "path"@, if_text(options.path))
            &&& says(fields, "statusCode"@, if_integer(options.status_code))
            &&& fields.contains_key("tags"@) && fields.contains_key("error"@)
            &&& fields["tags"@] matches Json::Object(tags)
            &&& says(tags, "octri.origin"@, Some(Json::Text("server"@)))
            &&& forall|name: Seq<char>| #[trigger]
                tags.contains_key(name) ==> name == "octri.origin"@
        }),
{
    lemma_names();
}

/// What a report says of the error itself.
pub proof fn law_what_is_said_of_the_error(
    config: Config,
    options: ErrorOptions,
    facts: ErrorFacts,
    name: Seq<char>,
)
    ensures
        ({
            let fields = error_fields(config, options, facts);
            &&& fields.contains_key("error"@)
            &&& fields["error"@] matches Json::Object(error)
            &&& says(error, "name"@, Some(Json::Text(facts.name)))
            &&& says(error, "message"@, Some(Json::Text(facts.message)))
            &&& says(error, "stack"@, Some(Json::Text(facts.stack)))
            &&& says(error, "frames"@, Some(Json::Array(seq![])))
            &&& error.contains_key(name) ==> name == "name"@ || name == "message"@ || name
                == "stack"@ || name == "frames"@
        }),
        error_fields(config, options, facts).contains_key(name) ==> name == "eventId"@ || name
            == "timestamp"@ || name == "level"@ || name == "environment"@ || name == "release"@
            || name == "traceId"@ || name == "spanId"@ || name == "tags"@ || name == "error"@
            || name == "operationId"@ || name == "method"@ || name == "path"@ || name
            == "statusCode"@,
{
    lemma_names();
}

/// A span says under each name what it holds, with null for what is not set,
/// `server` for a service and `ok` for a status that is empty; and nothing
/// else.
pub proof fn law_what_a_span_says(config: Config, span: Span, name: Seq<char>)
    ensures
        ({
            let fields = span_fields(config, span);
            &&& says(fields, "traceId"@, Some(Json::Text(span.trace_id@)))
            &&& says(fields, "spanId"@, Some(Json::Text(span.span_id@)))
            &&& says(fields, "parentSpanId"@, text_else_null(span.parent_span_id))
            &&& says(fields, "environment"@, Some(Json::Text(config.environment@)))
            &&& says(fields, "name"@, Some(Json::Text(span.name@)))
            &&& says(fields, "operationId"@, text_else_null(span.operation_id))
            &&& says(fields, "startTime"@, Some(Json::Text(span.start_time@)))
            &&& says(fields, "endTime"@, text_else_null(span.end_time))
            &&& span.service@.len() > 0 ==> says(
                fields,
                "service"@,
                Some(Json::Text(span.service@)),
            )
            &&& span.service@.len() == 0 ==> says(
                fields,
                "service"@,
                Some(Json::Text("server"@)),
            )
            &&& span.status@.len() > 0 ==> says(fields, "status"@, Some(Json::Text(span.status@)))
            &&& span.status@.len() == 0 ==> says(fields, "status"@, Some(Json::Text("ok"@)))
            &&& fields.contains_key(name) ==> name == "traceId"@ || name == "spanId"@ || name
                == "parentSpanId"@ || name == "environment"@ || name == "name"@ || name
                == "service"@ || name == "operationId"@ || name == "startTime"@ || name
                == "endTime"@ || name == "status"@
        }),
{
    lemma_names();
}

/// A span is reported exactly if neither of its ids, nor its name, nor its start
/// time is empty; its key is its trace id, a colon and its span id.
pub proof fn law_which_spans_are_reported(span: Span)
    ensures
        span_complete(span) <==> span.trace_id@ != Seq::<char>::empty() && span.span_id@ != Seq::<
            char,
        >::empty() && span.name@ != Seq::<char>::empty() && span.start_time@ != Seq::<
            char,
        >::empty(),
        span_key(span) == span.trace_id@.push(':') + span.span_id@,
{
    reveal_strlit(":");
    assert(span.trace_id@.len() == 0 ==> span.trace_id@ =~= Seq::<char>::empty());
    assert(span.span_id@.len() == 0 ==> span.span_id@ =~= Seq::<char>::empty());
    assert(span.name@.len() == 0 ==> span.name@ =~= Seq::<char>::empty());
    assert(span.start_time@.len() == 0 ==> span.start_time@ =~= Seq::<char>::empty());
    assert(span_key(span) =~= span.trace_id@.push(':') + span.span_id@);
}

} // verus!
