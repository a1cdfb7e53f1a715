//! The last step before a report leaves: the hook, the redaction, and the
//! request that carries what is left.
use crate::ids::{header_safe, key_safe, safe_header_value, safe_idempotency_key};
use crate::keys::texts;
use crate::monitor::{Config, Monitor};
use crate::scrub::{scrub_value, scrubbed};
use crate::value::{json_of, single_if_any, single_named, Json, Value};
use vstd::prelude::*;

verus! {

/// How long a request may take, in seconds.
pub const REQUEST_TIMEOUT_SECONDS: u64 = 5;

/// An HTTP request to send with the method `POST`.
#[derive(Clone, Debug)]
pub struct Request {
    pub url: String,
    pub headers: Vec<(String, String)>,
    pub body: Value,
}

/// What a `Request` says.
#[verifier::ext_equal]
pub struct RequestView {
    pub url: Seq<char>,
    pub headers: Seq<(Seq<char>, Seq<char>)>,
    pub body: Json,
}

impl View for Request {
    type V = RequestView;

    open spec fn view(&self) -> RequestView {
        RequestView {
            url: self.url@,
            headers: self.headers@.map_values(|header: (String, String)| (header.0@, header.1@)),
            body: self.body@,
        }
    }
}

/// What a request says that may not be there.
pub open spec fn request_of(request: Option<Request>) -> Option<RequestView> {
    match request {
        Some(request) => Some(request@),
        None => None,
    }
}

/// The body of a request, if there is one, has no name twice in an object.
pub open spec fn single_body(request: Option<Request>) -> bool {
    request matches Some(request) ==> single_named(request.body)
}

/// What is left of a report that a hook may have dropped.
pub open spec fn scrubbed_report(report: Option<Json>, extra: Seq<Seq<char>>) -> Option<Json> {
    match report {
        Some(payload) => Some(scrubbed(payload, 0, true, extra)),
        None => None,
    }
}

/// The hook, if there is one, takes any report.
pub open spec fn hook_ready<H: Fn(Value) -> Option<Value>>(monitor: Monitor<H>) -> bool {
    monitor.before_send matches Some(hook) ==> forall|payload: Value|
        call_requires(hook, (payload,))
}

/// Whether `hooked` is what the hook, if there is one, can make of `payload`.
pub open spec fn hook_gives<H: Fn(Value) -> Option<Value>>(
    monitor: Monitor<H>,
    payload: Value,
    hooked: Option<Value>,
) -> bool {
    match monitor.before_send {
        Some(hook) => call_ensures(hook, (payload,), hooked),
        None => hooked == Some(payload),
    }
}

/// The headers of a request.
pub open spec fn headers_for(config: Config, key: Seq<char>) -> Seq<(Seq<char>, Seq<char>)> {
    let headers = seq![
        ("content-type"@, "application/json"@),
        ("idempotency-key"@, key),
    ];
    match config.token {
        Some(token) if token@.len() > 0 => headers.push(("authorization"@, "Bearer "@ + token@)),
        _ => headers,
    }
}

/// Whether a report with this key can be sent: nothing in its headers may
/// break out of its line.
pub open spec fn sendable(config: Config, key: Seq<char>) -> bool {
    key_safe(key) && token_sendable(config)
}

/// Whether the token, if there is one, can be sent.
pub open spec fn token_sendable(config: Config) -> bool {
    config.token matches Some(token) ==> token@.len() == 0 || header_safe(token@)
}

/// The request that delivers `body` to `path` under `key`.
pub open spec fn delivery(config: Config, path: Seq<char>, body: Json, key: Seq<char>) -> RequestView {
    RequestView { url: config.url@ + path, headers: headers_for(config, key), body }
}

/// Whether `request` is what becomes of the report `payload` under `key`: none
/// where it cannot be sent or the hook drops it, and otherwise the request with
/// what the hook made of it, redacted.
pub open spec fn posted<H: Fn(Value) -> Option<Value>>(
    monitor: Monitor<H>,
    config: Config,
    path: Seq<char>,
    payload: Value,
    key: Seq<char>,
    request: Option<RequestView>,
) -> bool {
    if !sendable(config, key) {
        request is None
    } else {
        exists|hooked: Option<Value>|
            {
                &&& #[trigger] hook_gives(monitor, payload, hooked)
                &&& request == (match scrubbed_report(json_of(hooked), monitor.extra()) {
                    Some(body) => Some(delivery(config, path, body, key)),
                    None => None,
                })
            }
    }
}

/// Redacts what a hook left of a report.
pub fn scrub_hooked(hooked: Option<Value>, extra: &Vec<String>) -> (out: Option<Value>)
    ensures
        json_of(out) == scrubbed_report(json_of(hooked), texts(extra@)),
        single_if_any(out),
{
    match hooked {
        Some(payload) => Some(scrub_value(payload, 0, true, extra)),
        None => None,
    }
}

/// The last thing every payload passes through. Both the hook and the redaction
/// live here rather than in the capture functions, so nothing can be reported
/// around them.
pub fn scrub_payload<H: Fn(Value) -> Option<Value>>(monitor: &Monitor<H>, payload: Value) -> (out:
    Option<Value>)
    requires
        hook_ready(*monitor),
    ensures
        exists|hooked: Option<Value>| #[trigger]
            hook_gives(*monitor, payload, hooked) && json_of(out) == scrubbed_report(
                json_of(hooked),
                monitor.extra(),
            ),
        single_if_any(out),
{
    let hooked: Option<Value> = match &monitor.before_send {
        Some(hook) => hook(payload),
        None => Some(payload),
    };
    assert(hook_gives(*monitor, payload, hooked));
    scrub_hooked(hooked, &monitor.extra_scrub_keys)
}

/// The request that delivers `payload` to `path`, if there is one.
pub fn post<H: Fn(Value) -> Option<Value>>(
    monitor: &Monitor<H>,
    config: &Config,
    path: &str,
    payload: Value,
    idempotency_key: String,
) -> (request: Option<Request>)
    requires
        hook_ready(*monitor),
    ensures
        posted(
            *monitor,
            *config,
            path@,
            payload,
            idempotency_key@,
            request_of(request),
        ),
        single_body(request),
{
    if !safe_idempotency_key(idempotency_key.as_str()) {
        return None;
    }
    if let Some(token) = &config.token {
        if !token.as_str().is_empty() && !safe_header_value(token.as_str()) {
            return None;
        }
    }
    let body: Value = match scrub_payload(monitor, payload) {
        Some(body) => body,
        None => {
            return None;
        },
    };
    Some(request_for(config, path, body, idempotency_key))
}

/// The request that delivers a redacted `body` to `path`.
pub fn request_for(config: &Config, path: &str, body: Value, idempotency_key: String) -> (request:
    Request)
    ensures
        request@ == delivery(*config, path@, body@, idempotency_key@),
        single_named(body) ==> single_named(request.body),
{
    let mut url: String = config.url.clone();
    url.append(path);
    let mut headers: Vec<(String, String)> = Vec::new();
    headers.push(("content-type".to_owned(), "application/json".to_owned()));
    headers.push(("idempotency-key".to_owned(), idempotency_key));
    if let Some(token) = &config.token {
        if !token.as_str().is_empty() {
            let mut authorization: String = "Bearer ".to_owned();
            authorization.append(token.as_str());
            headers.push(("authorization".to_owned(), authorization));
        }
    }
    let request: Request = Request { url, headers, body };
    assert(request@.headers =~= headers_for(*config, idempotency_key@));
    request
}

} // verus!
