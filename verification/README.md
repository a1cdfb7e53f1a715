# octri-monitoring

Error and performance monitoring for Rust services: application events, errors
with a backtrace and the spans of a distributed trace, with credentials and
personal data taken out before anything leaves the process.

- `src/` is the library, verified with Verus. It turns what the application
  reports into the requests to send.
  - `capture`: events, errors and spans.
  - `monitor`, `request`: the settings, the hook, and the request that is made.
  - `scrub`, `keys`, `sweep`, `patterns`: redaction, by the name of a field and
    by the shape of what stands in a text.
  - `ids`, `trace`: identifiers, headers and the W3C trace context.
  - `value`: JSON values and their model.
  - `text`, `ascii`: what the rest needs of strings.
  - `outside`: what is believed of the standard library and of other crates.
  - `laws`: what holds of every report.
- `app/` is the crate that applications call: it keeps the settings of the
  process and sends the requests over HTTP.
- `tests/` holds the tests of the library.
