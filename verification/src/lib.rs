//! Standalone Octri monitoring for Rust applications: what is reported, and
//! what never leaves the process.
//!
//! A [`Monitor`] holds what the application configured. The capture functions
//! make a report of an event, an error or a span, pass it through the hook and
//! the redaction, and give back the request to send, if there is one. Nothing
//! here sends it.
pub mod ascii;
pub mod capture;
pub mod ids;
pub mod keys;
pub mod laws;
pub mod monitor;
pub mod outside;
pub mod patterns;
pub mod request;
pub mod scrub;
pub mod sweep;
pub mod text;
pub mod trace;
pub mod value;

pub use capture::{capture_error, capture_event, capture_span, ErrorOptions, EventOptions, Span};
pub use monitor::{
    add_scrub_fields, clear_before_send, init, set_before_send, Config, Monitor,
};
pub use request::Request;
pub use trace::{trace_from_header, TraceContext};
pub use value::Value;
