//! What holds of every report, whatever it says and whoever made it.
pub mod ids;
pub mod keys;
pub mod luhn;
pub mod redaction;
pub mod reports;
pub mod requests;
pub mod shapes;
pub mod sweep;
pub mod traces;
pub mod values;
