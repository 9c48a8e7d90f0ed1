//! Conversion layer between row-oriented records and columnar DataFrames,
//! centred on schema inference signals and temporal-type reconciliation.
//!
//! The heart of the library is a pair of batch rewrites: a forward pass that
//! turns text-encoded date and timestamp columns into native temporal columns
//! (and dictionary-coded text into plain text), and a reverse pass that turns
//! native temporal columns back into the exact textual form the row codec can
//! decode.  Both passes, the calendar arithmetic under them, and the signal
//! detection rules are specified and verified here.

pub mod batch;
pub mod calendar;
pub mod datetext;
pub mod digits;
pub mod error;
pub mod laws;
pub mod reconcile;
pub mod signal;
pub mod timetext;
pub mod unreconcile;

pub use error::PolarsSerdeError;
