//! The error taxonomy of the conversion layer.  Failures of the outside
//! codec, columnar library and engine bridge are carried as their rendered
//! messages; the layer's own failures carry structured detail.

use vstd::prelude::*;
use crate::digits::{dec_seq, push_dec_u64};

verus! {

#[derive(Debug)]
pub enum PolarsSerdeError {
    /// An error reported by the DataFrame engine.
    PolarsError(String),
    /// An error reported by the row-to-column codec.
    SerdeArrowError(String),
    /// An error reported by the columnar array library.
    ArrowError(String),
    /// An error reported by the engine bridge.
    InterchangeError(String),
    /// The row-count invariant between batch and frame was broken.
    InvalidRowCount { expected: usize, actual: usize },
    /// A conversion was asked for on an empty record sequence.
    EmptyInput,
    /// A column could not be reconciled; the message names the offender.
    ConversionError { message: String },
}

impl PolarsSerdeError {
    /// The human-readable line this error renders as.
    pub open spec fn spec_message(&self) -> Seq<char> {
        match self {
            PolarsSerdeError::PolarsError(m) => "Polars error: "@ + m@,
            PolarsSerdeError::SerdeArrowError(m) => "Serde Arrow error: "@ + m@,
            PolarsSerdeError::ArrowError(m) => "Arrow error: "@ + m@,
            PolarsSerdeError::InterchangeError(m) => "Interchange error: "@ + m@,
            PolarsSerdeError::InvalidRowCount { expected, actual } => {
                "Invalid row count: expected "@ + dec_seq(*expected as int) + ", got "@ + dec_seq(
                    *actual as int,
                )
            },
            PolarsSerdeError::EmptyInput => "Cannot create DataFrame from empty input"@,
            PolarsSerdeError::ConversionError { message } => "Conversion error: "@ + message@,
        }
    }

    /// Renders the error message.
    pub fn message(&self) -> (r: String)
        ensures
            r@ == self.spec_message(),
    {
        match self {
            PolarsSerdeError::PolarsError(m) => {
                let mut s = String::new();
                s.append("Polars error: ");
                s.append(m.as_str());
                proof {
                    assert(s@ =~= self.spec_message());
                }
                s
            },
            PolarsSerdeError::SerdeArrowError(m) => {
                let mut s = String::new();
                s.append("Serde Arrow error: ");
                s.append(m.as_str());
                proof {
                    assert(s@ =~= self.spec_message());
                }
                s
            },
            PolarsSerdeError::ArrowError(m) => {
                let mut s = String::new();
                s.append("Arrow error: ");
                s.append(m.as_str());
                proof {
                    assert(s@ =~= self.spec_message());
                }
                s
            },
            PolarsSerdeError::InterchangeError(m) => {
                let mut s = String::new();
                s.append("Interchange error: ");
                s.append(m.as_str());
                proof {
                    assert(s@ =~= self.spec_message());
                }
                s
            },
            PolarsSerdeError::InvalidRowCount { expected, actual } => {
                let mut s = String::new();
                s.append("Invalid row count: expected ");
                push_dec_u64(&mut s, *expected as u64);
                s.append(", got ");
                push_dec_u64(&mut s, *actual as u64);
                proof {
                    assert(s@ =~= self.spec_message());
                }
                s
            },
            PolarsSerdeError::EmptyInput => {
                let mut s = String::new();
                s.append("Cannot create DataFrame from empty input");
                proof {
                    assert(s@ =~= self.spec_message());
                }
                s
            },
            PolarsSerdeError::ConversionError { message } => {
                let mut s = String::new();
                s.append("Conversion error: ");
                s.append(message.as_str());
                proof {
                    assert(s@ =~= self.spec_message());
                }
                s
            },
        }
    }
}

} // verus!
