//! The checks that a decoded graph must pass before it is used.
//!
//! Encoding and decoding themselves are done with serde in the application
//! layer; this module holds the rule on schema versions.
use vstd::prelude::*;

use crate::graph::{AlchemistGraph, ALCHEMIST_SCHEMA_VERSION};

verus! {

/// Why a graph could not be encoded or decoded.
#[derive(Debug, PartialEq, Eq)]
pub enum SerializationError {
    /// The encoder failed, with its message.
    Encode(String),
    /// The decoder failed, with its message.
    Decode(String),
    /// The graph was written by a newer schema than this library supports.
    UnsupportedSchema { found: u32, supported: u32 },
}

impl SerializationError {
    /// A readable message for the error.
    pub fn message(&self) -> (r: String)
        ensures
            match self {
                SerializationError::Encode(m) => r@ == "failed to encode Alchemist graph: "@ + m@,
                SerializationError::Decode(m) => r@ == "failed to decode Alchemist graph: "@ + m@,
                SerializationError::UnsupportedSchema { found, supported } => r@ == "Alchemist graph schema "@
                    + crate::text::decimal_text(*found as nat) + " is newer than the supported schema "@
                    + crate::text::decimal_text(*supported as nat),
            },
    {
        proof {
            reveal_strlit("");
        }
        match self {
            SerializationError::Encode(m) => {
                let r = crate::text::concat3("failed to encode Alchemist graph: ", m.as_str(), "");
                proof {
                    assert(r@ =~= "failed to encode Alchemist graph: "@ + m@);
                }
                r
            },
            SerializationError::Decode(m) => {
                let r = crate::text::concat3("failed to decode Alchemist graph: ", m.as_str(), "");
                proof {
                    assert(r@ =~= "failed to decode Alchemist graph: "@ + m@);
                }
                r
            },
            SerializationError::UnsupportedSchema { found, supported } => {
                let head = crate::text::with_decimal(
                    "Alchemist graph schema ",
                    *found as u64,
                    " is newer than the supported schema ",
                );
                let r = crate::text::with_decimal(head.as_str(), *supported as u64, "");
                proof {
                    assert(r@ =~= head@ + crate::text::decimal_text(*supported as nat));
                }
                r
            },
        }
    }
}

/// Accepts a decoded graph unless its schema is newer than the one this
/// library supports.
pub fn accept_decoded(graph: AlchemistGraph) -> (r: Result<AlchemistGraph, SerializationError>)
    ensures
        graph.schema_version > ALCHEMIST_SCHEMA_VERSION ==> r == Err::<AlchemistGraph, SerializationError>(
            SerializationError::UnsupportedSchema { found: graph.schema_version, supported: ALCHEMIST_SCHEMA_VERSION },
        ),
        graph.schema_version <= ALCHEMIST_SCHEMA_VERSION ==> r == Ok::<AlchemistGraph, SerializationError>(graph),
{
    if graph.schema_version > ALCHEMIST_SCHEMA_VERSION {
        return Err(
            SerializationError::UnsupportedSchema { found: graph.schema_version, supported: ALCHEMIST_SCHEMA_VERSION },
        );
    }
    Ok(graph)
}

} // verus!
