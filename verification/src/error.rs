//! The ways in which instrumenting a module fails.

use vstd::prelude::*;
use vstd::string::StringExecFns;

verus! {

/// Why a module could not be instrumented.
#[derive(Debug, PartialEq, Eq)]
pub enum InstrumentError {
    /// The input is not a valid module; holds the decoder's message.
    ParseError(String),
    /// An element segment lists constant expressions, not function indices.
    UnsupportedElementForm,
    /// A wrapper was asked for around a function that the module imports.
    ImportedTraceeNotSupported,
    /// The encoder rejected the rewritten module; holds its message. The
    /// encoder in use returns bytes whatever the module is and checks
    /// nothing, so no function of this library returns this error.
    EmitError(String),
}

impl InstrumentError {
    /// The text of `message`.
    pub open spec fn message_text(&self) -> Seq<char> {
        match self {
            InstrumentError::ParseError(detail) => "Failed to parse the input wasm module: "@
                + detail@,
            InstrumentError::UnsupportedElementForm =>
                "expression in element segment is not supported yet"@,
            InstrumentError::ImportedTraceeNotSupported =>
                "hook_function called with an imported function"@,
            InstrumentError::EmitError(detail) => "Failed to emit the wasm module: "@ + detail@,
        }
    }

    /// A description of the error for people to read.
    pub fn message(&self) -> (text: String)
        ensures
            text@ == self.message_text(),
    {
        match self {
            InstrumentError::ParseError(detail) => String::from_str(
                "Failed to parse the input wasm module: ",
            ).concat(detail.as_str()),
            InstrumentError::UnsupportedElementForm => String::from_str(
                "expression in element segment is not supported yet",
            ),
            InstrumentError::ImportedTraceeNotSupported => String::from_str(
                "hook_function called with an imported function",
            ),
            InstrumentError::EmitError(detail) => String::from_str(
                "Failed to emit the wasm module: ",
            ).concat(detail.as_str()),
        }
    }
}

} // verus!
