//! Error kinds surfaced by the analysis pipeline.

use vstd::prelude::*;

verus! {

/// A failure while transforming one recording. Each variant names the
/// condition under which the pipeline functions return it.
#[derive(Debug, PartialEq, Eq)]
pub enum AnalysisError {
    /// A requested column name is absent from the table.
    UnknownColumn(String),
    /// A column does not hold the kind of data the operation needs.
    TypeMismatch,
    /// A quantile summary was requested over an empty vector.
    EmptyInput,
    /// A sample could not be read as a finite decimal number.
    NonFiniteInput,
    /// The two metadata rows do not have the required shape.
    BadHeader,
    /// The valid-time selection string does not follow its grammar.
    BadSelection,
}

impl AnalysisError {
    /// A human-readable reason string, as shown in progress dialogs.
    pub fn message(&self) -> (r: String)
        ensures
            r@ == self.spec_message(),
    {
        match self {
            AnalysisError::UnknownColumn(name) => {
                let mut s = String::new();
                s.append("unknown column: ");
                s.append(name.as_str());
                proof {
                    assert(s@ =~= self.spec_message());
                }
                s
            },
            AnalysisError::TypeMismatch => String::from_str("type mismatch"),
            AnalysisError::EmptyInput => String::from_str("empty input"),
            AnalysisError::NonFiniteInput => String::from_str("non-finite input"),
            AnalysisError::BadHeader => String::from_str("bad header"),
            AnalysisError::BadSelection => String::from_str("bad selection"),
        }
    }

    /// The characters of [`Self::message`].
    pub open spec fn spec_message(&self) -> Seq<char> {
        match self {
            AnalysisError::UnknownColumn(name) => "unknown column: "@ + name@,
            AnalysisError::TypeMismatch => "type mismatch"@,
            AnalysisError::EmptyInput => "empty input"@,
            AnalysisError::NonFiniteInput => "non-finite input"@,
            AnalysisError::BadHeader => "bad header"@,
            AnalysisError::BadSelection => "bad selection"@,
        }
    }
}

} // verus!
