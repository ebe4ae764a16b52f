use vstd::prelude::*;
use crate::value::Thing;

verus! {

/// The failures of index maintenance.
#[derive(Debug)]
pub enum Error {
    /// A conditional write found the key in another state than expected.
    TxConditionNotMet,
    /// A unique index already holds the tuple for another record.
    IndexExists { thing: Thing, index: String, value: String },
    /// The index kind is not supported yet.
    FeatureNotYetImplemented { feature: String },
    /// The full-text analyzer named by an index is not defined.
    AnalyzerNotFound { name: String },
}

} // verus!

verus! {

/// The mathematical content of an [`Error`].
pub enum ErrorModel {
    TxConditionNotMet,
    IndexExists { thing: (Seq<char>, u64), index: Seq<char>, value: Seq<char> },
    FeatureNotYetImplemented { feature: Seq<char> },
    AnalyzerNotFound { name: Seq<char> },
}

impl View for Error {
    type V = ErrorModel;

    open spec fn view(&self) -> ErrorModel {
        match self {
            Error::TxConditionNotMet => ErrorModel::TxConditionNotMet,
            Error::IndexExists { thing, index, value } => ErrorModel::IndexExists {
                thing: thing@,
                index: index@,
                value: value@,
            },
            Error::FeatureNotYetImplemented { feature } => ErrorModel::FeatureNotYetImplemented {
                feature: feature@,
            },
            Error::AnalyzerNotFound { name } => ErrorModel::AnalyzerNotFound { name: name@ },
        }
    }
}

} // verus!
