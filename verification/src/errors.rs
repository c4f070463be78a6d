//! What a stage of the derivation pipeline reports when it cannot hand out
//! an item.

use crate::oracle::OracleError;
use vstd::prelude::*;

verus! {

/// Why a stage has no item.
#[derive(Debug, Clone, Copy, PartialEq, Eq, Hash, Structural)]
pub enum PipelineError {
    /// The source has no more data.
    Eof,
    /// The stage needs more data before it can go on.
    NotEnoughData,
    /// The stage has no layer 1 origin.
    MissingOrigin,
    /// A provider failed.
    Provider,
}

/// How heavy an error is.
#[derive(Debug, Clone, Copy, PartialEq, Eq, Hash, Structural)]
pub enum PipelineErrorKind {
    /// The pipeline may try again once more data is there.
    Temporary(PipelineError),
    /// The pipeline cannot go on.
    Critical(PipelineError),
    /// The pipeline must be reset.
    Reset,
}

impl PipelineError {
    /// The error as one that may pass.
    pub fn temp(self) -> (kind: PipelineErrorKind)
        ensures
            kind == PipelineErrorKind::Temporary(self),
    {
        PipelineErrorKind::Temporary(self)
    }

    /// The error as one that ends the pipeline.
    pub fn crit(self) -> (kind: PipelineErrorKind)
        ensures
            kind == PipelineErrorKind::Critical(self),
    {
        PipelineErrorKind::Critical(self)
    }
}

/// Why a blob provider failed.
#[derive(Debug, Clone, Copy, PartialEq, Eq, Hash, Structural)]
pub enum BlobProviderError {
    /// The provider has another number of blobs than it was asked for.
    SidecarLengthMismatch { expected: usize, found: usize },
    /// The oracle has no value for a key of the blob.
    Oracle(OracleError),
}

} // verus!
