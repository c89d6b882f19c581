//! Recoverable validation, discovery, and decoding failures, and their diagnostics.
use vstd::prelude::*;

use crate::score::{decimal, decimal_text};
use crate::text::{chars_of as lit, concat};

verus! {

/// Describes recoverable validation, discovery, and decoding failures.
#[derive(Debug)]
pub enum EvaluatorError {
    /// An input path did not identify the required regular file or directory.
    InvalidPath {
        /// Path that failed validation.
        path: String,
        /// Human-readable path type expected by the evaluator.
        expected: String,
    },
    /// An output directory would overlap the read-only submitted package.
    UnsafeOutputOverlap {
        /// Requested output directory.
        output: String,
        /// Generated package directory that must remain read-only.
        generated: String,
    },
    /// A filesystem operation failed for a known path.
    Io {
        /// Path involved in the failed operation.
        path: String,
        /// The operating system's diagnostic.
        detail: String,
    },
    /// A submitted text artifact was not valid UTF-8.
    InvalidUtf8 {
        /// Artifact that could not be decoded.
        path: String,
    },
    /// A submitted JSON input could not be parsed.
    InvalidJson {
        /// JSON file that could not be parsed.
        path: String,
        /// Parser diagnostic retained as evidence.
        detail: String,
    },
    /// One supported artifact exceeded its configured byte limit.
    ArtifactTooLarge {
        /// Artifact that exceeded the limit.
        path: String,
        /// Configured inclusive byte limit.
        limit: usize,
    },
    /// The collected package exceeded its configured aggregate byte limit.
    PackageTooLarge {
        /// Configured inclusive aggregate byte limit.
        limit: usize,
    },
    /// The package contained more supported artifacts than configured.
    TooManyArtifacts {
        /// Configured inclusive artifact-count limit.
        limit: usize,
    },
    /// Discovery visited more files, directories, and symlinks than configured.
    TooManyEntries {
        /// Configured inclusive discovered-entry limit.
        limit: usize,
    },
    /// A package identifier was empty after trimming whitespace.
    EmptyPackageId,
    /// A report could not be serialized.
    Serialization {
        /// Serializer diagnostic.
        detail: String,
    },
}

/// The concise command-line diagnostic of an error.
pub open spec fn error_message(e: EvaluatorError) -> Seq<char> {
    match e {
        EvaluatorError::InvalidPath { path, expected } => path@ + " is not "@ + expected@,
        EvaluatorError::UnsafeOutputOverlap { output, generated } => "output "@ + output@
            + " overlaps read-only package "@ + generated@,
        EvaluatorError::Io { path, detail } => path@ + ": "@ + detail@,
        EvaluatorError::InvalidUtf8 { path } => path@ + " is not UTF-8"@,
        EvaluatorError::InvalidJson { path, detail } => path@ + " contains invalid JSON: "@
            + detail@,
        EvaluatorError::ArtifactTooLarge { path, limit } => path@ + " exceeds the "@ + decimal(
            limit as nat,
        ) + "-byte artifact limit"@,
        EvaluatorError::PackageTooLarge { limit } => "package exceeds the "@ + decimal(
            limit as nat,
        ) + "-byte aggregate limit"@,
        EvaluatorError::TooManyArtifacts { limit } => "package exceeds the "@ + decimal(
            limit as nat,
        ) + "-artifact limit"@,
        EvaluatorError::TooManyEntries { limit } => "package exceeds the "@ + decimal(
            limit as nat,
        ) + "-entry discovery limit"@,
        EvaluatorError::EmptyPackageId => "package identifier cannot be empty"@,
        EvaluatorError::Serialization { detail } => "report serialization failed: "@ + detail@,
    }
}

/// Appends a string slice to a character vector.
fn then(a: &[char], b: &str) -> (r: Vec<char>)
    ensures
        r@ == a@ + b@,
{
    concat(a, &lit(b))
}

impl EvaluatorError {
    /// Formats a concise diagnostic suitable for command-line display.
    pub fn message(&self) -> (r: String)
        ensures
            r@ == error_message(*self),
    {
        let v: Vec<char> = match self {
            EvaluatorError::InvalidPath { path, expected } => then(
                &then(&lit(path.as_str()), " is not "),
                expected.as_str(),
            ),
            EvaluatorError::UnsafeOutputOverlap { output, generated } => then(
                &then(&then(&lit("output "), output.as_str()), " overlaps read-only package "),
                generated.as_str(),
            ),
            EvaluatorError::Io { path, detail } => then(
                &then(&lit(path.as_str()), ": "),
                detail.as_str(),
            ),
            EvaluatorError::InvalidUtf8 { path } => then(&lit(path.as_str()), " is not UTF-8"),
            EvaluatorError::InvalidJson { path, detail } => then(
                &then(&lit(path.as_str()), " contains invalid JSON: "),
                detail.as_str(),
            ),
            EvaluatorError::ArtifactTooLarge { path, limit } => then(
                &concat(&then(&lit(path.as_str()), " exceeds the "), &decimal_text(*limit as u64)),
                "-byte artifact limit",
            ),
            EvaluatorError::PackageTooLarge { limit } => then(
                &concat(&lit("package exceeds the "), &decimal_text(*limit as u64)),
                "-byte aggregate limit",
            ),
            EvaluatorError::TooManyArtifacts { limit } => then(
                &concat(&lit("package exceeds the "), &decimal_text(*limit as u64)),
                "-artifact limit",
            ),
            EvaluatorError::TooManyEntries { limit } => then(
                &concat(&lit("package exceeds the "), &decimal_text(*limit as u64)),
                "-entry discovery limit",
            ),
            EvaluatorError::EmptyPackageId => lit("package identifier cannot be empty"),
            EvaluatorError::Serialization { detail } => then(
                &lit("report serialization failed: "),
                detail.as_str(),
            ),
        };
        crate::text::string_of(&v)
    }
}

} // verus!
