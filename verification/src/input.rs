//! The validated request of one isolated package evaluation.
use vstd::prelude::*;

verus! {

/// Identifies all submitted and generated paths for one isolated package evaluation.
#[derive(Clone, Debug)]
pub struct PackageInput {
    /// Original user brief used as the fidelity authority.
    pub brief: String,
    /// Generated project-foundation directory inspected read-only.
    pub generated_dir: String,
    /// Optional structured project model or database export.
    pub project_model: Option<String>,
    /// Optional validation and execution metadata.
    pub metadata: Option<String>,
    /// Stable package identity retained in evaluator-owned records.
    pub package_id: String,
    /// Directory reserved for reports after successful evaluation.
    pub output_dir: String,
}

} // verus!
