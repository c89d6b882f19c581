//! The evaluator's command-line request: its operating modes and their arguments.
use vstd::prelude::*;

verus! {

/// The evaluator's top-level command and selected operating mode.
#[derive(Debug)]
pub struct Cli {
    /// Evaluation mode to execute.
    pub command: EvaluatorCommand,
}

/// Selects single-package evaluation or isolated baseline comparison.
#[derive(Debug)]
pub enum EvaluatorCommand {
    /// Evaluate one generated package and write JSON and Markdown reports.
    Evaluate(EvaluateArgs),
    /// Evaluate baseline and candidate packages independently, then compare them.
    Compare(CompareArgs),
}

/// Describes paths and identity for a single-package evaluation.
#[derive(Debug)]
pub struct EvaluateArgs {
    /// Original user brief used to generate the project foundation.
    pub brief: String,
    /// Generated project directory to inspect without modifying it.
    pub generated: String,
    /// Optional structured project model or database export in JSON format.
    pub project_model: Option<String>,
    /// Optional validation metadata in JSON format.
    pub metadata: Option<String>,
    /// Stable package identifier recorded in evaluator-owned evidence.
    pub package_id: String,
    /// Directory that will receive the generated reports.
    pub output: String,
}

/// Describes isolated package paths for baseline-versus-candidate comparison.
#[derive(Debug)]
pub struct CompareArgs {
    /// Original user brief shared by both generated packages.
    pub brief: String,
    /// Baseline generated project directory.
    pub baseline: String,
    /// Candidate generated project directory.
    pub candidate: String,
    /// Optional baseline structured project model in JSON format.
    pub baseline_model: Option<String>,
    /// Optional candidate structured project model in JSON format.
    pub candidate_model: Option<String>,
    /// Optional baseline validation metadata in JSON format.
    pub baseline_metadata: Option<String>,
    /// Optional candidate validation metadata in JSON format.
    pub candidate_metadata: Option<String>,
    /// Directory that will receive per-package and comparison reports.
    pub output: String,
}

impl EvaluateArgs {
    /// Converts the arguments into an isolated package request.
    pub fn into_input(self) -> (r: crate::input::PackageInput)
        ensures
            r.brief == self.brief,
            r.generated_dir == self.generated,
            r.project_model == self.project_model,
            r.metadata == self.metadata,
            r.package_id == self.package_id,
            r.output_dir == self.output,
    {
        crate::input::PackageInput {
            brief: self.brief,
            generated_dir: self.generated,
            project_model: self.project_model,
            metadata: self.metadata,
            package_id: self.package_id,
            output_dir: self.output,
        }
    }
}

impl CompareArgs {
    /// Converts the arguments into a comparison request.
    pub fn into_input(self) -> (r: crate::compare::ComparisonInput)
        ensures
            r.brief == self.brief,
            r.baseline_dir == self.baseline,
            r.candidate_dir == self.candidate,
            r.baseline_model == self.baseline_model,
            r.candidate_model == self.candidate_model,
            r.baseline_metadata == self.baseline_metadata,
            r.candidate_metadata == self.candidate_metadata,
            r.output_dir == self.output,
    {
        crate::compare::ComparisonInput {
            brief: self.brief,
            baseline_dir: self.baseline,
            candidate_dir: self.candidate,
            baseline_model: self.baseline_model,
            candidate_model: self.candidate_model,
            baseline_metadata: self.baseline_metadata,
            candidate_metadata: self.candidate_metadata,
            output_dir: self.output,
        }
    }
}

} // verus!
