//! Independent evaluation primitives for generated project-foundation packages.

pub mod cli;
pub mod compare;
pub mod corpus;
pub mod error;
pub mod evaluate;
pub mod extract;
pub mod input;
pub mod json;
pub mod metrics;
pub mod order;
pub mod render;
pub mod report;
pub mod score;
pub mod text;

pub use compare::{
    render_comparison_markdown, ComparisonInput, ComparisonResult, MeasuredCells, MeasuredRows,
};
pub use corpus::{Artifact, Corpus, CorpusLimits};
pub use error::EvaluatorError;
pub use evaluate::evaluate_corpus;
pub use extract::{extract_entities, EntityKind, EvidenceRef, ExtractedEntity, Extraction, TraceLink};
pub use input::PackageInput;
pub use json::{JsonMember, JsonNumber, JsonValue};
pub use metrics::{calculate_metrics, DeterministicMetrics};
pub use render::{render_validation_markdown, MeasuredValues};
pub use report::{DimensionScore, Dimensions, Finding, Severity, ValidationReport};
pub use score::score_corpus;
