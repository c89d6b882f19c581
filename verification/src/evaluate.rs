//! Isolated single-package evaluation: extraction, metrics, then the rubric.
use vstd::prelude::*;

use crate::corpus::Corpus;
use crate::extract::{extract_entities, extraction_of};
use crate::metrics::{calculate_metrics, metrics_of, rates_within_bounds};
use crate::report::ValidationReport;
use crate::score::{report_of, score_corpus};

verus! {

/// Builds the normalized report of one isolated corpus: the report that the rubric gives for
/// the corpus, its extraction and the metrics calculated from them.
pub fn evaluate_corpus(corpus: &Corpus) -> (r: ValidationReport)
    ensures
        metrics_of(r.metrics, *corpus, extraction_of(*corpus)),
        report_of(r, *corpus, extraction_of(*corpus), r.metrics),
        rates_within_bounds(r.metrics),
{
    let extraction = extract_entities(corpus);
    let metrics = calculate_metrics(corpus, &extraction);
    score_corpus(corpus, &extraction, metrics)
}

} // verus!
