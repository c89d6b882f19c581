//! The normalized report model: findings, dimension scores and the validation report.
//!
//! Scores are held in tenths of a point: `155` stands for `15.5`.
use vstd::prelude::*;

use crate::extract::opt_view;
use crate::metrics::DeterministicMetrics;
use crate::text::{chars_of, trim, trim_chars};

verus! {

/// Classifies the implementation impact of an evidence-backed negative finding.
#[derive(Clone, Copy, Debug, PartialEq, Eq, Structural, PartialOrd, Ord)]
pub enum Severity {
    /// Minor navigation, wording, or completeness friction.
    Low,
    /// Material quality gap that should be corrected before implementation.
    Medium,
    /// Consequential contradiction, unsupported choice, or hidden blocker.
    High,
    /// Failure that invalidates evaluator isolation or the submitted package.
    Critical,
}

/// Records one evidence-backed deduction and its recommended package correction.
#[derive(Clone, Debug, PartialEq)]
pub struct Finding {
    /// Implementation impact of the observed issue.
    pub severity: Severity,
    /// Rubric criterion used to make the deduction.
    pub criterion: String,
    /// Concise explanation of the observed quality gap.
    pub description: String,
    /// Submitted artifact containing the supporting evidence.
    pub artifact: String,
    /// Related requirement, decision, answer, or finding ID when available.
    pub related_id: Option<String>,
    /// Bounded submitted excerpt supporting the deduction.
    pub supporting_evidence: String,
    /// Concrete change recommended for the generator or package author.
    pub recommended_correction: String,
    /// Named special failure classification from the evaluator brief.
    pub failure_mode: Option<String>,
}

/// Mathematical content of a [`Finding`].
pub struct FindingModel {
    pub severity: Severity,
    pub criterion: Seq<char>,
    pub description: Seq<char>,
    pub artifact: Seq<char>,
    pub related_id: Option<Seq<char>>,
    pub supporting_evidence: Seq<char>,
    pub recommended_correction: Seq<char>,
    pub failure_mode: Option<Seq<char>>,
}

impl View for Finding {
    type V = FindingModel;

    open spec fn view(&self) -> FindingModel {
        FindingModel {
            severity: self.severity,
            criterion: self.criterion@,
            description: self.description@,
            artifact: self.artifact@,
            related_id: opt_view(self.related_id),
            supporting_evidence: self.supporting_evidence@,
            recommended_correction: self.recommended_correction@,
            failure_mode: opt_view(self.failure_mode),
        }
    }
}

/// The models of a sequence of findings.
pub open spec fn finding_models(v: Seq<Finding>) -> Seq<FindingModel> {
    v.map_values(|f: Finding| f@)
}

/// All mandatory negative-finding fields contain non-whitespace text.
pub open spec fn finding_complete(f: FindingModel) -> bool {
    &&& trim(f.criterion).len() > 0
    &&& trim(f.description).len() > 0
    &&& trim(f.artifact).len() > 0
    &&& trim(f.supporting_evidence).len() > 0
    &&& trim(f.recommended_correction).len() > 0
}

/// Whether a text has a non-whitespace character.
fn has_text(s: &String) -> (r: bool)
    ensures
        r == (trim(s@).len() > 0),
{
    trim_chars(&chars_of(s.as_str())).len() > 0
}

impl Finding {
    /// Confirms all mandatory negative-finding fields contain usable text.
    pub fn is_complete(&self) -> (r: bool)
        ensures
            r == finding_complete(self@),
    {
        has_text(&self.criterion) && has_text(&self.description) && has_text(&self.artifact)
            && has_text(&self.supporting_evidence) && has_text(&self.recommended_correction)
    }
}

/// Stores one bounded dimension score and all evidence-backed deductions.
#[derive(Clone, Debug, PartialEq)]
pub struct DimensionScore {
    /// Awarded points in tenths, rounded to one decimal place.
    pub score: u32,
    /// Immutable rubric maximum for this dimension, in whole points.
    pub max: u8,
    /// Evidence-backed deductions associated with this dimension.
    pub findings: Vec<Finding>,
}

/// Mathematical content of a [`DimensionScore`].
pub struct DimensionModel {
    pub score: int,
    pub max: int,
    pub findings: Seq<FindingModel>,
}

impl View for DimensionScore {
    type V = DimensionModel;

    open spec fn view(&self) -> DimensionModel {
        DimensionModel {
            score: self.score as int,
            max: self.max as int,
            findings: finding_models(self.findings@),
        }
    }
}

/// Stores all seven fixed DRPFS dimensions using required JSON field names.
#[derive(Clone, Debug, PartialEq)]
pub struct Dimensions {
    /// Preservation of explicit user intent and answers.
    pub brief_fidelity: DimensionScore,
    /// Separation of user facts, inferences, and unresolved unknowns.
    pub assumption_discipline: DimensionScore,
    /// Agreement among generated project artifacts.
    pub cross_document_consistency: DimensionScore,
    /// Relevance, support, linkage, and usability of evidence.
    pub evidence_quality: DimensionScore,
    /// Meaningful requirement-to-decision provenance.
    pub traceability: DimensionScore,
    /// Readiness for another developer to continue implementation.
    pub actionability: DimensionScore,
    /// Required artifact presence and usable navigation.
    pub artifact_quality: DimensionScore,
}

/// The seven dimensions in canonical rubric order.
pub open spec fn dimension_list(d: Dimensions) -> Seq<DimensionModel> {
    seq![
        d.brief_fidelity@,
        d.assumption_discipline@,
        d.cross_document_consistency@,
        d.evidence_quality@,
        d.traceability@,
        d.actionability@,
        d.artifact_quality@,
    ]
}

/// All findings of a list of dimensions, in order.
pub open spec fn findings_of(ds: Seq<DimensionModel>) -> Seq<FindingModel>
    decreases ds.len(),
{
    if ds.len() == 0 {
        seq![]
    } else {
        findings_of(ds.drop_last()) + ds.last().findings
    }
}

/// The sum of the scores of a list of dimensions.
pub open spec fn score_sum(ds: Seq<DimensionModel>) -> int
    decreases ds.len(),
{
    if ds.len() == 0 {
        0
    } else {
        score_sum(ds.drop_last()) + ds.last().score
    }
}

/// One step of `score_sum` and `findings_of` on a list that grows at its end.
proof fn lemma_sum_push(ds: Seq<DimensionModel>, d: DimensionModel)
    ensures
        score_sum(ds.push(d)) == score_sum(ds) + d.score,
        findings_of(ds.push(d)) == findings_of(ds) + d.findings,
{
    assert(ds.push(d).drop_last() =~= ds);
}

/// The score sum and the findings of the seven dimensions, written out.
pub proof fn lemma_dimension_list(d: Dimensions)
    ensures
        score_sum(dimension_list(d)) == d.brief_fidelity@.score + d.assumption_discipline@.score
            + d.cross_document_consistency@.score + d.evidence_quality@.score
            + d.traceability@.score + d.actionability@.score + d.artifact_quality@.score,
        findings_of(dimension_list(d)) == d.brief_fidelity@.findings
            + d.assumption_discipline@.findings + d.cross_document_consistency@.findings
            + d.evidence_quality@.findings + d.traceability@.findings + d.actionability@.findings
            + d.artifact_quality@.findings,
{
    let e = Seq::<DimensionModel>::empty();
    let s1 = e.push(d.brief_fidelity@);
    let s2 = s1.push(d.assumption_discipline@);
    let s3 = s2.push(d.cross_document_consistency@);
    let s4 = s3.push(d.evidence_quality@);
    let s5 = s4.push(d.traceability@);
    let s6 = s5.push(d.actionability@);
    let s7 = s6.push(d.artifact_quality@);
    lemma_sum_push(e, d.brief_fidelity@);
    lemma_sum_push(s1, d.assumption_discipline@);
    lemma_sum_push(s2, d.cross_document_consistency@);
    lemma_sum_push(s3, d.evidence_quality@);
    lemma_sum_push(s4, d.traceability@);
    lemma_sum_push(s5, d.actionability@);
    lemma_sum_push(s6, d.artifact_quality@);
    assert(dimension_list(d) =~= s7);
    assert(findings_of(e) =~= Seq::<FindingModel>::empty());
    assert(findings_of(s7) =~= d.brief_fidelity@.findings
            + d.assumption_discipline@.findings + d.cross_document_consistency@.findings
            + d.evidence_quality@.findings + d.traceability@.findings + d.actionability@.findings
            + d.artifact_quality@.findings);
}

impl Dimensions {
    /// Returns dimension maxima in canonical rubric order.
    pub fn maxima(&self) -> (r: [u8; 7])
        ensures
            forall|i: int| 0 <= i < 7 ==> r@[i] as int == #[trigger] dimension_list(*self)[i].max,
    {
        [
            self.brief_fidelity.max,
            self.assumption_discipline.max,
            self.cross_document_consistency.max,
            self.evidence_quality.max,
            self.traceability.max,
            self.actionability.max,
            self.artifact_quality.max,
        ]
    }

    /// Returns awarded dimension scores, in tenths, in canonical rubric order.
    pub fn scores(&self) -> (r: [u32; 7])
        ensures
            forall|i: int| 0 <= i < 7 ==> r@[i] as int == #[trigger] dimension_list(*self)[i].score,
    {
        [
            self.brief_fidelity.score,
            self.assumption_discipline.score,
            self.cross_document_consistency.score,
            self.evidence_quality.score,
            self.traceability.score,
            self.actionability.score,
            self.artifact_quality.score,
        ]
    }

    /// Returns the exact sum of all fixed dimension scores, in tenths.
    pub fn total(&self) -> (r: u64)
        ensures
            r as int == score_sum(dimension_list(*self)),
    {
        proof {
            lemma_dimension_list(*self);
        }
        self.brief_fidelity.score as u64 + self.assumption_discipline.score as u64
            + self.cross_document_consistency.score as u64 + self.evidence_quality.score as u64
            + self.traceability.score as u64 + self.actionability.score as u64
            + self.artifact_quality.score as u64
    }

    /// Returns copies of the findings of every dimension in rubric order.
    pub fn all_findings(&self) -> (r: Vec<Finding>)
        ensures
            finding_models(r@) == findings_of(dimension_list(*self)),
    {
        let mut r: Vec<Finding> = Vec::new();
        append_findings(&mut r, &self.brief_fidelity.findings);
        append_findings(&mut r, &self.assumption_discipline.findings);
        append_findings(&mut r, &self.cross_document_consistency.findings);
        append_findings(&mut r, &self.evidence_quality.findings);
        append_findings(&mut r, &self.traceability.findings);
        append_findings(&mut r, &self.actionability.findings);
        append_findings(&mut r, &self.artifact_quality.findings);
        proof {
            lemma_dimension_list(*self);
        }
        r
    }
}

/// Copies one finding.
pub fn copy_finding(f: &Finding) -> (r: Finding)
    ensures
        r@ == f@,
{
    Finding {
        severity: f.severity,
        criterion: f.criterion.clone(),
        description: f.description.clone(),
        artifact: f.artifact.clone(),
        related_id: match &f.related_id {
            Some(x) => Some(x.clone()),
            None => None,
        },
        supporting_evidence: f.supporting_evidence.clone(),
        recommended_correction: f.recommended_correction.clone(),
        failure_mode: match &f.failure_mode {
            Some(x) => Some(x.clone()),
            None => None,
        },
    }
}

/// Appends copies of `src` to `dst`.
pub fn append_findings(dst: &mut Vec<Finding>, src: &Vec<Finding>)
    ensures
        finding_models(final(dst)@) == finding_models(old(dst)@) + finding_models(src@),
{
    let ghost d0 = finding_models(dst@);
    let mut i: usize = 0;
    while i < src.len()
        invariant
            i <= src.len(),
            finding_models(dst@) == d0 + finding_models(src@).take(i as int),
        decreases src.len() - i,
    {
        let ghost before = dst@;
        let f = copy_finding(&src[i]);
        dst.push(f);
        assert(finding_models(dst@) =~= finding_models(before).push(f@));
        assert(finding_models(src@).take(i + 1) =~= finding_models(src@).take(i as int).push(
            src@[i as int]@,
        ));
        i = i + 1;
    }
    assert(finding_models(src@).take(src.len() as int) =~= finding_models(src@));
}

/// Represents the complete normalized JSON and Markdown report model.
#[derive(Clone, Debug, PartialEq)]
pub struct ValidationReport {
    /// Decision-Ready Project Foundation Score out of 100, in tenths.
    pub drpfs: u64,
    /// Seven immutable scoring dimensions.
    pub dimensions: Dimensions,
    /// Deterministic metrics available from authoritative submitted records.
    pub metrics: DeterministicMetrics,
    /// Critical failure descriptions requiring immediate attention.
    pub critical_failures: Vec<String>,
    /// Evidence-based positive observations.
    pub strengths: Vec<String>,
    /// Deduplicated corrections ranked by finding severity and rubric order.
    pub highest_priority_improvements: Vec<String>,
    /// High-impact decisions lacking valid submitted provenance.
    pub unsupported_decisions: Vec<String>,
    /// Consequential assumptions and questions still unresolved.
    pub unresolved_assumptions_and_questions: Vec<String>,
    /// Scope note for submitted external citations.
    pub external_verification_note: String,
}

} // verus!
