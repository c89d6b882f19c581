//! The Markdown validation report: overall score, scorecard, metrics, findings and lists.
use vstd::prelude::*;

use crate::compare::{optional_count_cell, optional_percent_cell, tenths_text, wide};
use crate::extract::strs;
use crate::metrics::DeterministicMetrics;
use crate::report::{
    dimension_list, finding_models, findings_of, DimensionScore, Dimensions, Finding, FindingModel,
    Severity, ValidationReport,
};
use crate::score::{decimal, decimal_text, join_with};
use crate::text::{chars_of as lit, concat, string_of};

verus! {

/// The label of a severity.
pub open spec fn severity_text(s: Severity) -> Seq<char> {
    match s {
        Severity::Low => "LOW"@,
        Severity::Medium => "MEDIUM"@,
        Severity::High => "HIGH"@,
        Severity::Critical => "CRITICAL"@,
    }
}

/// One optional detail line of a finding.
pub open spec fn detail_line(label: Seq<char>, o: Option<Seq<char>>) -> Seq<char> {
    match o {
        Some(t) => "  - "@ + label + ": "@ + t + "\n"@,
        None => seq![],
    }
}

/// One finding as a list item with its artifact, related identifier, evidence, correction and
/// failure mode.
pub open spec fn finding_block(f: FindingModel) -> Seq<char> {
    "- **"@ + severity_text(f.severity) + "** "@ + f.criterion + ": "@ + f.description + "\n"@
        + "  - Artifact: "@ + f.artifact + "\n"@ + detail_line("Related ID"@, f.related_id)
        + "  - Evidence: "@ + f.supporting_evidence + "\n"@ + "  - Correction: "@
        + f.recommended_correction + "\n"@ + detail_line("Failure mode"@, f.failure_mode)
}

/// The blocks of a list of findings, in order.
pub open spec fn finding_blocks(fs: Seq<FindingModel>) -> Seq<char>
    decreases fs.len(),
{
    if fs.len() == 0 {
        seq![]
    } else {
        finding_blocks(fs.drop_last()) + finding_block(fs.last())
    }
}

/// The blocks of a list of findings, or a statement that there are none.
pub open spec fn findings_text(fs: Seq<FindingModel>) -> Seq<char> {
    if fs.len() == 0 {
        "No findings.\n"@
    } else {
        finding_blocks(fs)
    }
}

/// A bulleted list of texts.
pub open spec fn bullets(items: Seq<Seq<char>>) -> Seq<char>
    decreases items.len(),
{
    if items.len() == 0 {
        seq![]
    } else {
        bullets(items.drop_last()) + "- "@ + items.last() + "\n"@
    }
}

/// A numbered list of texts.
pub open spec fn numbered(items: Seq<Seq<char>>) -> Seq<char>
    decreases items.len(),
{
    if items.len() == 0 {
        seq![]
    } else {
        numbered(items.drop_last()) + decimal(items.len()) + ". "@ + items.last() + "\n"@
    }
}

/// A list section: its heading, then the items as bullets or a statement that there are none.
pub open spec fn list_section(heading: Seq<char>, items: Seq<Seq<char>>) -> Seq<char> {
    heading + (if items.len() == 0 {
        "None.\n"@
    } else {
        bullets(items)
    }) + "\n"@
}

/// The heading and overall score.
pub open spec fn overall_section(r: ValidationReport) -> Seq<char> {
    "# Validation Report\n\n## Overall Score\n\nDRPFS: "@ + tenths_text(r.drpfs as nat)
        + " / 100\n\n"@
}

/// One scorecard line.
pub open spec fn score_line(label: Seq<char>, d: DimensionScore) -> Seq<char> {
    "| "@ + label + " | "@ + tenths_text(d.score as nat) + "/"@ + decimal(d.max as nat) + " |\n"@
}

/// The scorecard of the seven dimensions and their total.
pub open spec fn scorecard_section(r: ValidationReport) -> Seq<char> {
    let d = r.dimensions;
    "## Scorecard\n\n| Dimension | Score |\n|---|---:|\n"@ + score_line(
        "Brief Fidelity"@,
        d.brief_fidelity,
    ) + score_line("Assumption Discipline"@, d.assumption_discipline) + score_line(
        "Cross-Document Consistency"@,
        d.cross_document_consistency,
    ) + score_line("Evidence Quality"@, d.evidence_quality) + score_line(
        "Requirements → Decision Traceability"@,
        d.traceability,
    ) + score_line("Actionability"@, d.actionability) + score_line(
        "Artifact Completeness"@,
        d.artifact_quality,
    ) + "| TOTAL | "@ + tenths_text(r.drpfs as nat) + "/100 |\n\n"@
}

/// One metric line.
pub open spec fn value_line(label: Seq<char>, value: Seq<char>) -> Seq<char> {
    "| "@ + label + " | "@ + value + " |\n"@
}

/// The project-name variants, or `None`.
pub open spec fn names_text(names: Seq<Seq<char>>) -> Seq<char> {
    if names.len() == 0 {
        "None"@
    } else {
        join_with(names, ", "@)
    }
}

/// The measured (fractional) metrics of one package, each already formatted as a cell.
pub struct MeasuredValues {
    /// Duplicate question rate.
    pub duplicate_question_rate: String,
    /// Answer reuse rate.
    pub answer_reuse_rate: String,
    /// Context compression ratio.
    pub context_compression_ratio: String,
    /// Retrieval utilization rate.
    pub retrieval_utilization_rate: String,
    /// Repeated research rate.
    pub repeated_research_rate: String,
    /// Stale retrieval rate.
    pub stale_retrieval_rate: String,
    /// Execution time in seconds.
    pub execution_time_seconds: String,
    /// Human interaction time in seconds.
    pub human_interaction_time_seconds: String,
    /// Execution cost.
    pub cost: String,
}

/// The lines of the measured metrics, in a fixed order.
pub open spec fn measured_lines(v: MeasuredValues) -> Seq<char> {
    value_line("Duplicate Question Rate"@, v.duplicate_question_rate@)
        + value_line("Answer Reuse Rate"@, v.answer_reuse_rate@)
        + value_line("Context Compression Ratio"@, v.context_compression_ratio@)
        + value_line("Retrieval Utilization Rate"@, v.retrieval_utilization_rate@)
        + value_line("Repeated Research Rate"@, v.repeated_research_rate@)
        + value_line("Stale Retrieval Rate"@, v.stale_retrieval_rate@)
        + value_line("Execution Time (seconds)"@, v.execution_time_seconds@)
        + value_line("Human Interaction Time (seconds)"@, v.human_interaction_time_seconds@)
        + value_line("Cost"@, v.cost@)
}

/// Every calculable metric: the deterministic metrics, where unavailable values are written as
/// unavailable, never as zero, then the measured metrics as formatted.
pub open spec fn metrics_section(m: DeterministicMetrics, v: MeasuredValues) -> Seq<char> {
    "## Deterministic Metrics\n\n| Metric | Value |\n|---|---:|\n"@ + value_line(
        "Required Artifact Completion"@,
        optional_percent_cell(m.required_artifact_completion),
    ) + value_line(
        "Acceptance Criteria Coverage"@,
        optional_percent_cell(m.acceptance_criteria_coverage),
    ) + value_line(
        "Requirement Traceability Coverage"@,
        optional_percent_cell(m.requirement_traceability_coverage),
    ) + value_line(
        "Unsupported Decision Rate"@,
        optional_percent_cell(m.unsupported_decision_rate),
    ) + value_line(
        "High-Impact Assumption Labeling Rate"@,
        optional_percent_cell(m.high_impact_assumption_labeling_rate),
    ) + value_line("Evidence Linkage Rate"@, optional_percent_cell(m.evidence_linkage_rate))
        + value_line("Broken Internal Links"@, optional_count_cell(wide(m.broken_internal_links)))
        + value_line(
        "Unresolved High-Severity Findings"@,
        optional_count_cell(wide(m.unresolved_high_severity_findings)),
    ) + value_line(
        "User Answer Adoption Rate"@,
        optional_percent_cell(m.user_answer_adoption_rate),
    ) + value_line(
        "Cross-Project Leakage"@,
        optional_count_cell(wide(m.cross_project_leakage)),
    ) + value_line("Context Supplied"@, optional_count_cell(m.context_supplied)) + value_line(
        "Retrieval Calls"@,
        optional_count_cell(m.retrieval_calls),
    ) + value_line("User Questions"@, optional_count_cell(m.user_questions)) + value_line(
        "Model Calls"@,
        optional_count_cell(m.model_calls),
    ) + value_line("Token Usage"@, optional_count_cell(m.token_usage)) + value_line(
        "Project Name Variants"@,
        names_text(strs(m.conflicting_project_names@)),
    ) + measured_lines(v) + "\n"@
}

/// The predicate "is high or critical".
pub open spec fn severe() -> spec_fn(FindingModel) -> bool {
    |f: FindingModel| f.severity == Severity::High || f.severity == Severity::Critical
}

/// The high and critical findings.
pub open spec fn critical_section(all: Seq<FindingModel>) -> Seq<char> {
    "## Critical Findings\n\n"@ + findings_text(all.filter(severe())) + "\n"@
}

/// One dimension's findings under its heading.
pub open spec fn dimension_findings(label: Seq<char>, d: DimensionScore) -> Seq<char> {
    "### "@ + label + "\n\n"@ + findings_text(finding_models(d.findings@)) + "\n"@
}

/// Every finding, by dimension.
pub open spec fn detailed_section(d: Dimensions) -> Seq<char> {
    "## Detailed Findings\n\n"@ + dimension_findings("Brief Fidelity"@, d.brief_fidelity)
        + dimension_findings("Assumption Discipline"@, d.assumption_discipline)
        + dimension_findings("Cross-Document Consistency"@, d.cross_document_consistency)
        + dimension_findings("Evidence Quality"@, d.evidence_quality) + dimension_findings(
        "Requirements → Decision Traceability"@,
        d.traceability,
    ) + dimension_findings("Actionability"@, d.actionability) + dimension_findings(
        "Artifact Completeness"@,
        d.artifact_quality,
    )
}

/// The ranked improvements, numbered.
pub open spec fn improvements_section(items: Seq<Seq<char>>) -> Seq<char> {
    "## Recommended Improvements\n\n"@ + (if items.len() == 0 {
        "None.\n"@
    } else {
        numbered(items)
    }) + "\n"@
}

/// The note on external verification.
pub open spec fn note_section(note: Seq<char>) -> Seq<char> {
    "## External Verification\n\n"@ + note + "\n"@
}

/// The complete Markdown validation report: overall score and scorecard, metrics, critical
/// failures, critical and detailed findings, unsupported decisions, unresolved items, strengths, improvements and the
/// external-verification note.
pub open spec fn validation_markdown(r: ValidationReport, v: MeasuredValues) -> Seq<char> {
    (overall_section(r) + scorecard_section(r)) + metrics_section(r.metrics, v) + list_section(
        "## Critical Failures\n\n"@,
        strs(r.critical_failures@),
    ) + (critical_section(
        findings_of(dimension_list(r.dimensions)),
    ) + detailed_section(r.dimensions)) + list_section(
        "## Unsupported Decisions\n\n"@,
        strs(r.unsupported_decisions@),
    ) + list_section(
        "## Unresolved Assumptions and Questions\n\n"@,
        strs(r.unresolved_assumptions_and_questions@),
    ) + list_section("## Strengths\n\n"@, strs(r.strengths@)) + improvements_section(
        strs(r.highest_priority_improvements@),
    ) + note_section(r.external_verification_note@)
}

/// Appends a string slice.
fn put(out: &mut Vec<char>, t: &str)
    ensures
        final(out)@ == old(out)@ + t@,
{
    let next = concat(out, &lit(t));
    *out = next;
}

/// Appends characters.
fn put_chars(out: &mut Vec<char>, t: &[char])
    ensures
        final(out)@ == old(out)@ + t@,
{
    let next = concat(out, t);
    *out = next;
}

/// Writes tenths with one decimal place.
fn tenths(t: u64) -> (r: Vec<char>)
    ensures
        r@ == tenths_text(t as nat),
{
    concat(&concat(&decimal_text(t / 10), &lit(".")), &decimal_text(t % 10))
}

/// Writes the label of a severity.
fn severity_label(s: Severity) -> (r: &'static str)
    ensures
        r@ == severity_text(s),
{
    match s {
        Severity::Low => "LOW",
        Severity::Medium => "MEDIUM",
        Severity::High => "HIGH",
        Severity::Critical => "CRITICAL",
    }
}

/// Writes one optional detail line.
fn put_detail(out: &mut Vec<char>, label: &str, o: &Option<String>)
    ensures
        final(out)@ == old(out)@ + detail_line(label@, crate::extract::opt_view(*o)),
{
    match o {
        Some(t) => {
            let ghost before = out@;
            put(out, "  - ");
            put(out, label);
            put(out, ": ");
            put_chars(out, &lit(t.as_str()));
            put(out, "\n");
            assert(out@ =~= before + detail_line(label@, crate::extract::opt_view(*o)));
        },
        None => {
            assert(out@ =~= out@ + Seq::<char>::empty());
        },
    }
}

/// Writes one finding block.
fn finding_text(f: &Finding) -> (r: Vec<char>)
    ensures
        r@ == finding_block(f@),
{
    let mut out = lit("- **");
    put(&mut out, severity_label(f.severity));
    put(&mut out, "** ");
    put_chars(&mut out, &lit(f.criterion.as_str()));
    put(&mut out, ": ");
    put_chars(&mut out, &lit(f.description.as_str()));
    put(&mut out, "\n");
    put(&mut out, "  - Artifact: ");
    put_chars(&mut out, &lit(f.artifact.as_str()));
    put(&mut out, "\n");
    put_detail(&mut out, "Related ID", &f.related_id);
    put(&mut out, "  - Evidence: ");
    put_chars(&mut out, &lit(f.supporting_evidence.as_str()));
    put(&mut out, "\n");
    put(&mut out, "  - Correction: ");
    put_chars(&mut out, &lit(f.recommended_correction.as_str()));
    put(&mut out, "\n");
    put_detail(&mut out, "Failure mode", &f.failure_mode);
    out
}

/// Writes the blocks of a list of findings, or a statement that there are none.
fn findings_markdown(fs: &Vec<Finding>) -> (r: Vec<char>)
    ensures
        r@ == findings_text(finding_models(fs@)),
{
    let ghost fm = finding_models(fs@);
    if fs.len() == 0 {
        return lit("No findings.\n");
    }
    let mut out: Vec<char> = Vec::new();
    let mut i: usize = 0;
    assert(out@ =~= finding_blocks(fm.take(0)));
    while i < fs.len()
        invariant
            i <= fs.len(),
            fm == finding_models(fs@),
            out@ == finding_blocks(fm.take(i as int)),
        decreases fs.len() - i,
    {
        assert(fm.take(i + 1).drop_last() =~= fm.take(i as int));
        assert(fm.take(i + 1).last() == fs@[i as int]@);
        let b = finding_text(&fs[i]);
        put_chars(&mut out, &b);
        i = i + 1;
    }
    assert(fm.take(fs.len() as int) =~= fm);
    out
}

/// Writes a list section.
fn list_markdown(heading: &str, items: &Vec<String>) -> (r: Vec<char>)
    ensures
        r@ == list_section(heading@, strs(items@)),
{
    let ghost its = strs(items@);
    let mut body: Vec<char> = Vec::new();
    let mut i: usize = 0;
    assert(body@ =~= bullets(its.take(0)));
    while i < items.len()
        invariant
            i <= items.len(),
            its == strs(items@),
            body@ == bullets(its.take(i as int)),
        decreases items.len() - i,
    {
        assert(its.take(i + 1).drop_last() =~= its.take(i as int));
        assert(its.take(i + 1).last() == items@[i as int]@);
        put(&mut body, "- ");
        put_chars(&mut body, &lit(items[i].as_str()));
        put(&mut body, "\n");
        i = i + 1;
    }
    assert(its.take(items.len() as int) =~= its);
    let mut out = lit(heading);
    if items.len() == 0 {
        put(&mut out, "None.\n");
    } else {
        put_chars(&mut out, &body);
    }
    put(&mut out, "\n");
    out
}

/// Writes the ranked improvements.
fn improvements_markdown(items: &Vec<String>) -> (r: Vec<char>)
    ensures
        r@ == improvements_section(strs(items@)),
{
    let ghost its = strs(items@);
    let mut body: Vec<char> = Vec::new();
    let mut i: usize = 0;
    assert(body@ =~= numbered(its.take(0)));
    while i < items.len()
        invariant
            i <= items.len(),
            its == strs(items@),
            body@ == numbered(its.take(i as int)),
        decreases items.len() - i,
    {
        assert(its.take(i + 1).drop_last() =~= its.take(i as int));
        assert(its.take(i + 1).last() == items@[i as int]@);
        assert(its.take(i + 1).len() == i + 1);
        put_chars(&mut body, &decimal_text((i + 1) as u64));
        put(&mut body, ". ");
        put_chars(&mut body, &lit(items[i].as_str()));
        put(&mut body, "\n");
        i = i + 1;
    }
    assert(its.take(items.len() as int) =~= its);
    let mut out = lit("## Recommended Improvements\n\n");
    if items.len() == 0 {
        put(&mut out, "None.\n");
    } else {
        put_chars(&mut out, &body);
    }
    put(&mut out, "\n");
    out
}

/// Writes one scorecard line.
fn put_score_line(out: &mut Vec<char>, label: &str, d: &DimensionScore)
    ensures
        final(out)@ == old(out)@ + score_line(label@, *d),
{
    let ghost before = out@;
    put(out, "| ");
    put(out, label);
    put(out, " | ");
    put_chars(out, &tenths(d.score as u64));
    put(out, "/");
    put_chars(out, &decimal_text(d.max as u64));
    put(out, " |\n");
    assert(out@ =~= before + score_line(label@, *d));
}

/// Writes the heading, overall score and scorecard.
fn score_markdown(r: &ValidationReport) -> (out: Vec<char>)
    ensures
        out@ == overall_section(*r) + scorecard_section(*r),
{
    let mut out = lit("# Validation Report\n\n## Overall Score\n\nDRPFS: ");
    put_chars(&mut out, &tenths(r.drpfs));
    put(&mut out, " / 100\n\n");
    let ghost first = out@;
    put(&mut out, "## Scorecard\n\n| Dimension | Score |\n|---|---:|\n");
    let ghost card_start = out@;
    let d = &r.dimensions;
    put_score_line(&mut out, "Brief Fidelity", &d.brief_fidelity);
    put_score_line(&mut out, "Assumption Discipline", &d.assumption_discipline);
    put_score_line(&mut out, "Cross-Document Consistency", &d.cross_document_consistency);
    put_score_line(&mut out, "Evidence Quality", &d.evidence_quality);
    put_score_line(&mut out, "Requirements → Decision Traceability", &d.traceability);
    put_score_line(&mut out, "Actionability", &d.actionability);
    put_score_line(&mut out, "Artifact Completeness", &d.artifact_quality);
    put(&mut out, "| TOTAL | ");
    put_chars(&mut out, &tenths(r.drpfs));
    put(&mut out, "/100 |\n\n");
    assert(first =~= overall_section(*r));
    assert(out@ =~= first + scorecard_section(*r));
    out
}

/// Writes one metric line.
fn put_value_line(out: &mut Vec<char>, label: &str, value: &[char])
    ensures
        final(out)@ == old(out)@ + value_line(label@, value@),
{
    let ghost before = out@;
    put(out, "| ");
    put(out, label);
    put(out, " | ");
    put_chars(out, value);
    put(out, " |\n");
    assert(out@ =~= before + value_line(label@, value@));
}

/// Writes one optional percentage cell.
fn percent_value(o: Option<u32>) -> (r: Vec<char>)
    ensures
        r@ == optional_percent_cell(o),
{
    match o {
        Some(v) => concat(&tenths(v as u64), &lit("%")),
        None => lit("Unavailable"),
    }
}

/// Writes one optional count cell.
fn count_value(o: Option<u64>) -> (r: Vec<char>)
    ensures
        r@ == optional_count_cell(o),
{
    match o {
        Some(v) => decimal_text(v),
        None => lit("Unavailable"),
    }
}

/// Widens an optional platform-sized count.
fn widened(o: Option<usize>) -> (r: Option<u64>)
    ensures
        r == wide(o),
{
    match o {
        Some(v) => Some(v as u64),
        None => None,
    }
}

/// Writes the deterministic metrics.
fn metrics_markdown(m: &DeterministicMetrics, v: &MeasuredValues) -> (out: Vec<char>)
    ensures
        out@ == metrics_section(*m, *v),
{
    let mut out = lit("## Deterministic Metrics\n\n| Metric | Value |\n|---|---:|\n");
    put_value_line(&mut out, "Required Artifact Completion", &percent_value(m.required_artifact_completion));
    put_value_line(&mut out, "Acceptance Criteria Coverage", &percent_value(m.acceptance_criteria_coverage));
    put_value_line(&mut out, "Requirement Traceability Coverage", &percent_value(m.requirement_traceability_coverage));
    put_value_line(&mut out, "Unsupported Decision Rate", &percent_value(m.unsupported_decision_rate));
    put_value_line(&mut out, "High-Impact Assumption Labeling Rate", &percent_value(m.high_impact_assumption_labeling_rate));
    put_value_line(&mut out, "Evidence Linkage Rate", &percent_value(m.evidence_linkage_rate));
    put_value_line(&mut out, "Broken Internal Links", &count_value(widened(m.broken_internal_links)));
    put_value_line(&mut out, "Unresolved High-Severity Findings", &count_value(widened(m.unresolved_high_severity_findings)));
    put_value_line(&mut out, "User Answer Adoption Rate", &percent_value(m.user_answer_adoption_rate));
    put_value_line(&mut out, "Cross-Project Leakage", &count_value(widened(m.cross_project_leakage)));
    put_value_line(&mut out, "Context Supplied", &count_value(m.context_supplied));
    put_value_line(&mut out, "Retrieval Calls", &count_value(m.retrieval_calls));
    put_value_line(&mut out, "User Questions", &count_value(m.user_questions));
    put_value_line(&mut out, "Model Calls", &count_value(m.model_calls));
    put_value_line(&mut out, "Token Usage", &count_value(m.token_usage));
    let names = if m.conflicting_project_names.len() == 0 {
        lit("None")
    } else {
        crate::score::join_strings(&m.conflicting_project_names, ", ")
    };
    put_value_line(&mut out, "Project Name Variants", &names);
    put_value_line(&mut out, "Duplicate Question Rate", &lit(v.duplicate_question_rate.as_str()));
    put_value_line(&mut out, "Answer Reuse Rate", &lit(v.answer_reuse_rate.as_str()));
    put_value_line(&mut out, "Context Compression Ratio", &lit(v.context_compression_ratio.as_str()));
    put_value_line(&mut out, "Retrieval Utilization Rate", &lit(v.retrieval_utilization_rate.as_str()));
    put_value_line(&mut out, "Repeated Research Rate", &lit(v.repeated_research_rate.as_str()));
    put_value_line(&mut out, "Stale Retrieval Rate", &lit(v.stale_retrieval_rate.as_str()));
    put_value_line(&mut out, "Execution Time (seconds)", &lit(v.execution_time_seconds.as_str()));
    put_value_line(&mut out, "Human Interaction Time (seconds)", &lit(v.human_interaction_time_seconds.as_str()));
    put_value_line(&mut out, "Cost", &lit(v.cost.as_str()));
    put(&mut out, "\n");
    out
}

/// Copies the high and critical findings, in order.
fn severe_findings(all: &Vec<Finding>) -> (r: Vec<Finding>)
    ensures
        finding_models(r@) == finding_models(all@).filter(severe()),
{
    let ghost fm = finding_models(all@);
    let ghost id = |f: FindingModel| f;
    let mut r: Vec<Finding> = Vec::new();
    let mut i: usize = 0;
    assert(fm.take(0).filter(severe()) =~= Seq::<FindingModel>::empty()) by {
        reveal(Seq::filter);
    }
    while i < all.len()
        invariant
            i <= all.len(),
            fm == finding_models(all@),
            finding_models(r@) == fm.take(i as int).filter(severe()),
        decreases all.len() - i,
    {
        proof {
            crate::score::lemma_filter_map_step(fm, severe(), id, i as int);
        }
        if all[i].severity == Severity::High || all[i].severity == Severity::Critical {
            let ghost before = r@;
            let c = crate::report::copy_finding(&all[i]);
            r.push(c);
            assert(finding_models(r@) =~= finding_models(before).push(c@));
        }
        i = i + 1;
    }
    assert(fm.take(all.len() as int) =~= fm);
    r
}

/// Writes one dimension's findings under its heading.
fn put_dimension_findings(out: &mut Vec<char>, label: &str, d: &DimensionScore)
    ensures
        final(out)@ == old(out)@ + dimension_findings(label@, *d),
{
    let ghost before = out@;
    put(out, "### ");
    put(out, label);
    put(out, "\n\n");
    put_chars(out, &findings_markdown(&d.findings));
    put(out, "\n");
    assert(out@ =~= before + dimension_findings(label@, *d));
}

/// Writes the critical and detailed findings.
fn findings_sections(d: &Dimensions) -> (out: Vec<char>)
    ensures
        out@ == critical_section(findings_of(dimension_list(*d))) + detailed_section(*d),
{
    let all = d.all_findings();
    let mut out = lit("## Critical Findings\n\n");
    put_chars(&mut out, &findings_markdown(&severe_findings(&all)));
    put(&mut out, "\n");
    let ghost first = out@;
    assert(first =~= critical_section(findings_of(dimension_list(*d))));
    put(&mut out, "## Detailed Findings\n\n");
    put_dimension_findings(&mut out, "Brief Fidelity", &d.brief_fidelity);
    put_dimension_findings(&mut out, "Assumption Discipline", &d.assumption_discipline);
    put_dimension_findings(&mut out, "Cross-Document Consistency", &d.cross_document_consistency);
    put_dimension_findings(&mut out, "Evidence Quality", &d.evidence_quality);
    put_dimension_findings(&mut out, "Requirements → Decision Traceability", &d.traceability);
    put_dimension_findings(&mut out, "Actionability", &d.actionability);
    put_dimension_findings(&mut out, "Artifact Completeness", &d.artifact_quality);
    assert(out@ =~= first + detailed_section(*d));
    out
}

/// Renders the required Markdown validation report.
pub fn render_validation_markdown(r: &ValidationReport, measured: &MeasuredValues) -> (s: String)
    ensures
        s@ == validation_markdown(*r, *measured),
{
    let a = score_markdown(r);
    let b = metrics_markdown(&r.metrics, measured);
    let k = list_markdown("## Critical Failures\n\n", &r.critical_failures);
    let c = findings_sections(&r.dimensions);
    let d = list_markdown("## Unsupported Decisions\n\n", &r.unsupported_decisions);
    let e = list_markdown("## Unresolved Assumptions and Questions\n\n", &r.unresolved_assumptions_and_questions);
    let f = list_markdown("## Strengths\n\n", &r.strengths);
    let g = improvements_markdown(&r.highest_priority_improvements);
    let mut h = lit("## External Verification\n\n");
    put_chars(&mut h, &lit(r.external_verification_note.as_str()));
    put(&mut h, "\n");
    let all = concat(
        &concat(&concat(&concat(&concat(&concat(&concat(&concat(&a, &b), &k), &c), &d), &e), &f), &g),
        &h,
    );
    string_of(&all)
}

/// The Critical Findings section lists exactly the report's High and Critical findings, in
/// report order, and no Medium or Low finding.
pub proof fn law_critical_section(all: Seq<FindingModel>)
    ensures
        critical_section(all) == "## Critical Findings\n\n"@ + findings_text(
            all.filter(|f: FindingModel| crate::score::severity_rank(f.severity) >= 2),
        ) + "\n"@,
        forall|i: int|
            0 <= i < all.filter(severe()).len() ==> crate::score::severity_rank(
                (#[trigger] all.filter(severe())[i]).severity,
            ) >= 2,
        forall|i: int|
            0 <= i < all.len() && crate::score::severity_rank((#[trigger] all[i]).severity) >= 2
                ==> all.filter(severe()).contains(all[i]),
{
    let q = |f: FindingModel| crate::score::severity_rank(f.severity) >= 2;
    assert(severe() =~= q);
    assert forall|i: int| 0 <= i < all.filter(severe()).len() implies crate::score::severity_rank(
        (#[trigger] all.filter(severe())[i]).severity,
    ) >= 2 by {
        all.lemma_filter_pred(severe(), i);
    }
    assert forall|i: int| 0 <= i < all.len() && crate::score::severity_rank((#[trigger] all[i]).severity) >= 2
        implies all.filter(severe()).contains(all[i]) by {
        all.filter_lemma(severe());
    }
}

} // verus!
