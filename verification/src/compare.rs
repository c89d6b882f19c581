//! Baseline-versus-candidate comparison: isolated package requests and the comparison report.
use vstd::prelude::*;

use crate::input::PackageInput;
use crate::report::{DimensionScore, ValidationReport};
use crate::score::{decimal, decimal_text};
use crate::text::{chars_of as lit, concat, string_of};

verus! {

/// Identifies the shared brief and isolated package inputs for one comparison.
#[derive(Clone, Debug)]
pub struct ComparisonInput {
    /// Original user brief shared by baseline and candidate evaluations.
    pub brief: String,
    /// Baseline generated project directory.
    pub baseline_dir: String,
    /// Candidate generated project directory.
    pub candidate_dir: String,
    /// Optional baseline structured project model.
    pub baseline_model: Option<String>,
    /// Optional candidate structured project model.
    pub candidate_model: Option<String>,
    /// Optional baseline validation and execution metadata.
    pub baseline_metadata: Option<String>,
    /// Optional candidate validation and execution metadata.
    pub candidate_metadata: Option<String>,
    /// Root directory for partitioned package reports and the comparison report.
    pub output_dir: String,
}

/// Contains both independent reports and their rendered comparison.
pub struct ComparisonResult {
    /// Independently calculated baseline report.
    pub baseline: ValidationReport,
    /// Independently calculated candidate report.
    pub candidate: ValidationReport,
    /// Markdown comparison derived only after both reports were complete.
    pub markdown: String,
}

/// A directory path extended by one name, as joining a relative path does.
pub open spec fn join_path(base: Seq<char>, name: Seq<char>) -> Seq<char> {
    if base.len() == 0 {
        name
    } else if base.last() == '/' {
        base + name
    } else {
        base + "/"@ + name
    }
}

/// Extends a directory path by one name.
pub fn join_dir(base: &String, name: &str) -> (r: String)
    ensures
        r@ == join_path(base@, name@),
{
    let b = lit(base.as_str());
    if b.len() == 0 {
        string_of(&lit(name))
    } else if b[b.len() - 1] == '/' {
        string_of(&concat(&b, &lit(name)))
    } else {
        string_of(&concat(&concat(&b, &lit("/")), &lit(name)))
    }
}

/// The name of one side of a comparison: `baseline` or `candidate`.
pub open spec fn side_name(baseline: bool) -> Seq<char> {
    if baseline {
        "baseline"@
    } else {
        "candidate"@
    }
}

/// One side of a comparison request as an isolated package request: its own package, model,
/// metadata and identity, and its own output directory under the comparison root.
pub open spec fn side_input(input: ComparisonInput, baseline: bool, r: PackageInput) -> bool {
    &&& r.brief@ == input.brief@
    &&& r.generated_dir@ == (if baseline {
        input.baseline_dir@
    } else {
        input.candidate_dir@
    })
    &&& crate::extract::opt_view(r.project_model) == crate::extract::opt_view(
        if baseline {
            input.baseline_model
        } else {
            input.candidate_model
        },
    )
    &&& crate::extract::opt_view(r.metadata) == crate::extract::opt_view(
        if baseline {
            input.baseline_metadata
        } else {
            input.candidate_metadata
        },
    )
    &&& r.package_id@ == side_name(baseline)
    &&& r.output_dir@ == join_path(input.output_dir@, side_name(baseline))
}

/// Copies an optional string.
fn copy_opt(o: &Option<String>) -> (r: Option<String>)
    ensures
        crate::extract::opt_view(r) == crate::extract::opt_view(*o),
{
    match o {
        Some(s) => Some(s.clone()),
        None => None,
    }
}

/// Converts one side of a shared comparison request into an isolated package input.
pub fn package_input(input: &ComparisonInput, baseline: bool) -> (r: PackageInput)
    ensures
        side_input(*input, baseline, r),
{
    let name = if baseline {
        "baseline"
    } else {
        "candidate"
    };
    PackageInput {
        brief: input.brief.clone(),
        generated_dir: if baseline {
            input.baseline_dir.clone()
        } else {
            input.candidate_dir.clone()
        },
        project_model: if baseline {
            copy_opt(&input.baseline_model)
        } else {
            copy_opt(&input.candidate_model)
        },
        metadata: if baseline {
            copy_opt(&input.baseline_metadata)
        } else {
            copy_opt(&input.candidate_metadata)
        },
        package_id: name.to_owned(),
        output_dir: join_dir(&input.output_dir, name),
    }
}

/// Tenths written with one decimal place.
pub open spec fn tenths_text(t: nat) -> Seq<char> {
    decimal(t / 10) + "."@ + decimal(t % 10)
}

/// A signed difference in tenths, written with its sign and one decimal place.
pub open spec fn signed_tenths_text(d: int) -> Seq<char> {
    if d >= 0 {
        "+"@ + tenths_text(d as nat)
    } else {
        "-"@ + tenths_text((-d) as nat)
    }
}

/// The exact signed difference of two counts.
pub open spec fn signed_count_text(candidate: nat, baseline: nat) -> Seq<char> {
    if candidate >= baseline {
        "+"@ + decimal((candidate - baseline) as nat)
    } else {
        "-"@ + decimal((baseline - candidate) as nat)
    }
}

/// One table row from its four cells.
pub open spec fn row(label: Seq<char>, baseline: Seq<char>, candidate: Seq<char>, change: Seq<char>) -> Seq<char> {
    "| "@ + label + " | "@ + baseline + " | "@ + candidate + " | "@ + change + " |\n"@
}

/// The row of one fixed dimension: scores with their maxima, and the change.
pub open spec fn dimension_row(label: Seq<char>, b: DimensionScore, c: DimensionScore) -> Seq<char> {
    row(
        label,
        tenths_text(b.score as nat) + "/"@ + decimal(b.max as nat),
        tenths_text(c.score as nat) + "/"@ + decimal(c.max as nat),
        signed_tenths_text(c.score - b.score),
    )
}

/// A cell of an optional percentage held in tenths.
pub open spec fn optional_percent_cell(o: Option<u32>) -> Seq<char> {
    match o {
        Some(v) => tenths_text(v as nat) + "%"@,
        None => "Unavailable"@,
    }
}

/// The change of an optional percentage, unavailable unless both values are.
pub open spec fn percent_change(b: Option<u32>, c: Option<u32>) -> Seq<char> {
    match (b, c) {
        (Some(x), Some(y)) => signed_tenths_text(y - x) + "%"@,
        _ => "Unavailable"@,
    }
}

/// The row of an optional percentage: unavailable values are never replaced with zero.
pub open spec fn percent_row(label: Seq<char>, b: Option<u32>, c: Option<u32>) -> Seq<char> {
    row(label, optional_percent_cell(b), optional_percent_cell(c), percent_change(b, c))
}

/// A cell of an optional count.
pub open spec fn optional_count_cell(o: Option<u64>) -> Seq<char> {
    match o {
        Some(v) => decimal(v as nat),
        None => "Unavailable"@,
    }
}

/// The change of an optional count, unavailable unless both values are.
pub open spec fn count_change(b: Option<u64>, c: Option<u64>) -> Seq<char> {
    match (b, c) {
        (Some(x), Some(y)) => signed_count_text(y as nat, x as nat),
        _ => "Unavailable"@,
    }
}

/// The row of an optional count: unavailable values are never replaced with zero.
pub open spec fn count_row(label: Seq<char>, b: Option<u64>, c: Option<u64>) -> Seq<char> {
    row(label, optional_count_cell(b), optional_count_cell(c), count_change(b, c))
}

/// An optional platform-sized count widened to 64 bits.
pub open spec fn wide(o: Option<usize>) -> Option<u64> {
    match o {
        Some(v) => Some(v as u64),
        None => None,
    }
}

/// Already formatted cells of one measured resource or retrieval value.
pub struct MeasuredCells {
    /// Baseline cell.
    pub baseline: String,
    /// Candidate cell.
    pub candidate: String,
    /// Change cell.
    pub change: String,
}

/// The measured (fractional) retrieval and resource values of both packages, already formatted.
pub struct MeasuredRows {
    /// Duplicate question rate.
    pub duplicate_question_rate: MeasuredCells,
    /// Answer reuse rate.
    pub answer_reuse_rate: MeasuredCells,
    /// Repeated research rate.
    pub repeated_research_rate: MeasuredCells,
    /// Stale retrieval rate.
    pub stale_retrieval_rate: MeasuredCells,
    /// Execution time in seconds.
    pub execution_time_seconds: MeasuredCells,
    /// Human interaction time in seconds.
    pub human_interaction_time_seconds: MeasuredCells,
    /// Execution cost.
    pub cost: MeasuredCells,
}

/// The row of one measured value from its formatted cells.
pub open spec fn measured_row(label: Seq<char>, m: MeasuredCells) -> Seq<char> {
    row(label, m.baseline@, m.candidate@, m.change@)
}

/// The heading, the independence statement and the header of the metric table.
pub open spec fn comparison_head() -> Seq<char> {
    "# Comparison Report\n\n"@
        + "Both packages were evaluated independently before this comparison was calculated.\n\n"@
        + "| Metric | Baseline | Candidate | Change |\n|---|---:|---:|---:|\n"@
}

/// The metric table rows, in the rubric's order.
pub open spec fn metric_rows(b: ValidationReport, c: ValidationReport, m: MeasuredRows) -> Seq<char> {
    row("DRPFS"@, tenths_text(b.drpfs as nat), tenths_text(c.drpfs as nat), signed_tenths_text(c.drpfs - b.drpfs))
        + dimension_row("Brief Fidelity"@, b.dimensions.brief_fidelity, c.dimensions.brief_fidelity)
        + dimension_row("Assumption Discipline"@, b.dimensions.assumption_discipline, c.dimensions.assumption_discipline)
        + dimension_row("Consistency"@, b.dimensions.cross_document_consistency, c.dimensions.cross_document_consistency)
        + dimension_row("Evidence Quality"@, b.dimensions.evidence_quality, c.dimensions.evidence_quality)
        + dimension_row("Traceability"@, b.dimensions.traceability, c.dimensions.traceability)
        + dimension_row("Actionability"@, b.dimensions.actionability, c.dimensions.actionability)
        + dimension_row("Artifact Completeness"@, b.dimensions.artifact_quality, c.dimensions.artifact_quality)
        + percent_row("Unsupported Decision Rate"@, b.metrics.unsupported_decision_rate, c.metrics.unsupported_decision_rate)
        + percent_row("Traceability Coverage"@, b.metrics.requirement_traceability_coverage, c.metrics.requirement_traceability_coverage)
        + measured_row("Duplicate Question Rate"@, m.duplicate_question_rate)
        + measured_row("Answer Reuse Rate"@, m.answer_reuse_rate)
        + measured_row("Repeated Research Rate"@, m.repeated_research_rate)
        + count_row("Context Supplied"@, b.metrics.context_supplied, c.metrics.context_supplied)
        + count_row("Retrieval Calls"@, b.metrics.retrieval_calls, c.metrics.retrieval_calls)
        + measured_row("Stale Retrieval Rate"@, m.stale_retrieval_rate)
        + count_row("Cross-Project Leakage"@, wide(b.metrics.cross_project_leakage), wide(c.metrics.cross_project_leakage))
}

/// The heading and header of the resource table.
pub open spec fn resource_heading() -> Seq<char> {
    "\n## Resource Differences\n\n| Resource | Baseline | Candidate | Change |\n|---|---:|---:|---:|\n"@
}

/// The resource table: its heading, header and rows.
pub open spec fn resource_rows(b: ValidationReport, c: ValidationReport, m: MeasuredRows) -> Seq<char> {
    resource_heading() + resource_table_rows(b, c, m)
}

/// The rows of the resource table.
pub open spec fn resource_table_rows(b: ValidationReport, c: ValidationReport, m: MeasuredRows) -> Seq<char> {
    measured_row("Execution Time (seconds)"@, m.execution_time_seconds)
        + measured_row("Human Interaction Time (seconds)"@, m.human_interaction_time_seconds)
        + count_row("User Questions"@, b.metrics.user_questions, c.metrics.user_questions)
        + count_row("Model Calls"@, b.metrics.model_calls, c.metrics.model_calls)
        + count_row("Token Usage"@, b.metrics.token_usage, c.metrics.token_usage)
        + measured_row("Cost"@, m.cost)
}

/// The closing caution on retrieval and resource metrics.
pub open spec fn comparison_caution() -> Seq<char> {
    "\nResource and retrieval metrics are diagnostic. A better retrieval metric does not prove that the final project foundation is better, and DRPFS differences should be interpreted alongside resource differences.\n"@
}

/// The complete comparison report.
pub open spec fn comparison_markdown(b: ValidationReport, c: ValidationReport, m: MeasuredRows) -> Seq<char> {
    comparison_head() + metric_rows(b, c, m) + resource_rows(b, c, m) + comparison_caution()
}

/// Writes tenths with one decimal place.
fn tenths_cell(t: u64) -> (r: Vec<char>)
    ensures
        r@ == tenths_text(t as nat),
{
    concat(&concat(&decimal_text(t / 10), &lit(".")), &decimal_text(t % 10))
}

/// Writes a signed difference of tenths.
fn signed_tenths_cell(candidate: u64, baseline: u64) -> (r: Vec<char>)
    ensures
        r@ == signed_tenths_text(candidate - baseline),
{
    if candidate >= baseline {
        concat(&lit("+"), &tenths_cell(candidate - baseline))
    } else {
        concat(&lit("-"), &tenths_cell(baseline - candidate))
    }
}

/// Formats an exact signed difference between two unsigned counts without overflow.
pub fn format_signed_count(candidate: u64, baseline: u64) -> (r: String)
    ensures
        r@ == signed_count_text(candidate as nat, baseline as nat),
{
    let v = if candidate >= baseline {
        concat(&lit("+"), &decimal_text(candidate - baseline))
    } else {
        concat(&lit("-"), &decimal_text(baseline - candidate))
    };
    string_of(&v)
}

/// Appends one table row.
fn push_row(out: &mut Vec<char>, label: &str, baseline: &[char], candidate: &[char], change: &[char])
    ensures
        final(out)@ == old(out)@ + row(label@, baseline@, candidate@, change@),
{
    let mut v = concat(&lit("| "), &lit(label));
    v = concat(&v, &lit(" | "));
    v = concat(&v, baseline);
    v = concat(&v, &lit(" | "));
    v = concat(&v, candidate);
    v = concat(&v, &lit(" | "));
    v = concat(&v, change);
    v = concat(&v, &lit(" |\n"));
    let next = concat(out, &v);
    assert(next@ =~= old(out)@ + row(label@, baseline@, candidate@, change@));
    *out = next;
}

/// Appends one fixed dimension score with its maximum.
fn append_dimension_row(out: &mut Vec<char>, label: &str, b: &DimensionScore, c: &DimensionScore)
    ensures
        final(out)@ == old(out)@ + dimension_row(label@, *b, *c),
{
    let bt = concat(&concat(&tenths_cell(b.score as u64), &lit("/")), &decimal_text(b.max as u64));
    let ct = concat(&concat(&tenths_cell(c.score as u64), &lit("/")), &decimal_text(c.max as u64));
    let change = signed_tenths_cell(c.score as u64, b.score as u64);
    push_row(out, label, &bt, &ct, &change);
}

/// Writes one optional percentage cell.
fn percent_cell(o: Option<u32>) -> (r: Vec<char>)
    ensures
        r@ == optional_percent_cell(o),
{
    match o {
        Some(v) => concat(&tenths_cell(v as u64), &lit("%")),
        None => lit("Unavailable"),
    }
}

/// Appends one optional percentage without substituting zero.
fn append_percent_row(out: &mut Vec<char>, label: &str, b: Option<u32>, c: Option<u32>)
    ensures
        final(out)@ == old(out)@ + percent_row(label@, b, c),
{
    let change = match (b, c) {
        (Some(x), Some(y)) => concat(&signed_tenths_cell(y as u64, x as u64), &lit("%")),
        _ => lit("Unavailable"),
    };
    push_row(out, label, &percent_cell(b), &percent_cell(c), &change);
}

/// Writes one optional count cell.
fn count_cell(o: Option<u64>) -> (r: Vec<char>)
    ensures
        r@ == optional_count_cell(o),
{
    match o {
        Some(v) => decimal_text(v),
        None => lit("Unavailable"),
    }
}

/// Appends one optional 64-bit count without substituting zero.
fn append_count_row(out: &mut Vec<char>, label: &str, b: Option<u64>, c: Option<u64>)
    ensures
        final(out)@ == old(out)@ + count_row(label@, b, c),
{
    let change = match (b, c) {
        (Some(x), Some(y)) => lit(format_signed_count(y, x).as_str()),
        _ => lit("Unavailable"),
    };
    push_row(out, label, &count_cell(b), &count_cell(c), &change);
}

/// Widens an optional platform-sized count.
fn widen(o: Option<usize>) -> (r: Option<u64>)
    ensures
        r == wide(o),
{
    match o {
        Some(v) => Some(v as u64),
        None => None,
    }
}

/// Appends one measured value from its formatted cells.
fn append_measured_row(out: &mut Vec<char>, label: &str, m: &MeasuredCells)
    ensures
        final(out)@ == old(out)@ + measured_row(label@, *m),
{
    push_row(out, label, &lit(m.baseline.as_str()), &lit(m.candidate.as_str()), &lit(m.change.as_str()));
}

/// Writes the metric table rows.
fn metric_part(b: &ValidationReport, c: &ValidationReport, measured: &MeasuredRows) -> (r: Vec<char>)
    ensures
        r@ == metric_rows(*b, *c, *measured),
{
    let mut out: Vec<char> = Vec::new();
    push_row(&mut out, "DRPFS", &tenths_cell(b.drpfs), &tenths_cell(c.drpfs), &signed_tenths_cell(c.drpfs, b.drpfs));
    assert(out@ =~= row("DRPFS"@, tenths_text(b.drpfs as nat), tenths_text(c.drpfs as nat), signed_tenths_text(c.drpfs - b.drpfs)));
    append_dimension_row(&mut out, "Brief Fidelity", &b.dimensions.brief_fidelity, &c.dimensions.brief_fidelity);
    append_dimension_row(&mut out, "Assumption Discipline", &b.dimensions.assumption_discipline, &c.dimensions.assumption_discipline);
    append_dimension_row(&mut out, "Consistency", &b.dimensions.cross_document_consistency, &c.dimensions.cross_document_consistency);
    append_dimension_row(&mut out, "Evidence Quality", &b.dimensions.evidence_quality, &c.dimensions.evidence_quality);
    append_dimension_row(&mut out, "Traceability", &b.dimensions.traceability, &c.dimensions.traceability);
    append_dimension_row(&mut out, "Actionability", &b.dimensions.actionability, &c.dimensions.actionability);
    append_dimension_row(&mut out, "Artifact Completeness", &b.dimensions.artifact_quality, &c.dimensions.artifact_quality);
    append_percent_row(&mut out, "Unsupported Decision Rate", b.metrics.unsupported_decision_rate, c.metrics.unsupported_decision_rate);
    append_percent_row(&mut out, "Traceability Coverage", b.metrics.requirement_traceability_coverage, c.metrics.requirement_traceability_coverage);
    append_measured_row(&mut out, "Duplicate Question Rate", &measured.duplicate_question_rate);
    append_measured_row(&mut out, "Answer Reuse Rate", &measured.answer_reuse_rate);
    append_measured_row(&mut out, "Repeated Research Rate", &measured.repeated_research_rate);
    append_count_row(&mut out, "Context Supplied", b.metrics.context_supplied, c.metrics.context_supplied);
    append_count_row(&mut out, "Retrieval Calls", b.metrics.retrieval_calls, c.metrics.retrieval_calls);
    append_measured_row(&mut out, "Stale Retrieval Rate", &measured.stale_retrieval_rate);
    append_count_row(&mut out, "Cross-Project Leakage", widen(b.metrics.cross_project_leakage), widen(c.metrics.cross_project_leakage));
    out
}

/// Writes the resource table.
fn resource_part(b: &ValidationReport, c: &ValidationReport, measured: &MeasuredRows) -> (r: Vec<char>)
    ensures
        r@ == resource_rows(*b, *c, *measured),
{
    let mut out = lit("\n## Resource Differences\n\n| Resource | Baseline | Candidate | Change |\n|---|---:|---:|---:|\n");
    append_measured_row(&mut out, "Execution Time (seconds)", &measured.execution_time_seconds);
    append_measured_row(&mut out, "Human Interaction Time (seconds)", &measured.human_interaction_time_seconds);
    append_count_row(&mut out, "User Questions", b.metrics.user_questions, c.metrics.user_questions);
    append_count_row(&mut out, "Model Calls", b.metrics.model_calls, c.metrics.model_calls);
    append_count_row(&mut out, "Token Usage", b.metrics.token_usage, c.metrics.token_usage);
    append_measured_row(&mut out, "Cost", &measured.cost);
    out
}

/// Renders the metric comparison and the resource-difference disclosure of two independently
/// finished reports.
pub fn render_comparison_markdown(
    baseline: &ValidationReport,
    candidate: &ValidationReport,
    measured: &MeasuredRows,
) -> (r: String)
    ensures
        r@ == comparison_markdown(*baseline, *candidate, *measured),
{
    let head = lit("# Comparison Report\n\nBoth packages were evaluated independently before this comparison was calculated.\n\n| Metric | Baseline | Candidate | Change |\n|---|---:|---:|---:|\n");
    proof {
        reveal_strlit("# Comparison Report\n\n");
        reveal_strlit("Both packages were evaluated independently before this comparison was calculated.\n\n");
        reveal_strlit("| Metric | Baseline | Candidate | Change |\n|---|---:|---:|---:|\n");
        reveal_strlit("# Comparison Report\n\nBoth packages were evaluated independently before this comparison was calculated.\n\n| Metric | Baseline | Candidate | Change |\n|---|---:|---:|---:|\n");
    }
    assert(head@ =~= comparison_head());
    let metrics = metric_part(baseline, candidate, measured);
    let resources = resource_part(baseline, candidate, measured);
    let caution = lit("\nResource and retrieval metrics are diagnostic. A better retrieval metric does not prove that the final project foundation is better, and DRPFS differences should be interpreted alongside resource differences.\n");
    let all = concat(&concat(&concat(&head, &metrics), &resources), &caution);
    string_of(&all)
}


/// The two sides of a comparison are partitioned: different package identities and different
/// output directories, whatever the comparison request.
pub proof fn law_sides_partitioned(input: ComparisonInput, baseline: PackageInput, candidate: PackageInput)
    requires
        side_input(input, true, baseline),
        side_input(input, false, candidate),
    ensures
        baseline.package_id@ != candidate.package_id@,
        baseline.output_dir@ != candidate.output_dir@,
{
    reveal_strlit("baseline");
    reveal_strlit("candidate");
    reveal_strlit("/");
    let b = baseline.output_dir@;
    let c = candidate.output_dir@;
    assert("baseline"@.last() == 'e');
    assert("candidate"@.last() == 'e');
    assert("baseline"@.len() == 8);
    assert("candidate"@.len() == 9);
    assert(b.len() != c.len() || b[b.len() - 2] != c[c.len() - 2]) by {
        if b.len() == c.len() {
            assert(b[b.len() - 2] == 'n');
            assert(c[c.len() - 2] == 't');
        }
    }
}

/// A decimal numeral is non-empty and starts with a digit.
proof fn lemma_decimal_starts_with_digit(n: nat)
    ensures
        decimal(n).len() > 0,
        '0' <= decimal(n)[0] <= '9',
    decreases n,
{
    if n >= 10 {
        lemma_decimal_starts_with_digit(n / 10);
        assert(decimal(n)[0] == decimal(n / 10)[0]);
    }
}

/// In the optional rows of a comparison, a cell reads "Unavailable" exactly when its value is
/// missing, and a change cell exactly when either value is missing: a missing value is never
/// shown as a number, and no number is shown as missing.
pub proof fn law_unavailable_cells(b: Option<u32>, c: Option<u32>, x: Option<u64>, y: Option<u64>)
    ensures
        optional_percent_cell(b) == "Unavailable"@ <==> b is None,
        optional_count_cell(x) == "Unavailable"@ <==> x is None,
        percent_change(b, c) == "Unavailable"@ <==> (b is None || c is None),
        count_change(x, y) == "Unavailable"@ <==> (x is None || y is None),
{
    reveal_strlit("Unavailable");
    let u = "Unavailable"@;
    assert(u[0] == 'U');
    if let Some(v) = b {
        lemma_decimal_starts_with_digit(v as nat / 10);
        assert(optional_percent_cell(b)[0] == decimal(v as nat / 10)[0]);
    }
    if let Some(v) = x {
        lemma_decimal_starts_with_digit(v as nat);
    }
    if let (Some(p), Some(q)) = (b, c) {
        reveal_strlit("+");
        reveal_strlit("-");
        let d = q - p;
        assert(percent_change(b, c)[0] == signed_tenths_text(d)[0]);
        assert(signed_tenths_text(d)[0] == '+' || signed_tenths_text(d)[0] == '-');
    }
    if let (Some(p), Some(q)) = (x, y) {
        reveal_strlit("+");
        reveal_strlit("-");
        assert(count_change(x, y)[0] == '+' || count_change(x, y)[0] == '-');
    }
}

/// Swapping the baseline and the candidate negates every change: the change written for one
/// order and for the other have the same magnitude and, unless zero, opposite signs.
pub proof fn law_swapped_changes(d: int, p: nat, q: nat)
    ensures
        signed_tenths_text(d).drop_first() == signed_tenths_text(-d).drop_first(),
        d != 0 ==> signed_tenths_text(d)[0] != signed_tenths_text(-d)[0],
        signed_count_text(q, p).drop_first() == signed_count_text(p, q).drop_first(),
        p != q ==> signed_count_text(q, p)[0] != signed_count_text(p, q)[0],
{
    reveal_strlit("+");
    reveal_strlit("-");
    if d > 0 {
        assert(signed_tenths_text(d).drop_first() =~= tenths_text(d as nat));
        assert(signed_tenths_text(-d).drop_first() =~= tenths_text(d as nat));
    } else if d < 0 {
        assert(signed_tenths_text(d).drop_first() =~= tenths_text((-d) as nat));
        assert(signed_tenths_text(-d).drop_first() =~= tenths_text((-d) as nat));
    }
    if q > p {
        assert(signed_count_text(q, p).drop_first() =~= decimal((q - p) as nat));
        assert(signed_count_text(p, q).drop_first() =~= decimal((q - p) as nat));
    } else if q < p {
        assert(signed_count_text(q, p).drop_first() =~= decimal((p - q) as nat));
        assert(signed_count_text(p, q).drop_first() =~= decimal((p - q) as nat));
    }
}

/// A table row's label, baseline cell, candidate cell and change cell.
pub open spec fn cells(label: Seq<char>, baseline: Seq<char>, candidate: Seq<char>, change: Seq<char>) -> (
    Seq<char>,
    Seq<char>,
    Seq<char>,
    Seq<char>,
) {
    (label, baseline, candidate, change)
}

/// The text of table rows given by their cells, in order.
#[verifier::opaque]
pub open spec fn table_text(t: Seq<(Seq<char>, Seq<char>, Seq<char>, Seq<char>)>) -> Seq<char>
    decreases t.len(),
{
    if t.len() == 0 {
        seq![]
    } else {
        table_text(t.drop_last()) + row(t.last().0, t.last().1, t.last().2, t.last().3)
    }
}

/// The label of a table row.
pub open spec fn label_of() -> spec_fn((Seq<char>, Seq<char>, Seq<char>, Seq<char>)) -> Seq<char> {
    |r: (Seq<char>, Seq<char>, Seq<char>, Seq<char>)| r.0
}

/// The cells of a dimension row.
pub open spec fn dimension_cells(label: Seq<char>, b: DimensionScore, c: DimensionScore) -> (
    Seq<char>,
    Seq<char>,
    Seq<char>,
    Seq<char>,
) {
    cells(
        label,
        tenths_text(b.score as nat) + "/"@ + decimal(b.max as nat),
        tenths_text(c.score as nat) + "/"@ + decimal(c.max as nat),
        signed_tenths_text(c.score - b.score),
    )
}

/// The cells of row `i` of the metric table.
pub open spec fn metric_cells(b: ValidationReport, c: ValidationReport, m: MeasuredRows, i: int) -> (Seq<char>, Seq<char>, Seq<char>, Seq<char>) {
    let (bd, cd, bm, cm) = (b.dimensions, c.dimensions, b.metrics, c.metrics);
    if i == 0 {
        cells("DRPFS"@, tenths_text(b.drpfs as nat), tenths_text(c.drpfs as nat), signed_tenths_text(c.drpfs - b.drpfs))
    } else if i == 1 {
        dimension_cells("Brief Fidelity"@, bd.brief_fidelity, cd.brief_fidelity)
    } else if i == 2 {
        dimension_cells("Assumption Discipline"@, bd.assumption_discipline, cd.assumption_discipline)
    } else if i == 3 {
        dimension_cells("Consistency"@, bd.cross_document_consistency, cd.cross_document_consistency)
    } else if i == 4 {
        dimension_cells("Evidence Quality"@, bd.evidence_quality, cd.evidence_quality)
    } else if i == 5 {
        dimension_cells("Traceability"@, bd.traceability, cd.traceability)
    } else if i == 6 {
        dimension_cells("Actionability"@, bd.actionability, cd.actionability)
    } else if i == 7 {
        dimension_cells("Artifact Completeness"@, bd.artifact_quality, cd.artifact_quality)
    } else if i == 8 {
        cells("Unsupported Decision Rate"@, optional_percent_cell(bm.unsupported_decision_rate), optional_percent_cell(cm.unsupported_decision_rate), percent_change(bm.unsupported_decision_rate, cm.unsupported_decision_rate))
    } else if i == 9 {
        cells("Traceability Coverage"@, optional_percent_cell(bm.requirement_traceability_coverage), optional_percent_cell(cm.requirement_traceability_coverage), percent_change(bm.requirement_traceability_coverage, cm.requirement_traceability_coverage))
    } else if i == 10 {
        cells("Duplicate Question Rate"@, m.duplicate_question_rate.baseline@, m.duplicate_question_rate.candidate@, m.duplicate_question_rate.change@)
    } else if i == 11 {
        cells("Answer Reuse Rate"@, m.answer_reuse_rate.baseline@, m.answer_reuse_rate.candidate@, m.answer_reuse_rate.change@)
    } else if i == 12 {
        cells("Repeated Research Rate"@, m.repeated_research_rate.baseline@, m.repeated_research_rate.candidate@, m.repeated_research_rate.change@)
    } else if i == 13 {
        cells("Context Supplied"@, optional_count_cell(bm.context_supplied), optional_count_cell(cm.context_supplied), count_change(bm.context_supplied, cm.context_supplied))
    } else if i == 14 {
        cells("Retrieval Calls"@, optional_count_cell(bm.retrieval_calls), optional_count_cell(cm.retrieval_calls), count_change(bm.retrieval_calls, cm.retrieval_calls))
    } else if i == 15 {
        cells("Stale Retrieval Rate"@, m.stale_retrieval_rate.baseline@, m.stale_retrieval_rate.candidate@, m.stale_retrieval_rate.change@)
    } else {
        cells("Cross-Project Leakage"@, optional_count_cell(wide(bm.cross_project_leakage)), optional_count_cell(wide(cm.cross_project_leakage)), count_change(wide(bm.cross_project_leakage), wide(cm.cross_project_leakage)))
    }
}

/// The cells of the metric table, row by row.
pub open spec fn metric_table(b: ValidationReport, c: ValidationReport, m: MeasuredRows) -> Seq<(Seq<char>, Seq<char>, Seq<char>, Seq<char>)> {
    Seq::new(17, |i: int| metric_cells(b, c, m, i))
}

/// The cells of row `i` of the resource table.
pub open spec fn resource_cells(b: ValidationReport, c: ValidationReport, m: MeasuredRows, i: int) -> (Seq<char>, Seq<char>, Seq<char>, Seq<char>) {
    let (bm, cm) = (b.metrics, c.metrics);
    if i == 0 {
        cells("Execution Time (seconds)"@, m.execution_time_seconds.baseline@, m.execution_time_seconds.candidate@, m.execution_time_seconds.change@)
    } else if i == 1 {
        cells("Human Interaction Time (seconds)"@, m.human_interaction_time_seconds.baseline@, m.human_interaction_time_seconds.candidate@, m.human_interaction_time_seconds.change@)
    } else if i == 2 {
        cells("User Questions"@, optional_count_cell(bm.user_questions), optional_count_cell(cm.user_questions), count_change(bm.user_questions, cm.user_questions))
    } else if i == 3 {
        cells("Model Calls"@, optional_count_cell(bm.model_calls), optional_count_cell(cm.model_calls), count_change(bm.model_calls, cm.model_calls))
    } else if i == 4 {
        cells("Token Usage"@, optional_count_cell(bm.token_usage), optional_count_cell(cm.token_usage), count_change(bm.token_usage, cm.token_usage))
    } else {
        cells("Cost"@, m.cost.baseline@, m.cost.candidate@, m.cost.change@)
    }
}

/// The cells of the resource table, row by row.
pub open spec fn resource_table(b: ValidationReport, c: ValidationReport, m: MeasuredRows) -> Seq<(Seq<char>, Seq<char>, Seq<char>, Seq<char>)> {
    Seq::new(6, |i: int| resource_cells(b, c, m, i))
}

/// Appending a row's cells appends its text.
proof fn lemma_table_push(
    t: Seq<(Seq<char>, Seq<char>, Seq<char>, Seq<char>)>,
    r: (Seq<char>, Seq<char>, Seq<char>, Seq<char>),
)
    ensures
        table_text(t.push(r)) == table_text(t) + row(r.0, r.1, r.2, r.3),
{
    reveal(table_text);
    assert(t.push(r).drop_last() =~= t);
}

/// The metric table's rows are the rows of its cells.
#[verifier::rlimit(40)]
proof fn lemma_metric_table_text(b: ValidationReport, c: ValidationReport, m: MeasuredRows)
    ensures
        table_text(metric_table(b, c, m)) == metric_rows(b, c, m),
{
    let t = metric_table(b, c, m);
    let p0 = Seq::<(Seq<char>, Seq<char>, Seq<char>, Seq<char>)>::empty();
    assert(table_text(p0) == Seq::<char>::empty()) by {
        reveal(table_text);
    }
    let p1 = p0.push(t[0]);
    lemma_table_push(p0, t[0]);
    let p2 = p1.push(t[1]);
    lemma_table_push(p1, t[1]);
    let p3 = p2.push(t[2]);
    lemma_table_push(p2, t[2]);
    let p4 = p3.push(t[3]);
    lemma_table_push(p3, t[3]);
    let p5 = p4.push(t[4]);
    lemma_table_push(p4, t[4]);
    let p6 = p5.push(t[5]);
    lemma_table_push(p5, t[5]);
    let p7 = p6.push(t[6]);
    lemma_table_push(p6, t[6]);
    let p8 = p7.push(t[7]);
    lemma_table_push(p7, t[7]);
    let p9 = p8.push(t[8]);
    lemma_table_push(p8, t[8]);
    let p10 = p9.push(t[9]);
    lemma_table_push(p9, t[9]);
    let p11 = p10.push(t[10]);
    lemma_table_push(p10, t[10]);
    let p12 = p11.push(t[11]);
    lemma_table_push(p11, t[11]);
    let p13 = p12.push(t[12]);
    lemma_table_push(p12, t[12]);
    let p14 = p13.push(t[13]);
    lemma_table_push(p13, t[13]);
    let p15 = p14.push(t[14]);
    lemma_table_push(p14, t[14]);
    let p16 = p15.push(t[15]);
    lemma_table_push(p15, t[15]);
    let p17 = p16.push(t[16]);
    lemma_table_push(p16, t[16]);
    assert(p17 =~= t);
    assert(table_text(t) =~= metric_rows(b, c, m));
}

/// The resource table's rows are the rows of its cells.
#[verifier::rlimit(40)]
proof fn lemma_resource_table_text(b: ValidationReport, c: ValidationReport, m: MeasuredRows)
    ensures
        table_text(resource_table(b, c, m)) == resource_table_rows(b, c, m),
{
    let t = resource_table(b, c, m);
    let p0 = Seq::<(Seq<char>, Seq<char>, Seq<char>, Seq<char>)>::empty();
    assert(table_text(p0) == Seq::<char>::empty()) by {
        reveal(table_text);
    }
    let p1 = p0.push(t[0]);
    lemma_table_push(p0, t[0]);
    let p2 = p1.push(t[1]);
    lemma_table_push(p1, t[1]);
    let p3 = p2.push(t[2]);
    lemma_table_push(p2, t[2]);
    let p4 = p3.push(t[3]);
    lemma_table_push(p3, t[3]);
    let p5 = p4.push(t[4]);
    lemma_table_push(p4, t[4]);
    let p6 = p5.push(t[5]);
    lemma_table_push(p5, t[5]);
    assert(p6 =~= t);
    assert(table_text(t) =~= resource_table_rows(b, c, m));
}

/// The comparison report is its heading and table header, the metric rows in the rubric's
/// order (DRPFS, the seven dimensions, then the retrieval metrics), the resource table with
/// its six rows, and the closing caution that a better retrieval metric does not prove a
/// better project foundation.
pub proof fn law_comparison_layout(b: ValidationReport, c: ValidationReport, m: MeasuredRows)
    ensures
        comparison_markdown(b, c, m) == comparison_head() + table_text(metric_table(b, c, m))
            + resource_heading() + table_text(resource_table(b, c, m)) + comparison_caution(),
        metric_table(b, c, m).map_values(label_of()) == seq![
            "DRPFS"@, "Brief Fidelity"@, "Assumption Discipline"@, "Consistency"@,
            "Evidence Quality"@, "Traceability"@, "Actionability"@, "Artifact Completeness"@,
            "Unsupported Decision Rate"@, "Traceability Coverage"@, "Duplicate Question Rate"@,
            "Answer Reuse Rate"@, "Repeated Research Rate"@, "Context Supplied"@,
            "Retrieval Calls"@, "Stale Retrieval Rate"@, "Cross-Project Leakage"@,
        ],
        resource_table(b, c, m).map_values(label_of()) == seq![
            "Execution Time (seconds)"@, "Human Interaction Time (seconds)"@, "User Questions"@,
            "Model Calls"@, "Token Usage"@, "Cost"@,
        ],
{
    lemma_layout_text(b, c, m);
    lemma_metric_labels(b, c, m);
    lemma_resource_labels(b, c, m);
}

/// The comparison report laid out from its two tables.
#[verifier::spinoff_prover]
#[verifier::rlimit(60)]
proof fn lemma_layout_text(b: ValidationReport, c: ValidationReport, m: MeasuredRows)
    ensures
        comparison_markdown(b, c, m) == comparison_head() + table_text(metric_table(b, c, m))
            + resource_heading() + table_text(resource_table(b, c, m)) + comparison_caution(),
{
    lemma_metric_table_text(b, c, m);
    lemma_resource_table_text(b, c, m);
    let x = metric_rows(b, c, m);
    let y = resource_table_rows(b, c, m);
    assert(comparison_markdown(b, c, m) == comparison_head() + x + (resource_heading() + y)
        + comparison_caution());
    assert(comparison_head() + x + (resource_heading() + y) + comparison_caution() =~= comparison_head()
        + x + resource_heading() + y + comparison_caution());
}

/// The labels of the metric table, in order.
proof fn lemma_metric_labels(b: ValidationReport, c: ValidationReport, m: MeasuredRows)
    ensures
        metric_table(b, c, m).map_values(label_of()) == seq![
            "DRPFS"@, "Brief Fidelity"@, "Assumption Discipline"@, "Consistency"@,
            "Evidence Quality"@, "Traceability"@, "Actionability"@, "Artifact Completeness"@,
            "Unsupported Decision Rate"@, "Traceability Coverage"@, "Duplicate Question Rate"@,
            "Answer Reuse Rate"@, "Repeated Research Rate"@, "Context Supplied"@,
            "Retrieval Calls"@, "Stale Retrieval Rate"@, "Cross-Project Leakage"@,
        ],
{
    assert(metric_table(b, c, m).map_values(label_of()) =~= seq![
        "DRPFS"@, "Brief Fidelity"@, "Assumption Discipline"@, "Consistency"@,
        "Evidence Quality"@, "Traceability"@, "Actionability"@, "Artifact Completeness"@,
        "Unsupported Decision Rate"@, "Traceability Coverage"@, "Duplicate Question Rate"@,
        "Answer Reuse Rate"@, "Repeated Research Rate"@, "Context Supplied"@,
        "Retrieval Calls"@, "Stale Retrieval Rate"@, "Cross-Project Leakage"@,
    ]);
}

/// The labels of the resource table, in order.
proof fn lemma_resource_labels(b: ValidationReport, c: ValidationReport, m: MeasuredRows)
    ensures
        resource_table(b, c, m).map_values(label_of()) == seq![
            "Execution Time (seconds)"@, "Human Interaction Time (seconds)"@, "User Questions"@,
            "Model Calls"@, "Token Usage"@, "Cost"@,
        ],
{
    assert(resource_table(b, c, m).map_values(label_of()) =~= seq![
        "Execution Time (seconds)"@, "Human Interaction Time (seconds)"@, "User Questions"@,
        "Model Calls"@, "Token Usage"@, "Cost"@,
    ]);
}

/// Two rows mirror each other: same label, the cells of the two sides exchanged, and changes
/// that are both unavailable or the negation of each other (same magnitude after the sign,
/// and the same sign only when the two are identical, that is when the change is zero).
pub open spec fn mirrored(r1: (Seq<char>, Seq<char>, Seq<char>, Seq<char>), r2: (Seq<char>, Seq<char>, Seq<char>, Seq<char>)) -> bool {
    &&& r2.0 == r1.0
    &&& r2.1 == r1.2
    &&& r2.2 == r1.1
    &&& (r1.3 == "Unavailable"@ <==> r2.3 == "Unavailable"@)
    &&& r1.3 != "Unavailable"@ ==> r1.3.len() > 0 && r2.3.len() > 0 && r1.3.drop_first()
        == r2.3.drop_first() && (r1.3[0] == r2.3[0] ==> r1.3 == r2.3)
}

/// Signed tenths never read "Unavailable" and start with their sign.
proof fn lemma_signed_tenths_shape(d: int)
    ensures
        signed_tenths_text(d).len() > 0,
        signed_tenths_text(d)[0] == '+' || signed_tenths_text(d)[0] == '-',
        signed_tenths_text(d) != "Unavailable"@,
        (signed_tenths_text(d) + "%"@).len() > 0,
        (signed_tenths_text(d) + "%"@)[0] == signed_tenths_text(d)[0],
        (signed_tenths_text(d) + "%"@) != "Unavailable"@,
{
    reveal_strlit("+");
    reveal_strlit("-");
    reveal_strlit("Unavailable");
    assert("Unavailable"@[0] == 'U');
    assert((signed_tenths_text(d) + "%"@)[0] == signed_tenths_text(d)[0]);
}

/// Rows of the same signed tenths, from either side, mirror each other.
proof fn lemma_mirror_tenths(label: Seq<char>, x: Seq<char>, y: Seq<char>, d: int)
    ensures
        mirrored(cells(label, x, y, signed_tenths_text(d)), cells(label, y, x, signed_tenths_text(-d))),
{
    lemma_signed_tenths_shape(d);
    lemma_signed_tenths_shape(-d);
    law_swapped_changes(d, 0, 0);
}

/// Optional percentage rows from either side mirror each other.
proof fn lemma_mirror_percent(label: Seq<char>, b: Option<u32>, c: Option<u32>)
    ensures
        mirrored(
            cells(label, optional_percent_cell(b), optional_percent_cell(c), percent_change(b, c)),
            cells(label, optional_percent_cell(c), optional_percent_cell(b), percent_change(c, b)),
        ),
{
    law_unavailable_cells(b, c, None, None);
    law_unavailable_cells(c, b, None, None);
    if let (Some(x), Some(y)) = (b, c) {
        let d = y - x;
        lemma_signed_tenths_shape(d);
        lemma_signed_tenths_shape(-d);
        law_swapped_changes(d, 0, 0);
        assert((signed_tenths_text(d) + "%"@).drop_first() =~= signed_tenths_text(d).drop_first() + "%"@);
        assert((signed_tenths_text(-d) + "%"@).drop_first() =~= signed_tenths_text(-d).drop_first() + "%"@);
        if signed_tenths_text(d)[0] == signed_tenths_text(-d)[0] {
            assert(d == 0);
        }
    }
}

/// Optional count rows from either side mirror each other.
proof fn lemma_mirror_count(label: Seq<char>, b: Option<u64>, c: Option<u64>)
    ensures
        mirrored(
            cells(label, optional_count_cell(b), optional_count_cell(c), count_change(b, c)),
            cells(label, optional_count_cell(c), optional_count_cell(b), count_change(c, b)),
        ),
{
    law_unavailable_cells(None, None, b, c);
    law_unavailable_cells(None, None, c, b);
    if let (Some(x), Some(y)) = (b, c) {
        reveal_strlit("+");
        reveal_strlit("-");
        law_swapped_changes(0, x as nat, y as nat);
        if x == y {
            assert(count_change(b, c) == count_change(c, b));
        }
    }
}

/// Swapping the baseline and the candidate mirrors every row that the library computes: the
/// DRPFS and dimension rows, the percentage and count rows of the metric table, and the count
/// rows of the resource table. (The fractional measured rows arrive already formatted.)
pub proof fn law_comparison_swap(b: ValidationReport, c: ValidationReport, m: MeasuredRows, ms: MeasuredRows)
    ensures
        forall|i: int|
            0 <= i < 17 && i != 10 && i != 11 && i != 12 && i != 15 ==> mirrored(
                #[trigger] metric_table(b, c, m)[i],
                metric_table(c, b, ms)[i],
            ),
        forall|i: int|
            2 <= i < 5 ==> mirrored(#[trigger] resource_table(b, c, m)[i], resource_table(c, b, ms)[i]),
{
    let (bd, cd, bm, cm) = (b.dimensions, c.dimensions, b.metrics, c.metrics);
    let t1 = metric_table(b, c, m);
    let t2 = metric_table(c, b, ms);
    assert forall|i: int| 0 <= i < 17 && i != 10 && i != 11 && i != 12 && i != 15 implies mirrored(
        #[trigger] t1[i],
        t2[i],
    ) by {
        if i == 0 {
            lemma_mirror_tenths("DRPFS"@, tenths_text(b.drpfs as nat), tenths_text(c.drpfs as nat), c.drpfs - b.drpfs);
        } else if i == 1 {
            lemma_mirror_tenths("Brief Fidelity"@, tenths_text(bd.brief_fidelity.score as nat) + "/"@ + decimal(bd.brief_fidelity.max as nat), tenths_text(cd.brief_fidelity.score as nat) + "/"@ + decimal(cd.brief_fidelity.max as nat), cd.brief_fidelity.score - bd.brief_fidelity.score);
        } else if i == 2 {
            lemma_mirror_tenths("Assumption Discipline"@, tenths_text(bd.assumption_discipline.score as nat) + "/"@ + decimal(bd.assumption_discipline.max as nat), tenths_text(cd.assumption_discipline.score as nat) + "/"@ + decimal(cd.assumption_discipline.max as nat), cd.assumption_discipline.score - bd.assumption_discipline.score);
        } else if i == 3 {
            lemma_mirror_tenths("Consistency"@, tenths_text(bd.cross_document_consistency.score as nat) + "/"@ + decimal(bd.cross_document_consistency.max as nat), tenths_text(cd.cross_document_consistency.score as nat) + "/"@ + decimal(cd.cross_document_consistency.max as nat), cd.cross_document_consistency.score - bd.cross_document_consistency.score);
        } else if i == 4 {
            lemma_mirror_tenths("Evidence Quality"@, tenths_text(bd.evidence_quality.score as nat) + "/"@ + decimal(bd.evidence_quality.max as nat), tenths_text(cd.evidence_quality.score as nat) + "/"@ + decimal(cd.evidence_quality.max as nat), cd.evidence_quality.score - bd.evidence_quality.score);
        } else if i == 5 {
            lemma_mirror_tenths("Traceability"@, tenths_text(bd.traceability.score as nat) + "/"@ + decimal(bd.traceability.max as nat), tenths_text(cd.traceability.score as nat) + "/"@ + decimal(cd.traceability.max as nat), cd.traceability.score - bd.traceability.score);
        } else if i == 6 {
            lemma_mirror_tenths("Actionability"@, tenths_text(bd.actionability.score as nat) + "/"@ + decimal(bd.actionability.max as nat), tenths_text(cd.actionability.score as nat) + "/"@ + decimal(cd.actionability.max as nat), cd.actionability.score - bd.actionability.score);
        } else if i == 7 {
            lemma_mirror_tenths("Artifact Completeness"@, tenths_text(bd.artifact_quality.score as nat) + "/"@ + decimal(bd.artifact_quality.max as nat), tenths_text(cd.artifact_quality.score as nat) + "/"@ + decimal(cd.artifact_quality.max as nat), cd.artifact_quality.score - bd.artifact_quality.score);
        } else if i == 8 {
            lemma_mirror_percent("Unsupported Decision Rate"@, bm.unsupported_decision_rate, cm.unsupported_decision_rate);
        } else if i == 9 {
            lemma_mirror_percent("Traceability Coverage"@, bm.requirement_traceability_coverage, cm.requirement_traceability_coverage);
        } else if i == 13 {
            lemma_mirror_count("Context Supplied"@, bm.context_supplied, cm.context_supplied);
        } else if i == 14 {
            lemma_mirror_count("Retrieval Calls"@, bm.retrieval_calls, cm.retrieval_calls);
        } else {
            lemma_mirror_count("Cross-Project Leakage"@, wide(bm.cross_project_leakage), wide(cm.cross_project_leakage));
        }
    }
    let r1 = resource_table(b, c, m);
    let r2 = resource_table(c, b, ms);
    assert forall|i: int| 2 <= i < 5 implies mirrored(#[trigger] r1[i], r2[i]) by {
        if i == 2 {
            lemma_mirror_count("User Questions"@, bm.user_questions, cm.user_questions);
        } else if i == 3 {
            lemma_mirror_count("Model Calls"@, bm.model_calls, cm.model_calls);
        } else {
            lemma_mirror_count("Token Usage"@, bm.token_usage, cm.token_usage);
        }
    }
}

/// The change of a comparison row is the candidate's value less the baseline's: for counts,
/// a sign followed by the decimal difference, "+" exactly when the candidate's count is at least
/// the baseline's; for percentages in tenths, a sign, the difference in tenths with one decimal
/// place and "%", "+" exactly when the candidate's rate is at least the baseline's.
pub proof fn law_change_is_candidate_minus_baseline(x: u64, y: u64, p: u32, q: u32)
    ensures
        count_change(Some(x), Some(y)) == (if y >= x {
            "+"@ + decimal((y - x) as nat)
        } else {
            "-"@ + decimal((x - y) as nat)
        }),
        percent_change(Some(p), Some(q)) == (if q >= p {
            "+"@ + decimal(((q - p) / 10) as nat) + "."@ + decimal(((q - p) % 10) as nat) + "%"@
        } else {
            "-"@ + decimal(((p - q) / 10) as nat) + "."@ + decimal(((p - q) % 10) as nat) + "%"@
        }),
{
}

/// The signed text of a difference in tenths: "+" for a candidate at least the baseline.
pub open spec fn tenths_difference(candidate: int, baseline: int) -> Seq<char> {
    if candidate >= baseline {
        "+"@ + decimal(((candidate - baseline) / 10) as nat) + "."@ + decimal(
            ((candidate - baseline) % 10) as nat,
        )
    } else {
        "-"@ + decimal(((baseline - candidate) / 10) as nat) + "."@ + decimal(
            ((baseline - candidate) % 10) as nat,
        )
    }
}

/// The DRPFS row and every dimension row change by the candidate's score less the baseline's,
/// in tenths with one decimal place.
pub proof fn law_score_change_is_candidate_minus_baseline(
    b: ValidationReport,
    c: ValidationReport,
    m: MeasuredRows,
    label: Seq<char>,
    bd: DimensionScore,
    cd: DimensionScore,
)
    ensures
        metric_cells(b, c, m, 0).3 == tenths_difference(c.drpfs as int, b.drpfs as int),
        dimension_cells(label, bd, cd).3 == tenths_difference(cd.score as int, bd.score as int),
{
}

} // verus!
