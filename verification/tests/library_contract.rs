use project_initiation_evaluator::compare::{format_signed_count, package_input};
use project_initiation_evaluator::metrics::{contains_high_impact_concept, percentage};
use project_initiation_evaluator::score::unsupported_entities;
use project_initiation_evaluator::EntityKind;
use project_initiation_evaluator::corpus::{
    admit_bytes, check_output_isolation, is_supported, make_artifact, package_identity,
    sort_paths, stable_hash, Discovery, EntryKind,
};
use project_initiation_evaluator::score::{
    decimal_text, dimension, format_optional_percentage, meaningful_tokens, token_overlap,
};
use project_initiation_evaluator::{
    calculate_metrics, evaluate_corpus, extract_entities, render_comparison_markdown,
    render_validation_markdown, score_corpus, Artifact, ComparisonInput, Corpus, CorpusLimits,
    EvaluatorError, JsonMember, JsonNumber, JsonValue, MeasuredCells, MeasuredRows, MeasuredValues,
    Severity,
};

/// Creates a stable in-memory artifact.
fn artifact(path: &str, content: &str) -> Artifact {
    Artifact {
        relative_path: path.to_owned(),
        content: content.to_owned(),
        content_hash: format!("hash-{path}"),
    }
}

/// Creates an isolated corpus.
fn corpus(brief: &str, artifacts: Vec<Artifact>) -> Corpus {
    Corpus {
        package_id: "library-test".to_owned(),
        brief: artifact("ORIGINAL_BRIEF", brief),
        artifacts,
        project_model: None,
        metadata: None,
        skipped_files: Vec::new(),
    }
}

/// The characters of a text.
fn chars(text: &str) -> Vec<char> {
    text.chars().collect()
}

/// A text from characters.
fn string(chars: &[char]) -> String {
    chars.iter().collect()
}

/// A package with several rubric deductions.
fn flawed_package() -> Corpus {
    corpus(
        "REQ-001: The product must work offline.\nREQ-002: The product must be documented.",
        vec![
            artifact(
                "Foundation.md",
                "# Requirements\nREQ-001: Work offline.\n# Decisions\nADR-001: Market research selects PostgreSQL persistence; supports EVD-001.\nADR-002: Use a cloud database platform.\n# Evidence\nEVD-001: A color palette preference survey.\n# User Answers\nANS-001: The user rejected cloud storage.",
            ),
            artifact("Notes.md", "[Missing](Missing.md)\nThe system uses mandatory cloud sync."),
        ],
    )
}

/// Measured metrics of a package with only a reported cost.
fn measured_cost_only() -> MeasuredValues {
    let u = || "Unavailable".to_owned();
    MeasuredValues {
        duplicate_question_rate: u(),
        answer_reuse_rate: u(),
        context_compression_ratio: u(),
        retrieval_utilization_rate: u(),
        repeated_research_rate: u(),
        stale_retrieval_rate: u(),
        execution_time_seconds: u(),
        human_interaction_time_seconds: u(),
        cost: "12.5".to_owned(),
    }
}

/// Formatted cells of one unavailable measured value.
fn unavailable() -> MeasuredCells {
    MeasuredCells {
        baseline: "Unavailable".to_owned(),
        candidate: "Unavailable".to_owned(),
        change: "Unavailable".to_owned(),
    }
}

#[test]
fn meaningful_tokens_drop_identifiers_glue_words_and_short_terms() {
    let tokens = meaningful_tokens(&chars("REQ-001: The Offline-Mode works on it"));
    let tokens: Vec<String> = tokens.iter().map(|t| string(t)).collect();
    assert_eq!(tokens, ["offline-mode", "works"]);
}

#[test]
fn token_overlap_counts_shared_terms_and_the_smaller_set() {
    assert_eq!(
        token_overlap(
            &chars("The pause menu supports controller navigation."),
            &chars("Use PostgreSQL for hosted persistence; supports REQ-021."),
        ),
        (0, 3)
    );
    assert_eq!(
        token_overlap(&chars("Work offline with local files"), &chars("Offline files")),
        (2, 2)
    );
    assert_eq!(token_overlap(&chars("the a of"), &chars("offline files")), (0, 0));
}

#[test]
fn dimension_clamps_then_rounds_half_up_to_tenths() {
    assert_eq!(dimension(1234, 100, 20, Vec::new()).score, 123);
    assert_eq!(dimension(1235, 100, 20, Vec::new()).score, 124);
    assert_eq!(dimension(-5, 1, 15, Vec::new()).score, 0);
    assert_eq!(dimension(16, 1, 15, Vec::new()).score, 150);
    assert_eq!(dimension(10, 3, 5, Vec::new()).score, 33);
}

#[test]
fn rates_round_half_up_and_stay_between_none_and_all() {
    assert_eq!(percentage(0, 0), None);
    assert_eq!(percentage(0, 7), Some(0));
    assert_eq!(percentage(7, 7), Some(1000));
    assert_eq!(percentage(1, 3), Some(333));
    assert_eq!(percentage(2, 3), Some(667));
    assert_eq!(percentage(1, 16), Some(63));
    assert_eq!(percentage(5, 2), Some(2500));
    for d in 1..40usize {
        for n in 0..=d {
            let v = percentage(n, d).expect("a non-zero denominator gives a rate");
            assert!(v <= 1000);
        }
    }
}

#[test]
fn numbers_are_written_in_decimal_with_one_place_for_percentages() {
    assert_eq!(string(&decimal_text(0)), "0");
    assert_eq!(string(&decimal_text(1200)), "1200");
    assert_eq!(string(&format_optional_percentage(Some(505))), "50.5%");
    assert_eq!(string(&format_optional_percentage(Some(1000))), "100.0%");
    assert_eq!(string(&format_optional_percentage(None)), "unavailable");
    assert_eq!(format_signed_count(3, 5), "-2");
    assert_eq!(format_signed_count(5, 5), "+0");
}

#[test]
fn stable_hash_is_the_fnv_1a_hash_in_sixteen_hex_digits() {
    assert_eq!(stable_hash(b""), "cbf29ce484222325");
    assert_eq!(stable_hash(b"a"), "af63dc4c8601ec8c");
    let a = make_artifact("README.md".to_owned(), "a".to_owned());
    assert_eq!(a.content_hash, "af63dc4c8601ec8c");
    assert_eq!(a.relative_path, "README.md");
}

#[test]
fn supported_extensions_ignore_case_and_hidden_names() {
    assert!(is_supported("README.MD"));
    assert!(is_supported("notes.Markdown"));
    assert!(is_supported("config.yml"));
    assert!(is_supported("..md"));
    assert!(!is_supported(".md"));
    assert!(!is_supported("archive.tar.gz"));
    assert!(!is_supported("file."));
    assert!(!is_supported("Makefile"));
}

#[test]
fn byte_limits_admit_the_exact_boundary_and_refuse_its_neighbour() {
    let limits = CorpusLimits { max_artifact_bytes: 5, max_total_bytes: 8, ..CorpusLimits::default() };
    let path = "a.md".to_owned();
    assert_eq!(admit_bytes(&path, 5, &limits, 3).unwrap(), 8);
    assert!(matches!(
        admit_bytes(&path, 6, &limits, 0),
        Err(EvaluatorError::ArtifactTooLarge { limit: 5, .. })
    ));
    assert!(matches!(
        admit_bytes(&path, 5, &limits, 4),
        Err(EvaluatorError::PackageTooLarge { limit: 8 })
    ));
}

#[test]
fn output_isolation_is_decided_component_by_component() {
    let generated = "/tmp/workspace/generated".to_owned();
    assert!(check_output_isolation(&"/tmp/workspace/reports".to_owned(), &generated).is_ok());
    assert!(check_output_isolation(&"/tmp/workspace/generated-reports".to_owned(), &generated).is_ok());
    assert!(check_output_isolation(&"/tmp/workspace/generated".to_owned(), &generated).is_err());
    assert!(check_output_isolation(&"/tmp/workspace//generated/./out".to_owned(), &generated).is_err());
}

#[test]
fn package_identity_is_trimmed_and_never_empty() {
    assert_eq!(package_identity("  candidate \n").unwrap(), "candidate");
    assert!(matches!(package_identity(" \t"), Err(EvaluatorError::EmptyPackageId)));
}

#[test]
fn discovery_skips_symlinks_and_sorts_paths_by_component() {
    let limits = CorpusLimits::default();
    let mut d = Discovery::start();
    let root = d.next_directory().unwrap();
    assert_eq!(root, "");
    d.visit(EntryKind::Symlink, &root, "link.md", &limits).unwrap();
    d.visit(EntryKind::Directory, &root, "a", &limits).unwrap();
    d.visit(EntryKind::File, &root, "a-b.md", &limits).unwrap();
    let nested = d.next_directory().unwrap();
    assert_eq!(nested, "a");
    d.visit(EntryKind::File, &nested, "b.md", &limits).unwrap();
    d.visit(EntryKind::Other, &nested, "fifo", &limits).unwrap();
    assert!(d.next_directory().is_none());
    assert_eq!(d.discovered, 5);
    assert_eq!(sort_paths(&d.files), ["a/b.md", "a-b.md"]);
    assert_eq!(sort_paths(&d.skipped), ["a/fifo", "link.md"]);
}

#[test]
fn error_messages_name_the_path_and_the_limit() {
    let e = EvaluatorError::ArtifactTooLarge { path: "a.md".to_owned(), limit: 5 };
    assert_eq!(e.message(), "a.md exceeds the 5-byte artifact limit");
    assert_eq!(
        EvaluatorError::TooManyEntries { limit: 20000 }.message(),
        "package exceeds the 20000-entry discovery limit"
    );
    assert_eq!(EvaluatorError::EmptyPackageId.message(), "package identifier cannot be empty");
    let overlap = EvaluatorError::UnsafeOutputOverlap { output: "/g/r".to_owned(), generated: "/g".to_owned() };
    assert_eq!(overlap.message(), "output /g/r overlaps read-only package /g");
}

#[test]
fn comparison_sides_are_partitioned_under_the_output_root() {
    let input = ComparisonInput {
        brief: "brief.md".to_owned(),
        baseline_dir: "base".to_owned(),
        candidate_dir: "cand".to_owned(),
        baseline_model: Some("base-model.json".to_owned()),
        candidate_model: None,
        baseline_metadata: None,
        candidate_metadata: Some("cand-meta.json".to_owned()),
        output_dir: "out".to_owned(),
    };
    let baseline = package_input(&input, true);
    let candidate = package_input(&input, false);
    assert_eq!(baseline.output_dir, "out/baseline");
    assert_eq!(candidate.output_dir, "out/candidate");
    assert_eq!(baseline.package_id, "baseline");
    assert_eq!(candidate.generated_dir, "cand");
    assert_eq!(baseline.project_model.as_deref(), Some("base-model.json"));
    assert_eq!(candidate.metadata.as_deref(), Some("cand-meta.json"));
    let slashed = ComparisonInput { output_dir: "out/".to_owned(), ..input };
    assert_eq!(package_input(&slashed, true).output_dir, "out/baseline");
}

#[test]
fn scoring_keeps_every_score_within_its_maximum_and_the_total_consistent() {
    for c in [flawed_package(), corpus("", Vec::new())] {
        let report = evaluate_corpus(&c);
        let maxima = report.dimensions.maxima();
        for (score, max) in report.dimensions.scores().iter().zip(maxima) {
            assert!(*score <= u32::from(max) * 10);
        }
        let sum: u64 = report.dimensions.scores().iter().map(|s| u64::from(*s)).sum();
        assert_eq!(report.drpfs, sum);
        assert!(report.drpfs <= 1000);
        assert!(report.highest_priority_improvements.len() <= 7);
    }
}

#[test]
fn evaluation_is_isolated_and_repeatable() {
    let first = evaluate_corpus(&flawed_package());
    let _other = evaluate_corpus(&corpus("REQ-009: Something else entirely.", Vec::new()));
    let second = evaluate_corpus(&flawed_package());
    assert_eq!(first.drpfs, second.drpfs);
    assert_eq!(first.dimensions.all_findings(), second.dimensions.all_findings());
    assert_eq!(first.highest_priority_improvements, second.highest_priority_improvements);
    let c = flawed_package();
    let x = extract_entities(&c);
    let m = calculate_metrics(&c, &x);
    assert_eq!(score_corpus(&c, &x, m).drpfs, first.drpfs);
}

#[test]
fn flawed_package_findings_are_complete_and_ranked() {
    let report = evaluate_corpus(&flawed_package());
    let findings = report.dimensions.all_findings();
    assert!(findings.iter().all(|f| f.is_complete()));
    let modes: Vec<&str> = findings.iter().filter_map(|f| f.failure_mode.as_deref()).collect();
    assert!(modes.contains(&"DocumentDrift"));
    assert!(modes.contains(&"EvidenceMisuse"));
    let improvements = &report.highest_priority_improvements;
    for (i, a) in improvements.iter().enumerate() {
        assert!(improvements.iter().skip(i + 1).all(|b| b != a));
    }
    let first_high = findings.iter().find(|f| f.severity == Severity::High).unwrap();
    assert_eq!(improvements[0], first_high.recommended_correction);
    assert!(report.critical_failures.is_empty());
    assert_eq!(report.metrics.broken_internal_links, Some(1));
}

#[test]
fn brief_without_requirements_is_under_specified() {
    let report = evaluate_corpus(&corpus("A vague idea.", Vec::new()));
    let brief = &report.dimensions.brief_fidelity;
    assert!(brief.findings.iter().any(|f| f.failure_mode.as_deref() == Some("UnderSpecification")
        && f.artifact == "ORIGINAL_BRIEF"));
    assert_eq!(report.dimensions.evidence_quality.score, 150);
    assert_eq!(report.dimensions.cross_document_consistency.score, 150);
}

#[test]
fn markdown_reports_carry_the_required_sections() {
    let report = evaluate_corpus(&flawed_package());
    let markdown = render_validation_markdown(&report, &measured_cost_only());
    for heading in [
        "# Validation Report",
        "## Overall Score",
        "## Scorecard",
        "## Deterministic Metrics",
        "## Critical Findings",
        "## Detailed Findings",
        "## Unsupported Decisions",
        "## Unresolved Assumptions and Questions",
        "## Strengths",
        "## Recommended Improvements",
    ] {
        assert!(markdown.contains(heading), "missing {heading}");
    }
    let total = format!("DRPFS: {}.{} / 100", report.drpfs / 10, report.drpfs % 10);
    assert!(markdown.contains(&total));
    assert!(markdown.contains("| Broken Internal Links | 1 |"));
    assert!(markdown.contains("| Required Artifact Completion | Unavailable |"));
    assert!(markdown.contains("| Project Name Variants | None |\n| Duplicate Question Rate | Unavailable |"));
    assert!(markdown.contains("| Context Compression Ratio | Unavailable |"));
    assert!(markdown.contains("| Cost | 12.5 |\n\n## Critical Failures"));
}

#[test]
fn comparison_report_lists_every_metric_with_its_change() {
    let baseline = evaluate_corpus(&flawed_package());
    let candidate = evaluate_corpus(&corpus("REQ-001: The product must work offline.", vec![
        artifact("Requirements.md", "# Requirements\nREQ-001: Work offline."),
    ]));
    let measured = MeasuredRows {
        duplicate_question_rate: unavailable(),
        answer_reuse_rate: unavailable(),
        repeated_research_rate: unavailable(),
        stale_retrieval_rate: unavailable(),
        execution_time_seconds: unavailable(),
        human_interaction_time_seconds: unavailable(),
        cost: unavailable(),
    };
    let markdown = render_comparison_markdown(&baseline, &candidate, &measured);
    assert!(markdown.starts_with("# Comparison Report\n\n"));
    assert!(markdown.contains("| Metric | Baseline | Candidate | Change |"));
    let difference = candidate.drpfs as i64 - baseline.drpfs as i64;
    let sign = if difference >= 0 { "+" } else { "-" };
    let change = format!(
        "| DRPFS | {}.{} | {}.{} | {}{}.{} |",
        baseline.drpfs / 10,
        baseline.drpfs % 10,
        candidate.drpfs / 10,
        candidate.drpfs % 10,
        sign,
        difference.unsigned_abs() / 10,
        difference.unsigned_abs() % 10
    );
    assert!(markdown.contains(&change));
    assert!(markdown.contains("| Cross-Project Leakage | Unavailable | Unavailable | Unavailable |"));
    assert!(markdown.contains("## Resource Differences"));
}

#[test]
fn every_error_has_a_concise_diagnostic() {
    let cases = [
        (
            EvaluatorError::InvalidPath { path: "brief.md".to_owned(), expected: "a regular file".to_owned() },
            "brief.md is not a regular file",
        ),
        (EvaluatorError::Io { path: "x".to_owned(), detail: "denied".to_owned() }, "x: denied"),
        (EvaluatorError::InvalidUtf8 { path: "x.md".to_owned() }, "x.md is not UTF-8"),
        (
            EvaluatorError::InvalidJson { path: "m.json".to_owned(), detail: "EOF".to_owned() },
            "m.json contains invalid JSON: EOF",
        ),
        (EvaluatorError::PackageTooLarge { limit: 10 }, "package exceeds the 10-byte aggregate limit"),
        (EvaluatorError::TooManyArtifacts { limit: 2 }, "package exceeds the 2-artifact limit"),
        (EvaluatorError::Serialization { detail: "bad".to_owned() }, "report serialization failed: bad"),
    ];
    for (error, message) in cases {
        assert_eq!(error.message(), message);
    }
}

#[test]
fn report_lists_unresolved_items_once_in_order_and_unsupported_decisions() {
    let c = corpus(
        "REQ-001: The product must work offline.",
        vec![artifact(
            "Plan.md",
            "# Assumptions\nASM-002: Zebra devices are assumed.\nASM-001: Android is assumed.\n# Open Questions\nQ-001: Android is assumed.\n# Decisions\nADR-001: Use a cloud database platform.",
        )],
    );
    let report = evaluate_corpus(&c);
    let items = &report.unresolved_assumptions_and_questions;
    for pair in items.windows(2) {
        assert!(pair[0] < pair[1]);
    }
    assert_eq!(report.metrics.unsupported_decision_rate, Some(1000));
    assert_eq!(report.unsupported_decisions.len(), 1);
    assert!(report.unsupported_decisions[0].contains("cloud database"));
    let modes: Vec<String> = report
        .dimensions
        .assumption_discipline
        .findings
        .iter()
        .filter_map(|f| f.failure_mode.clone())
        .collect();
    assert!(modes.contains(&"AssumptionPromotion".to_owned()));
}

#[test]
fn strengths_are_reported_only_for_fully_satisfied_outcomes() {
    let c = corpus(
        "REQ-001: The product must work offline.",
        vec![artifact(
            "Foundation.md",
            "# Requirements\nREQ-001: The product must work offline.\n# Decisions\nADR-001: Offline storage supports REQ-001.",
        )],
    );
    let report = evaluate_corpus(&c);
    assert_eq!(report.metrics.requirement_traceability_coverage, Some(1000));
    assert!(report.strengths.contains(&"Every identified requirement participates in an explicit validated trace.".to_owned()));
    assert!(report.strengths.contains(&"No broken submitted internal artifact links were found.".to_owned()));
    let flawed = evaluate_corpus(&flawed_package());
    assert!(!flawed.strengths.contains(&"No broken submitted internal artifact links were found.".to_owned()));
}

#[test]
fn bare_list_markers_are_not_requirements() {
    let c = corpus("# Requirements\n-\n* \n+", Vec::new());
    let x = extract_entities(&c);
    assert!(x.entities.is_empty());
    let report = evaluate_corpus(&c);
    let findings = report.dimensions.all_findings();
    assert!(findings.iter().all(|f| f.is_complete()));
    assert!(report.dimensions.brief_fidelity.findings.iter().any(
        |f| f.failure_mode.as_deref() == Some("UnderSpecification")
    ));
    let kept = corpus("# Requirements\n- Work offline.\n-", Vec::new());
    let x = extract_entities(&kept);
    assert_eq!(x.entities.len(), 1);
    assert_eq!(x.entities[0].text, "Work offline.");
    assert_eq!(x.entities[0].evidence.excerpt, "Work offline.");
}

#[test]
fn cross_project_leakage_is_a_critical_failure() {
    let mut c = flawed_package();
    c.metadata = Some(JsonValue::Object(vec![JsonMember {
        key: "cross_project_leakage".to_owned(),
        value: JsonValue::Number(JsonNumber { unsigned: Some(2), literal: "2".to_owned() }),
    }]));
    let report = evaluate_corpus(&c);
    assert_eq!(report.metrics.cross_project_leakage, Some(2));
    assert_eq!(
        report.critical_failures,
        vec!["Cross-project leakage: 2 record(s) retrieved from a different project; any non-zero leakage is a critical retrieval failure.".to_owned()]
    );
    let markdown = render_validation_markdown(&report, &measured_cost_only());
    assert!(markdown.contains("## Critical Failures\n\n- Cross-project leakage: 2 record(s)"));
    let mut clean = flawed_package();
    clean.metadata = Some(JsonValue::Object(vec![JsonMember {
        key: "cross_project_leakage".to_owned(),
        value: JsonValue::Number(JsonNumber { unsigned: Some(0), literal: "0".to_owned() }),
    }]));
    assert!(evaluate_corpus(&clean).critical_failures.is_empty());
}

#[test]
fn reports_ignore_package_identity_and_content_hashes() {
    let first = flawed_package();
    let mut second = flawed_package();
    second.package_id = "another-label".to_owned();
    for a in second.artifacts.iter_mut() {
        a.content_hash = "0000000000000000".to_owned();
    }
    second.brief.content_hash = "ffffffffffffffff".to_owned();
    let a = evaluate_corpus(&first);
    let b = evaluate_corpus(&second);
    assert_eq!(a.drpfs, b.drpfs);
    assert_eq!(a.dimensions.all_findings(), b.dimensions.all_findings());
    assert_eq!(render_validation_markdown(&a, &measured_cost_only()), render_validation_markdown(&b, &measured_cost_only()));
}

#[test]
fn actionability_and_assumption_findings_follow_their_conditions() {
    for c in [flawed_package(), corpus("REQ-001: The product must work offline.", vec![
        artifact("Requirements.md", "# Requirements\nREQ-001: Work offline.\n# Open Questions\nWhich platform?"),
    ])] {
        let x = extract_entities(&c);
        let report = evaluate_corpus(&c);
        let unsupported = unsupported_entities(&x);
        let open_question = x.entities.iter().any(|e| e.kind == EntityKind::OpenQuestion);
        let action = &report.dimensions.actionability.findings;
        assert_eq!(
            action.iter().any(|f| f.criterion == "Actionability.A"),
            report.metrics.acceptance_criteria_coverage != Some(1000)
        );
        assert_eq!(
            action.iter().any(|f| f.criterion == "Actionability.C"),
            !unsupported.is_empty() && !open_question
        );
        let assumption = &report.dimensions.assumption_discipline.findings;
        let promoted = assumption
            .iter()
            .filter(|f| f.failure_mode.as_deref() == Some("AssumptionPromotion"))
            .count();
        let high_impact = unsupported
            .iter()
            .filter(|e| contains_high_impact_concept(&e.text.chars().collect::<Vec<char>>()))
            .count();
        assert_eq!(promoted, high_impact);
        assert_eq!(
            assumption.iter().any(|f| f.failure_mode.as_deref() == Some("FalseCompleteness")),
            !unsupported.is_empty() && !open_question
        );
    }
}
