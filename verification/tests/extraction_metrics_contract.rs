use project_initiation_evaluator::metrics::metadata_number_literal;
use project_initiation_evaluator::{
    calculate_metrics, extract_entities, Artifact, Corpus, EntityKind, JsonMember, JsonNumber,
    JsonValue,
};

/// Creates a stable artifact record for extraction and metric tests.
fn artifact(path: &str, content: &str) -> Artifact {
    Artifact {
        relative_path: path.to_owned(),
        content: content.to_owned(),
        content_hash: format!("hash-{path}"),
    }
}

/// Creates a corpus with supplied generated artifacts and no optional inputs.
fn corpus(artifacts: Vec<Artifact>) -> Corpus {
    Corpus {
        package_id: "test-package".to_owned(),
        brief: artifact(
            "ORIGINAL_BRIEF",
            "REQ-001: The product must work offline.\nREQ-002: The product must be documented.",
        ),
        artifacts,
        project_model: None,
        metadata: None,
        skipped_files: Vec::new(),
    }
}

/// A JSON object from its members, in the order given.
fn object(members: Vec<(&str, JsonValue)>) -> JsonValue {
    JsonValue::Object(
        members
            .into_iter()
            .map(|(key, value)| JsonMember { key: key.to_owned(), value })
            .collect(),
    )
}

/// A JSON string.
fn text(value: &str) -> JsonValue {
    JsonValue::String(value.to_owned())
}

/// A JSON non-negative integer.
fn integer(value: u64) -> JsonValue {
    JsonValue::Number(JsonNumber { unsigned: Some(value), literal: value.to_string() })
}

/// A JSON fractional number, as written.
fn fraction(literal: &str) -> JsonValue {
    JsonValue::Number(JsonNumber { unsigned: None, literal: literal.to_owned() })
}

/// A metadata number read as a decimal value.
fn metadata_number(corpus: &Corpus, key: &str) -> Option<f64> {
    metadata_number_literal(&corpus.metadata, key)
        .and_then(|literal| literal.parse::<f64>().ok())
        .filter(|value| value.is_finite())
}

/// A metadata percentage read as a decimal value between 0 and 100.
fn metadata_rate(corpus: &Corpus, key: &str) -> Option<f64> {
    metadata_number(corpus, key).filter(|value| (0.0..=100.0).contains(value))
}

/// A percentage held in tenths as a decimal value.
fn percent(value: Option<u32>) -> Option<f64> {
    value.map(|tenths| tenths as f64 / 10.0)
}

#[test]
fn extraction_retains_evidence_and_explicit_trace_endpoints() {
    let corpus = corpus(vec![artifact(
        "Requirements.md",
        "# Requirements\nREQ-001: Work offline.\n\n# Decisions\nADR-001: Use local files; supports REQ-001.\n\n# Assumptions\nASM-001: Desktop is assumed.\n\n# Evidence\nEVD-001: https://example.com/offline\n\n# Open Questions\nQ-001: Which operating systems?",
    )]);

    let extraction = extract_entities(&corpus);
    let decision = extraction
        .entities
        .iter()
        .find(|entity| entity.id.as_deref() == Some("ADR-001"))
        .expect("the identified decision should be extracted");

    assert_eq!(decision.kind, EntityKind::Decision);
    assert_eq!(decision.evidence.artifact, "Requirements.md");
    assert_eq!(decision.evidence.line, 5);
    assert!(
        extraction
            .traces
            .iter()
            .any(|trace| trace.from_id == "ADR-001" && trace.to_id == "REQ-001")
    );
}

#[test]
fn metrics_calculate_authoritative_rates_without_guessing() {
    let mut corpus = corpus(vec![
        artifact("README.md", "[Requirements](Requirements.md)\n[Missing](Missing.md)"),
        artifact(
            "Requirements.md",
            "# Requirements\nREQ-001: Work offline.\nREQ-002: Provide docs.\n# Acceptance Criteria\nAC-001 for REQ-001: Works without a network.",
        ),
        artifact(
            "Decisions.md",
            "# Decisions\nADR-001: Research selects local files; supports REQ-001 and EVD-001.\nADR-002: Market research selects PostgreSQL persistence.\n# Evidence\nEVD-001: Local storage study.\n# User Answers\nANS-001: Offline is consequential. ADR-001 supports ANS-001.\nANS-002: Documentation is consequential.",
        ),
    ]);
    corpus.metadata = Some(object(vec![
        ("answer_reuse_rate", fraction("75.0")),
        ("context_supplied", integer(1200)),
        ("cross_project_leakage", integer(0)),
        ("duplicate_question_rate", fraction("25.0")),
        ("execution_time_seconds", fraction("12.5")),
        (
            "findings",
            JsonValue::Array(vec![
                object(vec![
                    ("id", text("F-1")),
                    ("resolved", JsonValue::Bool(false)),
                    ("severity", text("HIGH")),
                ]),
                object(vec![
                    ("id", text("F-2")),
                    ("resolved", JsonValue::Bool(false)),
                    ("severity", text("LOW")),
                ]),
            ]),
        ),
        ("model_calls", integer(4)),
        ("repeated_research_rate", fraction("10.0")),
        (
            "required_artifacts",
            JsonValue::Array(vec![text("README.md"), text("Architecture.md")]),
        ),
        ("retrieval_calls", integer(8)),
        ("stale_retrieval_rate", fraction("5.0")),
    ]));

    let extraction = extract_entities(&corpus);
    let metrics = calculate_metrics(&corpus, &extraction);

    assert_eq!(percent(metrics.required_artifact_completion), Some(50.0));
    assert_eq!(percent(metrics.acceptance_criteria_coverage), Some(50.0));
    assert_eq!(percent(metrics.requirement_traceability_coverage), Some(50.0));
    assert_eq!(percent(metrics.unsupported_decision_rate), Some(50.0));
    assert_eq!(percent(metrics.evidence_linkage_rate), Some(50.0));
    assert_eq!(metrics.broken_internal_links, Some(1));
    assert_eq!(metrics.unresolved_high_severity_findings, Some(1));
    assert_eq!(metrics.unresolved_high_severity_finding_ids, ["F-1"]);
    assert_eq!(percent(metrics.user_answer_adoption_rate), Some(50.0));
    assert_eq!(metadata_rate(&corpus, "duplicate_question_rate"), Some(25.0));
    assert_eq!(metadata_rate(&corpus, "answer_reuse_rate"), Some(75.0));
    assert_eq!(metadata_rate(&corpus, "repeated_research_rate"), Some(10.0));
    assert_eq!(metadata_rate(&corpus, "stale_retrieval_rate"), Some(5.0));
    assert_eq!(metrics.context_supplied, Some(1200));
    assert_eq!(metrics.retrieval_calls, Some(8));
    assert_eq!(metrics.cross_project_leakage, Some(0));
    assert_eq!(metadata_number(&corpus, "execution_time_seconds"), Some(12.5));
    assert_eq!(metrics.model_calls, Some(4));
}

#[test]
fn metrics_leave_unavailable_denominators_null() {
    let mut corpus = corpus(vec![artifact("README.md", "# Project")]);
    corpus.brief = artifact("ORIGINAL_BRIEF", "A project idea without settled requirements.");
    let extraction = extract_entities(&corpus);
    let metrics = calculate_metrics(&corpus, &extraction);

    assert_eq!(metrics.required_artifact_completion, None);
    assert_eq!(metrics.acceptance_criteria_coverage, None);
    assert_eq!(metrics.unsupported_decision_rate, None);
    assert_eq!(metrics.evidence_linkage_rate, None);
    assert_eq!(metrics.user_answer_adoption_rate, None);
    assert_eq!(metrics.broken_internal_links, Some(0));
}

#[test]
fn extraction_does_not_invent_trace_from_id_colocation() {
    let corpus = corpus(vec![artifact(
        "Decisions.md",
        "# Decisions\nADR-009: Use PostgreSQL. REQ-021: Controller navigation.",
    )]);

    let extraction = extract_entities(&corpus);

    assert!(
        !extraction
            .traces
            .iter()
            .any(|trace| trace.from_id == "ADR-009" && trace.to_id == "REQ-021")
    );
}

#[test]
fn extraction_imports_identified_project_model_records() {
    let mut corpus = corpus(Vec::new());
    corpus.project_model = Some(object(vec![
        (
            "decisions",
            JsonValue::Array(vec![object(vec![
                ("id", text("ADR-010")),
                ("text", text("Use semantic controls; supports REQ-010.")),
            ])]),
        ),
        (
            "requirements",
            JsonValue::Array(vec![object(vec![
                ("id", text("REQ-010")),
                ("text", text("Support keyboard navigation.")),
            ])]),
        ),
    ]));

    let extraction = extract_entities(&corpus);

    assert!(
        extraction
            .entities
            .iter()
            .any(|entity| entity.id.as_deref() == Some("REQ-010"))
    );
    assert!(
        extraction
            .traces
            .iter()
            .any(|trace| trace.from_id == "ADR-010" && trace.to_id == "REQ-010")
    );
}
