use project_initiation_evaluator::corpus::{
    admit_bytes, check_output_isolation, sort_paths, Discovery, EntryKind,
};
use project_initiation_evaluator::{CorpusLimits, EvaluatorError};

/// One directory of a package tree: its relative path and its entries.
type Listing<'a> = (&'a str, Vec<(&'a str, EntryKind)>);

/// Runs discovery over a package tree, reading each directory's entries in file-name order,
/// and returns the sorted supported files and skipped paths.
fn discover(tree: &[Listing], limits: CorpusLimits) -> Result<(Vec<String>, Vec<String>), EvaluatorError> {
    let mut discovery = Discovery::start();
    while let Some(directory) = discovery.next_directory() {
        let mut entries = tree
            .iter()
            .find(|(path, _)| *path == directory)
            .map(|(_, entries)| entries.clone())
            .unwrap_or_default();
        entries.sort_by(|a, b| a.0.cmp(b.0));
        for (name, kind) in entries {
            discovery.visit(kind, &directory, name, &limits)?;
        }
    }
    Ok((sort_paths(&discovery.files), sort_paths(&discovery.skipped)))
}

/// Reads a brief and one artifact of the given sizes under the limits, as collection does.
fn read_sizes(brief: usize, artifact: usize, limits: CorpusLimits) -> Result<usize, EvaluatorError> {
    let total = admit_bytes(&"brief.md".to_owned(), brief, &limits, 0)?;
    admit_bytes(&"generated/requirements.md".to_owned(), artifact, &limits, total)
}

#[test]
fn corpus_collects_supported_files_in_deterministic_order() {
    let tree = vec![
        (
            "",
            vec![
                ("zeta.txt", EntryKind::File),
                ("nested", EntryKind::Directory),
                ("ignored.bin", EntryKind::File),
            ],
        ),
        ("nested", vec![("alpha.md", EntryKind::File)]),
    ];

    let (files, skipped) = discover(&tree, CorpusLimits::default()).unwrap();

    assert_eq!(files, ["nested/alpha.md", "zeta.txt"]);
    assert_eq!(skipped, ["ignored.bin"]);
}

#[test]
fn corpus_enforces_exact_artifact_byte_boundary_without_mutation() {
    let limits = CorpusLimits { max_artifact_bytes: 5, ..CorpusLimits::default() };

    assert!(read_sizes("brief".len(), "12345".len(), limits).is_ok());
    let error = read_sizes("brief".len(), "123456".len(), limits).unwrap_err();
    assert!(matches!(error, EvaluatorError::ArtifactTooLarge { .. }));
}

#[test]
fn corpus_enforces_exact_artifact_count_boundary() {
    let limits = CorpusLimits { max_artifacts: 2, ..CorpusLimits::default() };
    let two = vec![("", vec![("one.md", EntryKind::File), ("two.md", EntryKind::File)])];
    let three = vec![(
        "",
        vec![
            ("one.md", EntryKind::File),
            ("two.md", EntryKind::File),
            ("three.md", EntryKind::File),
        ],
    )];

    assert_eq!(discover(&two, limits).unwrap().0.len(), 2);
    let error = discover(&three, limits).unwrap_err();
    assert!(matches!(error, EvaluatorError::TooManyArtifacts { .. }));
}

#[test]
fn corpus_enforces_exact_total_byte_boundary() {
    let limits = CorpusLimits {
        max_artifact_bytes: 10,
        max_total_bytes: 10,
        ..CorpusLimits::default()
    };

    assert_eq!(read_sizes("brief".len(), "12345".len(), limits).unwrap(), 10);
    let error = read_sizes("brief".len(), "123456".len(), limits).unwrap_err();
    assert!(matches!(error, EvaluatorError::PackageTooLarge { .. }));
}

#[test]
fn corpus_rejects_output_that_overlaps_generated_package() {
    let generated = "/tmp/workspace/generated".to_owned();
    let output = "/tmp/workspace/generated/reports".to_owned();

    let error = check_output_isolation(&output, &generated).unwrap_err();
    assert!(matches!(error, EvaluatorError::UnsafeOutputOverlap { .. }));
}

#[test]
fn corpus_enforces_exact_discovered_entry_boundary() {
    let limits = CorpusLimits { max_discovered_entries: 2, ..CorpusLimits::default() };
    let two = vec![("", vec![("one.bin", EntryKind::File), ("two.bin", EntryKind::File)])];
    let three = vec![(
        "",
        vec![
            ("one.bin", EntryKind::File),
            ("two.bin", EntryKind::File),
            ("three.bin", EntryKind::File),
        ],
    )];

    assert_eq!(discover(&two, limits).unwrap().1.len(), 2);
    let error = discover(&three, limits).unwrap_err();
    assert!(matches!(error, EvaluatorError::TooManyEntries { .. }));
}
