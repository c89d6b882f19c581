# Project Initiation Evaluator

`project-initiation-evaluator` is an independent, read-only grader for generated
project-foundation packages. It grades a package against its original user brief with the
fixed Decision-Ready Project Foundation Score (DRPFS) rubric: seven dimensions with maxima
20, 15, 15, 15, 15, 15 and 5, each deduction backed by submitted evidence. It writes
`validation-report.json` and `validation-report.md`, and in comparison mode evaluates a
baseline and a candidate package independently before writing `comparison-report.md`.

## Layout

- `src/` is the library, verified with Verus: text primitives, extraction of requirements,
  decisions, assumptions, evidence and traces, deterministic metrics, the seven dimension
  scorers, the Markdown reports, and the decisions of package collection (limits, discovery,
  ordering, hashing, output isolation). Scores are held exactly in tenths of a point and
  percentages in tenths of a percent.
- `app/` is the command-line program: argument parsing, filesystem access, JSON parsing and
  serialization, fractional metadata values, and transactional report writing.
- `tests/` holds the library's tests.

## Commands

```text
project-initiation-evaluator evaluate --brief BRIEF.md --generated DIR \
    [--project-model MODEL.json] [--metadata META.json] [--package-id ID] --output DIR

project-initiation-evaluator compare --brief BRIEF.md --baseline DIR --candidate DIR \
    [--baseline-model PATH] [--candidate-model PATH] \
    [--baseline-metadata PATH] [--candidate-metadata PATH] --output DIR
```
