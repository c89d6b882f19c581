//! Extraction of evaluator-owned entities and explicit trace relationships.
use vstd::prelude::*;

use crate::corpus::{artifact_models, Artifact, ArtifactModel, Corpus};
use crate::json::{child, child_count, lemma_child_decreases, member_get, JsonMember, JsonValue};
use crate::order::{compare_text, lemma_text_lt_trans, lemma_text_order_antisym, text_order};
use crate::text::{
    chars_of as lit, lines, split_lines, string_of,
    chars_eq, chars_of, concat, contains, find_sub, first_in, first_sub, has_sub, is_ascii_digit,
    is_digit, lower, next_in_class, occurs_at, split_words, strip, strip_chars, strip_start,
    strip_start_chars, sub_vec, to_lower, to_upper, trim, trim_chars, upper, views, words,
    CharClass,
};

verus! {

/// Classifies evaluator-owned entities by their observable project role.
#[derive(Clone, Copy, Debug, PartialEq, Eq, Structural, PartialOrd, Ord)]
pub enum EntityKind {
    /// A user or generated statement describing required behavior or constraints.
    Requirement,
    /// A consequential project or architecture choice.
    Decision,
    /// An inferred choice explicitly presented as an assumption.
    Assumption,
    /// A limit or condition constraining valid decisions.
    Constraint,
    /// A consequential answer supplied during an interactive workflow.
    UserAnswer,
    /// A source or research claim offered in support of a decision.
    EvidenceClaim,
    /// An unresolved question that should remain visible.
    OpenQuestion,
    /// A testable outcome associated with a requirement.
    AcceptanceCriterion,
}

/// Locates one extracted statement in submitted source material.
#[derive(Clone, Debug, PartialEq, Eq, PartialOrd, Ord)]
pub struct EvidenceRef {
    /// Package-relative artifact name or `ORIGINAL_BRIEF`.
    pub artifact: String,
    /// One-based source line, or one for structured JSON records.
    pub line: usize,
    /// Bounded submitted excerpt supporting the extracted record.
    pub excerpt: String,
    /// Identifier parsed from the same statement when available.
    pub entity_id: Option<String>,
}

/// Represents one normalized evaluator-owned project statement.
#[derive(Clone, Debug, PartialEq, Eq)]
pub struct ExtractedEntity {
    /// Observable role assigned from an explicit ID or section label.
    pub kind: EntityKind,
    /// Submitted identifier when one was present.
    pub id: Option<String>,
    /// Submitted statement with list syntax removed.
    pub text: String,
    /// Direct source evidence for this entity.
    pub evidence: EvidenceRef,
    /// Other explicit entity identifiers appearing in the statement.
    pub related_ids: Vec<String>,
    /// Whether an inferred assumption was explicitly labeled as such.
    pub explicitly_labeled: bool,
}

/// Represents an explicit relationship between two submitted identifiers.
#[derive(Clone, Debug, PartialEq, Eq, PartialOrd, Ord)]
pub struct TraceLink {
    /// Identifier of the statement asserting support or derivation.
    pub from_id: String,
    /// Identifier of the statement receiving that support or derivation.
    pub to_id: String,
    /// Direct source evidence containing both endpoints.
    pub evidence: EvidenceRef,
}

/// Contains normalized entities and validated explicit trace relationships.
#[derive(Clone, Debug)]
pub struct Extraction {
    /// All extracted entities in stable source order.
    pub entities: Vec<ExtractedEntity>,
    /// Explicit links whose two endpoint identifiers both exist.
    pub traces: Vec<TraceLink>,
}

/// Mathematical content of an [`EvidenceRef`].
pub struct EvidenceModel {
    pub artifact: Seq<char>,
    pub line: int,
    pub excerpt: Seq<char>,
    pub entity_id: Option<Seq<char>>,
}

/// Mathematical content of an [`ExtractedEntity`].
pub struct EntityModel {
    pub kind: EntityKind,
    pub id: Option<Seq<char>>,
    pub text: Seq<char>,
    pub evidence: EvidenceModel,
    pub related_ids: Seq<Seq<char>>,
    pub explicitly_labeled: bool,
}

/// Mathematical content of a [`TraceLink`].
pub struct TraceModel {
    pub from_id: Seq<char>,
    pub to_id: Seq<char>,
    pub evidence: EvidenceModel,
}

/// Mathematical content of an [`Extraction`].
pub struct ExtractionModel {
    pub entities: Seq<EntityModel>,
    pub traces: Seq<TraceModel>,
}

/// The character content of an optional string.
pub open spec fn opt_view(o: Option<String>) -> Option<Seq<char>> {
    match o {
        Some(s) => Some(s@),
        None => None,
    }
}

/// The character contents of a sequence of strings.
pub open spec fn strs(v: Seq<String>) -> Seq<Seq<char>> {
    v.map_values(|s: String| s@)
}

impl View for EvidenceRef {
    type V = EvidenceModel;

    open spec fn view(&self) -> EvidenceModel {
        EvidenceModel {
            artifact: self.artifact@,
            line: self.line as int,
            excerpt: self.excerpt@,
            entity_id: opt_view(self.entity_id),
        }
    }
}

impl View for ExtractedEntity {
    type V = EntityModel;

    open spec fn view(&self) -> EntityModel {
        EntityModel {
            kind: self.kind,
            id: opt_view(self.id),
            text: self.text@,
            evidence: self.evidence@,
            related_ids: strs(self.related_ids@),
            explicitly_labeled: self.explicitly_labeled,
        }
    }
}

impl View for TraceLink {
    type V = TraceModel;

    open spec fn view(&self) -> TraceModel {
        TraceModel { from_id: self.from_id@, to_id: self.to_id@, evidence: self.evidence@ }
    }
}

/// The models of a sequence of entities.
pub open spec fn entity_models(v: Seq<ExtractedEntity>) -> Seq<EntityModel> {
    v.map_values(|e: ExtractedEntity| e@)
}

/// The models of a sequence of trace links.
pub open spec fn trace_models(v: Seq<TraceLink>) -> Seq<TraceModel> {
    v.map_values(|t: TraceLink| t@)
}

impl View for Extraction {
    type V = ExtractionModel;

    open spec fn view(&self) -> ExtractionModel {
        ExtractionModel {
            entities: entity_models(self.entities@),
            traces: trace_models(self.traces@),
        }
    }
}

/// Tracks the active semantic section while scanning a text artifact.
#[derive(Clone, Copy, Debug, PartialEq, Eq, Structural)]
pub enum SectionKind {
    /// Lines outside a recognized entity section.
    Other,
    /// Requirement statements.
    Requirements,
    /// Decision statements.
    Decisions,
    /// Explicit assumptions.
    Assumptions,
    /// Project constraints.
    Constraints,
    /// User answers.
    UserAnswers,
    /// Evidence and research claims.
    Evidence,
    /// Open questions and unresolved issues.
    OpenQuestions,
    /// Acceptance criteria.
    AcceptanceCriteria,
}

/// The section selected by a Markdown heading line.
pub open spec fn heading_section(line: Seq<char>) -> SectionKind {
    let h = lower(trim(strip_start(line, CharClass::Hash)));
    if has_sub(h, "acceptance"@) {
        SectionKind::AcceptanceCriteria
    } else if has_sub(h, "requirement"@) {
        SectionKind::Requirements
    } else if has_sub(h, "decision"@) || has_sub(h, "architecture"@) {
        SectionKind::Decisions
    } else if has_sub(h, "assumption"@) {
        SectionKind::Assumptions
    } else if has_sub(h, "constraint"@) {
        SectionKind::Constraints
    } else if has_sub(h, "user answer"@) || h == "answers"@ {
        SectionKind::UserAnswers
    } else if has_sub(h, "evidence"@) || has_sub(h, "research"@) || has_sub(h, "source"@) {
        SectionKind::Evidence
    } else if has_sub(h, "open question"@) || has_sub(h, "unresolved"@) {
        SectionKind::OpenQuestions
    } else {
        SectionKind::Other
    }
}

/// Maps a Markdown heading to the entity role applied to following lines.
pub fn section_from_heading(line: &[char]) -> (r: SectionKind)
    ensures
        r == heading_section(line@),
{
    let stripped = strip_start_chars(line, CharClass::Hash);
    let trimmed = trim_chars(&stripped);
    let h = to_lower(&trimmed);
    if contains(&h, &chars_of("acceptance")) {
        SectionKind::AcceptanceCriteria
    } else if contains(&h, &chars_of("requirement")) {
        SectionKind::Requirements
    } else if contains(&h, &chars_of("decision")) || contains(&h, &chars_of("architecture")) {
        SectionKind::Decisions
    } else if contains(&h, &chars_of("assumption")) {
        SectionKind::Assumptions
    } else if contains(&h, &chars_of("constraint")) {
        SectionKind::Constraints
    } else if contains(&h, &chars_of("user answer")) || chars_eq(&h, &chars_of("answers")) {
        SectionKind::UserAnswers
    } else if contains(&h, &chars_of("evidence")) || contains(&h, &chars_of("research"))
        || contains(&h, &chars_of("source")) {
        SectionKind::Evidence
    } else if contains(&h, &chars_of("open question")) || contains(&h, &chars_of("unresolved")) {
        SectionKind::OpenQuestions
    } else {
        SectionKind::Other
    }
}

/// The entity role named by an identifier's prefix before its first hyphen.
pub open spec fn identifier_kind(id: Seq<char>) -> Option<EntityKind> {
    let i = first_in(id, CharClass::Dash);
    if i >= id.len() {
        None
    } else {
        let p = id.take(i as int);
        if p == "REQ"@ {
            Some(EntityKind::Requirement)
        } else if p == "ADR"@ || p == "DEC"@ {
            Some(EntityKind::Decision)
        } else if p == "ASM"@ || p == "ASSUMPTION"@ {
            Some(EntityKind::Assumption)
        } else if p == "CON"@ || p == "CST"@ {
            Some(EntityKind::Constraint)
        } else if p == "ANS"@ {
            Some(EntityKind::UserAnswer)
        } else if p == "EVD"@ || p == "SRC"@ {
            Some(EntityKind::EvidenceClaim)
        } else if p == "Q"@ || p == "OQ"@ {
            Some(EntityKind::OpenQuestion)
        } else if p == "AC"@ {
            Some(EntityKind::AcceptanceCriterion)
        } else {
            None
        }
    }
}

/// Maps a recognized identifier prefix to its closed entity role.
pub fn kind_from_identifier(id: &[char]) -> (r: Option<EntityKind>)
    ensures
        r == identifier_kind(id@),
{
    let i = next_in_class(id, 0, CharClass::Dash);
    assert(id@.skip(0) =~= id@);
    if i >= id.len() {
        return None;
    }
    let p = sub_vec(id, 0, i);
    assert(p@ =~= id@.take(i as int));
    if chars_eq(&p, &chars_of("REQ")) {
        Some(EntityKind::Requirement)
    } else if chars_eq(&p, &chars_of("ADR")) || chars_eq(&p, &chars_of("DEC")) {
        Some(EntityKind::Decision)
    } else if chars_eq(&p, &chars_of("ASM")) || chars_eq(&p, &chars_of("ASSUMPTION")) {
        Some(EntityKind::Assumption)
    } else if chars_eq(&p, &chars_of("CON")) || chars_eq(&p, &chars_of("CST")) {
        Some(EntityKind::Constraint)
    } else if chars_eq(&p, &chars_of("ANS")) {
        Some(EntityKind::UserAnswer)
    } else if chars_eq(&p, &chars_of("EVD")) || chars_eq(&p, &chars_of("SRC")) {
        Some(EntityKind::EvidenceClaim)
    } else if chars_eq(&p, &chars_of("Q")) || chars_eq(&p, &chars_of("OQ")) {
        Some(EntityKind::OpenQuestion)
    } else if chars_eq(&p, &chars_of("AC")) {
        Some(EntityKind::AcceptanceCriterion)
    } else {
        None
    }
}

/// A word normalized into identifier form: edge punctuation removed, upper-cased.
pub open spec fn normalize_word(w: Seq<char>) -> Seq<char> {
    upper(strip(w, CharClass::NonIdentifier))
}

/// The normalized words of `line` whose prefix names an entity role, in order.
pub open spec fn identifiers(line: Seq<char>) -> Seq<Seq<char>> {
    words(line).map_values(|w: Seq<char>| normalize_word(w)).filter(
        |w: Seq<char>| identifier_kind(w) is Some,
    )
}

/// Extracts normalized known identifiers in their submitted order.
pub fn identifiers_in(line: &[char]) -> (r: Vec<Vec<char>>)
    ensures
        views(r@) == identifiers(line@),
{
    let ws = split_words(line);
    let ghost all = views(ws@).map_values(|w: Seq<char>| normalize_word(w));
    let mut r: Vec<Vec<char>> = Vec::new();
    let mut i: usize = 0;
    while i < ws.len()
        invariant
            i <= ws.len(),
            views(ws@) == words(line@),
            all == views(ws@).map_values(|w: Seq<char>| normalize_word(w)),
            views(r@) == all.take(i as int).filter(|w: Seq<char>| identifier_kind(w) is Some),
        decreases ws.len() - i,
    {
        let stripped = strip_chars(&ws[i], CharClass::NonIdentifier);
        let w = to_upper(&stripped);
        assert(w@ == all[i as int]);
        let k = kind_from_identifier(&w);
        let ghost before = r@;
        assert(all.take(i + 1).drop_last() =~= all.take(i as int));
        reveal(Seq::filter);
        if k.is_some() {
            r.push(w);
            assert(views(r@) =~= views(before).push(all[i as int]));
        }
        i = i + 1;
    }
    assert(all.take(ws.len() as int) =~= all);
    r
}

/// Whether the text is a normative requirement or question in an unstructured brief.
pub open spec fn normative(line: Seq<char>) -> Option<EntityKind> {
    let padded = seq![' '] + lower(line) + seq![' '];
    if line.len() > 0 && line.last() == '?' {
        Some(EntityKind::OpenQuestion)
    } else if has_sub(padded, " must "@) || has_sub(padded, " should "@) || has_sub(
        padded,
        " need "@,
    ) || has_sub(padded, " require "@) {
        Some(EntityKind::Requirement)
    } else {
        None
    }
}

/// Recognizes requirement or question statements in an otherwise unstructured brief.
pub fn normative_kind(line: &[char]) -> (r: Option<EntityKind>)
    ensures
        r == normative(line@),
{
    let space = chars_of(" ");
    let lowered = to_lower(line);
    let front = concat(&space, &lowered);
    let padded = concat(&front, &space);
    proof {
        reveal_strlit(" ");
        assert(padded@ =~= seq![' '] + lower(line@) + seq![' ']);
    }
    if line.len() > 0 && line[line.len() - 1] == '?' {
        Some(EntityKind::OpenQuestion)
    } else if contains(&padded, &chars_of(" must ")) || contains(&padded, &chars_of(" should "))
        || contains(&padded, &chars_of(" need ")) || contains(&padded, &chars_of(" require ")) {
        Some(EntityKind::Requirement)
    } else {
        None
    }
}

/// The entity role a section label assigns.
pub open spec fn section_entity(section: SectionKind) -> Option<EntityKind> {
    match section {
        SectionKind::Requirements => Some(EntityKind::Requirement),
        SectionKind::Decisions => Some(EntityKind::Decision),
        SectionKind::Assumptions => Some(EntityKind::Assumption),
        SectionKind::Constraints => Some(EntityKind::Constraint),
        SectionKind::UserAnswers => Some(EntityKind::UserAnswer),
        SectionKind::Evidence => Some(EntityKind::EvidenceClaim),
        SectionKind::OpenQuestions => Some(EntityKind::OpenQuestion),
        SectionKind::AcceptanceCriteria => Some(EntityKind::AcceptanceCriterion),
        SectionKind::Other => None,
    }
}

/// The role of a non-heading line: its first identifier, else its section, else (in the
/// brief only) its normative wording.
pub open spec fn line_kind(line: Seq<char>, section: SectionKind, is_brief: bool) -> Option<
    EntityKind,
> {
    let ids = identifiers(line);
    if line.len() == 0 {
        None
    } else if ids.len() > 0 {
        identifier_kind(ids[0])
    } else if section_entity(section) is Some {
        section_entity(section)
    } else if is_brief {
        normative(line)
    } else {
        None
    }
}

/// Every element of `identifiers(line)` names an entity role.
pub proof fn lemma_identifiers_have_kind(line: Seq<char>, i: int)
    requires
        0 <= i < identifiers(line).len(),
    ensures
        identifier_kind(identifiers(line)[i]) is Some,
{
    let all = words(line).map_values(|w: Seq<char>| normalize_word(w));
    all.lemma_filter_pred(|w: Seq<char>| identifier_kind(w) is Some, i);
}

/// Classifies a non-heading line from its explicit ID, section, or normative brief wording.
pub fn classify_line(line: &[char], section: SectionKind, is_brief: bool) -> (r: Option<
    EntityKind,
>)
    ensures
        r == line_kind(line@, section, is_brief),
{
    if line.len() == 0 {
        return None;
    }
    let ids = identifiers_in(line);
    if ids.len() > 0 {
        proof {
            lemma_identifiers_have_kind(line@, 0);
        }
        return kind_from_identifier(&ids[0]);
    }
    let section_kind = match section {
        SectionKind::Requirements => Some(EntityKind::Requirement),
        SectionKind::Decisions => Some(EntityKind::Decision),
        SectionKind::Assumptions => Some(EntityKind::Assumption),
        SectionKind::Constraints => Some(EntityKind::Constraint),
        SectionKind::UserAnswers => Some(EntityKind::UserAnswer),
        SectionKind::Evidence => Some(EntityKind::EvidenceClaim),
        SectionKind::OpenQuestions => Some(EntityKind::OpenQuestion),
        SectionKind::AcceptanceCriteria => Some(EntityKind::AcceptanceCriterion),
        SectionKind::Other => None,
    };
    if section_kind.is_some() {
        section_kind
    } else if is_brief {
        normative_kind(line)
    } else {
        None
    }
}

/// Every character of `s` is an ASCII digit.
pub open spec fn all_digits(s: Seq<char>) -> bool {
    forall|i: int| 0 <= i < s.len() ==> is_digit(#[trigger] s[i])
}

/// A statement with list bullets, surrounding whitespace and a leading `N. ` number removed.
pub open spec fn cleaned(line: Seq<char>) -> Seq<char> {
    let t = trim(strip_start(line, CharClass::ListMarker));
    let i = first_sub(t, ". "@);
    if i >= 0 && all_digits(t.take(i)) {
        t.skip(i + 2)
    } else {
        t
    }
}

/// Removes common Markdown list syntax without rewriting submitted wording.
pub fn clean_statement(line: &[char]) -> (r: Vec<char>)
    ensures
        r@ == cleaned(line@),
{
    let stripped = strip_start_chars(line, CharClass::ListMarker);
    let t = trim_chars(&stripped);
    let sep = chars_of(". ");
    match find_sub(&t, &sep) {
        Some(i) => {
            let mut all = true;
            let mut j: usize = 0;
            while j < i
                invariant
                    j <= i <= t.len(),
                    all == forall|k: int| 0 <= k < j ==> is_digit(#[trigger] t@[k]),
                decreases i - j,
            {
                if !is_ascii_digit(t[j]) {
                    all = false;
                }
                j = j + 1;
            }
            assert(all == all_digits(t@.take(i as int))) by {
                if all_digits(t@.take(i as int)) {
                    assert forall|k: int| 0 <= k < i implies is_digit(#[trigger] t@[k]) by {
                        assert(t@.take(i as int)[k] == t@[k]);
                    }
                }
            }
            if all {
                assert(i + 2 <= t.len()) by {
                    reveal_strlit(". ");
                }
                sub_vec(&t, i + 2, t.len())
            } else {
                t
            }
        },
        None => t,
    }
}

/// The first 240 characters of a statement.
pub open spec fn excerpt_of(text: Seq<char>) -> Seq<char> {
    if text.len() <= 240 {
        text
    } else {
        text.take(240)
    }
}

/// A statement is quotable when its evidence excerpt has a character that is not whitespace;
/// list markers, numbering or blank text alone are not statements.
pub open spec fn quotable(text: Seq<char>) -> bool {
    trim(excerpt_of(text)).len() > 0
}

/// Decides whether a statement leaves a non-blank evidence excerpt.
pub fn is_quotable(text: &[char]) -> (r: bool)
    ensures
        r == quotable(text@),
{
    let excerpt = bounded_excerpt(text);
    trim_chars(&excerpt).len() > 0
}

/// Limits evidence excerpts so reports cannot reproduce entire submitted documents.
pub fn bounded_excerpt(text: &[char]) -> (r: Vec<char>)
    ensures
        r@ == excerpt_of(text@),
{
    if text.len() <= 240 {
        sub_vec(text, 0, text.len())
    } else {
        sub_vec(text, 0, 240)
    }
}

/// The statement uses explicit relationship wording.
pub open spec fn relationship_language(text: Seq<char>) -> bool {
    let l = lower(text);
    ||| has_sub(l, "supports"@)
    ||| has_sub(l, "supported by"@)
    ||| has_sub(l, "traces to"@)
    ||| has_sub(l, "addresses"@)
    ||| has_sub(l, "derived from"@)
    ||| has_sub(l, "because"@)
    ||| has_sub(l, "evidence"@)
    ||| has_sub(l, "->"@)
    ||| has_sub(l, "\u{2192}"@)
}

/// Detects explicit wording that asserts a relationship rather than co-location alone.
pub fn has_relationship_language(text: &[char]) -> (r: bool)
    ensures
        r == relationship_language(text@),
{
    let l = to_lower(text);
    contains(&l, &chars_of("supports")) || contains(&l, &chars_of("supported by")) || contains(
        &l,
        &chars_of("traces to"),
    ) || contains(&l, &chars_of("addresses")) || contains(&l, &chars_of("derived from"))
        || contains(&l, &chars_of("because")) || contains(&l, &chars_of("evidence")) || contains(
        &l,
        &chars_of("->"),
    ) || contains(&l, &chars_of("\u{2192}"))
}

/// Trace candidates asserted by one statement: from its first identifier to each later,
/// different identifier, when the statement uses relationship language.
pub open spec fn candidates_of(text: Seq<char>, ids: Seq<Seq<char>>, ev: EvidenceModel) -> Seq<
    TraceModel,
> {
    if ids.len() < 2 || !relationship_language(text) {
        seq![]
    } else {
        ids.skip(1).filter(differs_from(ids[0])).map_values(link_from(ids[0], ev))
    }
}

/// The predicate "differs from `first`".
pub open spec fn differs_from(first: Seq<char>) -> spec_fn(Seq<char>) -> bool {
    |t: Seq<char>| t != first
}

/// The link from `first` to a target, with evidence `ev`.
pub open spec fn link_from(first: Seq<char>, ev: EvidenceModel) -> spec_fn(Seq<char>) -> TraceModel {
    |t: Seq<char>| TraceModel { from_id: first, to_id: t, evidence: ev }
}


/// The evidence record for a statement of `text` at `line` of `artifact`.
pub open spec fn evidence_for(artifact: Seq<char>, line: int, text: Seq<char>) -> EvidenceModel {
    let ids = identifiers(text);
    EvidenceModel {
        artifact,
        line,
        excerpt: excerpt_of(text),
        entity_id: if ids.len() > 0 {
            Some(ids[0])
        } else {
            None
        },
    }
}

/// The entity extracted from statement `text` with role `kind`.
pub open spec fn entity_for(artifact: Seq<char>, line: int, kind: EntityKind, text: Seq<char>) -> EntityModel {
    let ids = identifiers(text);
    EntityModel {
        kind,
        id: if ids.len() > 0 {
            Some(ids[0])
        } else {
            None
        },
        text,
        evidence: evidence_for(artifact, line, text),
        related_ids: if ids.len() > 0 {
            ids.skip(1)
        } else {
            seq![]
        },
        explicitly_labeled: kind == EntityKind::Assumption,
    }
}

/// The trace candidates asserted by statement `text`.
pub open spec fn traces_for(artifact: Seq<char>, line: int, text: Seq<char>) -> Seq<TraceModel> {
    candidates_of(text, identifiers(text), evidence_for(artifact, line, text))
}

/// Copies one evidence record.
pub fn copy_evidence(e: &EvidenceRef) -> (r: EvidenceRef)
    ensures
        r@ == e@,
{
    EvidenceRef {
        artifact: e.artifact.clone(),
        line: e.line,
        excerpt: e.excerpt.clone(),
        entity_id: match &e.entity_id {
            Some(x) => Some(x.clone()),
            None => None,
        },
    }
}

/// Copies one entity.
pub fn copy_entity(e: &ExtractedEntity) -> (r: ExtractedEntity)
    ensures
        r@ == e@,
{
    let mut related: Vec<String> = Vec::new();
    let mut i: usize = 0;
    while i < e.related_ids.len()
        invariant
            i <= e.related_ids.len(),
            strs(related@) == strs(e.related_ids@).take(i as int),
        decreases e.related_ids.len() - i,
    {
        let ghost before = related@;
        let c = e.related_ids[i].clone();
        assert(c@ == e.related_ids@[i as int]@);
        related.push(c);
        assert(strs(related@) =~= strs(before).push(c@));
        assert(strs(e.related_ids@).take(i + 1) =~= strs(e.related_ids@).take(i as int).push(
            e.related_ids@[i as int]@,
        ));
        i = i + 1;
    }
    assert(strs(e.related_ids@).take(e.related_ids.len() as int) =~= strs(e.related_ids@));
    ExtractedEntity {
        kind: e.kind,
        id: match &e.id {
            Some(x) => Some(x.clone()),
            None => None,
        },
        text: e.text.clone(),
        evidence: copy_evidence(&e.evidence),
        related_ids: related,
        explicitly_labeled: e.explicitly_labeled,
    }
}

/// Builds owned strings from the character vectors `v[from..]`.
pub fn strings_from(v: &Vec<Vec<char>>, from: usize) -> (r: Vec<String>)
    requires
        from <= v.len(),
    ensures
        strs(r@) == views(v@).skip(from as int),
{
    let mut r: Vec<String> = Vec::new();
    let mut i: usize = from;
    while i < v.len()
        invariant
            from <= i <= v.len(),
            strs(r@) == views(v@).subrange(from as int, i as int),
        decreases v.len() - i,
    {
        let ghost before = r@;
        let x = string_of(&v[i]);
        r.push(x);
        assert(strs(r@) =~= strs(before).push(x@));
        assert(views(v@).subrange(from as int, i + 1) =~= views(v@).subrange(from as int, i as int).push(
            v@[i as int]@,
        ));
        i = i + 1;
    }
    r
}

/// Creates trace candidates only when the statement uses explicit relationship language.
pub fn append_trace_candidates(
    text: &[char],
    ids: &Vec<Vec<char>>,
    evidence: &EvidenceRef,
    traces: &mut Vec<TraceLink>,
)
    ensures
        trace_models(final(traces)@) == trace_models(old(traces)@) + candidates_of(
            text@,
            views(ids@),
            evidence@,
        ),
{
    let ghost start = trace_models(traces@);
    if ids.len() < 2 || !has_relationship_language(text) {
        assert(trace_models(traces@) =~= start + seq![]);
        return;
    }
    let ghost idv = views(ids@);
    let ghost first = idv[0];
    let ghost ev = evidence@;
    let ghost mk = link_from(first, ev);
    let ghost keep = differs_from(first);
    let mut i: usize = 1;
    assert(idv.subrange(1, 1) =~= Seq::<Seq<char>>::empty());
    assert(trace_models(traces@) =~= start + idv.subrange(1, 1).filter(keep).map_values(mk)) by {
        reveal(Seq::filter);
    }
    while i < ids.len()
        invariant
            1 <= i <= ids.len(),
            idv == views(ids@),
            first == idv[0],
            ev == evidence@,
            mk == link_from(first, ev),
            keep == differs_from(first),
            trace_models(traces@) == start + idv.subrange(1, i as int).filter(keep).map_values(mk),
        decreases ids.len() - i,
    {
        let ghost before = traces@;
        assert(idv.subrange(1, i + 1).drop_last() =~= idv.subrange(1, i as int));
        assert(idv.subrange(1, i + 1).last() == idv[i as int]);
        reveal(Seq::filter);
        assert(idv[i as int] == ids@[i as int]@);
        assert(idv[0] == ids@[0]@);
        if !chars_eq(&ids[i], &ids[0]) {
            let link = TraceLink {
                from_id: string_of(&ids[0]),
                to_id: string_of(&ids[i]),
                evidence: copy_evidence(evidence),
            };
            assert(link@ == mk(idv[i as int]));
            traces.push(link);
            assert(trace_models(traces@) =~= trace_models(before).push(mk(idv[i as int])));
            assert(idv.subrange(1, i + 1).filter(keep) == idv.subrange(1, i as int).filter(
                keep,
            ).push(idv[i as int]));
            assert(idv.subrange(1, i + 1).filter(keep).map_values(mk) =~= idv.subrange(
                1,
                i as int,
            ).filter(keep).map_values(mk).push(mk(idv[i as int])));
        } else {
            assert(idv.subrange(1, i + 1).filter(keep) == idv.subrange(1, i as int).filter(keep));
        }
        i = i + 1;
    }
    assert(idv.subrange(1, ids.len() as int) =~= idv.skip(1));
}

/// Appends the entity and trace candidates of statement `text` of role `kind`.
pub fn push_statement(
    artifact: &[char],
    line: usize,
    kind: EntityKind,
    text: &[char],
    entities: &mut Vec<ExtractedEntity>,
    traces: &mut Vec<TraceLink>,
)
    ensures
        entity_models(final(entities)@) == entity_models(old(entities)@).push(
            entity_for(artifact@, line as int, kind, text@),
        ),
        trace_models(final(traces)@) == trace_models(old(traces)@) + traces_for(
            artifact@,
            line as int,
            text@,
        ),
{
    let ids = identifiers_in(text);
    let id = if ids.len() > 0 {
        Some(string_of(&ids[0]))
    } else {
        None
    };
    let excerpt = bounded_excerpt(text);
    let evidence = EvidenceRef {
        artifact: string_of(artifact),
        line,
        excerpt: string_of(&excerpt),
        entity_id: match &id {
            Some(x) => Some(x.clone()),
            None => None,
        },
    };
    append_trace_candidates(text, &ids, &evidence, traces);
    let related = if ids.len() > 0 {
        strings_from(&ids, 1)
    } else {
        Vec::new()
    };
    let ghost before = entities@;
    let entity = ExtractedEntity {
        kind,
        id,
        text: string_of(text),
        evidence,
        related_ids: related,
        explicitly_labeled: kind == EntityKind::Assumption,
    };
    proof {
        if ids.len() == 0 {
            assert(strs(entity.related_ids@) =~= Seq::<Seq<char>>::empty());
        }
    }
    entities.push(entity);
    assert(entity_models(entities@) =~= entity_models(before).push(
        entity_for(artifact@, line as int, kind, text@),
    ));
}

/// Package-relative artifact name with backslashes written as slashes.
pub open spec fn artifact_name(path: Seq<char>) -> Seq<char> {
    path.map_values(|c: char| if c == '\\' { '/' } else { c })
}

/// Writes backslashes of a path as slashes.
pub fn slash_path(path: &[char]) -> (r: Vec<char>)
    ensures
        r@ == artifact_name(path@),
{
    let mut r: Vec<char> = Vec::new();
    let mut i: usize = 0;
    while i < path.len()
        invariant
            i <= path.len(),
            r@ == artifact_name(path@.take(i as int)),
        decreases path.len() - i,
    {
        if path[i] == '\\' {
            r.push('/');
        } else {
            r.push(path[i]);
        }
        i = i + 1;
        assert(r@ =~= artifact_name(path@.take(i as int)));
    }
    assert(path@.take(path.len() as int) =~= path@);
    r
}

/// Whether a trimmed line is a Markdown heading.
pub open spec fn is_heading(line: Seq<char>) -> bool {
    line.len() > 0 && line[0] == '#'
}

/// The section in force before line `n` (zero-based) of `ls`.
pub open spec fn section_before(ls: Seq<Seq<char>>, n: int) -> SectionKind
    decreases n,
{
    if n <= 0 {
        SectionKind::Other
    } else if is_heading(trim(ls[n - 1])) {
        heading_section(trim(ls[n - 1]))
    } else {
        section_before(ls, n - 1)
    }
}

/// The role of line `i` of `ls`, if it yields an entity.
pub open spec fn line_role(ls: Seq<Seq<char>>, i: int, is_brief: bool) -> Option<EntityKind> {
    let l = trim(ls[i]);
    if is_heading(l) || !quotable(cleaned(l)) {
        None
    } else {
        line_kind(l, section_before(ls, i), is_brief)
    }
}

/// Entities extracted from the first `n` lines of an artifact named `name`.
pub open spec fn scan_entities(name: Seq<char>, ls: Seq<Seq<char>>, n: int, is_brief: bool) -> Seq<
    EntityModel,
>
    decreases n,
{
    if n <= 0 {
        seq![]
    } else {
        let prev = scan_entities(name, ls, n - 1, is_brief);
        match line_role(ls, n - 1, is_brief) {
            Some(k) => prev.push(entity_for(name, n, k, cleaned(trim(ls[n - 1])))),
            None => prev,
        }
    }
}

/// Trace candidates asserted by the first `n` lines of an artifact named `name`.
pub open spec fn scan_traces(name: Seq<char>, ls: Seq<Seq<char>>, n: int, is_brief: bool) -> Seq<
    TraceModel,
>
    decreases n,
{
    if n <= 0 {
        seq![]
    } else {
        let prev = scan_traces(name, ls, n - 1, is_brief);
        match line_role(ls, n - 1, is_brief) {
            Some(k) => prev + traces_for(name, n, cleaned(trim(ls[n - 1]))),
            None => prev,
        }
    }
}

/// Entities of one artifact.
pub open spec fn artifact_entities(a: ArtifactModel, is_brief: bool) -> Seq<EntityModel> {
    let ls = lines(a.content);
    scan_entities(artifact_name(a.relative_path), ls, ls.len() as int, is_brief)
}

/// Trace candidates of one artifact.
pub open spec fn artifact_traces(a: ArtifactModel, is_brief: bool) -> Seq<TraceModel> {
    let ls = lines(a.content);
    scan_traces(artifact_name(a.relative_path), ls, ls.len() as int, is_brief)
}

/// Scans one UTF-8 artifact while preserving exact line evidence.
pub fn scan_artifact(
    artifact: &Artifact,
    is_brief: bool,
    entities: &mut Vec<ExtractedEntity>,
    traces: &mut Vec<TraceLink>,
)
    ensures
        entity_models(final(entities)@) == entity_models(old(entities)@) + artifact_entities(
            artifact@,
            is_brief,
        ),
        trace_models(final(traces)@) == trace_models(old(traces)@) + artifact_traces(
            artifact@,
            is_brief,
        ),
{
    let path = lit(artifact.relative_path.as_str());
    let name = slash_path(&path);
    let content = lit(artifact.content.as_str());
    let ls = split_lines(&content);
    let ghost lsv = views(ls@);
    let ghost e0 = entity_models(entities@);
    let ghost t0 = trace_models(traces@);
    let mut section = SectionKind::Other;
    let mut index: usize = 0;
    assert(entity_models(entities@) =~= e0 + scan_entities(name@, lsv, 0, is_brief));
    assert(trace_models(traces@) =~= t0 + scan_traces(name@, lsv, 0, is_brief));
    while index < ls.len()
        invariant
            index <= ls.len(),
            lsv == views(ls@),
            lsv == lines(artifact.content@),
            name@ == artifact_name(artifact.relative_path@),
            section == section_before(lsv, index as int),
            entity_models(entities@) == e0 + scan_entities(name@, lsv, index as int, is_brief),
            trace_models(traces@) == t0 + scan_traces(name@, lsv, index as int, is_brief),
        decreases ls.len() - index,
    {
        let line = trim_chars(&ls[index]);
        assert(line@ == trim(lsv[index as int]));
        if line.len() > 0 && line[0] == '#' {
            section = section_from_heading(&line);
        } else {
            let text = clean_statement(&line);
            let role = if is_quotable(&text) {
                classify_line(&line, section, is_brief)
            } else {
                None
            };
            match role {
                Some(kind) => {
                    let ghost eb = entity_models(entities@);
                    let ghost tb = trace_models(traces@);
                    push_statement(&name, index + 1, kind, &text, entities, traces);
                    assert(entity_models(entities@) =~= e0 + scan_entities(
                        name@,
                        lsv,
                        index + 1,
                        is_brief,
                    ));
                    assert(trace_models(traces@) =~= t0 + scan_traces(
                        name@,
                        lsv,
                        index + 1,
                        is_brief,
                    ));
                },
                None => {},
            }
        }
        index = index + 1;
    }
}


/// The string value of the first member keyed `key`, if it is a string.
pub open spec fn member_text(m: Seq<JsonMember>, key: Seq<char>) -> Option<Seq<char>> {
    match member_get(m, key) {
        Some(JsonValue::String(x)) => Some(x@),
        _ => None,
    }
}

/// The descriptive text of a structured record: the first of its `text`, `description`,
/// `title`, `statement`, `decision` or `requirement` string members.
pub open spec fn record_text(m: Seq<JsonMember>) -> Option<Seq<char>> {
    if member_text(m, "text"@) is Some {
        member_text(m, "text"@)
    } else if member_text(m, "description"@) is Some {
        member_text(m, "description"@)
    } else if member_text(m, "title"@) is Some {
        member_text(m, "title"@)
    } else if member_text(m, "statement"@) is Some {
        member_text(m, "statement"@)
    } else if member_text(m, "decision"@) is Some {
        member_text(m, "decision"@)
    } else {
        member_text(m, "requirement"@)
    }
}

/// The statement `"{id}: {text}"` of a record that has a string `id` and descriptive text.
pub open spec fn record_statement(m: Seq<JsonMember>) -> Option<Seq<char>> {
    match (member_text(m, "id"@), record_text(m)) {
        (Some(id), Some(t)) => Some(id + ": "@ + t),
        _ => None,
    }
}

/// The role of a structured string found under key `ctx`.
pub open spec fn json_string_role(text: Seq<char>, ctx: Seq<char>) -> Option<EntityKind> {
    if quotable(text) {
        line_kind(text, heading_section("# "@ + ctx), false)
    } else {
        None
    }
}

/// Entities and trace candidates of one structured string found under key `ctx`.
pub open spec fn json_string_scan(text: Seq<char>, ctx: Seq<char>) -> (Seq<EntityModel>, Seq<
    TraceModel,
>) {
    match json_string_role(text, ctx) {
        Some(k) => (
            seq![entity_for("PROJECT_MODEL.json"@, 1, k, text)],
            traces_for("PROJECT_MODEL.json"@, 1, text),
        ),
        None => (seq![], seq![]),
    }
}

/// The key under which the `i`-th child of `v` is scanned.
pub open spec fn child_context(v: JsonValue, ctx: Seq<char>, i: int) -> Seq<char> {
    match v {
        JsonValue::Object(m) => m@[i].key@,
        _ => ctx,
    }
}

/// Entities and trace candidates of a structured project model, depth first: an object's
/// own record first, then its members in order (each under its key); array elements keep
/// the enclosing key.
pub open spec fn json_scan(v: JsonValue, ctx: Seq<char>) -> (Seq<EntityModel>, Seq<TraceModel>)
    decreases v, child_count(v) + 1,
{
    match v {
        JsonValue::Object(m) => {
            let own = match record_statement(m@) {
                Some(t) => json_string_scan(t, ctx),
                None => (seq![], seq![]),
            };
            let rest = json_scan_children(v, ctx, 0);
            (own.0 + rest.0, own.1 + rest.1)
        },
        JsonValue::Array(_) => json_scan_children(v, ctx, 0),
        JsonValue::String(x) => json_string_scan(x@, ctx),
        _ => (seq![], seq![]),
    }
}

/// `json_scan` of the children of `v` from position `i` on, concatenated.
pub open spec fn json_scan_children(v: JsonValue, ctx: Seq<char>, i: int) -> (Seq<EntityModel>, Seq<
    TraceModel,
>)
    decreases v, child_count(v) - i,
{
    if i < 0 || i >= child_count(v) {
        (seq![], seq![])
    } else {
        proof {
            lemma_child_decreases(v, i);
        }
        let c = json_scan(child(v, i), child_context(v, ctx, i));
        let r = json_scan_children(v, ctx, i + 1);
        (c.0 + r.0, c.1 + r.1)
    }
}

/// The string value of an object member, if present and a string.
pub fn member_string<'a>(m: &'a Vec<JsonMember>, key: &str) -> (r: Option<&'a String>)
    ensures
        match r {
            Some(x) => member_text(m@, key@) == Some(x@),
            None => member_text(m@, key@) is None,
        },
{
    let k = lit(key);
    match crate::json::object_get(m, &k) {
        Some(JsonValue::String(x)) => Some(x),
        _ => None,
    }
}

/// Imports one structured string when its context or identifier defines an entity role.
pub fn import_json_string(
    text: &[char],
    ctx: &[char],
    entities: &mut Vec<ExtractedEntity>,
    traces: &mut Vec<TraceLink>,
)
    ensures
        entity_models(final(entities)@) == entity_models(old(entities)@) + json_string_scan(
            text@,
            ctx@,
        ).0,
        trace_models(final(traces)@) == trace_models(old(traces)@) + json_string_scan(
            text@,
            ctx@,
        ).1,
{
    let heading = concat(&lit("# "), ctx);
    let section = section_from_heading(&heading);
    let role = if is_quotable(text) {
        classify_line(text, section, false)
    } else {
        None
    };
    match role {
        Some(kind) => {
            let name = lit("PROJECT_MODEL.json");
            let ghost e0 = entity_models(entities@);
            push_statement(&name, 1, kind, text, entities, traces);
            assert(entity_models(entities@) =~= e0 + seq![
                entity_for("PROJECT_MODEL.json"@, 1, kind, text@),
            ]);
        },
        None => {
            assert(entity_models(entities@) =~= entity_models(old(entities)@) + seq![]);
            assert(trace_models(traces@) =~= trace_models(old(traces)@) + seq![]);
        },
    }
}

/// Imports one structured object when it supplies an identifier and descriptive text.
pub fn import_json_object(
    m: &Vec<JsonMember>,
    ctx: &[char],
    entities: &mut Vec<ExtractedEntity>,
    traces: &mut Vec<TraceLink>,
)
    ensures
        ({
            let own = match record_statement(m@) {
                Some(t) => json_string_scan(t, ctx@),
                None => (seq![], seq![]),
            };
            &&& entity_models(final(entities)@) == entity_models(old(entities)@) + own.0
            &&& trace_models(final(traces)@) == trace_models(old(traces)@) + own.1
        }),
{
    let id = member_string(m, "id");
    let mut text = member_string(m, "text");
    if text.is_none() {
        text = member_string(m, "description");
    }
    if text.is_none() {
        text = member_string(m, "title");
    }
    if text.is_none() {
        text = member_string(m, "statement");
    }
    if text.is_none() {
        text = member_string(m, "decision");
    }
    if text.is_none() {
        text = member_string(m, "requirement");
    }
    match (id, text) {
        (Some(id), Some(t)) => {
            let idc = lit(id.as_str());
            let sep = lit(": ");
            let tc = lit(t.as_str());
            let front = concat(&idc, &sep);
            let statement = concat(&front, &tc);
            import_json_string(&statement, ctx, entities, traces);
        },
        _ => {
            assert(entity_models(entities@) =~= entity_models(old(entities)@) + seq![]);
            assert(trace_models(traces@) =~= trace_models(old(traces)@) + seq![]);
        },
    }
}

/// Imports identified records from a schema-tolerant project-model JSON tree.
pub fn scan_json_model(
    value: &JsonValue,
    ctx: &[char],
    entities: &mut Vec<ExtractedEntity>,
    traces: &mut Vec<TraceLink>,
)
    ensures
        entity_models(final(entities)@) == entity_models(old(entities)@) + json_scan(
            *value,
            ctx@,
        ).0,
        trace_models(final(traces)@) == trace_models(old(traces)@) + json_scan(*value, ctx@).1,
    decreases value, child_count(*value) + 1,
{
    match value {
        JsonValue::Object(m) => {
            let ghost e0 = entity_models(entities@);
            let ghost t0 = trace_models(traces@);
            import_json_object(m, ctx, entities, traces);
            let ghost e1 = entity_models(entities@);
            let ghost t1 = trace_models(traces@);
            scan_json_children(value, ctx, 0, entities, traces);
            assert(entity_models(entities@) =~= e0 + json_scan(*value, ctx@).0);
            assert(trace_models(traces@) =~= t0 + json_scan(*value, ctx@).1);
        },
        JsonValue::Array(_) => {
            scan_json_children(value, ctx, 0, entities, traces);
        },
        JsonValue::String(x) => {
            let xc = lit(x.as_str());
            import_json_string(&xc, ctx, entities, traces);
        },
        _ => {
            assert(entity_models(entities@) =~= entity_models(old(entities)@) + seq![]);
            assert(trace_models(traces@) =~= trace_models(old(traces)@) + seq![]);
        },
    }
}

/// Scans the children of `value` from position `i` on.
pub fn scan_json_children(
    value: &JsonValue,
    ctx: &[char],
    i: usize,
    entities: &mut Vec<ExtractedEntity>,
    traces: &mut Vec<TraceLink>,
)
    ensures
        entity_models(final(entities)@) == entity_models(old(entities)@) + json_scan_children(
            *value,
            ctx@,
            i as int,
        ).0,
        trace_models(final(traces)@) == trace_models(old(traces)@) + json_scan_children(
            *value,
            ctx@,
            i as int,
        ).1,
    decreases value, child_count(*value) - i,
{
    let (c, key): (&JsonValue, Vec<char>) = match value {
        JsonValue::Array(a) => {
            if i >= a.len() {
                assert(entity_models(entities@) =~= entity_models(old(entities)@) + seq![]);
                assert(trace_models(traces@) =~= trace_models(old(traces)@) + seq![]);
                return;
            }
            (&a[i], sub_vec(ctx, 0, ctx.len()))
        },
        JsonValue::Object(m) => {
            if i >= m.len() {
                assert(entity_models(entities@) =~= entity_models(old(entities)@) + seq![]);
                assert(trace_models(traces@) =~= trace_models(old(traces)@) + seq![]);
                return;
            }
            (&m[i].value, lit(m[i].key.as_str()))
        },
        _ => {
            assert(entity_models(entities@) =~= entity_models(old(entities)@) + seq![]);
            assert(trace_models(traces@) =~= trace_models(old(traces)@) + seq![]);
            return;
        },
    };
    assert(key@ == child_context(*value, ctx@, i as int)) by {
        assert(ctx@.subrange(0, ctx@.len() as int) =~= ctx@);
    }
    proof {
        lemma_child_decreases(*value, i as int);
    }
    let ghost e0 = entity_models(entities@);
    let ghost t0 = trace_models(traces@);
    scan_json_model(c, &key, entities, traces);
    scan_json_children(value, ctx, i + 1, entities, traces);
    assert(entity_models(entities@) =~= e0 + json_scan_children(*value, ctx@, i as int).0);
    assert(trace_models(traces@) =~= t0 + json_scan_children(*value, ctx@, i as int).1);
}


/// Three-way comparison of integers.
pub open spec fn num_order(a: int, b: int) -> int {
    if a < b {
        -1
    } else if a > b {
        1
    } else {
        0
    }
}

/// Three-way comparison of optional texts, absent first.
pub open spec fn opt_order(a: Option<Seq<char>>, b: Option<Seq<char>>) -> int {
    match (a, b) {
        (None, None) => 0,
        (None, Some(_)) => -1,
        (Some(_), None) => 1,
        (Some(x), Some(y)) => text_order(x, y),
    }
}

/// Lexicographic combination of two three-way comparisons.
pub open spec fn then_order(c: int, d: int) -> int {
    if c != 0 {
        c
    } else {
        d
    }
}

/// The field-by-field order of evidence records (artifact, line, excerpt, identifier).
pub open spec fn evidence_order(a: EvidenceModel, b: EvidenceModel) -> int {
    then_order(
        text_order(a.artifact, b.artifact),
        then_order(
            num_order(a.line, b.line),
            then_order(text_order(a.excerpt, b.excerpt), opt_order(a.entity_id, b.entity_id)),
        ),
    )
}

/// The field-by-field order of trace links (source, target, evidence).
pub open spec fn trace_order(a: TraceModel, b: TraceModel) -> int {
    then_order(
        text_order(a.from_id, b.from_id),
        then_order(text_order(a.to_id, b.to_id), evidence_order(a.evidence, b.evidence)),
    )
}

/// A three-way comparison that is antisymmetric, bounded and zero exactly on equal values.
pub open spec fn well_behaved(ab: int, ba: int, equal: bool) -> bool {
    &&& ab == -ba
    &&& -1 <= ab <= 1
    &&& (ab == 0) == equal
}

/// Antisymmetry of optional-text order.
pub proof fn lemma_opt_order(a: Option<Seq<char>>, b: Option<Seq<char>>)
    ensures
        well_behaved(opt_order(a, b), opt_order(b, a), a == b),
{
    if let (Some(x), Some(y)) = (a, b) {
        lemma_text_order_antisym(x, y);
    }
}

/// Antisymmetry of evidence order.
pub proof fn lemma_evidence_order(a: EvidenceModel, b: EvidenceModel)
    ensures
        well_behaved(evidence_order(a, b), evidence_order(b, a), a == b),
{
    lemma_text_order_antisym(a.artifact, b.artifact);
    lemma_text_order_antisym(a.excerpt, b.excerpt);
    lemma_opt_order(a.entity_id, b.entity_id);
}

/// Antisymmetry of trace order.
pub proof fn lemma_trace_order(a: TraceModel, b: TraceModel)
    ensures
        well_behaved(trace_order(a, b), trace_order(b, a), a == b),
{
    lemma_text_order_antisym(a.from_id, b.from_id);
    lemma_text_order_antisym(a.to_id, b.to_id);
    lemma_evidence_order(a.evidence, b.evidence);
}

/// Strict text order is transitive, with equality on either side.
pub proof fn lemma_text_le_lt(a: Seq<char>, b: Seq<char>, c: Seq<char>)
    requires
        text_order(a, b) <= 0,
        text_order(b, c) <= 0,
    ensures
        text_order(a, c) <= 0,
        text_order(a, b) < 0 || text_order(b, c) < 0 ==> text_order(a, c) < 0,
{
    lemma_text_order_antisym(a, b);
    lemma_text_order_antisym(b, c);
    lemma_text_order_antisym(a, c);
    if text_order(a, b) < 0 && text_order(b, c) < 0 {
        lemma_text_lt_trans(a, b, c);
    }
}

/// Transitivity of evidence order.
pub proof fn lemma_evidence_trans(a: EvidenceModel, b: EvidenceModel, c: EvidenceModel)
    requires
        evidence_order(a, b) < 0,
        evidence_order(b, c) < 0,
    ensures
        evidence_order(a, c) < 0,
{
    lemma_evidence_order(a, b);
    lemma_evidence_order(b, c);
    lemma_evidence_order(a, c);
    lemma_text_order_antisym(a.artifact, b.artifact);
    lemma_text_order_antisym(b.artifact, c.artifact);
    lemma_text_order_antisym(a.excerpt, b.excerpt);
    lemma_text_order_antisym(b.excerpt, c.excerpt);
    lemma_opt_order(a.entity_id, b.entity_id);
    lemma_opt_order(b.entity_id, c.entity_id);
    if text_order(a.artifact, b.artifact) <= 0 && text_order(b.artifact, c.artifact) <= 0 {
        lemma_text_le_lt(a.artifact, b.artifact, c.artifact);
    }
    if text_order(a.excerpt, b.excerpt) <= 0 && text_order(b.excerpt, c.excerpt) <= 0 {
        lemma_text_le_lt(a.excerpt, b.excerpt, c.excerpt);
    }
    if let (Some(x), Some(y), Some(z)) = (a.entity_id, b.entity_id, c.entity_id) {
        if text_order(x, y) <= 0 && text_order(y, z) <= 0 {
            lemma_text_le_lt(x, y, z);
        }
    }
}

/// Transitivity of trace order.
pub proof fn lemma_trace_trans(a: TraceModel, b: TraceModel, c: TraceModel)
    requires
        trace_order(a, b) < 0,
        trace_order(b, c) < 0,
    ensures
        trace_order(a, c) < 0,
{
    lemma_trace_order(a, b);
    lemma_trace_order(b, c);
    lemma_text_order_antisym(a.from_id, b.from_id);
    lemma_text_order_antisym(b.from_id, c.from_id);
    lemma_text_order_antisym(a.to_id, b.to_id);
    lemma_text_order_antisym(b.to_id, c.to_id);
    lemma_evidence_order(a.evidence, b.evidence);
    lemma_evidence_order(b.evidence, c.evidence);
    if text_order(a.from_id, b.from_id) <= 0 && text_order(b.from_id, c.from_id) <= 0 {
        lemma_text_le_lt(a.from_id, b.from_id, c.from_id);
    }
    if text_order(a.to_id, b.to_id) <= 0 && text_order(b.to_id, c.to_id) <= 0 {
        lemma_text_le_lt(a.to_id, b.to_id, c.to_id);
    }
    if evidence_order(a.evidence, b.evidence) < 0 && evidence_order(b.evidence, c.evidence) < 0 {
        lemma_evidence_trans(a.evidence, b.evidence, c.evidence);
    }
}

/// Trace `a` sorts strictly before trace `b`.
pub open spec fn trace_lt(a: TraceModel, b: TraceModel) -> bool {
    trace_order(a, b) < 0
}

/// Inserting a trace that a sorted trace list lacks, at its place, keeps the list sorted.
pub proof fn lemma_insert_trace_in_order(l: Seq<TraceModel>, a: TraceModel) -> (r: Seq<TraceModel>)
    requires
        traces_sorted(l),
        !l.contains(a),
    ensures
        traces_sorted(r),
        r.to_set() == l.to_set().insert(a),
    decreases l.len(),
{
    if l.len() == 0 {
        let r = seq![a];
        assert(r.to_set() =~= l.to_set().insert(a)) by {
            assert forall|x: TraceModel| r.to_set().contains(x) == (x == a) by {
                if r.to_set().contains(x) {
                    let k = choose|k: int| 0 <= k < r.len() && r[k] == x;
                }
                if x == a {
                    assert(r[0] == a);
                }
            }
        }
        r
    } else if trace_lt(a, l[0]) {
        let r = seq![a] + l;
        assert forall|i: int, j: int| 0 <= i < j < r.len() implies trace_lt(
            #[trigger] r[i],
            #[trigger] r[j],
        ) by {
            if i == 0 {
                if j > 1 {
                    assert(trace_lt(l[0], l[j - 1]));
                    lemma_trace_trans(a, l[0], l[j - 1]);
                }
            } else {
                assert(r[i] == l[i - 1] && r[j] == l[j - 1]);
            }
        }
        assert forall|x: TraceModel| r.to_set().contains(x) == l.to_set().insert(a).contains(x) by {
            if r.to_set().contains(x) {
                let k = choose|k: int| 0 <= k < r.len() && r[k] == x;
                if k > 0 {
                    assert(l[k - 1] == x);
                }
            }
            if l.to_set().contains(x) {
                let k = choose|k: int| 0 <= k < l.len() && l[k] == x;
                assert(r[k + 1] == x);
            }
            if x == a {
                assert(r[0] == a);
            }
        }
        assert(r.to_set() =~= l.to_set().insert(a));
        r
    } else {
        assert(l.contains(l[0]));
        lemma_trace_order(a, l[0]);
        assert(trace_lt(l[0], a));
        let tail = l.drop_first();
        assert(traces_sorted(tail)) by {
            assert forall|i: int, j: int| 0 <= i < j < tail.len() implies trace_lt(
                #[trigger] tail[i],
                #[trigger] tail[j],
            ) by {
                assert(tail[i] == l[i + 1] && tail[j] == l[j + 1]);
            }
        }
        assert(!tail.contains(a)) by {
            if tail.contains(a) {
                let k = choose|k: int| 0 <= k < tail.len() && tail[k] == a;
                assert(l[k + 1] == a);
            }
        }
        let rest = lemma_insert_trace_in_order(tail, a);
        let r = seq![l[0]] + rest;
        assert forall|i: int, j: int| 0 <= i < j < r.len() implies trace_lt(
            #[trigger] r[i],
            #[trigger] r[j],
        ) by {
            if i == 0 {
                assert(r[j] == rest[j - 1]);
                assert(rest.to_set().contains(rest[j - 1]));
                assert(tail.to_set().insert(a).contains(rest[j - 1]));
                if rest[j - 1] != a {
                    let k = choose|k: int| 0 <= k < tail.len() && tail[k] == rest[j - 1];
                    assert(l[k + 1] == rest[j - 1]);
                }
            } else {
                assert(r[i] == rest[i - 1] && r[j] == rest[j - 1]);
            }
        }
        assert forall|x: TraceModel| r.to_set().contains(x) == l.to_set().insert(a).contains(x) by {
            if r.to_set().contains(x) {
                let k = choose|k: int| 0 <= k < r.len() && r[k] == x;
                if k > 0 {
                    assert(rest[k - 1] == x);
                    assert(rest.to_set().contains(x));
                    if x != a {
                        let q = choose|q: int| 0 <= q < tail.len() && tail[q] == x;
                        assert(l[q + 1] == x);
                    }
                } else {
                    assert(l[0] == x);
                }
            }
            if l.to_set().contains(x) {
                let k = choose|k: int| 0 <= k < l.len() && l[k] == x;
                if k == 0 {
                    assert(r[0] == x);
                } else {
                    assert(tail[k - 1] == x);
                    assert(tail.to_set().insert(a).contains(x));
                    assert(rest.to_set().contains(x));
                    let q = choose|q: int| 0 <= q < rest.len() && rest[q] == x;
                    assert(r[q + 1] == x);
                }
            }
            if x == a {
                assert(tail.to_set().insert(a).contains(a));
                assert(rest.to_set().contains(a));
                let q = choose|q: int| 0 <= q < rest.len() && rest[q] == a;
                assert(r[q + 1] == a);
            }
        }
        assert(r.to_set() =~= l.to_set().insert(a));
        r
    }
}

/// Every finite set of traces has a list of its elements in trace order.
pub proof fn lemma_traces_sortable(s: Set<TraceModel>) -> (l: Seq<TraceModel>)
    requires
        s.finite(),
    ensures
        traces_sorted(l),
        l.to_set() == s,
    decreases s.len(),
{
    if s.len() == 0 {
        vstd::set_lib::lemma_set_empty_equivalency_len(s);
        let l = Seq::<TraceModel>::empty();
        assert(l.to_set() =~= s);
        l
    } else {
        let a = s.choose();
        vstd::set::axiom_set_choose_len(s);
        let l0 = lemma_traces_sortable(s.remove(a));
        assert(!l0.contains(a)) by {
            if l0.contains(a) {
                assert(l0.to_set().contains(a));
            }
        }
        let l = lemma_insert_trace_in_order(l0, a);
        assert(s.remove(a).insert(a) =~= s);
        l
    }
}

/// Every earlier trace sorts strictly before every later one.
pub open spec fn traces_sorted(s: Seq<TraceModel>) -> bool {
    forall|i: int, j: int| 0 <= i < j < s.len() ==> trace_order(#[trigger] s[i], #[trigger] s[j]) < 0
}

/// Compares two optional strings, absent first.
pub fn compare_opt(a: &Option<String>, b: &Option<String>) -> (r: i8)
    ensures
        r as int == opt_order(opt_view(*a), opt_view(*b)),
{
    match (a, b) {
        (None, None) => 0,
        (None, Some(_)) => -1,
        (Some(_), None) => 1,
        (Some(x), Some(y)) => compare_text(&lit(x.as_str()), &lit(y.as_str())),
    }
}

/// Compares two trace links field by field.
pub fn compare_traces(a: &TraceLink, b: &TraceLink) -> (r: i8)
    ensures
        r as int == trace_order(a@, b@),
{
    let c = compare_text(&lit(a.from_id.as_str()), &lit(b.from_id.as_str()));
    if c != 0 {
        return c;
    }
    let c = compare_text(&lit(a.to_id.as_str()), &lit(b.to_id.as_str()));
    if c != 0 {
        return c;
    }
    let c = compare_text(&lit(a.evidence.artifact.as_str()), &lit(b.evidence.artifact.as_str()));
    if c != 0 {
        return c;
    }
    if a.evidence.line < b.evidence.line {
        return -1;
    }
    if a.evidence.line > b.evidence.line {
        return 1;
    }
    let c = compare_text(&lit(a.evidence.excerpt.as_str()), &lit(b.evidence.excerpt.as_str()));
    if c != 0 {
        return c;
    }
    compare_opt(&a.evidence.entity_id, &b.evidence.entity_id)
}

/// Membership in a one-longer prefix.
pub proof fn lemma_take_push_contains<A>(s: Seq<A>, i: int, x: A)
    requires
        0 <= i < s.len(),
    ensures
        s.take(i + 1).contains(x) == (s.take(i).contains(x) || x == s[i]),
{
    if s.take(i + 1).contains(x) {
        let k = choose|k: int| 0 <= k < i + 1 && #[trigger] s.take(i + 1)[k] == x;
        if k < i {
            assert(s.take(i)[k] == x);
        }
    }
    if s.take(i).contains(x) {
        let k = choose|k: int| 0 <= k < i && #[trigger] s.take(i)[k] == x;
        assert(s.take(i + 1)[k] == x);
    }
    if x == s[i] {
        assert(s.take(i + 1)[i] == x);
    }
}

/// Membership after an insertion.
pub proof fn lemma_insert_to_set<A>(s: Seq<A>, p: int, x: A)
    requires
        0 <= p <= s.len(),
    ensures
        s.insert(p, x).to_set() == s.to_set().insert(x),
{
    let m1 = s.insert(p, x);
    assert forall|y: A| m1.to_set().contains(y) == s.to_set().insert(x).contains(y) by {
        if s.contains(y) {
            let k = choose|k: int| 0 <= k < s.len() && s[k] == y;
            if k < p {
                assert(m1[k] == y);
            } else {
                assert(m1[k + 1] == y);
            }
        }
        if m1.contains(y) {
            let k = choose|k: int| 0 <= k < m1.len() && m1[k] == y;
            if k < p {
                assert(s[k] == y);
            } else if k > p {
                assert(s[k - 1] == y);
            }
        }
        if y == x {
            assert(m1[p] == y);
        }
    }
    assert(m1.to_set() =~= s.to_set().insert(x));
}

/// Inserts a trace into a strictly sorted list unless an equal trace is already there.
pub fn insert_trace(list: &mut Vec<TraceLink>, t: TraceLink)
    requires
        traces_sorted(trace_models(old(list)@)),
    ensures
        traces_sorted(trace_models(final(list)@)),
        trace_models(final(list)@).to_set() == trace_models(old(list)@).to_set().insert(t@),
{
    let ghost m0 = trace_models(list@);
    let mut p: usize = 0;
    loop
        invariant
            p <= list.len(),
            m0 == trace_models(list@),
            traces_sorted(m0),
            forall|j: int| 0 <= j < p ==> trace_order(t@, #[trigger] m0[j]) > 0,
        ensures
            p <= list.len(),
            m0 == trace_models(list@),
            forall|j: int| 0 <= j < p ==> trace_order(t@, #[trigger] m0[j]) > 0,
            p == list.len() || trace_order(t@, m0[p as int]) < 0,
        decreases list.len() - p,
    {
        if p == list.len() {
            break;
        }
        let c = compare_traces(&t, &list[p]);
        if c == 0 {
            proof {
                lemma_trace_order(t@, m0[p as int]);
                assert(m0.to_set().insert(t@) =~= m0.to_set());
            }
            return;
        }
        if c < 0 {
            break;
        }
        p = p + 1;
    }
    let ghost tm = t@;
    list.insert(p, t);
    let ghost m1 = trace_models(list@);
    assert(m1 =~= m0.insert(p as int, tm));
    assert forall|i: int, j: int| 0 <= i < j < m1.len() implies trace_order(
        #[trigger] m1[i],
        #[trigger] m1[j],
    ) < 0 by {
        if j < p {
        } else if j == p {
            lemma_trace_order(tm, m0[i]);
        } else if i < p {
            assert(m1[j] == m0[j - 1]);
        } else if i == p {
            if j - 1 > p {
                lemma_trace_trans(tm, m0[p as int], m0[j - 1]);
            }
        } else {
            assert(m1[i] == m0[i - 1]);
            assert(m1[j] == m0[j - 1]);
        }
    }
    proof {
        lemma_insert_to_set(m0, p as int, tm);
    }
}

/// Entities and trace candidates of the first `n` generated artifacts.
pub open spec fn artifacts_scan(arts: Seq<ArtifactModel>, n: int) -> (Seq<EntityModel>, Seq<
    TraceModel,
>)
    decreases n,
{
    if n <= 0 {
        (seq![], seq![])
    } else {
        let prev = artifacts_scan(arts, n - 1);
        (
            prev.0 + artifact_entities(arts[n - 1], false),
            prev.1 + artifact_traces(arts[n - 1], false),
        )
    }
}

/// Entities and trace candidates of a corpus: the brief, then the generated artifacts in
/// order, then the project model.
pub open spec fn corpus_scan(c: Corpus) -> (Seq<EntityModel>, Seq<TraceModel>) {
    let arts = artifact_models(c.artifacts@);
    let a = artifacts_scan(arts, arts.len() as int);
    let j = match c.project_model {
        Some(m) => json_scan(m, "project_model"@),
        None => (seq![], seq![]),
    };
    (
        artifact_entities(c.brief@, true) + a.0 + j.0,
        artifact_traces(c.brief@, true) + a.1 + j.1,
    )
}

/// The identifiers carried by a sequence of entities.
pub open spec fn entity_ids(es: Seq<EntityModel>) -> Set<Seq<char>> {
    Set::new(|x: Seq<char>| exists|i: int| 0 <= i < es.len() && es[i].id == Some(x))
}

/// The trace candidates of a corpus whose two endpoints are identifiers of its entities.
pub open spec fn valid_traces(c: Corpus) -> Set<TraceModel> {
    let s = corpus_scan(c);
    Set::new(
        |t: TraceModel|
            s.1.contains(t) && entity_ids(s.0).contains(t.from_id) && entity_ids(s.0).contains(
                t.to_id,
            ),
    )
}

/// The identifiers of a sequence of entities, in order.
pub open spec fn id_list(es: Seq<EntityModel>) -> Seq<Seq<char>>
    decreases es.len(),
{
    if es.len() == 0 {
        seq![]
    } else {
        let prev = id_list(es.drop_last());
        match es.last().id {
            Some(x) => prev.push(x),
            None => prev,
        }
    }
}

/// The identifier list holds exactly the entities' identifiers.
pub proof fn lemma_id_list(es: Seq<EntityModel>)
    ensures
        forall|x: Seq<char>| #![auto] id_list(es).contains(x) <==> entity_ids(es).contains(x),
    decreases es.len(),
{
    if es.len() > 0 {
        let d = es.drop_last();
        lemma_id_list(d);
        let prev = id_list(d);
        assert forall|x: Seq<char>| #![auto] id_list(es).contains(x) <==> entity_ids(es).contains(x) by {
            if id_list(es).contains(x) {
                if prev.contains(x) {
                    assert(entity_ids(d).contains(x));
                    let k = choose|k: int| 0 <= k < d.len() && d[k].id == Some(x);
                    assert(es[k].id == Some(x));
                } else {
                    let k = choose|k: int| 0 <= k < id_list(es).len() && id_list(es)[k] == x;
                    assert(es[es.len() - 1].id == Some(x));
                }
            }
            if entity_ids(es).contains(x) {
                let k = choose|k: int| 0 <= k < es.len() && es[k].id == Some(x);
                if k < es.len() - 1 {
                    assert(d[k].id == Some(x));
                    assert(entity_ids(d).contains(x));
                    let q = choose|q: int| 0 <= q < prev.len() && prev[q] == x;
                    assert(id_list(es)[q] == x);
                } else {
                    assert(id_list(es)[id_list(es).len() - 1] == x);
                }
            }
        }
    } else {
        assert forall|x: Seq<char>| #![auto] id_list(es).contains(x) <==> entity_ids(es).contains(x) by {
            if entity_ids(es).contains(x) {
                let k = choose|k: int| 0 <= k < es.len() && es[k].id == Some(x);
            }
        }
    }
}

/// Collects the identifiers of a sequence of entities.
pub fn collect_ids(es: &Vec<ExtractedEntity>) -> (r: Vec<Vec<char>>)
    ensures
        views(r@) == id_list(entity_models(es@)),
{
    let ghost em = entity_models(es@);
    let mut r: Vec<Vec<char>> = Vec::new();
    let mut i: usize = 0;
    while i < es.len()
        invariant
            i <= es.len(),
            em == entity_models(es@),
            views(r@) == id_list(em.take(i as int)),
        decreases es.len() - i,
    {
        let ghost before = r@;
        assert(em.take(i + 1).drop_last() =~= em.take(i as int));
        match &es[i].id {
            Some(id) => {
                r.push(lit(id.as_str()));
                assert(views(r@) =~= views(before).push(id@));
            },
            None => {},
        }
        i = i + 1;
    }
    assert(em.take(es.len() as int) =~= em);
    r
}

/// Whether a text is one of the collected identifiers.
pub fn contains_text(list: &Vec<Vec<char>>, x: &[char]) -> (r: bool)
    ensures
        r == views(list@).contains(x@),
{
    let mut i: usize = 0;
    while i < list.len()
        invariant
            i <= list.len(),
            forall|k: int| 0 <= k < i ==> views(list@)[k] != x@,
        decreases list.len() - i,
    {
        if chars_eq(&list[i], x) {
            assert(views(list@)[i as int] == x@);
            return true;
        }
        i = i + 1;
    }
    false
}

/// Two strictly sorted trace lists with the same elements are the same list.
pub proof fn lemma_traces_unique(a: Seq<TraceModel>, b: Seq<TraceModel>)
    requires
        traces_sorted(a),
        traces_sorted(b),
        a.to_set() == b.to_set(),
    ensures
        a == b,
    decreases a.len(),
{
    if a.len() == 0 {
        if b.len() > 0 {
            assert(b.to_set().contains(b[0]));
        }
        assert(a =~= b);
        return;
    }
    if b.len() == 0 {
        assert(a.to_set().contains(a[0]));
        return;
    }
    assert(b.to_set().contains(a[0]));
    assert(a.to_set().contains(b[0]));
    let j = choose|j: int| 0 <= j < b.len() && b[j] == a[0];
    let i = choose|i: int| 0 <= i < a.len() && a[i] == b[0];
    if a[0] != b[0] {
        assert(trace_order(b[0], b[j]) < 0);
        assert(trace_order(a[0], a[i]) < 0);
        lemma_trace_trans(a[0], b[0], a[0]);
        lemma_trace_order(a[0], a[0]);
    }
    let a1 = a.drop_first();
    let b1 = b.drop_first();
    assert(traces_sorted(a1)) by {
        assert forall|p: int, q: int| 0 <= p < q < a1.len() implies trace_order(
            #[trigger] a1[p],
            #[trigger] a1[q],
        ) < 0 by {
            assert(a1[p] == a[p + 1] && a1[q] == a[q + 1]);
        }
    }
    assert(traces_sorted(b1)) by {
        assert forall|p: int, q: int| 0 <= p < q < b1.len() implies trace_order(
            #[trigger] b1[p],
            #[trigger] b1[q],
        ) < 0 by {
            assert(b1[p] == b[p + 1] && b1[q] == b[q + 1]);
        }
    }
    assert forall|x: TraceModel| a1.to_set().contains(x) == b1.to_set().contains(x) by {
        if a1.to_set().contains(x) {
            let p = choose|p: int| 0 <= p < a1.len() && a1[p] == x;
            assert(a[p + 1] == x);
            assert(trace_order(a[0], a[p + 1]) < 0);
            lemma_trace_order(a[0], x);
            assert(a.to_set().contains(x));
            let q = choose|q: int| 0 <= q < b.len() && b[q] == x;
            assert(q != 0);
            assert(b1[q - 1] == x);
        }
        if b1.to_set().contains(x) {
            let p = choose|p: int| 0 <= p < b1.len() && b1[p] == x;
            assert(b[p + 1] == x);
            assert(trace_order(b[0], b[p + 1]) < 0);
            lemma_trace_order(b[0], x);
            assert(b.to_set().contains(x));
            let q = choose|q: int| 0 <= q < a.len() && a[q] == x;
            assert(q != 0);
            assert(a1[q - 1] == x);
        }
    }
    assert(a1.to_set() =~= b1.to_set());
    lemma_traces_unique(a1, b1);
    assert(a =~= seq![a[0]] + a1);
    assert(b =~= seq![b[0]] + b1);
}

/// The extraction of a corpus: its statements in scan order, and its validated traces once each
/// in trace order.
pub open spec fn extraction_of(c: Corpus) -> ExtractionModel {
    ExtractionModel {
        entities: corpus_scan(c).0,
        traces: choose|t: Seq<TraceModel>| traces_sorted(t) && t.to_set() == valid_traces(c),
    }
}

/// The trace list of `extraction_of(c)` exists: it is in trace order and holds exactly the
/// validated traces of the corpus.
pub proof fn lemma_extraction_traces(c: Corpus)
    ensures
        traces_sorted(extraction_of(c).traces),
        extraction_of(c).traces.to_set() == valid_traces(c),
{
    let s = corpus_scan(c);
    assert(valid_traces(c).subset_of(s.1.to_set()));
    vstd::seq_lib::seq_to_set_is_finite(s.1);
    vstd::set_lib::lemma_set_subset_finite(s.1.to_set(), valid_traces(c));
    let l = lemma_traces_sortable(valid_traces(c));
    assert(traces_sorted(l) && l.to_set() == valid_traces(c));
}

/// Extracts entities from the brief, generated artifacts, and optional project model.
pub fn extract_entities(corpus: &Corpus) -> (r: Extraction)
    ensures
        r@.entities == corpus_scan(*corpus).0,
        traces_sorted(r@.traces),
        r@.traces.to_set() == valid_traces(*corpus),
        r@ == extraction_of(*corpus),
{
    let mut entities: Vec<ExtractedEntity> = Vec::new();
    let mut candidates: Vec<TraceLink> = Vec::new();
    scan_artifact(&corpus.brief, true, &mut entities, &mut candidates);
    let ghost arts = artifact_models(corpus.artifacts@);
    let ghost b = (artifact_entities(corpus.brief@, true), artifact_traces(corpus.brief@, true));
    assert(entity_models(entities@) =~= b.0 + artifacts_scan(arts, 0).0);
    assert(trace_models(candidates@) =~= b.1 + artifacts_scan(arts, 0).1);
    let mut k: usize = 0;
    while k < corpus.artifacts.len()
        invariant
            k <= corpus.artifacts.len(),
            arts == artifact_models(corpus.artifacts@),
            b == (artifact_entities(corpus.brief@, true), artifact_traces(corpus.brief@, true)),
            entity_models(entities@) == b.0 + artifacts_scan(arts, k as int).0,
            trace_models(candidates@) == b.1 + artifacts_scan(arts, k as int).1,
        decreases corpus.artifacts.len() - k,
    {
        scan_artifact(&corpus.artifacts[k], false, &mut entities, &mut candidates);
        k = k + 1;
        assert(entity_models(entities@) =~= b.0 + artifacts_scan(arts, k as int).0);
        assert(trace_models(candidates@) =~= b.1 + artifacts_scan(arts, k as int).1);
    }
    match &corpus.project_model {
        Some(model) => {
            scan_json_model(model, &lit("project_model"), &mut entities, &mut candidates);
        },
        None => {},
    }
    let ghost sc = corpus_scan(*corpus);
    assert(entity_models(entities@) =~= sc.0);
    assert(trace_models(candidates@) =~= sc.1);
    let known = collect_ids(&entities);
    proof {
        lemma_id_list(sc.0);
    }
    let mut traces: Vec<TraceLink> = Vec::new();
    let ghost cm = trace_models(candidates@);
    let mut i: usize = 0;
    while i < candidates.len()
        invariant
            i <= candidates.len(),
            cm == trace_models(candidates@),
            cm == sc.1,
            entity_models(entities@) == sc.0,
            forall|x: Seq<char>| #![auto] views(known@).contains(x) <==> entity_ids(sc.0).contains(x),
            traces_sorted(trace_models(traces@)),
            trace_models(traces@).to_set() == Set::new(
                |t: TraceModel|
                    cm.take(i as int).contains(t) && entity_ids(sc.0).contains(t.from_id)
                        && entity_ids(sc.0).contains(t.to_id),
            ),
        decreases candidates.len() - i,
    {
        let ghost before = trace_models(traces@).to_set();
        let from = lit(candidates[i].from_id.as_str());
        let to = lit(candidates[i].to_id.as_str());
        if contains_text(&known, &from) && contains_text(&known, &to) {
            let copy = TraceLink {
                from_id: candidates[i].from_id.clone(),
                to_id: candidates[i].to_id.clone(),
                evidence: copy_evidence(&candidates[i].evidence),
            };
            assert(copy@ == cm[i as int]);
            insert_trace(&mut traces, copy);
        }
        proof {
            let ok = entity_ids(sc.0).contains(cm[i as int].from_id) && entity_ids(sc.0).contains(
                cm[i as int].to_id,
            );
            assert(views(known@).contains(from@) == entity_ids(sc.0).contains(cm[i as int].from_id));
            assert(views(known@).contains(to@) == entity_ids(sc.0).contains(cm[i as int].to_id));
            assert forall|t: TraceModel| #![auto] trace_models(traces@).to_set().contains(t) == (
            cm.take(i + 1).contains(t) && entity_ids(sc.0).contains(t.from_id) && entity_ids(
                sc.0,
            ).contains(t.to_id)) by {
                lemma_take_push_contains(cm, i as int, t);
                if ok {
                    assert(trace_models(traces@).to_set() == before.insert(cm[i as int]));
                } else {
                    assert(trace_models(traces@).to_set() == before);
                }
            }
        }
        assert(trace_models(traces@).to_set() =~= Set::new(
            |t: TraceModel|
                cm.take(i + 1).contains(t) && entity_ids(sc.0).contains(t.from_id)
                    && entity_ids(sc.0).contains(t.to_id),
        ));
        i = i + 1;
    }
    assert(cm.take(candidates.len() as int) =~= cm);
    assert(trace_models(traces@).to_set() =~= valid_traces(*corpus));
    proof {
        let tm = trace_models(traces@);
        let c = choose|t: Seq<TraceModel>| traces_sorted(t) && t.to_set() == valid_traces(*corpus);
        assert(traces_sorted(tm) && tm.to_set() == valid_traces(*corpus));
        lemma_traces_unique(c, tm);
    }
    Extraction { entities, traces }
}


/// A statement's evidence names one of the given sources at a line from 1 on, carries the
/// statement's own identifier, and quotes the first 240 characters of its text, not all blank.
pub open spec fn statement_cites(e: EntityModel, names: Set<Seq<char>>) -> bool {
    &&& names.contains(e.evidence.artifact)
    &&& quoted(e.evidence)
    &&& e.evidence.line >= 1
    &&& e.evidence.excerpt == excerpt_of(e.text)
    &&& e.evidence.entity_id == e.id
}

/// A trace's evidence names one of the given sources at a line from 1 on and quotes a
/// non-blank excerpt; the trace links two different identifiers.
pub open spec fn trace_cites(t: TraceModel, names: Set<Seq<char>>) -> bool {
    &&& names.contains(t.evidence.artifact)
    &&& quoted(t.evidence)
    &&& t.evidence.line >= 1
    &&& t.from_id != t.to_id
}

/// Every statement of a list cites one of the given sources.
pub open spec fn entities_cite(es: Seq<EntityModel>, names: Set<Seq<char>>) -> bool {
    forall|i: int| 0 <= i < es.len() ==> statement_cites(#[trigger] es[i], names)
}

/// Every trace of a list cites one of the given sources.
pub open spec fn traces_cite(ts: Seq<TraceModel>, names: Set<Seq<char>>) -> bool {
    forall|i: int| 0 <= i < ts.len() ==> trace_cites(#[trigger] ts[i], names)
}

/// An evidence excerpt quotes at most 240 characters, not all of them whitespace.
pub open spec fn quoted(e: EvidenceModel) -> bool {
    e.excerpt.len() <= 240 && trim(e.excerpt).len() > 0
}

/// The names of the sources collected for a corpus: the brief, each generated artifact, and
/// the project model when there is one.
pub open spec fn source_names(c: Corpus) -> Set<Seq<char>> {
    Set::new(
        |s: Seq<char>|
            s == artifact_name(c.brief.relative_path@) || (exists|k: int|
                0 <= k < c.artifacts@.len() && s == artifact_name(c.artifacts@[k].relative_path@))
                || (c.project_model is Some && s == "PROJECT_MODEL.json"@),
    )
}

/// The brief and every generated artifact have a name that is not blank.
pub open spec fn sources_named(c: Corpus) -> bool {
    &&& trim(artifact_name(c.brief.relative_path@)).len() > 0
    &&& forall|k: int|
        0 <= k < c.artifacts@.len() ==> trim(#[trigger] artifact_name(c.artifacts@[k].relative_path@)).len()
            > 0
}

/// Citing lists join into a citing list, also under a larger set of sources.
proof fn lemma_cite_join(
    a: (Seq<EntityModel>, Seq<TraceModel>),
    b: (Seq<EntityModel>, Seq<TraceModel>),
    na: Set<Seq<char>>,
    nb: Set<Seq<char>>,
    names: Set<Seq<char>>,
)
    requires
        entities_cite(a.0, na),
        traces_cite(a.1, na),
        entities_cite(b.0, nb),
        traces_cite(b.1, nb),
        na.subset_of(names),
        nb.subset_of(names),
    ensures
        entities_cite(a.0 + b.0, names),
        traces_cite(a.1 + b.1, names),
{
    assert forall|i: int| 0 <= i < (a.0 + b.0).len() implies statement_cites(
        #[trigger] (a.0 + b.0)[i],
        names,
    ) by {
        if i < a.0.len() {
            assert((a.0 + b.0)[i] == a.0[i]);
        } else {
            assert((a.0 + b.0)[i] == b.0[i - a.0.len()]);
        }
    }
    assert forall|i: int| 0 <= i < (a.1 + b.1).len() implies trace_cites(
        #[trigger] (a.1 + b.1)[i],
        names,
    ) by {
        if i < a.1.len() {
            assert((a.1 + b.1)[i] == a.1[i]);
        } else {
            assert((a.1 + b.1)[i] == b.1[i - a.1.len()]);
        }
    }
}

/// The trace candidates of one statement carry that statement's evidence and link two
/// different identifiers.
proof fn lemma_candidates_cite(text: Seq<char>, ids: Seq<Seq<char>>, ev: EvidenceModel)
    ensures
        forall|i: int|
            0 <= i < candidates_of(text, ids, ev).len() ==> (#[trigger] candidates_of(
                text,
                ids,
                ev,
            )[i]).evidence == ev && candidates_of(text, ids, ev)[i].from_id != candidates_of(
                text,
                ids,
                ev,
            )[i].to_id,
{
    if ids.len() >= 2 && relationship_language(text) {
        let f = ids.skip(1).filter(differs_from(ids[0]));
        assert forall|i: int| 0 <= i < f.len() implies #[trigger] f[i] != ids[0] by {
            ids.skip(1).lemma_filter_pred(differs_from(ids[0]), i);
        }
    }
}

/// The statements and trace candidates of an artifact cite it.
proof fn lemma_scan_cites(name: Seq<char>, ls: Seq<Seq<char>>, n: int, is_brief: bool)
    ensures
        entities_cite(scan_entities(name, ls, n, is_brief), set![name]),
        traces_cite(scan_traces(name, ls, n, is_brief), set![name]),
    decreases n,
{
    if n > 0 {
        lemma_scan_cites(name, ls, n - 1, is_brief);
        let text = cleaned(trim(ls[n - 1]));
        let ev = evidence_for(name, n, text);
        lemma_candidates_cite(text, identifiers(text), ev);
        match line_role(ls, n - 1, is_brief) {
            Some(k) => {
                let prev = scan_entities(name, ls, n - 1, is_brief);
                let e = entity_for(name, n, k, text);
                assert(scan_entities(name, ls, n, is_brief) == prev.push(e));
                assert forall|i: int| 0 <= i < prev.push(e).len() implies statement_cites(
                    #[trigger] prev.push(e)[i],
                    set![name],
                ) by {
                    if i < prev.len() {
                        assert(prev.push(e)[i] == prev[i]);
                        assert(statement_cites(prev[i], set![name]));
                    } else {
                        assert(prev.push(e)[i] == e);
                        assert(quotable(text));
                        assert(excerpt_of(text).len() <= 240);
                    }
                }
                assert(entities_cite(prev.push(e), set![name]));
                let pt = scan_traces(name, ls, n - 1, is_brief);
                let ct = traces_for(name, n, text);
                assert(traces_cite(ct, set![name]));
                lemma_cite_join(
                    (Seq::<EntityModel>::empty(), pt),
                    (Seq::<EntityModel>::empty(), ct),
                    set![name],
                    set![name],
                    set![name],
                );
                assert(scan_traces(name, ls, n, is_brief) == pt + ct);
            },
            None => {
                assert(scan_entities(name, ls, n, is_brief) == scan_entities(name, ls, n - 1, is_brief));
                assert(scan_traces(name, ls, n, is_brief) == scan_traces(name, ls, n - 1, is_brief));
            },
        }
    }
}

/// The statements and trace candidates of the first `n` generated artifacts cite them.
proof fn lemma_artifacts_cite(arts: Seq<ArtifactModel>, n: int)
    requires
        n <= arts.len(),
    ensures
        entities_cite(
            artifacts_scan(arts, n).0,
            Set::new(
                |s: Seq<char>| exists|k: int| 0 <= k < n && s == artifact_name(arts[k].relative_path),
            ),
        ),
        traces_cite(
            artifacts_scan(arts, n).1,
            Set::new(
                |s: Seq<char>| exists|k: int| 0 <= k < n && s == artifact_name(arts[k].relative_path),
            ),
        ),
    decreases n,
{
    let names = Set::new(
        |s: Seq<char>| exists|k: int| 0 <= k < n && s == artifact_name(arts[k].relative_path),
    );
    if n > 0 {
        lemma_artifacts_cite(arts, n - 1);
        let a = arts[n - 1];
        let name = artifact_name(a.relative_path);
        let ls = lines(a.content);
        lemma_scan_cites(name, ls, ls.len() as int, false);
        let earlier = Set::new(
            |s: Seq<char>| exists|k: int| 0 <= k < n - 1 && s == artifact_name(arts[k].relative_path),
        );
        assert(earlier.subset_of(names)) by {
            assert forall|s: Seq<char>| earlier.contains(s) implies names.contains(s) by {
                let k = choose|k: int| 0 <= k < n - 1 && s == artifact_name(arts[k].relative_path);
                assert(0 <= k < n && s == artifact_name(arts[k].relative_path));
            }
        }
        assert(set![name].subset_of(names)) by {
            assert forall|s: Seq<char>| set![name].contains(s) implies names.contains(s) by {
                assert(0 <= n - 1 < n && s == artifact_name(arts[n - 1].relative_path));
            }
        }
        lemma_cite_join(
            artifacts_scan(arts, n - 1),
            (artifact_entities(a, false), artifact_traces(a, false)),
            earlier,
            set![name],
            names,
        );
    } else {
        assert(artifacts_scan(arts, n).0.len() == 0);
    }
}

/// The statements and trace candidates of a project model cite it.
proof fn lemma_json_cites(v: JsonValue, ctx: Seq<char>)
    ensures
        entities_cite(json_scan(v, ctx).0, set!["PROJECT_MODEL.json"@]),
        traces_cite(json_scan(v, ctx).1, set!["PROJECT_MODEL.json"@]),
    decreases v, child_count(v) + 1,
{
    let names = set!["PROJECT_MODEL.json"@];
    match v {
        JsonValue::Object(m) => {
            let own = match record_statement(m@) {
                Some(t) => json_string_scan(t, ctx),
                None => (seq![], seq![]),
            };
            lemma_string_cites(record_statement(m@), ctx);
            lemma_json_children_cite(v, ctx, 0);
            lemma_cite_join(own, json_scan_children(v, ctx, 0), names, names, names);
        },
        JsonValue::Array(_) => {
            lemma_json_children_cite(v, ctx, 0);
        },
        JsonValue::String(x) => {
            lemma_string_cites(Some(x@), ctx);
        },
        _ => {},
    }
}

/// The statement and trace candidates of one structured string cite the project model.
proof fn lemma_string_cites(t: Option<Seq<char>>, ctx: Seq<char>)
    ensures
        t matches Some(x) ==> entities_cite(json_string_scan(x, ctx).0, set!["PROJECT_MODEL.json"@])
            && traces_cite(json_string_scan(x, ctx).1, set!["PROJECT_MODEL.json"@]),
{
    if let Some(x) = t {
        let ev = evidence_for("PROJECT_MODEL.json"@, 1, x);
        lemma_candidates_cite(x, identifiers(x), ev);
    }
}

/// The statements and trace candidates of a structured value's children cite the project model.
proof fn lemma_json_children_cite(v: JsonValue, ctx: Seq<char>, i: int)
    ensures
        entities_cite(json_scan_children(v, ctx, i).0, set!["PROJECT_MODEL.json"@]),
        traces_cite(json_scan_children(v, ctx, i).1, set!["PROJECT_MODEL.json"@]),
    decreases v, child_count(v) - i,
{
    let names = set!["PROJECT_MODEL.json"@];
    if 0 <= i < child_count(v) {
        lemma_child_decreases(v, i);
        lemma_json_cites(child(v, i), child_context(v, ctx, i));
        lemma_json_children_cite(v, ctx, i + 1);
        lemma_cite_join(
            json_scan(child(v, i), child_context(v, ctx, i)),
            json_scan_children(v, ctx, i + 1),
            names,
            names,
            names,
        );
    }
}

/// Every statement's evidence names a collected source — the brief, a generated artifact or
/// the project model — at a line from 1 on, carries the statement's own identifier, and quotes
/// the first 240 characters of its text, never all blank; every validated trace cites a
/// collected source in the same way and links two different identifiers.
pub proof fn law_evidence_cites_sources(c: Corpus)
    ensures
        entities_cite(corpus_scan(c).0, source_names(c)),
        forall|t: TraceModel| #[trigger] valid_traces(c).contains(t) ==> trace_cites(t, source_names(c)),
{
    let names = source_names(c);
    let arts = artifact_models(c.artifacts@);
    let brief_name = artifact_name(c.brief.relative_path@);
    let bl = lines(c.brief@.content);
    lemma_scan_cites(brief_name, bl, bl.len() as int, true);
    lemma_artifacts_cite(arts, arts.len() as int);
    let art_names = Set::new(
        |s: Seq<char>| exists|k: int| 0 <= k < arts.len() && s == artifact_name(arts[k].relative_path),
    );
    assert(set![brief_name].subset_of(names));
    assert(art_names.subset_of(names)) by {
        assert forall|s: Seq<char>| art_names.contains(s) implies names.contains(s) by {
            let k = choose|k: int| 0 <= k < arts.len() && s == artifact_name(arts[k].relative_path);
            assert(arts[k] == c.artifacts@[k]@);
        }
    }
    let j = match c.project_model {
        Some(m) => json_scan(m, "project_model"@),
        None => (seq![], seq![]),
    };
    let jn = if c.project_model is Some {
        set!["PROJECT_MODEL.json"@]
    } else {
        Set::empty()
    };
    if let Some(m) = c.project_model {
        lemma_json_cites(m, "project_model"@);
    }
    assert(jn.subset_of(names));
    let b = (artifact_entities(c.brief@, true), artifact_traces(c.brief@, true));
    lemma_cite_join(b, artifacts_scan(arts, arts.len() as int), set![brief_name], art_names, names);
    lemma_cite_join(
        (b.0 + artifacts_scan(arts, arts.len() as int).0, b.1 + artifacts_scan(arts, arts.len() as int).1),
        j,
        names,
        jn,
        names,
    );
    let s = corpus_scan(c);
    assert forall|t: TraceModel| #[trigger] valid_traces(c).contains(t) implies trace_cites(t, names) by {
        assert(s.1.contains(t));
        let k = choose|k: int| 0 <= k < s.1.len() && s.1[k] == t;
        assert(trace_cites(s.1[k], names));
    }
}


/// A missing optional project model never changes the evidence taken from the brief and the
/// generated artifacts: supplying one only appends the model's own statements and trace
/// candidates after theirs.
pub proof fn law_model_only_appends(with_model: Corpus, without: Corpus)
    requires
        without.project_model is None,
        with_model.brief == without.brief,
        with_model.artifacts@ == without.artifacts@,
    ensures
        corpus_scan(without).0.is_prefix_of(corpus_scan(with_model).0),
        corpus_scan(without).1.is_prefix_of(corpus_scan(with_model).1),
{
    let w = corpus_scan(with_model);
    let o = corpus_scan(without);
    assert(o.0 =~= w.0.subrange(0, o.0.len() as int));
    assert(o.1 =~= w.1.subrange(0, o.1.len() as int));
}

/// Every trace of an extraction links two different identifiers of extracted statements, and
/// the traces come once each in trace order.
pub proof fn law_traces_link_distinct_statements(c: Corpus)
    ensures
        traces_sorted(extraction_of(c).traces),
        forall|i: int|
            0 <= i < extraction_of(c).traces.len() ==> {
                let t = #[trigger] extraction_of(c).traces[i];
                &&& t.from_id != t.to_id
                &&& entity_ids(extraction_of(c).entities).contains(t.from_id)
                &&& entity_ids(extraction_of(c).entities).contains(t.to_id)
            },
{
    lemma_extraction_traces(c);
    law_evidence_cites_sources(c);
    let x = extraction_of(c);
    assert forall|i: int| 0 <= i < x.traces.len() implies {
        let t = #[trigger] x.traces[i];
        &&& t.from_id != t.to_id
        &&& entity_ids(x.entities).contains(t.from_id)
        &&& entity_ids(x.entities).contains(t.to_id)
    } by {
        assert(x.traces.to_set().contains(x.traces[i]));
        assert(valid_traces(c).contains(x.traces[i]));
    }
}

/// Every statement of a list cites the project model at line 1.
pub open spec fn at_model(es: Seq<EntityModel>) -> bool {
    forall|i: int|
        0 <= i < es.len() ==> (#[trigger] es[i]).evidence.artifact == "PROJECT_MODEL.json"@
            && es[i].evidence.line == 1
}

/// The statements and trace candidates of the optional project model.
pub open spec fn model_scan(c: Corpus) -> (Seq<EntityModel>, Seq<TraceModel>) {
    match c.project_model {
        Some(m) => json_scan(m, "project_model"@),
        None => (seq![], seq![]),
    }
}

/// Two lists of statements citing the project model at line 1 join into one.
proof fn lemma_at_model_join(a: Seq<EntityModel>, b: Seq<EntityModel>)
    requires
        at_model(a),
        at_model(b),
    ensures
        at_model(a + b),
{
    assert forall|i: int| 0 <= i < (a + b).len() implies (#[trigger] (a + b)[i]).evidence.artifact
        == "PROJECT_MODEL.json"@ && (a + b)[i].evidence.line == 1 by {
        if i < a.len() {
            assert((a + b)[i] == a[i]);
        } else {
            assert((a + b)[i] == b[i - a.len()]);
        }
    }
}

/// The statements of a structured value cite the project model at line 1.
proof fn lemma_json_at_model(v: JsonValue, ctx: Seq<char>)
    ensures
        at_model(json_scan(v, ctx).0),
    decreases v, child_count(v) + 1,
{
    match v {
        JsonValue::Object(m) => {
            let own = match record_statement(m@) {
                Some(t) => json_string_scan(t, ctx),
                None => (seq![], seq![]),
            };
            lemma_json_children_at_model(v, ctx, 0);
            lemma_at_model_join(own.0, json_scan_children(v, ctx, 0).0);
        },
        JsonValue::Array(_) => {
            lemma_json_children_at_model(v, ctx, 0);
        },
        _ => {},
    }
}

/// The statements of a structured value's children cite the project model at line 1.
proof fn lemma_json_children_at_model(v: JsonValue, ctx: Seq<char>, i: int)
    ensures
        at_model(json_scan_children(v, ctx, i).0),
    decreases v, child_count(v) - i,
{
    if 0 <= i < child_count(v) {
        lemma_child_decreases(v, i);
        lemma_json_at_model(child(v, i), child_context(v, ctx, i));
        lemma_json_children_at_model(v, ctx, i + 1);
        lemma_at_model_join(
            json_scan(child(v, i), child_context(v, ctx, i)).0,
            json_scan_children(v, ctx, i + 1).0,
        );
    }
}

/// The statements of a corpus are those of the brief, then of each generated artifact in
/// order, then of the project model; every statement imported from the project model cites
/// "PROJECT_MODEL.json" at line 1.
pub proof fn law_model_statements_cite_model(c: Corpus)
    ensures
        corpus_scan(c).0 == artifact_entities(c.brief@, true) + artifacts_scan(
            artifact_models(c.artifacts@),
            c.artifacts@.len() as int,
        ).0 + model_scan(c).0,
        at_model(model_scan(c).0),
{
    if let Some(m) = c.project_model {
        lemma_json_at_model(m, "project_model"@);
    }
}

/// The line uses `word` as a whole word, ignoring ASCII case.
pub open spec fn uses_word(line: Seq<char>, word: Seq<char>) -> bool {
    has_sub(seq![' '] + lower(line) + seq![' '], seq![' '] + word + seq![' '])
}

/// The words that make an unstructured brief statement normative.
pub open spec fn normative_word(w: Seq<char>) -> bool {
    w == "must"@ || w == "should"@ || w == "need"@ || w == "require"@
}

/// In the brief, a line with no identifier outside any labelled section is a requirement
/// exactly when it uses one of the words "must", "should", "need" or "require" (unless it
/// asks a question, when it is an open question); outside the brief such wording alone makes
/// no statement.
pub proof fn law_brief_normative_lines(line: Seq<char>)
    requires
        line.len() > 0,
        identifiers(line).len() == 0,
    ensures
        line.last() == '?' ==> line_kind(line, SectionKind::Other, true) == Some(EntityKind::OpenQuestion),
        line.last() != '?' ==> (line_kind(line, SectionKind::Other, true) == Some(
            EntityKind::Requirement,
        ) <==> exists|w: Seq<char>| normative_word(w) && #[trigger] uses_word(line, w)),
        line.last() != '?' ==> (line_kind(line, SectionKind::Other, true) is None <==> !exists|
            w: Seq<char>,
        | normative_word(w) && #[trigger] uses_word(line, w)),
        line_kind(line, SectionKind::Other, false) is None,
{
    reveal_strlit(" must ");
    reveal_strlit(" should ");
    reveal_strlit(" need ");
    reveal_strlit(" require ");
    reveal_strlit("must");
    reveal_strlit("should");
    reveal_strlit("need");
    reveal_strlit("require");
    assert(seq![' '] + "must"@ + seq![' '] =~= " must "@);
    assert(seq![' '] + "should"@ + seq![' '] =~= " should "@);
    assert(seq![' '] + "need"@ + seq![' '] =~= " need "@);
    assert(seq![' '] + "require"@ + seq![' '] =~= " require "@);
    if line.last() != '?' {
        if exists|w: Seq<char>| normative_word(w) && #[trigger] uses_word(line, w) {
            let w = choose|w: Seq<char>| normative_word(w) && #[trigger] uses_word(line, w);
            assert(normative(line) == Some(EntityKind::Requirement));
        }
        if normative(line) is Some {
            let padded = seq![' '] + lower(line) + seq![' '];
            if has_sub(padded, " must "@) {
                assert(uses_word(line, "must"@));
            } else if has_sub(padded, " should "@) {
                assert(uses_word(line, "should"@));
            } else if has_sub(padded, " need "@) {
                assert(uses_word(line, "need"@));
            } else {
                assert(uses_word(line, "require"@));
            }
        }
    }
}

/// A statement found at line `i` stays among the statements of every longer prefix.
proof fn lemma_scan_keeps(name: Seq<char>, ls: Seq<Seq<char>>, i: int, n: int, is_brief: bool, e: EntityModel)
    requires
        0 <= i < n,
        scan_entities(name, ls, i + 1, is_brief).contains(e),
    ensures
        scan_entities(name, ls, n, is_brief).contains(e),
    decreases n - i,
{
    if n > i + 1 {
        lemma_scan_keeps(name, ls, i, n - 1, is_brief, e);
        let prev = scan_entities(name, ls, n - 1, is_brief);
        let k = choose|k: int| 0 <= k < prev.len() && prev[k] == e;
        match line_role(ls, n - 1, is_brief) {
            Some(r) => {
                assert(scan_entities(name, ls, n, is_brief)[k] == e);
            },
            None => {},
        }
    }
}

/// A brief line with no identifier, outside any labelled section, that uses "must", "should",
/// "need" or "require" and does not ask a question is extracted as a requirement: its statement
/// (list marker removed) at its line number, citing the brief.
pub proof fn law_brief_requirement_extracted(c: Corpus, i: int)
    requires
        0 <= i < lines(c.brief.content@).len(),
        !is_heading(trim(lines(c.brief.content@)[i])),
        section_before(lines(c.brief.content@), i) == SectionKind::Other,
        quotable(cleaned(trim(lines(c.brief.content@)[i]))),
        trim(lines(c.brief.content@)[i]).len() > 0,
        identifiers(trim(lines(c.brief.content@)[i])).len() == 0,
        trim(lines(c.brief.content@)[i]).last() != '?',
        exists|w: Seq<char>| normative_word(w) && #[trigger] uses_word(trim(lines(c.brief.content@)[i]), w),
    ensures
        extraction_of(c).entities.contains(
            entity_for(
                artifact_name(c.brief.relative_path@),
                i + 1,
                EntityKind::Requirement,
                cleaned(trim(lines(c.brief.content@)[i])),
            ),
        ),
{
    let ls = lines(c.brief.content@);
    let l = trim(ls[i]);
    let name = artifact_name(c.brief.relative_path@);
    law_brief_normative_lines(l);
    assert(line_role(ls, i, true) == Some(EntityKind::Requirement));
    let e = entity_for(name, i + 1, EntityKind::Requirement, cleaned(l));
    let prev = scan_entities(name, ls, i, true);
    assert(scan_entities(name, ls, i + 1, true) == prev.push(e));
    assert(prev.push(e)[prev.len() as int] == e);
    lemma_scan_keeps(name, ls, i, ls.len() as int, true, e);
    let b = artifact_entities(c.brief@, true);
    let rest = corpus_scan(c).0;
    let k = choose|k: int| 0 <= k < b.len() && b[k] == e;
    let arts = artifact_models(c.artifacts@);
    let j = match c.project_model {
        Some(m) => json_scan(m, "project_model"@),
        None => (seq![], seq![]),
    };
    assert(rest == b + artifacts_scan(arts, arts.len() as int).0 + j.0);
    assert(rest[k] == e);
}

} // verus!
