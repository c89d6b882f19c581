//! The fixed DRPFS rubric: seven dimension scorers and the validation report they make.
//!
//! Every score is computed exactly as a rational `p / q` points, clamped to the dimension's
//! maximum and rounded half up to tenths of a point. Metrics arrive in tenths of a percent.
use vstd::prelude::*;

use crate::corpus::{artifact_models, Artifact, ArtifactModel, Corpus};
use crate::extract::{
    copy_entity, entity_models, opt_view, trace_models, EntityKind, EntityModel, ExtractedEntity,
    Extraction, ExtractionModel, TraceLink, TraceModel,
};
use crate::metrics::{
    contains_high_impact_concept, evidence_pred, has_research_wording, high_impact, lemma_card,
    research_text, touches, trace_joins, trace_links_evidence, trace_touches,
};
use crate::order::{insert_sorted, lemma_sorted_list, sorted_list, strictly_sorted};
use crate::metrics::DeterministicMetrics;
use crate::report::{
    append_findings, dimension_list, finding_models, findings_of, score_sum, DimensionModel,
    DimensionScore, Dimensions, Finding, FindingModel, Severity, ValidationReport,
};
use crate::extract::strs;
use crate::text::{
    begins_with, chars_eq, chars_of as lit, concat, contains, has_sub, is_ascii_digit, is_digit, is_ws,
    lower, split_by, split_chars, starts_with, string_of, to_lower, trim, views, CharClass,
};
use crate::extract::{
    extraction_of, lemma_extraction_traces, law_evidence_cites_sources, quoted, source_names,
    sources_named, EvidenceModel,
};
use crate::report::finding_complete;

verus! {

/// Glue words that carry no subject of their own.
pub open spec fn stop_word(t: Seq<char>) -> bool {
    ||| t == "the"@
    ||| t == "a"@
    ||| t == "an"@
    ||| t == "and"@
    ||| t == "or"@
    ||| t == "to"@
    ||| t == "for"@
    ||| t == "of"@
    ||| t == "in"@
    ||| t == "on"@
    ||| t == "with"@
    ||| t == "use"@
    ||| t == "using"@
    ||| t == "supports"@
    ||| t == "support"@
    ||| t == "required"@
    ||| t == "must"@
    ||| t == "should"@
    ||| t == "is"@
    ||| t == "be"@
    ||| t == "as"@
    ||| t == "from"@
}

/// A token that looks like an identifier: a hyphen together with a digit.
pub open spec fn id_like(t: Seq<char>) -> bool {
    t.contains('-') && exists|j: int| 0 <= j < t.len() && is_digit(t[j])
}

/// A lower-cased token that names a subject: longer than two characters, not an identifier,
/// not a glue word.
pub open spec fn meaningful(t: Seq<char>) -> bool {
    t.len() > 2 && !id_like(t) && !stop_word(t)
}

/// The meaningful lower-case terms of a statement.
pub open spec fn token_set(text: Seq<char>) -> Set<Seq<char>> {
    let pieces = split_by(text, CharClass::NonToken);
    Set::new(
        |t: Seq<char>| exists|i: int| 0 <= i < pieces.len() && t == lower(pieces[i]) && meaningful(t),
    )
}

/// The number of meaningful terms two statements share.
pub open spec fn shared_terms(a: Seq<char>, b: Seq<char>) -> int {
    token_set(a).intersect(token_set(b)).len() as int
}

/// The size of the smaller of the two term sets.
pub open spec fn fewer_terms(a: Seq<char>, b: Seq<char>) -> int {
    let x = token_set(a).len() as int;
    let y = token_set(b).len() as int;
    if x <= y {
        x
    } else {
        y
    }
}

/// Token overlap (shared terms over the smaller term set, zero when either is empty) is at
/// least `num / den`.
pub open spec fn overlap_at_least(a: Seq<char>, b: Seq<char>, num: int, den: int) -> bool {
    fewer_terms(a, b) > 0 && den * shared_terms(a, b) >= num * fewer_terms(a, b)
}

/// Token overlap is zero: one statement has no meaningful term, or they share none.
pub open spec fn no_overlap(a: Seq<char>, b: Seq<char>) -> bool {
    fewer_terms(a, b) == 0 || shared_terms(a, b) == 0
}

/// Decides whether a lower-cased token is a glue word.
fn is_stop_word(t: &[char]) -> (r: bool)
    ensures
        r == stop_word(t@),
{
    chars_eq(t, &lit("the")) || chars_eq(t, &lit("a")) || chars_eq(t, &lit("an")) || chars_eq(
        t,
        &lit("and"),
    ) || chars_eq(t, &lit("or")) || chars_eq(t, &lit("to")) || chars_eq(t, &lit("for"))
        || chars_eq(t, &lit("of")) || chars_eq(t, &lit("in")) || chars_eq(t, &lit("on"))
        || chars_eq(t, &lit("with")) || chars_eq(t, &lit("use")) || chars_eq(t, &lit("using"))
        || chars_eq(t, &lit("supports")) || chars_eq(t, &lit("support")) || chars_eq(
        t,
        &lit("required"),
    ) || chars_eq(t, &lit("must")) || chars_eq(t, &lit("should")) || chars_eq(t, &lit("is"))
        || chars_eq(t, &lit("be")) || chars_eq(t, &lit("as")) || chars_eq(t, &lit("from"))
}

/// Decides whether a token holds both a hyphen and a digit.
fn is_id_like(t: &[char]) -> (r: bool)
    ensures
        r == id_like(t@),
{
    let mut dash = false;
    let mut digit = false;
    let mut i: usize = 0;
    while i < t.len()
        invariant
            i <= t.len(),
            dash == (exists|j: int| 0 <= j < i && t@[j] == '-'),
            digit == (exists|j: int| 0 <= j < i && is_digit(t@[j])),
        decreases t.len() - i,
    {
        if t[i] == '-' {
            dash = true;
        }
        if is_ascii_digit(t[i]) {
            digit = true;
        }
        i = i + 1;
    }
    proof {
        if dash {
            let j = choose|j: int| 0 <= j < t.len() && t@[j] == '-';
            assert(t@.contains('-'));
        }
    }
    dash && digit
}

/// Normalizes the meaningful lowercase terms of a statement, in ascending order.
pub fn meaningful_tokens(text: &[char]) -> (r: Vec<Vec<char>>)
    ensures
        crate::order::strictly_sorted(views(r@)),
        views(r@).to_set() == token_set(text@),
{
    let pieces = split_chars(text, CharClass::NonToken);
    let ghost pv = views(pieces@);
    let mut r: Vec<Vec<char>> = Vec::new();
    let mut i: usize = 0;
    assert(views(r@).to_set() =~= Set::<Seq<char>>::empty());
    assert(Set::new(
        |t: Seq<char>| exists|k: int| 0 <= k < 0 && t == lower(pv[k]) && meaningful(t),
    ) =~= Set::<Seq<char>>::empty());
    while i < pieces.len()
        invariant
            i <= pieces.len(),
            pv == views(pieces@),
            pv == split_by(text@, CharClass::NonToken),
            crate::order::strictly_sorted(views(r@)),
            views(r@).to_set() == Set::new(
                |t: Seq<char>| exists|k: int| 0 <= k < i && t == lower(pv[k]) && meaningful(t),
            ),
        decreases pieces.len() - i,
    {
        let t = to_lower(&pieces[i]);
        let ghost before = views(r@).to_set();
        let keep = t.len() > 2 && !is_id_like(&t) && !is_stop_word(&t);
        assert(pv[i as int] == pieces@[i as int]@);
        if keep {
            insert_sorted(&mut r, t);
        }
        let ghost next = Set::new(
            |u: Seq<char>| exists|k: int| 0 <= k < i + 1 && u == lower(pv[k]) && meaningful(u),
        );
        assert(views(r@).to_set() =~= next) by {
            assert forall|u: Seq<char>| next.contains(u) implies views(r@).to_set().contains(u) by {
                let k = choose|k: int| 0 <= k < i + 1 && u == lower(pv[k]) && meaningful(u);
                if k < i {
                    assert(before.contains(u));
                }
            }
            assert forall|u: Seq<char>| views(r@).to_set().contains(u) implies next.contains(u) by {
                if before.contains(u) {
                    let k = choose|k: int| 0 <= k < i && u == lower(pv[k]) && meaningful(u);
                    assert(0 <= k < i + 1 && u == lower(pv[k]) && meaningful(u));
                } else {
                    assert(u == lower(pv[i as int]));
                }
            }
        }
        i = i + 1;
    }
    r
}

/// Counts the shared meaningful terms of two statements and the size of the smaller term set.
pub fn token_overlap(left: &[char], right: &[char]) -> (r: (usize, usize))
    ensures
        r.0 as int == shared_terms(left@, right@),
        r.1 as int == fewer_terms(left@, right@),
{
    let l = meaningful_tokens(left);
    let rt = meaningful_tokens(right);
    let ghost lv = views(l@);
    let ghost rv = views(rt@);
    let ghost q = |x: Seq<char>| rv.contains(x);
    proof {
        crate::order::lemma_sorted_no_duplicates(lv);
        crate::order::lemma_sorted_no_duplicates(rv);
        lemma_card(lv, token_set(left@));
        lemma_card(rv, token_set(right@));
    }
    let mut kept: Vec<Vec<char>> = Vec::new();
    let mut i: usize = 0;
    assert(views(kept@).to_set() =~= Set::new(|x: Seq<char>| lv.take(0).contains(x) && q(x)));
    while i < l.len()
        invariant
            i <= l.len(),
            lv == views(l@),
            rv == views(rt@),
            lv.no_duplicates(),
            q == (|x: Seq<char>| rv.contains(x)),
            views(kept@).no_duplicates(),
            views(kept@).to_set() == Set::new(|x: Seq<char>| lv.take(i as int).contains(x) && q(x)),
        decreases l.len() - i,
    {
        proof {
            crate::metrics::lemma_filter_unique(lv, views(kept@), q, i as int);
        }
        if crate::extract::contains_text(&rt, &l[i]) {
            let ghost before = views(kept@);
            let x = crate::metrics::sub_copy(&l[i]);
            kept.push(x);
            assert(views(kept@) =~= before.push(lv[i as int]));
        }
        i = i + 1;
    }
    assert(lv.take(l.len() as int) =~= lv);
    assert(views(kept@).to_set() =~= token_set(left@).intersect(token_set(right@)));
    proof {
        lemma_card(views(kept@), token_set(left@).intersect(token_set(right@)));
    }
    let smaller = if l.len() <= rt.len() {
        l.len()
    } else {
        rt.len()
    };
    (kept.len(), smaller)
}

/// Awarded tenths of a point for `p / q` points: clamped to `[0, max]`, then rounded half up.
pub open spec fn tenths(p: int, q: int, max: int) -> int {
    if p <= 0 {
        0
    } else if p >= max * q {
        10 * max
    } else {
        (20 * p + q) / (2 * q)
    }
}

/// Constructs one bounded dimension from its exact score `p / q` and rounds it to tenths.
pub fn dimension(p: i128, q: i128, max: u8, findings: Vec<Finding>) -> (r: DimensionScore)
    requires
        q > 0,
        -0x100_0000_0000_0000_0000_0000_0000_0000 <= p <= 0x100_0000_0000_0000_0000_0000_0000_0000,
        q <= 0x10_0000_0000_0000_0000_0000_0000,
    ensures
        r@ == (DimensionModel {
            score: tenths(p as int, q as int, max as int),
            max: max as int,
            findings: finding_models(findings@),
        }),
        r.score <= 10 * max,
{
    let m = max as i128;
    assert(m * q <= 255 * 0x10_0000_0000_0000_0000_0000_0000) by (nonlinear_arith)
        requires
            0 <= m <= 255,
            0 < q <= 0x10_0000_0000_0000_0000_0000_0000,
    {
    }
    let score: u32 = if p <= 0 {
        0
    } else if p >= m * q {
        10 * (max as u32)
    } else {
        let v = (20 * p + q) / (2 * q);
        assert(v <= 10 * m) by (nonlinear_arith)
            requires
                v == (20 * p + q) / (2 * q),
                0 < p < m * q,
                q > 0,
        {
            assert(20 * p + q < (20 * m + 1) * q);
            assert((20 * p + q) / (2 * q) <= ((20 * m + 1) * q) / (2 * q)) by {
                vstd::arithmetic::div_mod::lemma_div_is_ordered(
                    20 * p + q,
                    (20 * m + 1) * q,
                    2 * q,
                );
            }
            assert(((20 * m + 1) * q) / (2 * q) == (20 * m + 1) / 2) by {
                vstd::arithmetic::div_mod::lemma_div_multiples_vanish_quotient(
                    q as int,
                    20 * m + 1,
                    2,
                );
                assert((20 * m + 1) * q == q * (20 * m + 1));
            }
        }
        assert(v >= 0) by (nonlinear_arith)
            requires
                v == (20 * p + q) / (2 * q),
                p > 0,
                q > 0,
        {
        }
        v as u32
    };
    DimensionScore { score, max, findings }
}

/// The contents of one negative finding.
pub open spec fn finding_of(
    severity: Severity,
    criterion: Seq<char>,
    description: Seq<char>,
    artifact: Seq<char>,
    related_id: Option<Seq<char>>,
    evidence: Seq<char>,
    correction: Seq<char>,
    failure_mode: Option<Seq<char>>,
) -> FindingModel {
    FindingModel {
        severity,
        criterion,
        description,
        artifact,
        related_id,
        supporting_evidence: evidence,
        recommended_correction: correction,
        failure_mode,
    }
}

/// The text of an optional string slice.
pub open spec fn opt_str(o: Option<&str>) -> Option<Seq<char>> {
    match o {
        Some(s) => Some(s@),
        None => None,
    }
}

/// Constructs a complete finding from direct submitted evidence.
fn finding(
    severity: Severity,
    criterion: &str,
    description: String,
    artifact: String,
    related_id: Option<String>,
    evidence: String,
    correction: &str,
    failure_mode: Option<&str>,
) -> (r: Finding)
    ensures
        r@ == finding_of(
            severity,
            criterion@,
            description@,
            artifact@,
            opt_view(related_id),
            evidence@,
            correction@,
            opt_str(failure_mode),
        ),
{
    Finding {
        severity,
        criterion: criterion.to_owned(),
        description,
        artifact,
        related_id,
        supporting_evidence: evidence,
        recommended_correction: correction.to_owned(),
        failure_mode: match failure_mode {
            Some(m) => Some(m.to_owned()),
            None => None,
        },
    }
}

/// The finding built from one entity's own source evidence.
pub open spec fn entity_finding_of(
    severity: Severity,
    criterion: Seq<char>,
    description: Seq<char>,
    e: EntityModel,
    correction: Seq<char>,
    failure_mode: Option<Seq<char>>,
) -> FindingModel {
    finding_of(
        severity,
        criterion,
        description,
        e.evidence.artifact,
        e.id,
        e.evidence.excerpt,
        correction,
        failure_mode,
    )
}

/// The kinds of finding that are raised against one extracted entity.
#[derive(Clone, Copy, Debug, PartialEq, Eq, Structural)]
pub enum EntityFinding {
    /// A brief requirement only partly carried into the generated requirements.
    PartialRequirement,
    /// A brief requirement with no generated counterpart.
    MissingRequirement,
    /// A user answer that no trace adopts.
    UnadoptedAnswer,
    /// A consequential unsupported choice presented as settled.
    AssumptionPromotion,
    /// Unsupported decisions with no visible open question.
    HiddenUnknown,
    /// A research-dependent decision without an evidence relationship.
    ResearchUnlinked,
    /// An evidence claim connected to no decision.
    DecorativeEvidence,
    /// An identified requirement with no decision trace.
    UntracedRequirement,
    /// Unsupported decisions not exposed as blockers.
    HiddenBlocker,
}

/// The finding of kind `k` raised against entity `e`.
pub open spec fn entity_finding_spec(k: EntityFinding, e: EntityModel) -> FindingModel {
    match k {
        EntityFinding::PartialRequirement => entity_finding_of(
            Severity::Medium,
            "Brief Fidelity.A"@,
            "An explicit brief requirement is only partially represented by generated requirements."@,
            e,
            "Preserve the complete requirement meaning in an identified generated requirement."@,
            None,
        ),
        EntityFinding::MissingRequirement => entity_finding_of(
            Severity::High,
            "Brief Fidelity.A"@,
            "An explicit brief requirement has no meaningful generated requirement candidate."@,
            e,
            "Add a generated requirement that preserves this explicit user need."@,
            None,
        ),
        EntityFinding::UnadoptedAnswer => entity_finding_of(
            Severity::High,
            "Brief Fidelity.C"@,
            "A consequential user answer is not adopted by any requirement or decision trace."@,
            e,
            "Link the answer to the final requirement or decision that reflects it."@,
            Some("UserOverrideFailure"@),
        ),
        EntityFinding::AssumptionPromotion => entity_finding_of(
            Severity::High,
            "Assumption Discipline.A"@,
            "A consequential inferred choice is presented as a settled decision without labeled provenance."@,
            e,
            "Label the choice as an assumption or link it to user input, a constraint, or evidence."@,
            Some("AssumptionPromotion"@),
        ),
        EntityFinding::HiddenUnknown => entity_finding_of(
            Severity::High,
            "Assumption Discipline.B"@,
            "Consequential unsupported decisions exist without corresponding visible open questions."@,
            e,
            "Keep unresolved consequential choices explicit until the user or evidence resolves them."@,
            Some("FalseCompleteness"@),
        ),
        EntityFinding::ResearchUnlinked => entity_finding_of(
            Severity::High,
            "Evidence Quality.C"@,
            "A research-dependent decision has no explicit evidence relationship."@,
            e,
            "Link the decision to identifiable evidence that actually informed it."@,
            Some("ResearchAfterDecision"@),
        ),
        EntityFinding::DecorativeEvidence => entity_finding_of(
            Severity::Medium,
            "Evidence Quality.A"@,
            "An evidence claim is not connected to any consequential decision."@,
            e,
            "Connect useful evidence to a decision or remove decorative research."@,
            Some("DecorativeResearch"@),
        ),
        EntityFinding::UntracedRequirement => entity_finding_of(
            Severity::Medium,
            "Requirements → Decision Traceability"@,
            "An identified important requirement has no explicit decision trace."@,
            e,
            "Link the requirement to at least one relevant decision or documented constraint."@,
            None,
        ),
        EntityFinding::HiddenBlocker => entity_finding_of(
            Severity::High,
            "Actionability.C"@,
            "Important unsupported decisions remain but the package does not expose them as blockers."@,
            e,
            "Move unresolved consequential choices into a visible questions or blockers section."@,
            Some("FalseCompleteness"@),
        ),
    }
}

/// The finding of kind `k`, as a function of the entity.
pub open spec fn entity_finding_fn(k: EntityFinding) -> spec_fn(EntityModel) -> FindingModel {
    |e: EntityModel| entity_finding_spec(k, e)
}

/// Constructs a finding directly from one extracted entity's source evidence.
fn entity_finding(
    severity: Severity,
    criterion: &str,
    description: &str,
    e: &ExtractedEntity,
    correction: &str,
    failure_mode: Option<&str>,
) -> (r: Finding)
    ensures
        r@ == entity_finding_of(
            severity,
            criterion@,
            description@,
            e@,
            correction@,
            opt_str(failure_mode),
        ),
{
    finding(
        severity,
        criterion,
        description.to_owned(),
        e.evidence.artifact.clone(),
        match &e.id {
            Some(x) => Some(x.clone()),
            None => None,
        },
        e.evidence.excerpt.clone(),
        correction,
        failure_mode,
    )
}

/// Raises the finding of kind `k` against one entity.
pub fn make_entity_finding(k: EntityFinding, e: &ExtractedEntity) -> (r: Finding)
    ensures
        r@ == entity_finding_spec(k, e@),
{
    match k {
        EntityFinding::PartialRequirement => entity_finding(
            Severity::Medium,
            "Brief Fidelity.A",
            "An explicit brief requirement is only partially represented by generated requirements.",
            e,
            "Preserve the complete requirement meaning in an identified generated requirement.",
            None,
        ),
        EntityFinding::MissingRequirement => entity_finding(
            Severity::High,
            "Brief Fidelity.A",
            "An explicit brief requirement has no meaningful generated requirement candidate.",
            e,
            "Add a generated requirement that preserves this explicit user need.",
            None,
        ),
        EntityFinding::UnadoptedAnswer => entity_finding(
            Severity::High,
            "Brief Fidelity.C",
            "A consequential user answer is not adopted by any requirement or decision trace.",
            e,
            "Link the answer to the final requirement or decision that reflects it.",
            Some("UserOverrideFailure"),
        ),
        EntityFinding::AssumptionPromotion => entity_finding(
            Severity::High,
            "Assumption Discipline.A",
            "A consequential inferred choice is presented as a settled decision without labeled provenance.",
            e,
            "Label the choice as an assumption or link it to user input, a constraint, or evidence.",
            Some("AssumptionPromotion"),
        ),
        EntityFinding::HiddenUnknown => entity_finding(
            Severity::High,
            "Assumption Discipline.B",
            "Consequential unsupported decisions exist without corresponding visible open questions.",
            e,
            "Keep unresolved consequential choices explicit until the user or evidence resolves them.",
            Some("FalseCompleteness"),
        ),
        EntityFinding::ResearchUnlinked => entity_finding(
            Severity::High,
            "Evidence Quality.C",
            "A research-dependent decision has no explicit evidence relationship.",
            e,
            "Link the decision to identifiable evidence that actually informed it.",
            Some("ResearchAfterDecision"),
        ),
        EntityFinding::DecorativeEvidence => entity_finding(
            Severity::Medium,
            "Evidence Quality.A",
            "An evidence claim is not connected to any consequential decision.",
            e,
            "Connect useful evidence to a decision or remove decorative research.",
            Some("DecorativeResearch"),
        ),
        EntityFinding::UntracedRequirement => entity_finding(
            Severity::Medium,
            "Requirements → Decision Traceability",
            "An identified important requirement has no explicit decision trace.",
            e,
            "Link the requirement to at least one relevant decision or documented constraint.",
            None,
        ),
        EntityFinding::HiddenBlocker => entity_finding(
            Severity::High,
            "Actionability.C",
            "Important unsupported decisions remain but the package does not expose them as blockers.",
            e,
            "Move unresolved consequential choices into a visible questions or blockers section.",
            Some("FalseCompleteness"),
        ),
    }
}

/// One step of a filter followed by a map, over a growing prefix.
pub proof fn lemma_filter_map_step<A, B>(s: Seq<A>, p: spec_fn(A) -> bool, f: spec_fn(A) -> B, i: int)
    requires
        0 <= i < s.len(),
    ensures
        s.take(i + 1).filter(p) == (if p(s[i]) {
            s.take(i).filter(p).push(s[i])
        } else {
            s.take(i).filter(p)
        }),
        s.take(i + 1).filter(p).map_values(f) == (if p(s[i]) {
            s.take(i).filter(p).map_values(f).push(f(s[i]))
        } else {
            s.take(i).filter(p).map_values(f)
        }),
{
    assert(s.take(i + 1) =~= s.take(i).push(s[i]));
    s.take(i).lemma_filter_push(s[i], p);
    if p(s[i]) {
        assert(s.take(i).filter(p).push(s[i]).map_values(f) =~= s.take(i).filter(p).map_values(
            f,
        ).push(f(s[i])));
    }
}

/// Raises the finding of kind `k` against every entity of a list, in order.
pub fn entity_findings(list: &Vec<ExtractedEntity>, k: EntityFinding) -> (r: Vec<Finding>)
    ensures
        finding_models(r@) == entity_models(list@).map_values(entity_finding_fn(k)),
{
    let ghost em = entity_models(list@);
    let mut r: Vec<Finding> = Vec::new();
    let mut i: usize = 0;
    while i < list.len()
        invariant
            i <= list.len(),
            em == entity_models(list@),
            finding_models(r@) == em.take(i as int).map_values(entity_finding_fn(k)),
        decreases list.len() - i,
    {
        let ghost before = r@;
        let f = make_entity_finding(k, &list[i]);
        r.push(f);
        assert(finding_models(r@) =~= finding_models(before).push(f@));
        assert(em.take(i + 1).map_values(entity_finding_fn(k)) =~= em.take(i as int).map_values(
            entity_finding_fn(k),
        ).push(entity_finding_fn(k)(em[i as int])));
        i = i + 1;
    }
    assert(em.take(list.len() as int) =~= em);
    r
}

/// Identifier prefixes this rubric accepts as decision provenance.
pub open spec fn score_prefix(x: Seq<char>) -> bool {
    ||| begins_with(x, "REQ-"@)
    ||| begins_with(x, "ANS-"@)
    ||| begins_with(x, "ASM-"@)
    ||| begins_with(x, "CON-"@)
    ||| begins_with(x, "CST-"@)
    ||| begins_with(x, "EVD-"@)
    ||| begins_with(x, "SRC-"@)
}

/// A decision with identifier `id` names an accepted source or takes part in a trace.
pub open spec fn has_provenance(e: EntityModel, ts: Seq<TraceModel>, id: Seq<char>) -> bool {
    (exists|j: int| 0 <= j < e.related_ids.len() && score_prefix(e.related_ids[j])) || touches(
        ts,
        id,
    )
}

/// Entity `e` is a decision with identifier `id` and no accepted provenance.
pub open spec fn lacks_provenance(x: ExtractionModel, e: EntityModel, id: Seq<char>) -> bool {
    e.kind == EntityKind::Decision && e.id == Some(id) && !has_provenance(e, x.traces, id)
}

/// The identifiers of decisions without accepted provenance.
pub open spec fn unsupported_id_set(x: ExtractionModel) -> Set<Seq<char>> {
    Set::new(
        |id: Seq<char>|
            exists|j: int| 0 <= j < x.entities.len() && lacks_provenance(x, x.entities[j], id),
    )
}

/// The position of the first decision with identifier `id` that lacks provenance.
pub open spec fn first_lacking(x: ExtractionModel, id: Seq<char>) -> int {
    choose|j: int| is_first_lacking(x, id, j)
}

/// Position `j` holds a decision with identifier `id` lacking provenance, and no earlier one does.
pub open spec fn is_first_lacking(x: ExtractionModel, id: Seq<char>, j: int) -> bool {
    &&& 0 <= j < x.entities.len()
    &&& lacks_provenance(x, x.entities[j], id)
    &&& forall|k: int| 0 <= k < j ==> !lacks_provenance(x, #[trigger] x.entities[k], id)
}

/// One representative entity for every unsupported decision identifier, in identifier order:
/// the first decision with that identifier that lacks provenance.
pub open spec fn unsupported_reps(x: ExtractionModel) -> Seq<EntityModel> {
    sorted_list(unsupported_id_set(x)).map_values(rep_fn(x))
}

/// The representative of an unsupported identifier, as a function of the identifier.
pub open spec fn rep_fn(x: ExtractionModel) -> spec_fn(Seq<char>) -> EntityModel {
    |id: Seq<char>| x.entities[first_lacking(x, id)]
}

/// Decides whether a related identifier carries an accepted provenance prefix.
fn is_score_prefix(x: &[char]) -> (r: bool)
    ensures
        r == score_prefix(x@),
{
    starts_with(x, &lit("REQ-")) || starts_with(x, &lit("ANS-")) || starts_with(x, &lit("ASM-"))
        || starts_with(x, &lit("CON-")) || starts_with(x, &lit("CST-")) || starts_with(
        x,
        &lit("EVD-"),
    ) || starts_with(x, &lit("SRC-"))
}

/// Checks explicit IDs and validated traces for accepted decision provenance.
fn decision_has_provenance(e: &ExtractedEntity, traces: &Vec<TraceLink>, id: &[char]) -> (r: bool)
    ensures
        r == has_provenance(e@, trace_models(traces@), id@),
{
    let mut j: usize = 0;
    while j < e.related_ids.len()
        invariant
            j <= e.related_ids.len(),
            forall|q: int| 0 <= q < j ==> !score_prefix(#[trigger] e@.related_ids[q]),
        decreases e.related_ids.len() - j,
    {
        let x = lit(e.related_ids[j].as_str());
        if is_score_prefix(&x) {
            assert(score_prefix(e@.related_ids[j as int]));
            return true;
        }
        j = j + 1;
    }
    crate::metrics::trace_touches(traces, id)
}

/// Decides whether entity `e` is a decision with identifier `id` lacking provenance.
fn lacks(x: &Extraction, e: &ExtractedEntity, id: &[char]) -> (r: bool)
    ensures
        r == lacks_provenance(x@, e@, id@),
{
    match &e.id {
        Some(own) => {
            let o = lit(own.as_str());
            e.kind == EntityKind::Decision && chars_eq(&o, id) && !decision_has_provenance(
                e,
                &x.traces,
                id,
            )
        },
        None => false,
    }
}

/// Finds the first decision with identifier `id` lacking provenance.
fn first_lacking_index(x: &Extraction, id: &[char]) -> (r: usize)
    requires
        unsupported_id_set(x@).contains(id@),
    ensures
        r as int == first_lacking(x@, id@),
        r < x.entities.len(),
{
    let ghost em = x@.entities;
    let mut k: usize = 0;
    while k < x.entities.len()
        invariant
            k <= x.entities.len(),
            em == x@.entities,
            unsupported_id_set(x@).contains(id@),
            forall|q: int| 0 <= q < k ==> !lacks_provenance(x@, #[trigger] em[q], id@),
        decreases x.entities.len() - k,
    {
        if lacks(x, &x.entities[k], id) {
            assert(em[k as int] == x.entities@[k as int]@);
            assert(is_first_lacking(x@, id@, k as int));
            let ghost c = first_lacking(x@, id@);
            assert(is_first_lacking(x@, id@, c));
            proof {
                if c < k as int {
                    assert(!lacks_provenance(x@, em[c], id@));
                }
                if c > k as int {
                    assert(!lacks_provenance(x@, em[k as int], id@));
                }
            }
            return k;
        }
        k = k + 1;
    }
    assert(false);
    0
}

/// The unsupported decision identifiers in ascending order.
fn unsupported_ids_sorted(x: &Extraction) -> (r: Vec<Vec<char>>)
    ensures
        views(r@) == sorted_list(unsupported_id_set(x@)),
        strictly_sorted(views(r@)),
        views(r@).to_set() == unsupported_id_set(x@),
{
    let ghost em = x@.entities;
    let mut ids: Vec<Vec<char>> = Vec::new();
    let mut j: usize = 0;
    assert(views(ids@).to_set() =~= Set::<Seq<char>>::empty());
    assert(Set::new(
        |id: Seq<char>| exists|k: int| 0 <= k < 0 && lacks_provenance(x@, em[k], id),
    ) =~= Set::<Seq<char>>::empty());
    while j < x.entities.len()
        invariant
            j <= x.entities.len(),
            em == x@.entities,
            strictly_sorted(views(ids@)),
            views(ids@).to_set() == Set::new(
                |id: Seq<char>| exists|k: int| 0 <= k < j && lacks_provenance(x@, em[k], id),
            ),
        decreases x.entities.len() - j,
    {
        let ghost before = views(ids@).to_set();
        let e = &x.entities[j];
        if let Some(own) = &e.id {
            let o = lit(own.as_str());
            if lacks(x, e, &o) {
                insert_sorted(&mut ids, o);
            }
        }
        let ghost next = Set::new(
            |id: Seq<char>| exists|k: int| 0 <= k < j + 1 && lacks_provenance(x@, em[k], id),
        );
        assert(views(ids@).to_set() =~= next) by {
            assert forall|u: Seq<char>| next.contains(u) implies views(ids@).to_set().contains(u) by {
                let k = choose|k: int| 0 <= k < j + 1 && lacks_provenance(x@, em[k], u);
                if k < j {
                    assert(before.contains(u));
                }
            }
            assert forall|u: Seq<char>| views(ids@).to_set().contains(u) implies next.contains(u) by {
                if before.contains(u) {
                    let k = choose|k: int| 0 <= k < j && lacks_provenance(x@, em[k], u);
                    assert(0 <= k < j + 1 && lacks_provenance(x@, em[k], u));
                } else {
                    assert(lacks_provenance(x@, em[j as int], u));
                }
            }
        }
        j = j + 1;
    }
    assert(views(ids@).to_set() =~= unsupported_id_set(x@));
    proof {
        lemma_sorted_list(views(ids@));
    }
    ids
}

/// Returns one representative entity for every identified unsupported decision.
pub fn unsupported_entities(x: &Extraction) -> (r: Vec<ExtractedEntity>)
    ensures
        entity_models(r@) == unsupported_reps(x@),
{
    let ids = unsupported_ids_sorted(x);
    let ghost sorted = views(ids@);
    let mut r: Vec<ExtractedEntity> = Vec::new();
    let mut i: usize = 0;
    while i < ids.len()
        invariant
            i <= ids.len(),
            sorted == views(ids@),
            sorted.to_set() == unsupported_id_set(x@),
            entity_models(r@) == sorted.take(i as int).map_values(rep_fn(x@)),
        decreases ids.len() - i,
    {
        assert(sorted.to_set().contains(sorted[i as int]));
        let k = first_lacking_index(x, &ids[i]);
        let ghost before = r@;
        let c = copy_entity(&x.entities[k]);
        r.push(c);
        assert(entity_models(r@) =~= entity_models(before).push(c@));
        assert(sorted.take(i + 1).map_values(rep_fn(x@)) =~= sorted.take(i as int).map_values(
            rep_fn(x@),
        ).push(rep_fn(x@)(sorted[i as int])));
        i = i + 1;
    }
    assert(sorted.take(ids.len() as int) =~= sorted);
    r
}

/// Which entities a selection keeps.
#[derive(Clone, Copy, Debug, PartialEq, Eq, Structural)]
pub enum Pick {
    /// Requirements stated in the original brief.
    BriefRequirement,
    /// Requirements stated in generated artifacts.
    GeneratedRequirement,
    /// Identified user answers that no trace touches.
    UnadoptedAnswer,
    /// Evidence claims.
    EvidenceClaim,
    /// Decisions whose text claims research dependence.
    ResearchDecision,
    /// Identified requirements that no trace touches.
    UntracedRequirement,
    /// Statements naming a high-impact concept.
    HighImpact,
    /// Statements without an identifier joined to evidence by a trace.
    Unlinked,
    /// Statements without an identifier that a trace touches.
    Unconnected,
    /// Explicit assumptions and open questions.
    Unresolved,
}

/// The entity predicate of a selection.
pub open spec fn picks(x: ExtractionModel, p: Pick) -> spec_fn(EntityModel) -> bool {
    match p {
        Pick::BriefRequirement => |e: EntityModel|
            e.kind == EntityKind::Requirement && e.evidence.artifact == "ORIGINAL_BRIEF"@,
        Pick::GeneratedRequirement => |e: EntityModel|
            e.kind == EntityKind::Requirement && e.evidence.artifact != "ORIGINAL_BRIEF"@,
        Pick::UnadoptedAnswer => |e: EntityModel|
            e.kind == EntityKind::UserAnswer && match e.id {
                Some(id) => !touches(x.traces, id),
                None => false,
            },
        Pick::EvidenceClaim => |e: EntityModel| e.kind == EntityKind::EvidenceClaim,
        Pick::ResearchDecision => |e: EntityModel|
            e.kind == EntityKind::Decision && research_text(e.text),
        Pick::UntracedRequirement => |e: EntityModel|
            e.kind == EntityKind::Requirement && match e.id {
                Some(id) => !touches(x.traces, id),
                None => false,
            },
        Pick::HighImpact => |e: EntityModel| high_impact(e.text),
        Pick::Unlinked => |e: EntityModel|
            match e.id {
                Some(id) => !trace_joins(x.traces, id, evidence_pred()),
                None => true,
            },
        Pick::Unconnected => |e: EntityModel|
            match e.id {
                Some(id) => !touches(x.traces, id),
                None => true,
            },
        Pick::Unresolved => |e: EntityModel|
            e.kind == EntityKind::Assumption || e.kind == EntityKind::OpenQuestion,
    }
}

/// Decides whether one entity passes a selection.
fn picked(x: &Extraction, e: &ExtractedEntity, p: Pick) -> (r: bool)
    ensures
        r == picks(x@, p)(e@),
{
    match p {
        Pick::BriefRequirement => e.kind == EntityKind::Requirement && e.evidence.artifact.eq(
            &"ORIGINAL_BRIEF".to_owned(),
        ),
        Pick::GeneratedRequirement => e.kind == EntityKind::Requirement
            && !e.evidence.artifact.eq(&"ORIGINAL_BRIEF".to_owned()),
        Pick::UnadoptedAnswer => e.kind == EntityKind::UserAnswer && match &e.id {
            Some(id) => !trace_touches(&x.traces, &lit(id.as_str())),
            None => false,
        },
        Pick::EvidenceClaim => e.kind == EntityKind::EvidenceClaim,
        Pick::ResearchDecision => e.kind == EntityKind::Decision && has_research_wording(
            &lit(e.text.as_str()),
        ),
        Pick::UntracedRequirement => e.kind == EntityKind::Requirement && match &e.id {
            Some(id) => !trace_touches(&x.traces, &lit(id.as_str())),
            None => false,
        },
        Pick::HighImpact => contains_high_impact_concept(&lit(e.text.as_str())),
        Pick::Unlinked => match &e.id {
            Some(id) => !trace_links_evidence(&x.traces, &lit(id.as_str())),
            None => true,
        },
        Pick::Unconnected => match &e.id {
            Some(id) => !trace_touches(&x.traces, &lit(id.as_str())),
            None => true,
        },
        Pick::Unresolved => e.kind == EntityKind::Assumption || e.kind == EntityKind::OpenQuestion,
    }
}

/// Copies the entities of a list that pass a selection, in order.
pub fn keep(list: &Vec<ExtractedEntity>, x: &Extraction, p: Pick) -> (r: Vec<ExtractedEntity>)
    ensures
        entity_models(r@) == entity_models(list@).filter(picks(x@, p)),
{
    let ghost em = entity_models(list@);
    let ghost f = |e: EntityModel| e;
    let mut r: Vec<ExtractedEntity> = Vec::new();
    let mut i: usize = 0;
    assert(em.take(0).filter(picks(x@, p)) =~= Seq::<EntityModel>::empty()) by {
        reveal(Seq::filter);
    }
    while i < list.len()
        invariant
            i <= list.len(),
            em == entity_models(list@),
            entity_models(r@) == em.take(i as int).filter(picks(x@, p)),
        decreases list.len() - i,
    {
        proof {
            lemma_filter_map_step(em, picks(x@, p), f, i as int);
        }
        if picked(x, &list[i], p) {
            let ghost before = r@;
            let c = copy_entity(&list[i]);
            r.push(c);
            assert(entity_models(r@) =~= entity_models(before).push(c@));
        }
        i = i + 1;
    }
    assert(em.take(list.len() as int) =~= em);
    r
}

/// The last entity carrying identifier `id`, as a map from identifiers keeps it.
pub open spec fn last_with_id(es: Seq<EntityModel>, id: Seq<char>) -> Option<EntityModel>
    decreases es.len(),
{
    if es.len() == 0 {
        None
    } else if es.last().id == Some(id) {
        Some(es.last())
    } else {
        last_with_id(es.drop_last(), id)
    }
}

/// Finds the position of the last entity carrying identifier `id`.
fn entity_by_id(es: &Vec<ExtractedEntity>, id: &[char]) -> (r: Option<usize>)
    ensures
        match r {
            Some(k) => k < es.len() && last_with_id(entity_models(es@), id@) == Some(
                entity_models(es@)[k as int],
            ),
            None => last_with_id(entity_models(es@), id@) is None,
        },
{
    let ghost em = entity_models(es@);
    let mut k: usize = es.len();
    assert(em.take(k as int) =~= em);
    while k > 0
        invariant
            k <= es.len(),
            em == entity_models(es@),
            last_with_id(em, id@) == last_with_id(em.take(k as int), id@),
        decreases k,
    {
        let ghost t = em.take(k as int);
        assert(t.last() == em[k - 1]);
        assert(t.drop_last() =~= em.take(k - 1));
        let hit = match &es[k - 1].id {
            Some(own) => chars_eq(&lit(own.as_str()), id),
            None => false,
        };
        if hit {
            return Some(k - 1);
        }
        k = k - 1;
    }
    None
}

/// The findings raised against one explicit trace.
#[derive(Clone, Copy, Debug, PartialEq, Eq, Structural)]
pub enum TraceFinding {
    /// Decision-to-evidence traces whose statements share no meaningful subject.
    Misuse,
    /// Traces whose endpoint statements share no meaningful terms.
    Theater,
}

/// One endpoint kind is a decision and the other an evidence claim.
pub open spec fn decision_evidence(a: EntityKind, b: EntityKind) -> bool {
    (a == EntityKind::Decision && b == EntityKind::EvidenceClaim) || (a
        == EntityKind::EvidenceClaim && b == EntityKind::Decision)
}

/// Trace `t` raises a finding of kind `k`: both endpoints resolve to entities (the last of each
/// identifier), and their statements share no meaningful term.
pub open spec fn trace_flagged(x: ExtractionModel, k: TraceFinding, t: TraceModel) -> bool {
    match (last_with_id(x.entities, t.from_id), last_with_id(x.entities, t.to_id)) {
        (Some(f), Some(g)) => match k {
            TraceFinding::Misuse => decision_evidence(f.kind, g.kind) && no_overlap(f.text, g.text),
            TraceFinding::Theater => no_overlap(f.text, g.text),
        },
        _ => false,
    }
}

/// The trace predicate of a finding kind.
pub open spec fn trace_flag_fn(x: ExtractionModel, k: TraceFinding) -> spec_fn(TraceModel) -> bool {
    |t: TraceModel| trace_flagged(x, k, t)
}

/// The finding of kind `k` raised against trace `t`.
pub open spec fn trace_finding_spec(k: TraceFinding, t: TraceModel) -> FindingModel {
    match k {
        TraceFinding::Misuse => finding_of(
            Severity::High,
            "Evidence Quality.B"@,
            "Cited evidence has no meaningful subject overlap with the decision it claims to support."@,
            t.evidence.artifact,
            Some(t.from_id),
            t.evidence.excerpt,
            "Replace the evidence relationship with a source that actually supports the decision, or remove the claim."@,
            Some("EvidenceMisuse"@),
        ),
        TraceFinding::Theater => finding_of(
            Severity::High,
            "Requirements → Decision Traceability"@,
            "An explicit trace links statements with no meaningful subject overlap."@,
            t.evidence.artifact,
            Some(t.from_id),
            t.evidence.excerpt,
            "Remove the unrelated link or replace it with a relationship whose rationale is substantively meaningful."@,
            Some("TraceabilityTheater"@),
        ),
    }
}

/// The finding of kind `k`, as a function of the trace.
pub open spec fn trace_finding_fn(k: TraceFinding) -> spec_fn(TraceModel) -> FindingModel {
    |t: TraceModel| trace_finding_spec(k, t)
}

/// Decides whether two statements share no meaningful term.
fn has_no_overlap(a: &String, b: &String) -> (r: bool)
    ensures
        r == no_overlap(a@, b@),
{
    let (shared, fewer) = token_overlap(&lit(a.as_str()), &lit(b.as_str()));
    fewer == 0 || shared == 0
}

/// Decides whether trace `t` raises a finding of kind `k`.
fn trace_flag(x: &Extraction, k: TraceFinding, t: &TraceLink) -> (r: bool)
    ensures
        r == trace_flagged(x@, k, t@),
{
    let from = match entity_by_id(&x.entities, &lit(t.from_id.as_str())) {
        Some(i) => i,
        None => {
            return false;
        },
    };
    let to = match entity_by_id(&x.entities, &lit(t.to_id.as_str())) {
        Some(i) => i,
        None => {
            return false;
        },
    };
    let f = &x.entities[from];
    let g = &x.entities[to];
    match k {
        TraceFinding::Misuse => ((f.kind == EntityKind::Decision && g.kind
            == EntityKind::EvidenceClaim) || (f.kind == EntityKind::EvidenceClaim && g.kind
            == EntityKind::Decision)) && has_no_overlap(&f.text, &g.text),
        TraceFinding::Theater => has_no_overlap(&f.text, &g.text),
    }
}

/// Raises the finding of kind `k` against one trace.
fn make_trace_finding(k: TraceFinding, t: &TraceLink) -> (r: Finding)
    ensures
        r@ == trace_finding_spec(k, t@),
{
    match k {
        TraceFinding::Misuse => finding(
            Severity::High,
            "Evidence Quality.B",
            "Cited evidence has no meaningful subject overlap with the decision it claims to support.".to_owned(),
            t.evidence.artifact.clone(),
            Some(t.from_id.clone()),
            t.evidence.excerpt.clone(),
            "Replace the evidence relationship with a source that actually supports the decision, or remove the claim.",
            Some("EvidenceMisuse"),
        ),
        TraceFinding::Theater => finding(
            Severity::High,
            "Requirements → Decision Traceability",
            "An explicit trace links statements with no meaningful subject overlap.".to_owned(),
            t.evidence.artifact.clone(),
            Some(t.from_id.clone()),
            t.evidence.excerpt.clone(),
            "Remove the unrelated link or replace it with a relationship whose rationale is substantively meaningful.",
            Some("TraceabilityTheater"),
        ),
    }
}

/// Audits every explicit trace and raises a finding of kind `k` against each flagged one.
pub fn trace_findings(x: &Extraction, k: TraceFinding) -> (r: Vec<Finding>)
    ensures
        finding_models(r@) == x@.traces.filter(trace_flag_fn(x@, k)).map_values(
            trace_finding_fn(k),
        ),
{
    let ghost tm = x@.traces;
    let mut r: Vec<Finding> = Vec::new();
    let mut i: usize = 0;
    assert(tm.take(0).filter(trace_flag_fn(x@, k)) =~= Seq::<TraceModel>::empty()) by {
        reveal(Seq::filter);
    }
    assert(finding_models(r@) =~= tm.take(0).filter(trace_flag_fn(x@, k)).map_values(
        trace_finding_fn(k),
    ));
    while i < x.traces.len()
        invariant
            i <= x.traces.len(),
            tm == x@.traces,
            finding_models(r@) == tm.take(i as int).filter(trace_flag_fn(x@, k)).map_values(
                trace_finding_fn(k),
            ),
        decreases x.traces.len() - i,
    {
        proof {
            lemma_filter_map_step(tm, trace_flag_fn(x@, k), trace_finding_fn(k), i as int);
        }
        if trace_flag(x, k, &x.traces[i]) {
            let ghost before = r@;
            let f = make_trace_finding(k, &x.traces[i]);
            r.push(f);
            assert(finding_models(r@) =~= finding_models(before).push(f@));
        }
        i = i + 1;
    }
    assert(tm.take(x.traces.len() as int) =~= tm);
    r
}

/// The decimal digit character of `d`.
pub open spec fn digit_char(d: int) -> char {
    ((48 + d) as u8) as char
}

/// The decimal representation of a natural number.
pub open spec fn decimal(n: nat) -> Seq<char>
    decreases n,
{
    if n < 10 {
        seq![digit_char(n as int)]
    } else {
        decimal(n / 10).push(digit_char((n % 10) as int))
    }
}

/// Writes a number in decimal.
pub fn decimal_text(n: u64) -> (r: Vec<char>)
    ensures
        r@ == decimal(n as nat),
    decreases n,
{
    if n < 10 {
        let c = ((48 + n) as u8) as char;
        let mut r: Vec<char> = Vec::new();
        r.push(c);
        assert(r@ =~= seq![digit_char(n as int)]);
        r
    } else {
        let mut r = decimal_text(n / 10);
        let d = n % 10;
        let c = ((48 + d) as u8) as char;
        r.push(c);
        r
    }
}

/// A percentage held in tenths, written with one decimal place and a percent sign.
pub open spec fn percent_text(t: nat) -> Seq<char> {
    decimal(t / 10) + "."@ + decimal(t % 10) + "%"@
}

/// An optional percentage, or `unavailable` where it is missing.
pub open spec fn optional_percent_text(o: Option<u32>) -> Seq<char> {
    match o {
        Some(t) => percent_text(t as nat),
        None => "unavailable"@,
    }
}

/// Formats one optional percentage without replacing missing data with zero.
pub fn format_optional_percentage(value: Option<u32>) -> (r: Vec<char>)
    ensures
        r@ == optional_percent_text(value),
{
    match value {
        Some(t) => {
            let whole = decimal_text((t / 10) as u64);
            let frac = decimal_text((t % 10) as u64);
            let a = crate::text::concat(&whole, &lit("."));
            let b = crate::text::concat(&a, &frac);
            crate::text::concat(&b, &lit("%"))
        },
        None => lit("unavailable"),
    }
}

/// Some generated artifact's lower-cased content contains `term`.
pub open spec fn generated_has(arts: Seq<ArtifactModel>, term: Seq<char>) -> bool {
    exists|i: int| 0 <= i < arts.len() && has_sub(lower(arts[i].content), term)
}

/// The lower-cased contents of the generated artifacts.
fn lowered_contents(arts: &Vec<Artifact>) -> (r: Vec<Vec<char>>)
    ensures
        r@.len() == arts@.len(),
        forall|i: int| 0 <= i < arts@.len() ==> #[trigger] r@[i]@ == lower(arts@[i].content@),
{
    let mut r: Vec<Vec<char>> = Vec::new();
    let mut i: usize = 0;
    while i < arts.len()
        invariant
            i <= arts.len(),
            r@.len() == i,
            forall|k: int| 0 <= k < i ==> #[trigger] r@[k]@ == lower(arts@[k].content@),
        decreases arts.len() - i,
    {
        r.push(to_lower(&lit(arts[i].content.as_str())));
        i = i + 1;
    }
    r
}

/// Whether some lower-cased content contains `term`.
fn any_contains(contents: &Vec<Vec<char>>, arts: &Vec<Artifact>, term: &str) -> (r: bool)
    requires
        contents@.len() == arts@.len(),
        forall|i: int| 0 <= i < arts@.len() ==> #[trigger] contents@[i]@ == lower(arts@[i].content@),
    ensures
        r == generated_has(artifact_models(arts@), term@),
{
    let t = lit(term);
    let mut i: usize = 0;
    while i < contents.len()
        invariant
            i <= contents.len(),
            contents@.len() == arts@.len(),
            t@ == term@,
            forall|k: int| 0 <= k < arts@.len() ==> #[trigger] contents@[k]@ == lower(arts@[k].content@),
            forall|k: int| 0 <= k < i ==> !has_sub(lower(#[trigger] arts@[k].content@), term@),
        decreases contents.len() - i,
    {
        if contains(&contents[i], &t) {
            assert(artifact_models(arts@)[i as int] == arts@[i as int]@);
            return true;
        }
        i = i + 1;
    }
    assert forall|k: int| 0 <= k < artifact_models(arts@).len() implies !has_sub(
        lower(#[trigger] artifact_models(arts@)[k].content),
        term@,
    ) by {
        assert(artifact_models(arts@)[k] == arts@[k]@);
    }
    false
}

/// The explicit assumptions and open questions, each text once, in ascending order.
pub open spec fn unresolved_texts(x: ExtractionModel) -> Seq<Seq<char>> {
    sorted_list(
        Set::new(
            |t: Seq<char>|
                exists|i: int|
                    0 <= i < x.entities.len() && picks(x, Pick::Unresolved)(x.entities[i])
                        && x.entities[i].text == t,
        ),
    )
}

/// Extracts explicit assumptions and open questions for the required report section.
pub fn unresolved_items(x: &Extraction) -> (r: Vec<String>)
    ensures
        crate::extract::strs(r@) == unresolved_texts(x@),
{
    let ghost em = x@.entities;
    let mut list: Vec<Vec<char>> = Vec::new();
    let mut i: usize = 0;
    assert(views(list@).to_set() =~= Set::<Seq<char>>::empty());
    assert(Set::new(
        |t: Seq<char>|
            exists|k: int| 0 <= k < 0 && picks(x@, Pick::Unresolved)(em[k]) && em[k].text == t,
    ) =~= Set::<Seq<char>>::empty());
    while i < x.entities.len()
        invariant
            i <= x.entities.len(),
            em == x@.entities,
            strictly_sorted(views(list@)),
            views(list@).to_set() == Set::new(
                |t: Seq<char>|
                    exists|k: int|
                        0 <= k < i && picks(x@, Pick::Unresolved)(em[k]) && em[k].text == t,
            ),
        decreases x.entities.len() - i,
    {
        let ghost before = views(list@).to_set();
        if picked(x, &x.entities[i], Pick::Unresolved) {
            insert_sorted(&mut list, lit(x.entities[i].text.as_str()));
        }
        let ghost next = Set::new(
            |t: Seq<char>|
                exists|k: int|
                    0 <= k < i + 1 && picks(x@, Pick::Unresolved)(em[k]) && em[k].text == t,
        );
        assert(views(list@).to_set() =~= next) by {
            assert forall|u: Seq<char>| next.contains(u) implies views(list@).to_set().contains(u) by {
                let k = choose|k: int|
                    0 <= k < i + 1 && picks(x@, Pick::Unresolved)(em[k]) && em[k].text == u;
                if k < i {
                    assert(before.contains(u));
                }
            }
            assert forall|u: Seq<char>| views(list@).to_set().contains(u) implies next.contains(
                u,
            ) by {
                if before.contains(u) {
                    let k = choose|k: int|
                        0 <= k < i && picks(x@, Pick::Unresolved)(em[k]) && em[k].text == u;
                    assert(0 <= k < i + 1 && picks(x@, Pick::Unresolved)(em[k]) && em[k].text == u);
                } else {
                    assert(picks(x@, Pick::Unresolved)(em[i as int]) && em[i as int].text == u);
                }
            }
        }
        i = i + 1;
    }
    proof {
        lemma_sorted_list(views(list@));
    }
    let r = crate::extract::strings_from(&list, 0);
    assert(views(list@).skip(0) =~= views(list@));
    r
}

/// Requirements stated in the original brief.
pub open spec fn brief_reqs(x: ExtractionModel) -> Seq<EntityModel> {
    x.entities.filter(picks(x, Pick::BriefRequirement))
}

/// Requirements stated in generated artifacts.
pub open spec fn generated_reqs(x: ExtractionModel) -> Seq<EntityModel> {
    x.entities.filter(picks(x, Pick::GeneratedRequirement))
}

/// Some generated candidate shares at least `num / den` of its terms with requirement `r`.
pub open spec fn covered_by(r: EntityModel, gens: Seq<EntityModel>, num: int, den: int) -> bool {
    exists|j: int| 0 <= j < gens.len() && overlap_at_least(r.text, gens[j].text, num, den)
}

/// Coverage credit of one requirement in halves: full (2) when its best candidate overlaps by
/// at least one half, partial (1) by at least one quarter, none (0) otherwise.
pub open spec fn credit(r: EntityModel, gens: Seq<EntityModel>) -> int {
    if covered_by(r, gens, 1, 2) {
        2
    } else if covered_by(r, gens, 1, 4) {
        1
    } else {
        0
    }
}

/// The coverage finding raised for one brief requirement, if any.
pub open spec fn coverage_finding(r: EntityModel, gens: Seq<EntityModel>) -> Seq<FindingModel> {
    if covered_by(r, gens, 1, 2) {
        seq![]
    } else if covered_by(r, gens, 1, 4) {
        seq![entity_finding_spec(EntityFinding::PartialRequirement, r)]
    } else {
        seq![entity_finding_spec(EntityFinding::MissingRequirement, r)]
    }
}

/// Coverage credits, in halves, of the first `n` brief requirements.
pub open spec fn credit_sum(reqs: Seq<EntityModel>, gens: Seq<EntityModel>, n: int) -> int
    decreases n,
{
    if n <= 0 {
        0
    } else {
        credit_sum(reqs, gens, n - 1) + credit(reqs[n - 1], gens)
    }
}

/// Coverage findings of the first `n` brief requirements, in order.
pub open spec fn coverage_findings(reqs: Seq<EntityModel>, gens: Seq<EntityModel>, n: int) -> Seq<
    FindingModel,
>
    decreases n,
{
    if n <= 0 {
        seq![]
    } else {
        coverage_findings(reqs, gens, n - 1) + coverage_finding(reqs[n - 1], gens)
    }
}

/// The finding raised when the brief yields no explicit requirement.
pub open spec fn no_brief_requirement() -> FindingModel {
    finding_of(
        Severity::High,
        "Brief Fidelity.A"@,
        "No materially explicit requirement could be extracted from the original brief."@,
        "ORIGINAL_BRIEF"@,
        None,
        "The brief contains no identified or normative requirement statement."@,
        "Supply explicit requirements so generated coverage can be evaluated."@,
        Some("UnderSpecification"@),
    )
}

/// Decides the coverage credit of one brief requirement.
fn requirement_credit(r: &ExtractedEntity, gens: &Vec<ExtractedEntity>) -> (c: u8)
    ensures
        c as int == credit(r@, entity_models(gens@)),
{
    let ghost gm = entity_models(gens@);
    let mut full = false;
    let mut part = false;
    let mut j: usize = 0;
    let rt = lit(r.text.as_str());
    while j < gens.len()
        invariant
            j <= gens.len(),
            gm == entity_models(gens@),
            rt@ == r@.text,
            full == (exists|k: int| 0 <= k < j && overlap_at_least(r@.text, gm[k].text, 1, 2)),
            part == (exists|k: int| 0 <= k < j && overlap_at_least(r@.text, gm[k].text, 1, 4)),
        decreases gens.len() - j,
    {
        let (shared, fewer) = token_overlap(&rt, &lit(gens[j].text.as_str()));
        assert(gm[j as int].text == gens@[j as int].text@);
        if fewer > 0 && 2 * (shared as u128) >= fewer as u128 {
            full = true;
        }
        if fewer > 0 && 4 * (shared as u128) >= fewer as u128 {
            part = true;
        }
        j = j + 1;
    }
    if full {
        2
    } else if part {
        1
    } else {
        0
    }
}

/// Calculates partial requirement coverage, in halves, and records every requirement that is
/// not fully represented.
fn requirement_coverage(
    reqs: &Vec<ExtractedEntity>,
    gens: &Vec<ExtractedEntity>,
    findings: &mut Vec<Finding>,
) -> (c2: u128)
    ensures
        c2 as int == credit_sum(entity_models(reqs@), entity_models(gens@), reqs@.len() as int),
        c2 <= 2 * reqs@.len(),
        finding_models(final(findings)@) == finding_models(old(findings)@) + coverage_findings(
            entity_models(reqs@),
            entity_models(gens@),
            reqs@.len() as int,
        ),
{
    let ghost rm = entity_models(reqs@);
    let ghost gm = entity_models(gens@);
    let ghost start = finding_models(findings@);
    let mut c2: u128 = 0;
    let mut i: usize = 0;
    assert(finding_models(findings@) =~= start + coverage_findings(rm, gm, 0));
    while i < reqs.len()
        invariant
            i <= reqs.len(),
            rm == entity_models(reqs@),
            gm == entity_models(gens@),
            c2 as int == credit_sum(rm, gm, i as int),
            c2 <= 2 * i,
            finding_models(findings@) == start + coverage_findings(rm, gm, i as int),
        decreases reqs.len() - i,
    {
        let c = requirement_credit(&reqs[i], gens);
        let ghost before = finding_models(findings@);
        if c == 1 {
            findings.push(make_entity_finding(EntityFinding::PartialRequirement, &reqs[i]));
        } else if c == 0 {
            findings.push(make_entity_finding(EntityFinding::MissingRequirement, &reqs[i]));
        }
        assert(finding_models(findings@) =~= before + coverage_finding(rm[i as int], gm));
        c2 = c2 + c as u128;
        i = i + 1;
    }
    c2
}

/// One brief-versus-generated conflict: the brief term, the generated term and their labels.
pub open spec fn conflict_found(c: Corpus, brief_term: Seq<char>, generated_term: Seq<char>) -> bool {
    has_sub(lower(c.brief.content@), brief_term) && generated_has(
        artifact_models(c.artifacts@),
        generated_term,
    )
}

/// The contradiction finding for one conflict's labels.
pub open spec fn contradiction(brief_label: Seq<char>, generated_label: Seq<char>) -> FindingModel {
    finding_of(
        Severity::High,
        "Brief Fidelity.B"@,
        "Generated artifacts contradict the brief's "@ + brief_label + " with "@ + generated_label
            + "."@,
        "generated package"@,
        None,
        "Brief: "@ + brief_label + "; generated package: "@ + generated_label + "."@,
        "Remove the conflicting generated choice or surface the conflict for user resolution."@,
        Some("DocumentDrift"@),
    )
}

/// The contradiction finding of one conflict, when the brief and the package both state it.
pub open spec fn conflict_findings(
    c: Corpus,
    brief_term: Seq<char>,
    generated_term: Seq<char>,
    brief_label: Seq<char>,
    generated_label: Seq<char>,
) -> Seq<FindingModel> {
    if conflict_found(c, brief_term, generated_term) {
        seq![contradiction(brief_label, generated_label)]
    } else {
        seq![]
    }
}

/// Narrow high-confidence contradictions between explicit brief and generated claims.
pub open spec fn contradiction_findings(c: Corpus) -> Seq<FindingModel> {
    conflict_findings(c, "offline"@, "mandatory cloud"@, "offline operation"@, "mandatory cloud dependency"@)
        + conflict_findings(c, "single-player"@, "multiplayer required"@, "single-player scope"@, "required multiplayer scope"@)
        + conflict_findings(c, "on-device only"@, "cloud-only"@, "on-device-only data"@, "cloud-only data"@)
        + conflict_findings(c, "no authentication"@, "authentication required"@, "no authentication"@, "required authentication"@)
}

/// Appends the characters of a string slice.
fn cat(a: &[char], b: &str) -> (r: Vec<char>)
    ensures
        r@ == a@ + b@,
{
    crate::text::concat(a, &lit(b))
}

/// Adds the contradiction finding of one conflict when both sides state it.
fn check_conflict(
    c: &Corpus,
    brief: &Vec<char>,
    contents: &Vec<Vec<char>>,
    brief_term: &str,
    generated_term: &str,
    brief_label: &str,
    generated_label: &str,
    findings: &mut Vec<Finding>,
)
    requires
        brief@ == lower(c.brief.content@),
        contents@.len() == c.artifacts@.len(),
        forall|i: int|
            0 <= i < c.artifacts@.len() ==> #[trigger] contents@[i]@ == lower(
                c.artifacts@[i].content@,
            ),
    ensures
        finding_models(final(findings)@) == finding_models(old(findings)@) + conflict_findings(
            *c,
            brief_term@,
            generated_term@,
            brief_label@,
            generated_label@,
        ),
{
    if contains(brief, &lit(brief_term)) && any_contains(contents, &c.artifacts, generated_term) {
        let d = cat(&cat(&cat(&cat(&lit("Generated artifacts contradict the brief's "), brief_label), " with "), generated_label), ".");
        let e = cat(&cat(&cat(&cat(&lit("Brief: "), brief_label), "; generated package: "), generated_label), ".");
        let description = string_of(&d);
        let evidence = string_of(&e);
        let f = finding(
            Severity::High,
            "Brief Fidelity.B",
            description,
            "generated package".to_owned(),
            None,
            evidence,
            "Remove the conflicting generated choice or surface the conflict for user resolution.",
            Some("DocumentDrift"),
        );
        let ghost before = finding_models(findings@);
        findings.push(f);
        assert(finding_models(findings@) =~= before.push(f@));
    } else {
        assert(finding_models(findings@) =~= finding_models(findings@) + Seq::<FindingModel>::empty());
    }
}

/// An optional metric, or zero where it is missing.
pub open spec fn or_zero(o: Option<u32>) -> int {
    match o {
        Some(v) => v as int,
        None => 0,
    }
}

/// Some entity has role `k`.
pub open spec fn has_kind(x: ExtractionModel, k: EntityKind) -> bool {
    exists|i: int| 0 <= i < x.entities.len() && x.entities[i].kind == k
}

/// Decides whether some entity has role `k`.
fn any_of_kind(x: &Extraction, k: EntityKind) -> (r: bool)
    ensures
        r == has_kind(x@, k),
{
    let mut i: usize = 0;
    while i < x.entities.len()
        invariant
            i <= x.entities.len(),
            forall|q: int| 0 <= q < i ==> (#[trigger] x@.entities[q]).kind != k,
        decreases x.entities.len() - i,
    {
        if x.entities[i].kind == k {
            assert(x@.entities[i as int].kind == k);
            return true;
        }
        i = i + 1;
    }
    false
}

/// Three minus the number of contradictions, never below zero.
pub open spec fn contradiction_credit(n: int) -> int {
    if n >= 3 {
        0
    } else {
        3 - n
    }
}

/// Brief-fidelity findings: coverage gaps, contradictions, then unadopted user answers.
pub open spec fn brief_fidelity_findings(c: Corpus, x: ExtractionModel, m: DeterministicMetrics) -> Seq<
    FindingModel,
> {
    let reqs = brief_reqs(x);
    let gens = generated_reqs(x);
    (if reqs.len() == 0 {
        seq![no_brief_requirement()]
    } else {
        coverage_findings(reqs, gens, reqs.len() as int)
    }) + contradiction_findings(c) + (if has_kind(x, EntityKind::UserAnswer) && or_zero(
        m.user_answer_adoption_rate,
    ) < 1000 {
        x.entities.filter(picks(x, Pick::UnadoptedAnswer)).map_values(
            entity_finding_fn(EntityFinding::UnadoptedAnswer),
        )
    } else {
        seq![]
    })
}

/// Brief-fidelity score in tenths. With user answers: coverage weighs 8, contradictions 6 and
/// answer adoption 6; without, the answer weight is shared out in the ratio 8 : 6.
pub open spec fn brief_fidelity_score(c: Corpus, x: ExtractionModel, m: DeterministicMetrics) -> int {
    let reqs = brief_reqs(x);
    let n = if reqs.len() == 0 {
        1
    } else {
        reqs.len() as int
    };
    let c2 = credit_sum(reqs, generated_reqs(x), reqs.len() as int);
    let k = contradiction_credit(contradiction_findings(c).len() as int);
    let a = or_zero(m.user_answer_adoption_rate);
    if has_kind(x, EntityKind::UserAnswer) {
        tenths(84000 * c2 + 42000 * n * k + 126 * a * n, 21000 * n, 20)
    } else {
        tenths(120000 * c2 + 60000 * n * k, 21000 * n, 20)
    }
}

/// Scores explicit requirement coverage, contradictions, and user-answer adoption.
pub fn score_brief_fidelity(corpus: &Corpus, x: &Extraction, m: &DeterministicMetrics) -> (r:
    DimensionScore)
    ensures
        r@ == (DimensionModel {
            score: brief_fidelity_score(*corpus, x@, *m),
            max: 20,
            findings: brief_fidelity_findings(*corpus, x@, *m),
        }),
{
    let reqs = keep(&x.entities, x, Pick::BriefRequirement);
    let gens = keep(&x.entities, x, Pick::GeneratedRequirement);
    let ghost rm = brief_reqs(x@);
    let ghost gm = generated_reqs(x@);
    let mut findings: Vec<Finding> = Vec::new();
    let c2: u128 = if reqs.len() == 0 {
        let f = finding(
            Severity::High,
            "Brief Fidelity.A",
            "No materially explicit requirement could be extracted from the original brief.".to_owned(),
            "ORIGINAL_BRIEF".to_owned(),
            None,
            "The brief contains no identified or normative requirement statement.".to_owned(),
            "Supply explicit requirements so generated coverage can be evaluated.",
            Some("UnderSpecification"),
        );
        findings.push(f);
        assert(finding_models(findings@) =~= seq![no_brief_requirement()]);
        0
    } else {
        assert(finding_models(findings@) =~= Seq::<FindingModel>::empty());
        requirement_coverage(&reqs, &gens, &mut findings)
    };
    let ghost after_coverage = finding_models(findings@);
    let brief = to_lower(&lit(corpus.brief.content.as_str()));
    let contents = lowered_contents(&corpus.artifacts);
    let mut contra: Vec<Finding> = Vec::new();
    check_conflict(
        corpus,
        &brief,
        &contents,
        "offline",
        "mandatory cloud",
        "offline operation",
        "mandatory cloud dependency",
        &mut contra,
    );
    check_conflict(
        corpus,
        &brief,
        &contents,
        "single-player",
        "multiplayer required",
        "single-player scope",
        "required multiplayer scope",
        &mut contra,
    );
    check_conflict(
        corpus,
        &brief,
        &contents,
        "on-device only",
        "cloud-only",
        "on-device-only data",
        "cloud-only data",
        &mut contra,
    );
    check_conflict(
        corpus,
        &brief,
        &contents,
        "no authentication",
        "authentication required",
        "no authentication",
        "required authentication",
        &mut contra,
    );
    assert(finding_models(contra@) =~= contradiction_findings(*corpus));
    let k: usize = contra.len();
    assert(k <= 4);
    append_findings(&mut findings, &contra);
    let has_answers = any_of_kind(x, EntityKind::UserAnswer);
    let a: u32 = match m.user_answer_adoption_rate {
        Some(v) => v,
        None => 0,
    };
    let ghost before_answers = finding_models(findings@);
    if has_answers && a < 1000 {
        let unadopted = keep(&x.entities, x, Pick::UnadoptedAnswer);
        let fs = entity_findings(&unadopted, EntityFinding::UnadoptedAnswer);
        append_findings(&mut findings, &fs);
    } else {
        assert(finding_models(findings@) =~= before_answers + Seq::<FindingModel>::empty());
    }
    let n: u128 = if reqs.len() == 0 {
        1
    } else {
        reqs.len() as u128
    };
    let kc: u128 = if k >= 3 {
        0
    } else {
        3 - k as u128
    };
    assert(n <= 0xffff_ffff_ffff_ffff);
    assert(c2 <= 2 * n);
    assert((a as u128) * n <= 0xffff_ffff * 0xffff_ffff_ffff_ffff) by (nonlinear_arith)
        requires
            a <= 0xffff_ffff,
            n <= 0xffff_ffff_ffff_ffff,
    {
    }
    assert(n * kc <= 3 * 0xffff_ffff_ffff_ffff) by (nonlinear_arith)
        requires
            kc <= 3,
            n <= 0xffff_ffff_ffff_ffff,
    {
    }
    let an: u128 = (a as u128) * n;
    let nk: u128 = n * kc;
    assert(42000 * n * kc == 42000 * nk && 60000 * n * kc == 60000 * nk && 126 * (a as u128) * n
        == 126 * an) by (nonlinear_arith)
        requires
            an == (a as u128) * n,
            nk == n * kc,
    {
    }
    assert(84000 * c2 + 42000 * nk + 126 * an <= 0x100_0000_0000_0000_0000_0000_0000_0000
        && 120000 * c2 + 60000 * nk <= 0x100_0000_0000_0000_0000_0000_0000_0000) by (nonlinear_arith)
        requires
            c2 <= 2 * n,
            n <= 0xffff_ffff_ffff_ffff,
            nk <= 3 * 0xffff_ffff_ffff_ffff,
            an <= 0xffff_ffff * 0xffff_ffff_ffff_ffff,
    {
    }
    let (p, q): (i128, i128) = if has_answers {
        ((84000 * c2 + 42000 * nk + 126 * an) as i128, (21000 * n) as i128)
    } else {
        ((120000 * c2 + 60000 * nk) as i128, (21000 * n) as i128)
    };
    proof {
        if reqs.len() == 0 {
            assert(credit_sum(rm, gm, 0) == 0);
        }
    }
    dimension(p, q, 20, findings)
}

/// Assumption-discipline findings: each unsupported high-impact choice, then a hidden unknown
/// when unsupported decisions exist and no open question does.
pub open spec fn assumption_discipline_findings(x: ExtractionModel) -> Seq<FindingModel> {
    let reps = unsupported_reps(x);
    reps.filter(picks(x, Pick::HighImpact)).map_values(
        entity_finding_fn(EntityFinding::AssumptionPromotion),
    ) + (if reps.len() > 0 && !has_kind(x, EntityKind::OpenQuestion) {
        seq![entity_finding_spec(EntityFinding::HiddenUnknown, reps[0])]
    } else {
        seq![]
    })
}

/// Assumption-discipline score in tenths: labeling weighs 7, visible unknowns 4 (1 when
/// hidden), decision provenance 4.
pub open spec fn assumption_discipline_score(x: ExtractionModel, m: DeterministicMetrics) -> int {
    let l: int = match m.high_impact_assumption_labeling_rate {
        Some(v) => v as int,
        None => 1000,
    };
    let u = or_zero(m.unsupported_decision_rate);
    let unknown: int = if unsupported_reps(x).len() == 0 || has_kind(x, EntityKind::OpenQuestion) {
        4
    } else {
        1
    };
    tenths(7 * l + 1000 * unknown + 4 * (1000 - u), 1000, 15)
}

/// Scores explicit assumption labels, visible unknowns, and decision provenance.
pub fn score_assumption_discipline(x: &Extraction, m: &DeterministicMetrics) -> (r: DimensionScore)
    ensures
        r@ == (DimensionModel {
            score: assumption_discipline_score(x@, *m),
            max: 15,
            findings: assumption_discipline_findings(x@),
        }),
{
    let reps = unsupported_entities(x);
    let promoted = keep(&reps, x, Pick::HighImpact);
    let mut findings = entity_findings(&promoted, EntityFinding::AssumptionPromotion);
    let questions = any_of_kind(x, EntityKind::OpenQuestion);
    let ghost before = finding_models(findings@);
    let unknown: i128 = if reps.len() == 0 || questions {
        assert(finding_models(findings@) =~= before + Seq::<FindingModel>::empty());
        4
    } else {
        let f = make_entity_finding(EntityFinding::HiddenUnknown, &reps[0]);
        findings.push(f);
        assert(finding_models(findings@) =~= before + seq![f@]);
        1
    };
    let l: i128 = match m.high_impact_assumption_labeling_rate {
        Some(v) => v as i128,
        None => 1000,
    };
    let u: i128 = match m.unsupported_decision_rate {
        Some(v) => v as i128,
        None => 0,
    };
    dimension(7 * l + 1000 * unknown + 4 * (1000 - u), 1000, 15, findings)
}

/// The texts of a list joined with a separator.
pub open spec fn join_with(parts: Seq<Seq<char>>, sep: Seq<char>) -> Seq<char>
    decreases parts.len(),
{
    if parts.len() == 0 {
        seq![]
    } else if parts.len() == 1 {
        parts[0]
    } else {
        join_with(parts.drop_last(), sep) + sep + parts.last()
    }
}

/// Joins strings with a separator.
pub fn join_strings(parts: &Vec<String>, sep: &str) -> (r: Vec<char>)
    ensures
        r@ == join_with(crate::extract::strs(parts@), sep@),
{
    let ghost ps = crate::extract::strs(parts@);
    let mut acc: Vec<char> = Vec::new();
    let mut i: usize = 0;
    while i < parts.len()
        invariant
            i <= parts.len(),
            ps == crate::extract::strs(parts@),
            acc@ == join_with(ps.take(i as int), sep@),
        decreases parts.len() - i,
    {
        assert(ps.take(i + 1).drop_last() =~= ps.take(i as int));
        assert(ps.take(i + 1).last() == parts@[i as int]@);
        if i == 0 {
            acc = lit(parts[i].as_str());
        } else {
            acc = crate::text::concat(&cat(&acc, sep), &lit(parts[i].as_str()));
        }
        i = i + 1;
    }
    assert(ps.take(parts.len() as int) =~= ps);
    acc
}

/// The path of the first artifact whose lower-cased content contains `phrase`.
pub open spec fn first_with(arts: Seq<ArtifactModel>, phrase: Seq<char>) -> Option<Seq<char>>
    decreases arts.len(),
{
    if arts.len() == 0 {
        None
    } else if has_sub(lower(arts[0].content), phrase) {
        Some(arts[0].relative_path)
    } else {
        first_with(arts.drop_first(), phrase)
    }
}

/// Finds the first artifact containing one case-insensitive submitted phrase.
fn artifact_containing(contents: &Vec<Vec<char>>, arts: &Vec<Artifact>, phrase: &str) -> (r: Option<
    Vec<char>,
>)
    requires
        contents@.len() == arts@.len(),
        forall|i: int| 0 <= i < arts@.len() ==> #[trigger] contents@[i]@ == lower(arts@[i].content@),
    ensures
        match r {
            Some(v) => first_with(artifact_models(arts@), phrase@) == Some(v@),
            None => first_with(artifact_models(arts@), phrase@) is None,
        },
{
    let ghost am = artifact_models(arts@);
    let t = lit(phrase);
    let mut i: usize = 0;
    assert(am.skip(0) =~= am);
    while i < contents.len()
        invariant
            i <= contents.len(),
            contents@.len() == arts@.len(),
            am == artifact_models(arts@),
            t@ == phrase@,
            forall|k: int| 0 <= k < arts@.len() ==> #[trigger] contents@[k]@ == lower(arts@[k].content@),
            first_with(am, phrase@) == first_with(am.skip(i as int), phrase@),
        decreases contents.len() - i,
    {
        let ghost rest = am.skip(i as int);
        assert(rest[0] == arts@[i as int]@);
        assert(rest.drop_first() =~= am.skip(i + 1));
        if contains(&contents[i], &t) {
            return Some(lit(arts[i].relative_path.as_str()));
        }
        i = i + 1;
    }
    None
}

/// The consistency finding of one concept pair, when its two claims sit in different artifacts.
pub open spec fn concept_conflict(c: Corpus, left: Seq<char>, right: Seq<char>, concept: Seq<char>) -> Seq<
    FindingModel,
> {
    let arts = artifact_models(c.artifacts@);
    match (first_with(arts, left), first_with(arts, right)) {
        (Some(lf), Some(rf)) => if lf != rf {
            seq![
                finding_of(
                    Severity::High,
                    "Cross-Document Consistency"@,
                    "Artifacts make incompatible "@ + concept + " claims."@,
                    lf + "; "@ + rf,
                    None,
                    lf + ": "@ + left + "; "@ + rf + ": "@ + right + "."@,
                    "Resolve the conflict and propagate one confirmed choice across the package."@,
                    Some("DocumentDrift"@),
                ),
            ]
        } else {
            seq![]
        },
        _ => seq![],
    }
}

/// The finding raised when explicit project-name variants disagree.
pub open spec fn name_variants(names: Seq<Seq<char>>) -> FindingModel {
    finding_of(
        Severity::High,
        "Cross-Document Consistency"@,
        "Generated artifacts contain multiple explicit project-name variants."@,
        "generated package"@,
        None,
        join_with(names, ", "@),
        "Use one canonical project name across all artifacts and structured records."@,
        Some("DocumentDrift"@),
    )
}

/// Consistency findings: project-name variants, then incompatible concept claims.
pub open spec fn consistency_findings(c: Corpus, m: DeterministicMetrics) -> Seq<FindingModel> {
    let names = crate::extract::strs(m.conflicting_project_names@);
    (if names.len() > 1 {
        seq![name_variants(names)]
    } else {
        seq![]
    }) + concept_conflict(c, "single-player only"@, "multiplayer required"@, "player mode"@)
        + concept_conflict(c, "local-only storage"@, "cloud-only storage"@, "persistence"@)
        + concept_conflict(c, "no authentication"@, "authentication required"@, "authentication"@)
}

/// Consistency points by number of findings: 15, 8, 4, then 0.
pub open spec fn consistency_points(n: int) -> int {
    if n == 0 {
        15
    } else if n == 1 {
        8
    } else if n == 2 {
        4
    } else {
        0
    }
}

/// Adds the finding of one concept pair when its claims sit in different artifacts.
fn check_concept(
    c: &Corpus,
    contents: &Vec<Vec<char>>,
    left: &str,
    right: &str,
    concept: &str,
    findings: &mut Vec<Finding>,
)
    requires
        contents@.len() == c.artifacts@.len(),
        forall|i: int|
            0 <= i < c.artifacts@.len() ==> #[trigger] contents@[i]@ == lower(
                c.artifacts@[i].content@,
            ),
    ensures
        finding_models(final(findings)@) == finding_models(old(findings)@) + concept_conflict(
            *c,
            left@,
            right@,
            concept@,
        ),
{
    let ghost before = finding_models(findings@);
    match (artifact_containing(contents, &c.artifacts, left), artifact_containing(contents, &c.artifacts, right)) {
        (Some(lf), Some(rf)) => {
            if !chars_eq(&lf, &rf) {
                let description = cat(&cat(&lit("Artifacts make incompatible "), concept), " claims.");
                let artifact = crate::text::concat(&cat(&lf, "; "), &rf);
                let evidence = cat(
                    &cat(&cat(&crate::text::concat(&cat(&cat(&cat(&lf, ": "), left), "; "), &rf), ": "), right),
                    ".",
                );
                let f = finding(
                    Severity::High,
                    "Cross-Document Consistency",
                    string_of(&description),
                    string_of(&artifact),
                    None,
                    string_of(&evidence),
                    "Resolve the conflict and propagate one confirmed choice across the package.",
                    Some("DocumentDrift"),
                );
                findings.push(f);
                assert(finding_models(findings@) =~= before.push(f@));
            } else {
                assert(finding_models(findings@) =~= before + Seq::<FindingModel>::empty());
            }
        },
        _ => {
            assert(finding_models(findings@) =~= before + Seq::<FindingModel>::empty());
        },
    }
}

/// Scores explicit project-name and high-confidence concept consistency.
pub fn score_consistency(corpus: &Corpus, m: &DeterministicMetrics) -> (r: DimensionScore)
    ensures
        r@ == (DimensionModel {
            score: tenths(consistency_points(consistency_findings(*corpus, *m).len() as int), 1, 15),
            max: 15,
            findings: consistency_findings(*corpus, *m),
        }),
{
    let mut findings: Vec<Finding> = Vec::new();
    let ghost names = crate::extract::strs(m.conflicting_project_names@);
    if m.conflicting_project_names.len() > 1 {
        let evidence = join_strings(&m.conflicting_project_names, ", ");
        let f = finding(
            Severity::High,
            "Cross-Document Consistency",
            "Generated artifacts contain multiple explicit project-name variants.".to_owned(),
            "generated package".to_owned(),
            None,
            string_of(&evidence),
            "Use one canonical project name across all artifacts and structured records.",
            Some("DocumentDrift"),
        );
        findings.push(f);
        assert(finding_models(findings@) =~= seq![name_variants(names)]);
    } else {
        assert(finding_models(findings@) =~= Seq::<FindingModel>::empty());
    }
    let contents = lowered_contents(&corpus.artifacts);
    check_concept(corpus, &contents, "single-player only", "multiplayer required", "player mode", &mut findings);
    check_concept(corpus, &contents, "local-only storage", "cloud-only storage", "persistence", &mut findings);
    check_concept(
        corpus,
        &contents,
        "no authentication",
        "authentication required",
        "authentication",
        &mut findings,
    );
    let n = findings.len();
    let points: i128 = if n == 0 {
        15
    } else if n == 1 {
        8
    } else if n == 2 {
        4
    } else {
        0
    };
    dimension(points, 1, 15, findings)
}

/// Some evidence claim carries a URL or an identifier.
pub open spec fn cited(evidence: Seq<EntityModel>) -> bool {
    exists|i: int|
        0 <= i < evidence.len() && (has_sub(evidence[i].text, "http://"@) || has_sub(
            evidence[i].text,
            "https://"@,
        ) || evidence[i].id is Some)
}

/// Decides whether some evidence claim carries a URL or an identifier.
fn any_cited(evidence: &Vec<ExtractedEntity>) -> (r: bool)
    ensures
        r == cited(entity_models(evidence@)),
{
    let ghost em = entity_models(evidence@);
    let mut i: usize = 0;
    while i < evidence.len()
        invariant
            i <= evidence.len(),
            em == entity_models(evidence@),
            forall|k: int|
                0 <= k < i ==> !(has_sub((#[trigger] em[k]).text, "http://"@) || has_sub(
                    em[k].text,
                    "https://"@,
                ) || em[k].id is Some),
        decreases evidence.len() - i,
    {
        let t = lit(evidence[i].text.as_str());
        assert(em[i as int].text == t@);
        if contains(&t, &lit("http://")) || contains(&t, &lit("https://")) || evidence[i].id.is_some() {
            return true;
        }
        i = i + 1;
    }
    false
}

/// Decisions whose text claims research dependence.
pub open spec fn research_decisions(x: ExtractionModel) -> Seq<EntityModel> {
    x.entities.filter(picks(x, Pick::ResearchDecision))
}

/// Evidence claims.
pub open spec fn evidence_claims(x: ExtractionModel) -> Seq<EntityModel> {
    x.entities.filter(picks(x, Pick::EvidenceClaim))
}

/// Evidence-quality findings: evidence misuse, unlinked research decisions, decorative evidence.
pub open spec fn evidence_quality_findings(x: ExtractionModel) -> Seq<FindingModel> {
    if research_decisions(x).len() == 0 {
        seq![]
    } else {
        x.traces.filter(trace_flag_fn(x, TraceFinding::Misuse)).map_values(
            trace_finding_fn(TraceFinding::Misuse),
        ) + research_decisions(x).filter(picks(x, Pick::Unlinked)).map_values(
            entity_finding_fn(EntityFinding::ResearchUnlinked),
        ) + evidence_claims(x).filter(picks(x, Pick::Unconnected)).map_values(
            entity_finding_fn(EntityFinding::DecorativeEvidence),
        )
    }
}

/// Evidence-quality score in tenths: full marks without research decisions; otherwise targeting
/// 4, linkage 9 and citation identity 2, less 3 for each evidence misuse.
pub open spec fn evidence_quality_score(x: ExtractionModel, m: DeterministicMetrics) -> int {
    if research_decisions(x).len() == 0 {
        150
    } else {
        let targeting: int = if evidence_claims(x).len() == 0 {
            0
        } else {
            4
        };
        let citation: int = if cited(evidence_claims(x)) {
            2
        } else {
            0
        };
        let misuse = x.traces.filter(trace_flag_fn(x, TraceFinding::Misuse)).len() as int;
        tenths(
            1000 * (targeting + citation - 3 * misuse) + 9 * or_zero(m.evidence_linkage_rate),
            1000,
            15,
        )
    }
}

/// Scores research targeting, claim support, explicit linkage, and citation identity.
pub fn score_evidence_quality(x: &Extraction, m: &DeterministicMetrics) -> (r: DimensionScore)
    ensures
        r@ == (DimensionModel {
            score: evidence_quality_score(x@, *m),
            max: 15,
            findings: evidence_quality_findings(x@),
        }),
{
    let research = keep(&x.entities, x, Pick::ResearchDecision);
    if research.len() == 0 {
        let none: Vec<Finding> = Vec::new();
        assert(finding_models(none@) =~= Seq::<FindingModel>::empty());
        return dimension(15, 1, 15, none);
    }
    let evidence = keep(&x.entities, x, Pick::EvidenceClaim);
    let mut findings = trace_findings(x, TraceFinding::Misuse);
    let misuse = findings.len();
    assert(finding_models(findings@).len() == findings@.len());
    assert(misuse as int == x@.traces.filter(trace_flag_fn(x@, TraceFinding::Misuse)).map_values(
        trace_finding_fn(TraceFinding::Misuse),
    ).len());
    let unlinked = keep(&research, x, Pick::Unlinked);
    append_findings(&mut findings, &entity_findings(&unlinked, EntityFinding::ResearchUnlinked));
    let unconnected = keep(&evidence, x, Pick::Unconnected);
    append_findings(
        &mut findings,
        &entity_findings(&unconnected, EntityFinding::DecorativeEvidence),
    );
    let targeting: i128 = if evidence.len() == 0 {
        0
    } else {
        4
    };
    let citation: i128 = if any_cited(&evidence) {
        2
    } else {
        0
    };
    let g: i128 = match m.evidence_linkage_rate {
        Some(v) => v as i128,
        None => 0,
    };
    dimension(
        1000 * (targeting + citation - 3 * (misuse as i128)) + 9 * g,
        1000,
        15,
        findings,
    )
}

/// Traceability points for a coverage held in tenths of a percent, on the rubric's nine-point
/// scale.
pub open spec fn trace_points(coverage: int) -> int {
    if coverage >= 1000 {
        9
    } else if coverage >= 900 {
        8
    } else if coverage >= 800 {
        7
    } else if coverage >= 700 {
        6
    } else if coverage >= 600 {
        5
    } else if coverage >= 500 {
        4
    } else if coverage >= 300 {
        2
    } else if coverage > 0 {
        1
    } else {
        0
    }
}

/// Maps traceability coverage to the rubric's fixed nine-point scale.
fn traceability_points(coverage: u32) -> (r: i128)
    ensures
        r == trace_points(coverage as int),
{
    if coverage >= 1000 {
        9
    } else if coverage >= 900 {
        8
    } else if coverage >= 800 {
        7
    } else if coverage >= 700 {
        6
    } else if coverage >= 600 {
        5
    } else if coverage >= 500 {
        4
    } else if coverage >= 300 {
        2
    } else if coverage > 0 {
        1
    } else {
        0
    }
}

/// Traceability findings: traceability theater, then untraced requirements when coverage is
/// incomplete.
pub open spec fn traceability_findings(x: ExtractionModel, m: DeterministicMetrics) -> Seq<FindingModel> {
    x.traces.filter(trace_flag_fn(x, TraceFinding::Theater)).map_values(
        trace_finding_fn(TraceFinding::Theater),
    ) + (if or_zero(m.requirement_traceability_coverage) < 1000 {
        x.entities.filter(picks(x, Pick::UntracedRequirement)).map_values(
            entity_finding_fn(EntityFinding::UntracedRequirement),
        )
    } else {
        seq![]
    })
}

/// Traceability score in tenths: coverage points, provenance 6, less 2 per theater finding.
pub open spec fn traceability_score(x: ExtractionModel, m: DeterministicMetrics) -> int {
    let theater = x.traces.filter(trace_flag_fn(x, TraceFinding::Theater)).len() as int;
    tenths(
        1000 * (trace_points(or_zero(m.requirement_traceability_coverage)) - 2 * theater) + 6 * (
        1000 - or_zero(m.unsupported_decision_rate)),
        1000,
        15,
    )
}

/// Scores requirement trace coverage and decision provenance, then audits link meaning.
pub fn score_traceability(x: &Extraction, m: &DeterministicMetrics) -> (r: DimensionScore)
    ensures
        r@ == (DimensionModel {
            score: traceability_score(x@, *m),
            max: 15,
            findings: traceability_findings(x@, *m),
        }),
{
    let coverage: u32 = match m.requirement_traceability_coverage {
        Some(v) => v,
        None => 0,
    };
    let u: i128 = match m.unsupported_decision_rate {
        Some(v) => v as i128,
        None => 0,
    };
    let mut findings = trace_findings(x, TraceFinding::Theater);
    let theater = findings.len();
    let ghost before = finding_models(findings@);
    if coverage < 1000 {
        let untraced = keep(&x.entities, x, Pick::UntracedRequirement);
        append_findings(
            &mut findings,
            &entity_findings(&untraced, EntityFinding::UntracedRequirement),
        );
    } else {
        assert(finding_models(findings@) =~= before + Seq::<FindingModel>::empty());
    }
    let points = traceability_points(coverage);
    dimension(1000 * (points - 2 * (theater as i128)) + 6 * (1000 - u), 1000, 15, findings)
}

/// One when a generated artifact contains `term`, zero otherwise.
pub open spec fn term_present(arts: Seq<ArtifactModel>, term: Seq<char>) -> int {
    if generated_has(arts, term) {
        1
    } else {
        0
    }
}

/// How many implementation-structure terms the generated artifacts use.
pub open spec fn concrete_terms(arts: Seq<ArtifactModel>) -> int {
    term_present(arts, "module"@) + term_present(arts, "component"@) + term_present(
        arts,
        "responsibility"@,
    ) + term_present(arts, "data flow"@) + term_present(arts, "integration"@)
}

/// How many distributed-system mechanisms the generated artifacts name.
pub open spec fn complexity_terms(arts: Seq<ArtifactModel>) -> int {
    term_present(arts, "microservice"@) + term_present(arts, "kubernetes"@) + term_present(
        arts,
        "event bus"@,
    ) + term_present(arts, "service mesh"@) + term_present(arts, "distributed"@)
}

/// Architecture concreteness: 5 with decisions and two structure terms, 3 with decisions alone,
/// 1 when architecture is at least mentioned, else 0.
pub open spec fn architecture_points(c: Corpus, x: ExtractionModel) -> int {
    let arts = artifact_models(c.artifacts@);
    if has_kind(x, EntityKind::Decision) && concrete_terms(arts) >= 2 {
        5
    } else if has_kind(x, EntityKind::Decision) {
        3
    } else if generated_has(arts, "architecture"@) {
        1
    } else {
        0
    }
}

/// Blocker visibility: 5 without unsupported decisions, 3 when open questions expose them,
/// else 1.
pub open spec fn blocker_points(x: ExtractionModel) -> int {
    if unsupported_reps(x).len() == 0 {
        5
    } else if has_kind(x, EntityKind::OpenQuestion) {
        3
    } else {
        1
    }
}

/// The finding raised when requirements lack acceptance criteria.
pub open spec fn criteria_gap(coverage: Option<u32>) -> FindingModel {
    finding_of(
        Severity::High,
        "Actionability.A"@,
        "Not all identified requirements have explicit acceptance criteria."@,
        "generated package"@,
        None,
        "Acceptance criteria coverage: "@ + optional_percent_text(coverage) + "."@,
        "Add testable acceptance criteria for every implementable important requirement."@,
        Some("UnderSpecification"@),
    )
}

/// The finding raised when the architecture is not concrete enough.
pub open spec fn architecture_gap() -> FindingModel {
    finding_of(
        Severity::Medium,
        "Actionability.B"@,
        "Architecture lacks enough concrete responsibility or data-flow guidance to begin implementation confidently."@,
        "generated package"@,
        None,
        "No complete combination of decisions, modules/components, responsibilities, and data flow was found."@,
        "Describe the smallest concrete modules, boundaries, data flow, and unresolved implementation choices."@,
        Some("UnderSpecification"@),
    )
}

/// The finding raised for concentrated unsupported complexity.
pub open spec fn over_engineering() -> FindingModel {
    finding_of(
        Severity::High,
        "Actionability.B"@,
        "Architecture introduces several major distributed-system mechanisms without corresponding brief scope."@,
        "generated package"@,
        None,
        "At least three of microservices, Kubernetes, event bus, service mesh, or distributed architecture are prescribed for a minimal brief."@,
        "Remove unsupported complexity or link each mechanism to a confirmed requirement and constraint."@,
        Some("OverEngineering"@),
    )
}

/// Actionability findings: missing criteria, vague architecture, over-engineering, hidden
/// blockers.
pub open spec fn actionability_findings(c: Corpus, x: ExtractionModel, m: DeterministicMetrics) -> Seq<
    FindingModel,
> {
    let reps = unsupported_reps(x);
    (if or_zero(m.acceptance_criteria_coverage) < 1000 {
        seq![criteria_gap(m.acceptance_criteria_coverage)]
    } else {
        seq![]
    }) + (if architecture_points(c, x) < 5 {
        seq![architecture_gap()]
    } else {
        seq![]
    }) + (if complexity_terms(artifact_models(c.artifacts@)) >= 3 && brief_reqs(x).len() <= 2 {
        seq![over_engineering()]
    } else {
        seq![]
    }) + (if reps.len() > 0 && !has_kind(x, EntityKind::OpenQuestion) {
        seq![entity_finding_spec(EntityFinding::HiddenBlocker, reps[0])]
    } else {
        seq![]
    })
}

/// Actionability score in tenths: acceptance criteria 5, architecture 5, blockers 5.
pub open spec fn actionability_score(c: Corpus, x: ExtractionModel, m: DeterministicMetrics) -> int {
    tenths(
        5 * or_zero(m.acceptance_criteria_coverage) + 1000 * (architecture_points(c, x)
            + blocker_points(x)),
        1000,
        15,
    )
}

/// Counts one term when some lower-cased content contains it.
fn count_term(contents: &Vec<Vec<char>>, arts: &Vec<Artifact>, term: &str) -> (r: i128)
    requires
        contents@.len() == arts@.len(),
        forall|i: int| 0 <= i < arts@.len() ==> #[trigger] contents@[i]@ == lower(arts@[i].content@),
    ensures
        r == term_present(artifact_models(arts@), term@),
{
    if any_contains(contents, arts, term) {
        1
    } else {
        0
    }
}

/// Scores architecture concreteness from submitted decisions and implementation structure terms.
fn architecture_score(corpus: &Corpus, x: &Extraction, contents: &Vec<Vec<char>>) -> (r: i128)
    requires
        contents@.len() == corpus.artifacts@.len(),
        forall|i: int|
            0 <= i < corpus.artifacts@.len() ==> #[trigger] contents@[i]@ == lower(
                corpus.artifacts@[i].content@,
            ),
    ensures
        r == architecture_points(*corpus, x@),
{
    let arts = &corpus.artifacts;
    let decisions = any_of_kind(x, EntityKind::Decision);
    let terms = count_term(contents, arts, "module") + count_term(contents, arts, "component")
        + count_term(contents, arts, "responsibility") + count_term(contents, arts, "data flow")
        + count_term(contents, arts, "integration");
    if decisions && terms >= 2 {
        5
    } else if decisions {
        3
    } else if any_contains(contents, arts, "architecture") {
        1
    } else {
        0
    }
}

/// Scores requirement criteria, architecture concreteness, and blocker visibility.
pub fn score_actionability(corpus: &Corpus, x: &Extraction, m: &DeterministicMetrics) -> (r:
    DimensionScore)
    ensures
        r@ == (DimensionModel {
            score: actionability_score(*corpus, x@, *m),
            max: 15,
            findings: actionability_findings(*corpus, x@, *m),
        }),
{
    let mut findings: Vec<Finding> = Vec::new();
    let ac: u32 = match m.acceptance_criteria_coverage {
        Some(v) => v,
        None => 0,
    };
    if ac < 1000 {
        let evidence = cat(
            &crate::text::concat(
                &lit("Acceptance criteria coverage: "),
                &format_optional_percentage(m.acceptance_criteria_coverage),
            ),
            ".",
        );
        findings.push(
            finding(
                Severity::High,
                "Actionability.A",
                "Not all identified requirements have explicit acceptance criteria.".to_owned(),
                "generated package".to_owned(),
                None,
                string_of(&evidence),
                "Add testable acceptance criteria for every implementable important requirement.",
                Some("UnderSpecification"),
            ),
        );
    }
    let ghost f1 = finding_models(findings@);
    let contents = lowered_contents(&corpus.artifacts);
    let architecture = architecture_score(corpus, x, &contents);
    if architecture < 5 {
        findings.push(
            finding(
                Severity::Medium,
                "Actionability.B",
                "Architecture lacks enough concrete responsibility or data-flow guidance to begin implementation confidently.".to_owned(),
                "generated package".to_owned(),
                None,
                "No complete combination of decisions, modules/components, responsibilities, and data flow was found.".to_owned(),
                "Describe the smallest concrete modules, boundaries, data flow, and unresolved implementation choices.",
                Some("UnderSpecification"),
            ),
        );
    }
    let ghost f2 = finding_models(findings@);
    let arts = &corpus.artifacts;
    let complexity = count_term(&contents, arts, "microservice") + count_term(&contents, arts, "kubernetes")
        + count_term(&contents, arts, "event bus") + count_term(&contents, arts, "service mesh")
        + count_term(&contents, arts, "distributed");
    let brief_requirements = keep(&x.entities, x, Pick::BriefRequirement);
    if complexity >= 3 && brief_requirements.len() <= 2 {
        findings.push(
            finding(
                Severity::High,
                "Actionability.B",
                "Architecture introduces several major distributed-system mechanisms without corresponding brief scope.".to_owned(),
                "generated package".to_owned(),
                None,
                "At least three of microservices, Kubernetes, event bus, service mesh, or distributed architecture are prescribed for a minimal brief.".to_owned(),
                "Remove unsupported complexity or link each mechanism to a confirmed requirement and constraint.",
                Some("OverEngineering"),
            ),
        );
    }
    let ghost f3 = finding_models(findings@);
    let reps = unsupported_entities(x);
    let questions = any_of_kind(x, EntityKind::OpenQuestion);
    let blocker: i128 = if reps.len() == 0 {
        5
    } else if questions {
        3
    } else {
        findings.push(make_entity_finding(EntityFinding::HiddenBlocker, &reps[0]));
        1
    };
    let ghost reps_m = unsupported_reps(x@);
    assert(finding_models(findings@) =~= actionability_findings(*corpus, x@, *m)) by {
        assert(f1 =~= (if or_zero(m.acceptance_criteria_coverage) < 1000 {
            seq![criteria_gap(m.acceptance_criteria_coverage)]
        } else {
            seq![]
        }));
        assert(f2 =~= f1 + (if architecture_points(*corpus, x@) < 5 {
            seq![architecture_gap()]
        } else {
            seq![]
        }));
        assert(f3 =~= f2 + (if complexity_terms(artifact_models(corpus.artifacts@)) >= 3
            && brief_reqs(x@).len() <= 2 {
            seq![over_engineering()]
        } else {
            seq![]
        }));
    }
    dimension(5 * (ac as i128) + 1000 * (architecture + blocker), 1000, 15, findings)
}

/// The last component of a slash-separated path.
pub open spec fn file_name(p: Seq<char>) -> Seq<char>
    decreases p.len(),
{
    if p.len() == 0 {
        p
    } else if p.last() == '/' {
        seq![]
    } else {
        file_name(p.drop_last()).push(p.last())
    }
}

/// Some generated artifact is named `README.md`, ignoring ASCII case.
pub open spec fn has_readme(arts: Seq<ArtifactModel>) -> bool {
    exists|i: int| 0 <= i < arts.len() && lower(file_name(arts[i].relative_path)) == "readme.md"@
}

/// Returns the last component of a slash-separated path.
fn file_name_of(p: &[char]) -> (r: Vec<char>)
    ensures
        r@ == file_name(p@),
{
    let mut acc: Vec<char> = Vec::new();
    let mut i: usize = 0;
    assert(p@.take(0) =~= Seq::<char>::empty());
    while i < p.len()
        invariant
            i <= p.len(),
            acc@ == file_name(p@.take(i as int)),
        decreases p.len() - i,
    {
        assert(p@.take(i + 1).drop_last() =~= p@.take(i as int));
        assert(p@.take(i + 1).last() == p@[i as int]);
        if p[i] == '/' {
            acc = Vec::new();
            assert(acc@ =~= Seq::<char>::empty());
        } else {
            acc.push(p[i]);
        }
        i = i + 1;
    }
    assert(p@.take(p.len() as int) =~= p@);
    acc
}

/// Decides whether some generated artifact is a README.
fn any_readme(arts: &Vec<Artifact>) -> (r: bool)
    ensures
        r == has_readme(artifact_models(arts@)),
{
    let ghost am = artifact_models(arts@);
    let mut i: usize = 0;
    while i < arts.len()
        invariant
            i <= arts.len(),
            am == artifact_models(arts@),
            forall|k: int| 0 <= k < i ==> lower(file_name((#[trigger] am[k]).relative_path)) != "readme.md"@,
        decreases arts.len() - i,
    {
        let name = to_lower(&file_name_of(&lit(arts[i].relative_path.as_str())));
        assert(am[i as int] == arts@[i as int]@);
        if chars_eq(&name, &lit("readme.md")) {
            return true;
        }
        i = i + 1;
    }
    false
}

/// The finding raised for broken internal links.
pub open spec fn broken_links_finding(broken: nat) -> FindingModel {
    finding_of(
        Severity::Low,
        "Artifact Completeness & Navigation"@,
        "One or more submitted internal artifact links are broken."@,
        "generated package"@,
        None,
        "Broken internal links: "@ + decimal(broken) + "."@,
        "Repair or remove every broken internal artifact link."@,
        None,
    )
}

/// The broken internal link count, or zero where it is missing.
pub open spec fn broken_count(m: DeterministicMetrics) -> nat {
    match m.broken_internal_links {
        Some(b) => b as nat,
        None => 0,
    }
}

/// Artifact-quality findings: one for broken internal links.
pub open spec fn artifact_quality_findings(m: DeterministicMetrics) -> Seq<FindingModel> {
    if broken_count(m) > 0 {
        seq![broken_links_finding(broken_count(m))]
    } else {
        seq![]
    }
}

/// Artifact-quality score in tenths: required-artifact completion weighs 5, less one half per
/// broken link up to two; without completion data, 5, 4, 3 or 2 by README presence and links.
pub open spec fn artifact_quality_score(c: Corpus, m: DeterministicMetrics) -> int {
    let b = broken_count(m) as int;
    match m.required_artifact_completion {
        Some(cc) => tenths(5 * cc - 500 * (if b >= 2 {
            2
        } else {
            b
        }), 1000, 5),
        None => {
            let readme = has_readme(artifact_models(c.artifacts@));
            tenths(
                if readme && b == 0 {
                    5
                } else if readme {
                    4
                } else if b == 0 {
                    3
                } else {
                    2
                },
                1,
                5,
            )
        },
    }
}

/// Scores required artifact completion and internal navigation integrity.
pub fn score_artifact_quality(corpus: &Corpus, m: &DeterministicMetrics) -> (r: DimensionScore)
    ensures
        r@ == (DimensionModel {
            score: artifact_quality_score(*corpus, *m),
            max: 5,
            findings: artifact_quality_findings(*m),
        }),
{
    let broken: usize = match m.broken_internal_links {
        Some(b) => b,
        None => 0,
    };
    let mut findings: Vec<Finding> = Vec::new();
    if broken > 0 {
        let evidence = cat(
            &crate::text::concat(&lit("Broken internal links: "), &decimal_text(broken as u64)),
            ".",
        );
        findings.push(
            finding(
                Severity::Low,
                "Artifact Completeness & Navigation",
                "One or more submitted internal artifact links are broken.".to_owned(),
                "generated package".to_owned(),
                None,
                string_of(&evidence),
                "Repair or remove every broken internal artifact link.",
                None,
            ),
        );
        assert(finding_models(findings@) =~= artifact_quality_findings(*m));
    } else {
        assert(finding_models(findings@) =~= artifact_quality_findings(*m));
    }
    match m.required_artifact_completion {
        Some(cc) => {
            let capped: i128 = if broken >= 2 {
                2
            } else {
                broken as i128
            };
            dimension(5 * (cc as i128) - 500 * capped, 1000, 5, findings)
        },
        None => {
            let readme = any_readme(&corpus.artifacts);
            let points: i128 = if readme && broken == 0 {
                5
            } else if readme {
                4
            } else if broken == 0 {
                3
            } else {
                2
            };
            dimension(points, 1, 5, findings)
        },
    }
}

/// The predicate "has severity `s`".
pub open spec fn of_severity(s: Severity) -> spec_fn(FindingModel) -> bool {
    |f: FindingModel| f.severity == s
}

/// The recommended correction of a finding, or its description.
pub open spec fn finding_text(corrections: bool) -> spec_fn(FindingModel) -> Seq<char> {
    |f: FindingModel| if corrections {
        f.recommended_correction
    } else {
        f.description
    }
}

/// Findings ordered by severity, most severe first, keeping rubric order within a severity.
pub open spec fn by_severity(fs: Seq<FindingModel>) -> Seq<FindingModel> {
    fs.filter(of_severity(Severity::Critical)) + fs.filter(of_severity(Severity::High)) + fs.filter(
        of_severity(Severity::Medium),
    ) + fs.filter(of_severity(Severity::Low))
}

/// The texts of a list, each kept at its first occurrence only.
pub open spec fn first_occurrences(s: Seq<Seq<char>>) -> Seq<Seq<char>>
    decreases s.len(),
{
    if s.len() == 0 {
        seq![]
    } else {
        let p = first_occurrences(s.drop_last());
        if p.contains(s.last()) {
            p
        } else {
            p.push(s.last())
        }
    }
}

/// At most seven distinct corrections, ranked by finding severity and then rubric order.
pub open spec fn improvements(fs: Seq<FindingModel>) -> Seq<Seq<char>> {
    let d = first_occurrences(by_severity(fs).map_values(finding_text(true)));
    if d.len() > 7 {
        d.take(7)
    } else {
        d
    }
}

/// Descriptions of the critical findings.
pub open spec fn critical_descriptions(fs: Seq<FindingModel>) -> Seq<Seq<char>> {
    fs.filter(of_severity(Severity::Critical)).map_values(finding_text(false))
}

/// The critical retrieval failure raised by records retrieved from another project: any
/// non-zero cross-project leakage is one.
pub open spec fn leakage_failures(m: DeterministicMetrics) -> Seq<Seq<char>> {
    match m.cross_project_leakage {
        Some(n) => if n > 0 {
            seq![
                "Cross-project leakage: "@ + decimal(n as nat)
                    + " record(s) retrieved from a different project; any non-zero leakage is a critical retrieval failure."@,
            ]
        } else {
            seq![]
        },
        None => seq![],
    }
}

/// Evidence-based strengths from fully satisfied dimension outcomes.
pub open spec fn strengths_of(d: Dimensions, m: DeterministicMetrics) -> Seq<Seq<char>> {
    (if d.brief_fidelity.score == 200 {
        seq!["All extracted explicit brief requirements are represented without detected contradiction."@]
    } else {
        seq![]
    }) + (if m.requirement_traceability_coverage == Some(1000u32) {
        seq!["Every identified requirement participates in an explicit validated trace."@]
    } else {
        seq![]
    }) + (if m.broken_internal_links == Some(0usize) {
        seq!["No broken submitted internal artifact links were found."@]
    } else {
        seq![]
    })
}

/// The statement of an entity.
pub open spec fn entity_text() -> spec_fn(EntityModel) -> Seq<char> {
    |e: EntityModel| e.text
}

/// Unsupported decision statements, reported only when the unsupported-decision rate is not
/// zero.
pub open spec fn unsupported_statements(x: ExtractionModel, m: DeterministicMetrics) -> Seq<Seq<char>> {
    if or_zero(m.unsupported_decision_rate) == 0 {
        seq![]
    } else {
        unsupported_reps(x).map_values(entity_text())
    }
}

/// The note on what the evaluator did not verify about external sources.
pub open spec fn verification_note() -> Seq<char> {
    "External source correctness was not independently verified; citation identity and submitted decision linkage were evaluated locally."@
}

/// The seven dimensions that the rubric awards for a corpus, its extraction and its metrics.
pub open spec fn rubric_dimensions(d: Dimensions, c: Corpus, x: ExtractionModel, m: DeterministicMetrics) -> bool {
    &&& d.brief_fidelity@ == (DimensionModel {
        score: brief_fidelity_score(c, x, m),
        max: 20,
        findings: brief_fidelity_findings(c, x, m),
    })
    &&& d.assumption_discipline@ == (DimensionModel {
        score: assumption_discipline_score(x, m),
        max: 15,
        findings: assumption_discipline_findings(x),
    })
    &&& d.cross_document_consistency@ == (DimensionModel {
        score: tenths(consistency_points(consistency_findings(c, m).len() as int), 1, 15),
        max: 15,
        findings: consistency_findings(c, m),
    })
    &&& d.evidence_quality@ == (DimensionModel {
        score: evidence_quality_score(x, m),
        max: 15,
        findings: evidence_quality_findings(x),
    })
    &&& d.traceability@ == (DimensionModel {
        score: traceability_score(x, m),
        max: 15,
        findings: traceability_findings(x, m),
    })
    &&& d.actionability@ == (DimensionModel {
        score: actionability_score(c, x, m),
        max: 15,
        findings: actionability_findings(c, x, m),
    })
    &&& d.artifact_quality@ == (DimensionModel {
        score: artifact_quality_score(c, m),
        max: 5,
        findings: artifact_quality_findings(m),
    })
}

/// The complete report that the rubric gives for a corpus, its extraction and its metrics.
pub open spec fn report_of(r: ValidationReport, c: Corpus, x: ExtractionModel, m: DeterministicMetrics) -> bool {
    let all = findings_of(dimension_list(r.dimensions));
    &&& rubric_dimensions(r.dimensions, c, x, m)
    &&& r.drpfs as int == score_sum(dimension_list(r.dimensions))
    &&& r.metrics == m
    &&& strs(r.critical_failures@) == critical_descriptions(all) + leakage_failures(m)
    &&& strs(r.strengths@) == strengths_of(r.dimensions, m)
    &&& strs(r.highest_priority_improvements@) == improvements(all)
    &&& strs(r.unsupported_decisions@) == unsupported_statements(x, m)
    &&& strs(r.unresolved_assumptions_and_questions@) == unresolved_texts(x)
    &&& r.external_verification_note@ == verification_note()
}

/// Appends the corrections (or descriptions) of the findings of one severity, in order.
fn texts_of_severity(all: &Vec<Finding>, sev: Severity, corrections: bool, out: &mut Vec<String>)
    ensures
        strs(final(out)@) == strs(old(out)@) + finding_models(all@).filter(of_severity(sev)).map_values(
            finding_text(corrections),
        ),
{
    let ghost fm = finding_models(all@);
    let ghost start = strs(out@);
    let mut i: usize = 0;
    assert(fm.take(0).filter(of_severity(sev)) =~= Seq::<FindingModel>::empty()) by {
        reveal(Seq::filter);
    }
    assert(strs(out@) =~= start + fm.take(0).filter(of_severity(sev)).map_values(
        finding_text(corrections),
    ));
    while i < all.len()
        invariant
            i <= all.len(),
            fm == finding_models(all@),
            strs(out@) == start + fm.take(i as int).filter(of_severity(sev)).map_values(
                finding_text(corrections),
            ),
        decreases all.len() - i,
    {
        proof {
            lemma_filter_map_step(fm, of_severity(sev), finding_text(corrections), i as int);
        }
        if all[i].severity == sev {
            let ghost before = strs(out@);
            let t = if corrections {
                all[i].recommended_correction.clone()
            } else {
                all[i].description.clone()
            };
            out.push(t);
            assert(strs(out@) =~= before.push(t@));
        }
        i = i + 1;
    }
    assert(fm.take(all.len() as int) =~= fm);
}

/// Whether a list of strings holds a text.
fn holds_text(list: &Vec<String>, t: &String) -> (r: bool)
    ensures
        r == strs(list@).contains(t@),
{
    let mut i: usize = 0;
    while i < list.len()
        invariant
            i <= list.len(),
            forall|k: int| 0 <= k < i ==> strs(list@)[k] != t@,
        decreases list.len() - i,
    {
        if list[i].eq(t) {
            assert(strs(list@)[i as int] == t@);
            return true;
        }
        i = i + 1;
    }
    false
}

/// Ranks and deduplicates corrections by severity and rubric encounter order.
#[verifier::rlimit(30)]
fn collect_improvements(d: &Dimensions) -> (r: Vec<String>)
    ensures
        strs(r@) == improvements(findings_of(dimension_list(*d))),
{
    let all = d.all_findings();
    let ghost fs = findings_of(dimension_list(*d));
    let mut ranked: Vec<String> = Vec::new();
    texts_of_severity(&all, Severity::Critical, true, &mut ranked);
    texts_of_severity(&all, Severity::High, true, &mut ranked);
    texts_of_severity(&all, Severity::Medium, true, &mut ranked);
    texts_of_severity(&all, Severity::Low, true, &mut ranked);
    let ghost rs = strs(ranked@);
    assert(rs =~= by_severity(fs).map_values(finding_text(true)));
    let mut unique: Vec<String> = Vec::new();
    let mut i: usize = 0;
    assert(rs.take(0) =~= Seq::<Seq<char>>::empty());
    while i < ranked.len()
        invariant
            i <= ranked.len(),
            rs == strs(ranked@),
            strs(unique@) == first_occurrences(rs.take(i as int)),
        decreases ranked.len() - i,
    {
        assert(rs.take(i + 1).drop_last() =~= rs.take(i as int));
        assert(rs.take(i + 1).last() == ranked@[i as int]@);
        if !holds_text(&unique, &ranked[i]) {
            let ghost before = strs(unique@);
            let t = ranked[i].clone();
            unique.push(t);
            assert(strs(unique@) =~= before.push(t@));
        }
        i = i + 1;
    }
    assert(rs.take(ranked.len() as int) =~= rs);
    let ghost us = strs(unique@);
    let mut r: Vec<String> = Vec::new();
    let mut k: usize = 0;
    while k < unique.len() && k < 7
        invariant
            k <= unique.len(),
            k <= 7,
            us == strs(unique@),
            strs(r@) == us.take(k as int),
        decreases unique.len() - k,
    {
        let ghost before = strs(r@);
        let t = unique[k].clone();
        r.push(t);
        assert(strs(r@) =~= before.push(t@));
        assert(us.take(k + 1) =~= us.take(k as int).push(us[k as int]));
        k = k + 1;
    }
    if unique.len() <= 7 {
        assert(us.take(unique.len() as int) =~= us);
    }
    r
}

/// Collects evidence-based strengths from fully satisfied dimension outcomes.
fn collect_strengths(d: &Dimensions, m: &DeterministicMetrics) -> (r: Vec<String>)
    ensures
        strs(r@) == strengths_of(*d, *m),
{
    let mut r: Vec<String> = Vec::new();
    if d.brief_fidelity.score == 200 {
        r.push(
            "All extracted explicit brief requirements are represented without detected contradiction.".to_owned(),
        );
    }
    let ghost s1 = strs(r@);
    if m.requirement_traceability_coverage == Some(1000u32) {
        r.push("Every identified requirement participates in an explicit validated trace.".to_owned());
    }
    let ghost s2 = strs(r@);
    let zero_broken = match m.broken_internal_links {
        Some(b) => b == 0,
        None => false,
    };
    if zero_broken {
        r.push("No broken submitted internal artifact links were found.".to_owned());
    }
    assert(strs(r@) =~= strengths_of(*d, *m));
    r
}

/// The statements of a list of entities.
fn entity_texts(list: &Vec<ExtractedEntity>) -> (r: Vec<String>)
    ensures
        strs(r@) == entity_models(list@).map_values(entity_text()),
{
    let ghost em = entity_models(list@);
    let mut r: Vec<String> = Vec::new();
    let mut i: usize = 0;
    while i < list.len()
        invariant
            i <= list.len(),
            em == entity_models(list@),
            strs(r@) == em.take(i as int).map_values(entity_text()),
        decreases list.len() - i,
    {
        let ghost before = strs(r@);
        let t = list[i].text.clone();
        r.push(t);
        assert(strs(r@) =~= before.push(t@));
        assert(em.take(i + 1).map_values(entity_text()) =~= em.take(i as int).map_values(
            entity_text(),
        ).push(em[i as int].text));
        i = i + 1;
    }
    assert(em.take(list.len() as int) =~= em);
    r
}

/// Scores one isolated corpus against the fixed DRPFS rubric.
pub fn score_corpus(corpus: &Corpus, x: &Extraction, metrics: DeterministicMetrics) -> (r:
    ValidationReport)
    ensures
        report_of(r, *corpus, x@, metrics),
{
    let dimensions = Dimensions {
        brief_fidelity: score_brief_fidelity(corpus, x, &metrics),
        assumption_discipline: score_assumption_discipline(x, &metrics),
        cross_document_consistency: score_consistency(corpus, &metrics),
        evidence_quality: score_evidence_quality(x, &metrics),
        traceability: score_traceability(x, &metrics),
        actionability: score_actionability(corpus, x, &metrics),
        artifact_quality: score_artifact_quality(corpus, &metrics),
    };
    let drpfs = dimensions.total();
    let all = dimensions.all_findings();
    let mut critical_failures: Vec<String> = Vec::new();
    texts_of_severity(&all, Severity::Critical, false, &mut critical_failures);
    assert(strs(critical_failures@) =~= critical_descriptions(findings_of(dimension_list(dimensions))));
    match metrics.cross_project_leakage {
        Some(n) => if n > 0 {
            let ghost before = strs(critical_failures@);
            let text = concat(
                &concat(&lit("Cross-project leakage: "), &decimal_text(n as u64)),
                &lit(
                    " record(s) retrieved from a different project; any non-zero leakage is a critical retrieval failure.",
                ),
            );
            critical_failures.push(string_of(&text));
            assert(strs(critical_failures@) =~= before.push(text@));
        },
        None => {},
    }
    assert(strs(critical_failures@) =~= critical_descriptions(findings_of(dimension_list(dimensions)))
        + leakage_failures(metrics));
    let strengths = collect_strengths(&dimensions, &metrics);
    let highest_priority_improvements = collect_improvements(&dimensions);
    let unsupported_decisions = match metrics.unsupported_decision_rate {
        Some(v) if v != 0 => entity_texts(&unsupported_entities(x)),
        _ => Vec::new(),
    };
    assert(strs(unsupported_decisions@) =~= unsupported_statements(x@, metrics));
    let unresolved_assumptions_and_questions = unresolved_items(x);
    ValidationReport {
        drpfs,
        dimensions,
        metrics,
        critical_failures,
        strengths,
        highest_priority_improvements,
        unsupported_decisions,
        unresolved_assumptions_and_questions,
        external_verification_note: "External source correctness was not independently verified; citation identity and submitted decision linkage were evaluated locally.".to_owned(),
    }
}

/// A score rounded to tenths lies between zero and ten times its maximum.
pub proof fn lemma_tenths_bounds(p: int, q: int, max: int)
    requires
        q > 0,
        max >= 0,
    ensures
        0 <= tenths(p, q, max) <= 10 * max,
{
    if p > 0 && p < max * q {
        let v = (20 * p + q) / (2 * q);
        assert(v <= 10 * max) by (nonlinear_arith)
            requires
                v == (20 * p + q) / (2 * q),
                0 < p < max * q,
                q > 0,
        {
            assert(20 * p + q < (20 * max + 1) * q);
            vstd::arithmetic::div_mod::lemma_div_is_ordered(20 * p + q, (20 * max + 1) * q, 2 * q);
            vstd::arithmetic::div_mod::lemma_div_multiples_vanish_quotient(q, 20 * max + 1, 2);
            assert((20 * max + 1) * q == q * (20 * max + 1));
        }
        assert(v >= 0) by (nonlinear_arith)
            requires
                v == (20 * p + q) / (2 * q),
                p > 0,
                q > 0,
        {
        }
    }
}

/// Every dimension score lies between zero and its maximum.
pub proof fn lemma_dimension_scores_bounded(c: Corpus, x: ExtractionModel, m: DeterministicMetrics)
    ensures
        0 <= brief_fidelity_score(c, x, m) <= 200,
        0 <= assumption_discipline_score(x, m) <= 150,
        0 <= tenths(consistency_points(consistency_findings(c, m).len() as int), 1, 15) <= 150,
        0 <= evidence_quality_score(x, m) <= 150,
        0 <= traceability_score(x, m) <= 150,
        0 <= actionability_score(c, x, m) <= 150,
        0 <= artifact_quality_score(c, m) <= 50,
{
    lemma_brief_bounds(c, x, m);
    lemma_assumption_bounds(x, m);
    lemma_tenths_bounds(consistency_points(consistency_findings(c, m).len() as int), 1, 15);
    lemma_evidence_bounds(x, m);
    lemma_traceability_bounds(x, m);
    lemma_tenths_bounds(
        5 * or_zero(m.acceptance_criteria_coverage) + 1000 * (architecture_points(c, x)
            + blocker_points(x)),
        1000,
        15,
    );
    lemma_artifact_bounds(c, m);
}

/// Brief fidelity lies between zero and 20 points.
proof fn lemma_brief_bounds(c: Corpus, x: ExtractionModel, m: DeterministicMetrics)
    ensures
        0 <= brief_fidelity_score(c, x, m) <= 200,
{
    let reqs = brief_reqs(x);
    let n = if reqs.len() == 0 {
        1
    } else {
        reqs.len() as int
    };
    let c2 = credit_sum(reqs, generated_reqs(x), reqs.len() as int);
    let k = contradiction_credit(contradiction_findings(c).len() as int);
    let a = or_zero(m.user_answer_adoption_rate);
    lemma_tenths_bounds(84000 * c2 + 42000 * n * k + 126 * a * n, 21000 * n, 20);
    lemma_tenths_bounds(120000 * c2 + 60000 * n * k, 21000 * n, 20);
}

/// Assumption discipline lies between zero and 15 points.
proof fn lemma_assumption_bounds(x: ExtractionModel, m: DeterministicMetrics)
    ensures
        0 <= assumption_discipline_score(x, m) <= 150,
{
    let l: int = match m.high_impact_assumption_labeling_rate {
        Some(v) => v as int,
        None => 1000,
    };
    let u = or_zero(m.unsupported_decision_rate);
    let unknown: int = if unsupported_reps(x).len() == 0 || has_kind(x, EntityKind::OpenQuestion) {
        4
    } else {
        1
    };
    lemma_tenths_bounds(7 * l + 1000 * unknown + 4 * (1000 - u), 1000, 15);
}

/// Evidence quality lies between zero and 15 points.
proof fn lemma_evidence_bounds(x: ExtractionModel, m: DeterministicMetrics)
    ensures
        0 <= evidence_quality_score(x, m) <= 150,
{
    let targeting: int = if evidence_claims(x).len() == 0 {
        0
    } else {
        4
    };
    let citation: int = if cited(evidence_claims(x)) {
        2
    } else {
        0
    };
    let misuse = x.traces.filter(trace_flag_fn(x, TraceFinding::Misuse)).len() as int;
    lemma_tenths_bounds(
        1000 * (targeting + citation - 3 * misuse) + 9 * or_zero(m.evidence_linkage_rate),
        1000,
        15,
    );
}

/// Traceability lies between zero and 15 points.
proof fn lemma_traceability_bounds(x: ExtractionModel, m: DeterministicMetrics)
    ensures
        0 <= traceability_score(x, m) <= 150,
{
    let theater = x.traces.filter(trace_flag_fn(x, TraceFinding::Theater)).len() as int;
    lemma_tenths_bounds(
        1000 * (trace_points(or_zero(m.requirement_traceability_coverage)) - 2 * theater) + 6 * (
        1000 - or_zero(m.unsupported_decision_rate)),
        1000,
        15,
    );
}

/// Artifact quality lies between zero and 5 points.
proof fn lemma_artifact_bounds(c: Corpus, m: DeterministicMetrics)
    ensures
        0 <= artifact_quality_score(c, m) <= 50,
{
    let b = broken_count(m) as int;
    match m.required_artifact_completion {
        Some(cc) => lemma_tenths_bounds(5 * cc - 500 * (if b >= 2 {
            2
        } else {
            b
        }), 1000, 5),
        None => {
            let readme = has_readme(artifact_models(c.artifacts@));
            lemma_tenths_bounds(
                if readme && b == 0 {
                    5
                } else if readme {
                    4
                } else if b == 0 {
                    3
                } else {
                    2
                },
                1,
                5,
            );
        },
    }
}

/// The seven dimensions keep their fixed rubric maxima 20, 15, 15, 15, 15, 15 and 5; every
/// awarded score lies between zero and its maximum; the DRPFS is the sum of the seven scores
/// and never exceeds 100 points.
#[verifier::rlimit(40)]
pub proof fn law_scores_bounded(
    r: ValidationReport,
    c: Corpus,
    x: ExtractionModel,
    m: DeterministicMetrics,
)
    requires
        report_of(r, c, x, m),
    ensures
        forall|i: int|
            0 <= i < 7 ==> #[trigger] dimension_list(r.dimensions)[i].max == seq![
                20int,
                15,
                15,
                15,
                15,
                15,
                5,
            ][i],
        forall|i: int|
            0 <= i < 7 ==> 0 <= #[trigger] dimension_list(r.dimensions)[i].score <= 10
                * dimension_list(r.dimensions)[i].max,
        r.drpfs as int == score_sum(dimension_list(r.dimensions)),
        r.drpfs <= 1000,
{
    lemma_dimension_scores_bounded(c, x, m);
    crate::report::lemma_dimension_list(r.dimensions);
}

/// Scoring is isolated and deterministic: two reports made from the same corpus, extraction and
/// metrics agree in every dimension, total, list and note, whatever else was evaluated before
/// or beside them.
pub proof fn law_scoring_isolated(
    r1: ValidationReport,
    r2: ValidationReport,
    c: Corpus,
    x: ExtractionModel,
    m: DeterministicMetrics,
)
    requires
        report_of(r1, c, x, m),
        report_of(r2, c, x, m),
    ensures
        dimension_list(r1.dimensions) == dimension_list(r2.dimensions),
        r1.drpfs == r2.drpfs,
        r1.metrics == r2.metrics,
        strs(r1.critical_failures@) == strs(r2.critical_failures@),
        strs(r1.strengths@) == strs(r2.strengths@),
        strs(r1.highest_priority_improvements@) == strs(r2.highest_priority_improvements@),
        strs(r1.unsupported_decisions@) == strs(r2.unsupported_decisions@),
        strs(r1.unresolved_assumptions_and_questions@) == strs(
            r2.unresolved_assumptions_and_questions@,
        ),
        r1.external_verification_note@ == r2.external_verification_note@,
{
    assert(dimension_list(r1.dimensions) =~= dimension_list(r2.dimensions));
}

/// Keeping first occurrences leaves no text twice and never lengthens the list.
pub proof fn lemma_first_occurrences(s: Seq<Seq<char>>)
    ensures
        first_occurrences(s).no_duplicates(),
        first_occurrences(s).len() <= s.len(),
        forall|t: Seq<char>| first_occurrences(s).contains(t) <==> s.contains(t),
    decreases s.len(),
{
    if s.len() > 0 {
        let p = first_occurrences(s.drop_last());
        lemma_first_occurrences(s.drop_last());
        assert forall|t: Seq<char>| first_occurrences(s).contains(t) <==> s.contains(t) by {
            if s.contains(t) {
                let k = choose|k: int| 0 <= k < s.len() && s[k] == t;
                if k < s.len() - 1 {
                    assert(s.drop_last()[k] == t);
                }
            }
            if s.drop_last().contains(t) {
                let k = choose|k: int| 0 <= k < s.drop_last().len() && s.drop_last()[k] == t;
                assert(s[k] == t);
            }
            if !p.contains(s.last()) && t == s.last() {
                assert(p.push(s.last())[p.len() as int] == t);
            }
            if !p.contains(s.last()) && p.push(s.last()).contains(t) && t != s.last() {
                let k = choose|k: int| 0 <= k < p.push(s.last()).len() && p.push(s.last())[k] == t;
                assert(p[k] == t);
            }
            if p.contains(t) {
                let k = choose|k: int| 0 <= k < p.len() && p[k] == t;
                assert(p.push(s.last())[k] == t);
            }
        }
    }
}

/// The highest-priority improvements hold at most seven corrections, none of them twice.
pub proof fn law_improvements_distinct(fs: Seq<FindingModel>)
    ensures
        improvements(fs).len() <= 7,
        improvements(fs).no_duplicates(),
{
    let d = first_occurrences(by_severity(fs).map_values(finding_text(true)));
    lemma_first_occurrences(by_severity(fs).map_values(finding_text(true)));
    if d.len() > 7 {
        assert forall|i: int, j: int| 0 <= i < j < d.take(7).len() implies d.take(7)[i] != d.take(
            7,
        )[j] by {
            assert(d.take(7)[i] == d[i] && d.take(7)[j] == d[j]);
        }
    }
}

/// A text has a character that is not whitespace.
pub open spec fn has_text(s: Seq<char>) -> bool {
    trim(s).len() > 0
}

/// An evidence reference names a source and quotes a non-blank excerpt.
pub open spec fn evidence_grounded(e: EvidenceModel) -> bool {
    has_text(e.artifact) && has_text(e.excerpt)
}

/// Every entity of a list carries grounded evidence.
pub open spec fn entities_grounded(es: Seq<EntityModel>) -> bool {
    forall|i: int| 0 <= i < es.len() ==> evidence_grounded(#[trigger] es[i].evidence)
}

/// Every entity and every trace of an extraction carries grounded evidence.
pub open spec fn grounded(x: ExtractionModel) -> bool {
    &&& entities_grounded(x.entities)
    &&& forall|i: int| 0 <= i < x.traces.len() ==> evidence_grounded(#[trigger] x.traces[i].evidence)
}

/// Every finding of a list has all its mandatory fields.
pub open spec fn all_complete(fs: Seq<FindingModel>) -> bool {
    forall|i: int| 0 <= i < fs.len() ==> finding_complete(#[trigger] fs[i])
}

/// A text whose character at `i` is not whitespace has text.
proof fn lemma_text_at(s: Seq<char>, i: int)
    requires
        0 <= i < s.len(),
        !is_ws(s[i]),
    ensures
        has_text(s),
{
    crate::text::lemma_strip_nonempty(s, CharClass::Whitespace, i);
}

/// Two lists of complete findings join into one.
proof fn lemma_complete_add(a: Seq<FindingModel>, b: Seq<FindingModel>)
    requires
        all_complete(a),
        all_complete(b),
    ensures
        all_complete(a + b),
{
    assert forall|i: int| 0 <= i < (a + b).len() implies finding_complete(#[trigger] (a + b)[i]) by {
        if i < a.len() {
            assert((a + b)[i] == a[i]);
        } else {
            assert((a + b)[i] == b[i - a.len()]);
        }
    }
}

/// Filtering keeps grounded entities grounded.
proof fn lemma_filter_grounded(es: Seq<EntityModel>, p: spec_fn(EntityModel) -> bool)
    requires
        entities_grounded(es),
    ensures
        entities_grounded(es.filter(p)),
    decreases es.len(),
{
    reveal(Seq::filter);
    if es.len() > 0 {
        lemma_filter_grounded(es.drop_last(), p);
        let f = es.filter(p);
        let g = es.drop_last().filter(p);
        assert forall|i: int| 0 <= i < f.len() implies evidence_grounded(#[trigger] f[i].evidence) by {
            if i < g.len() {
                assert(f[i] == g[i]);
            } else {
                assert(f[i] == es.last());
            }
        }
    }
}

/// The finding raised against a grounded entity is complete.
proof fn lemma_entity_finding_complete(k: EntityFinding, e: EntityModel)
    requires
        evidence_grounded(e.evidence),
    ensures
        finding_complete(entity_finding_spec(k, e)),
{
    match k {
        EntityFinding::PartialRequirement => {
            reveal_strlit("Brief Fidelity.A");
            reveal_strlit("An explicit brief requirement is only partially represented by generated requirements.");
            reveal_strlit("Preserve the complete requirement meaning in an identified generated requirement.");
            lemma_text_at("Brief Fidelity.A"@, 0);
            lemma_text_at("An explicit brief requirement is only partially represented by generated requirements."@, 0);
            lemma_text_at("Preserve the complete requirement meaning in an identified generated requirement."@, 0);
        },
        EntityFinding::MissingRequirement => {
            reveal_strlit("Brief Fidelity.A");
            reveal_strlit("An explicit brief requirement has no meaningful generated requirement candidate.");
            reveal_strlit("Add a generated requirement that preserves this explicit user need.");
            lemma_text_at("Brief Fidelity.A"@, 0);
            lemma_text_at("An explicit brief requirement has no meaningful generated requirement candidate."@, 0);
            lemma_text_at("Add a generated requirement that preserves this explicit user need."@, 0);
        },
        EntityFinding::UnadoptedAnswer => {
            reveal_strlit("Brief Fidelity.C");
            reveal_strlit("A consequential user answer is not adopted by any requirement or decision trace.");
            reveal_strlit("Link the answer to the final requirement or decision that reflects it.");
            lemma_text_at("Brief Fidelity.C"@, 0);
            lemma_text_at("A consequential user answer is not adopted by any requirement or decision trace."@, 0);
            lemma_text_at("Link the answer to the final requirement or decision that reflects it."@, 0);
        },
        EntityFinding::AssumptionPromotion => {
            reveal_strlit("Assumption Discipline.A");
            reveal_strlit("A consequential inferred choice is presented as a settled decision without labeled provenance.");
            reveal_strlit("Label the choice as an assumption or link it to user input, a constraint, or evidence.");
            lemma_text_at("Assumption Discipline.A"@, 0);
            lemma_text_at("A consequential inferred choice is presented as a settled decision without labeled provenance."@, 0);
            lemma_text_at("Label the choice as an assumption or link it to user input, a constraint, or evidence."@, 0);
        },
        EntityFinding::HiddenUnknown => {
            reveal_strlit("Assumption Discipline.B");
            reveal_strlit("Consequential unsupported decisions exist without corresponding visible open questions.");
            reveal_strlit("Keep unresolved consequential choices explicit until the user or evidence resolves them.");
            lemma_text_at("Assumption Discipline.B"@, 0);
            lemma_text_at("Consequential unsupported decisions exist without corresponding visible open questions."@, 0);
            lemma_text_at("Keep unresolved consequential choices explicit until the user or evidence resolves them."@, 0);
        },
        EntityFinding::ResearchUnlinked => {
            reveal_strlit("Evidence Quality.C");
            reveal_strlit("A research-dependent decision has no explicit evidence relationship.");
            reveal_strlit("Link the decision to identifiable evidence that actually informed it.");
            lemma_text_at("Evidence Quality.C"@, 0);
            lemma_text_at("A research-dependent decision has no explicit evidence relationship."@, 0);
            lemma_text_at("Link the decision to identifiable evidence that actually informed it."@, 0);
        },
        EntityFinding::DecorativeEvidence => {
            reveal_strlit("Evidence Quality.A");
            reveal_strlit("An evidence claim is not connected to any consequential decision.");
            reveal_strlit("Connect useful evidence to a decision or remove decorative research.");
            lemma_text_at("Evidence Quality.A"@, 0);
            lemma_text_at("An evidence claim is not connected to any consequential decision."@, 0);
            lemma_text_at("Connect useful evidence to a decision or remove decorative research."@, 0);
        },
        EntityFinding::UntracedRequirement => {
            reveal_strlit("Requirements → Decision Traceability");
            reveal_strlit("An identified important requirement has no explicit decision trace.");
            reveal_strlit("Link the requirement to at least one relevant decision or documented constraint.");
            lemma_text_at("Requirements → Decision Traceability"@, 0);
            lemma_text_at("An identified important requirement has no explicit decision trace."@, 0);
            lemma_text_at("Link the requirement to at least one relevant decision or documented constraint."@, 0);
        },
        EntityFinding::HiddenBlocker => {
            reveal_strlit("Actionability.C");
            reveal_strlit("Important unsupported decisions remain but the package does not expose them as blockers.");
            reveal_strlit("Move unresolved consequential choices into a visible questions or blockers section.");
            lemma_text_at("Actionability.C"@, 0);
            lemma_text_at("Important unsupported decisions remain but the package does not expose them as blockers."@, 0);
            lemma_text_at("Move unresolved consequential choices into a visible questions or blockers section."@, 0);
        },
    }
}

/// The findings raised against grounded entities are complete.
proof fn lemma_entity_findings_complete(k: EntityFinding, es: Seq<EntityModel>)
    requires
        entities_grounded(es),
    ensures
        all_complete(es.map_values(entity_finding_fn(k))),
{
    assert forall|i: int| 0 <= i < es.map_values(entity_finding_fn(k)).len() implies finding_complete(
        #[trigger] es.map_values(entity_finding_fn(k))[i],
    ) by {
        lemma_entity_finding_complete(k, es[i]);
    }
}

/// The findings raised against the flagged traces of a grounded extraction are complete.
proof fn lemma_trace_findings_complete(x: ExtractionModel, k: TraceFinding)
    requires
        grounded(x),
    ensures
        all_complete(x.traces.filter(trace_flag_fn(x, k)).map_values(trace_finding_fn(k))),
{
    let f = x.traces.filter(trace_flag_fn(x, k));
    reveal_strlit("Evidence Quality.B");
    reveal_strlit("Cited evidence has no meaningful subject overlap with the decision it claims to support.");
    reveal_strlit("Replace the evidence relationship with a source that actually supports the decision, or remove the claim.");
    reveal_strlit("Requirements → Decision Traceability");
    reveal_strlit("An explicit trace links statements with no meaningful subject overlap.");
    reveal_strlit("Remove the unrelated link or replace it with a relationship whose rationale is substantively meaningful.");
    lemma_text_at("Evidence Quality.B"@, 0);
    lemma_text_at("Cited evidence has no meaningful subject overlap with the decision it claims to support."@, 0);
    lemma_text_at("Replace the evidence relationship with a source that actually supports the decision, or remove the claim."@, 0);
    lemma_text_at("Requirements → Decision Traceability"@, 0);
    lemma_text_at("An explicit trace links statements with no meaningful subject overlap."@, 0);
    lemma_text_at("Remove the unrelated link or replace it with a relationship whose rationale is substantively meaningful."@, 0);
    assert forall|i: int| 0 <= i < f.map_values(trace_finding_fn(k)).len() implies finding_complete(
        #[trigger] f.map_values(trace_finding_fn(k))[i],
    ) by {
        x.traces.lemma_filter_contains_rev(trace_flag_fn(x, k), f[i]);
        let j = choose|j: int| 0 <= j < x.traces.len() && x.traces[j] == f[i];
        assert(evidence_grounded(x.traces[j].evidence));
    }
}

/// The coverage findings of grounded brief requirements are complete.
proof fn lemma_coverage_complete(reqs: Seq<EntityModel>, gens: Seq<EntityModel>, n: int)
    requires
        entities_grounded(reqs),
        n <= reqs.len(),
    ensures
        all_complete(coverage_findings(reqs, gens, n)),
    decreases n,
{
    if n > 0 {
        lemma_coverage_complete(reqs, gens, n - 1);
        lemma_entity_finding_complete(EntityFinding::PartialRequirement, reqs[n - 1]);
        lemma_entity_finding_complete(EntityFinding::MissingRequirement, reqs[n - 1]);
        lemma_complete_add(coverage_findings(reqs, gens, n - 1), coverage_finding(reqs[n - 1], gens));
    }
}

/// The contradiction findings are complete.
proof fn lemma_contradictions_complete(c: Corpus)
    ensures
        all_complete(contradiction_findings(c)),
{
    reveal_strlit("Brief Fidelity.B");
    lemma_text_at("Brief Fidelity.B"@, 0);
    reveal_strlit("generated package");
    lemma_text_at("generated package"@, 0);
    reveal_strlit("Remove the conflicting generated choice or surface the conflict for user resolution.");
    lemma_text_at("Remove the conflicting generated choice or surface the conflict for user resolution."@, 0);
    reveal_strlit("Generated artifacts contradict the brief's ");
    lemma_text_at("Generated artifacts contradict the brief's "@, 0);
    reveal_strlit("Brief: ");
    lemma_text_at("Brief: "@, 0);
    let l = seq![
        contradiction("offline operation"@, "mandatory cloud dependency"@),
        contradiction("single-player scope"@, "required multiplayer scope"@),
        contradiction("on-device-only data"@, "cloud-only data"@),
        contradiction("no authentication"@, "required authentication"@),
    ];
    assert forall|i: int| 0 <= i < 4 implies finding_complete(#[trigger] l[i]) by {
        assert(l[i].description[0] == 'G');
        lemma_text_at(l[i].description, 0);
        assert(l[i].supporting_evidence[0] == 'B');
        lemma_text_at(l[i].supporting_evidence, 0);
    }
    let f0 = conflict_findings(c, "offline"@, "mandatory cloud"@, "offline operation"@, "mandatory cloud dependency"@);
    let f1 = conflict_findings(c, "single-player"@, "multiplayer required"@, "single-player scope"@, "required multiplayer scope"@);
    let f2 = conflict_findings(c, "on-device only"@, "cloud-only"@, "on-device-only data"@, "cloud-only data"@);
    let f3 = conflict_findings(c, "no authentication"@, "authentication required"@, "no authentication"@, "required authentication"@);
    assert(all_complete(f0) && all_complete(f1) && all_complete(f2) && all_complete(f3)) by {
        assert(l[0] == contradiction("offline operation"@, "mandatory cloud dependency"@));
        assert(l[1] == contradiction("single-player scope"@, "required multiplayer scope"@));
        assert(l[2] == contradiction("on-device-only data"@, "cloud-only data"@));
        assert(l[3] == contradiction("no authentication"@, "required authentication"@));
    }
    lemma_complete_add(f0, f1);
    lemma_complete_add(f0 + f1, f2);
    lemma_complete_add(f0 + f1 + f2, f3);
}

/// Brief-fidelity findings of a grounded extraction are complete.
pub proof fn lemma_brief_fidelity_complete(c: Corpus, x: ExtractionModel, m: DeterministicMetrics)
    requires
        grounded(x),
    ensures
        all_complete(brief_fidelity_findings(c, x, m)),
{
    let reqs = brief_reqs(x);
    let gens = generated_reqs(x);
    lemma_filter_grounded(x.entities, picks(x, Pick::BriefRequirement));
    lemma_filter_grounded(x.entities, picks(x, Pick::UnadoptedAnswer));
    reveal_strlit("Brief Fidelity.A");
    lemma_text_at("Brief Fidelity.A"@, 0);
    reveal_strlit("No materially explicit requirement could be extracted from the original brief.");
    lemma_text_at("No materially explicit requirement could be extracted from the original brief."@, 0);
    reveal_strlit("ORIGINAL_BRIEF");
    lemma_text_at("ORIGINAL_BRIEF"@, 0);
    reveal_strlit("The brief contains no identified or normative requirement statement.");
    lemma_text_at("The brief contains no identified or normative requirement statement."@, 0);
    reveal_strlit("Supply explicit requirements so generated coverage can be evaluated.");
    lemma_text_at("Supply explicit requirements so generated coverage can be evaluated."@, 0);
    let cov = if reqs.len() == 0 {
        seq![no_brief_requirement()]
    } else {
        coverage_findings(reqs, gens, reqs.len() as int)
    };
    if reqs.len() > 0 {
        lemma_coverage_complete(reqs, gens, reqs.len() as int);
    }
    lemma_contradictions_complete(c);
    lemma_entity_findings_complete(
        EntityFinding::UnadoptedAnswer,
        x.entities.filter(picks(x, Pick::UnadoptedAnswer)),
    );
    let ans = if has_kind(x, EntityKind::UserAnswer) && or_zero(m.user_answer_adoption_rate) < 1000 {
        x.entities.filter(picks(x, Pick::UnadoptedAnswer)).map_values(
            entity_finding_fn(EntityFinding::UnadoptedAnswer),
        )
    } else {
        seq![]
    };
    lemma_complete_add(cov, contradiction_findings(c));
    lemma_complete_add(cov + contradiction_findings(c), ans);
}

/// The representatives of unsupported decisions are entities of the extraction.
proof fn lemma_reps_grounded(x: ExtractionModel)
    requires
        entities_grounded(x.entities),
    ensures
        entities_grounded(unsupported_reps(x)),
{
    let s = unsupported_id_set(x);
    let ids = x.entities.map_values(
        |e: EntityModel| match e.id {
            Some(i) => i,
            None => Seq::<char>::empty(),
        },
    );
    assert(s.subset_of(ids.to_set())) by {
        assert forall|id: Seq<char>| s.contains(id) implies ids.to_set().contains(id) by {
            let j = choose|j: int| 0 <= j < x.entities.len() && lacks_provenance(x, x.entities[j], id);
            assert(ids[j] == id);
        }
    }
    vstd::seq_lib::seq_to_set_is_finite(ids);
    vstd::set_lib::lemma_set_subset_finite(ids.to_set(), s);
    crate::order::lemma_sorted_list_facts(s);
    let l = sorted_list(s);
    let reps = unsupported_reps(x);
    assert forall|i: int| 0 <= i < reps.len() implies evidence_grounded(#[trigger] reps[i].evidence) by {
        assert(l.to_set().contains(l[i]));
        let id = l[i];
        let j = choose|j: int| 0 <= j < x.entities.len() && lacks_provenance(x, x.entities[j], id);
        assert(is_first_lacking(x, id, j) || exists|q: int| 0 <= q < j && lacks_provenance(x, x.entities[q], id));
        assert(exists|q: int| is_first_lacking(x, id, q)) by {
            lemma_first_lacking_exists(x, id, j);
        }
        let f = first_lacking(x, id);
        assert(is_first_lacking(x, id, f));
        assert(reps[i] == x.entities[f]);
    }
}

/// Some position is the first decision with identifier `id` lacking provenance, once one is.
proof fn lemma_first_lacking_exists(x: ExtractionModel, id: Seq<char>, j: int)
    requires
        0 <= j < x.entities.len(),
        lacks_provenance(x, x.entities[j], id),
    ensures
        exists|q: int| is_first_lacking(x, id, q),
    decreases j,
{
    if exists|q: int| 0 <= q < j && lacks_provenance(x, x.entities[q], id) {
        let q = choose|q: int| 0 <= q < j && lacks_provenance(x, x.entities[q], id);
        lemma_first_lacking_exists(x, id, q);
    } else {
        assert(is_first_lacking(x, id, j));
    }
}

/// Assumption-discipline findings of a grounded extraction are complete.
pub proof fn lemma_assumption_complete(x: ExtractionModel)
    requires
        grounded(x),
    ensures
        all_complete(assumption_discipline_findings(x)),
{
    let reps = unsupported_reps(x);
    lemma_reps_grounded(x);
    lemma_filter_grounded(reps, picks(x, Pick::HighImpact));
    lemma_entity_findings_complete(EntityFinding::AssumptionPromotion, reps.filter(picks(x, Pick::HighImpact)));
    let tail = if reps.len() > 0 && !has_kind(x, EntityKind::OpenQuestion) {
        seq![entity_finding_spec(EntityFinding::HiddenUnknown, reps[0])]
    } else {
        seq![]
    };
    if reps.len() > 0 {
        lemma_entity_finding_complete(EntityFinding::HiddenUnknown, reps[0]);
    }
    lemma_complete_add(
        reps.filter(picks(x, Pick::HighImpact)).map_values(
            entity_finding_fn(EntityFinding::AssumptionPromotion),
        ),
        tail,
    );
}

/// A join of two or more texts with a separator holds the separator's first character.
proof fn lemma_join_holds_separator(parts: Seq<Seq<char>>, sep: Seq<char>)
    requires
        parts.len() > 1,
        sep.len() > 0,
    ensures
        exists|i: int| 0 <= i < join_with(parts, sep).len() && join_with(parts, sep)[i] == sep[0],
{
    let p = join_with(parts.drop_last(), sep);
    assert(join_with(parts, sep)[p.len() as int] == sep[0]);
}

/// Consistency findings are complete.
pub proof fn lemma_consistency_complete(c: Corpus, m: DeterministicMetrics)
    ensures
        all_complete(consistency_findings(c, m)),
{
    reveal_strlit("Cross-Document Consistency");
    lemma_text_at("Cross-Document Consistency"@, 0);
    reveal_strlit("Generated artifacts contain multiple explicit project-name variants.");
    lemma_text_at("Generated artifacts contain multiple explicit project-name variants."@, 0);
    reveal_strlit("generated package");
    lemma_text_at("generated package"@, 0);
    reveal_strlit("Use one canonical project name across all artifacts and structured records.");
    lemma_text_at("Use one canonical project name across all artifacts and structured records."@, 0);
    reveal_strlit(", ");
    let names = crate::extract::strs(m.conflicting_project_names@);
    let head = if names.len() > 1 {
        seq![name_variants(names)]
    } else {
        seq![]
    };
    if names.len() > 1 {
        lemma_join_holds_separator(names, ", "@);
        let j = join_with(names, ", "@);
        let i = choose|i: int| 0 <= i < j.len() && j[i] == ", "@[0];
        lemma_text_at(j, i);
        assert(finding_complete(head[0]));
    }
    lemma_concept_complete(c, "single-player only"@, "multiplayer required"@, "player mode"@);
    lemma_concept_complete(c, "local-only storage"@, "cloud-only storage"@, "persistence"@);
    lemma_concept_complete(c, "no authentication"@, "authentication required"@, "authentication"@);
    let a = concept_conflict(c, "single-player only"@, "multiplayer required"@, "player mode"@);
    let b = concept_conflict(c, "local-only storage"@, "cloud-only storage"@, "persistence"@);
    let d = concept_conflict(c, "no authentication"@, "authentication required"@, "authentication"@);
    lemma_complete_add(head, a);
    lemma_complete_add(head + a, b);
    lemma_complete_add(head + a + b, d);
}

/// A concept-conflict finding is complete.
proof fn lemma_concept_complete(c: Corpus, left: Seq<char>, right: Seq<char>, concept: Seq<char>)
    ensures
        all_complete(concept_conflict(c, left, right, concept)),
{
    reveal_strlit("Cross-Document Consistency");
    lemma_text_at("Cross-Document Consistency"@, 0);
    reveal_strlit("Artifacts make incompatible ");
    lemma_text_at("Artifacts make incompatible "@, 0);
    reveal_strlit("Resolve the conflict and propagate one confirmed choice across the package.");
    lemma_text_at("Resolve the conflict and propagate one confirmed choice across the package."@, 0);
    reveal_strlit("; ");
    reveal_strlit(": ");
    let arts = artifact_models(c.artifacts@);
    match (first_with(arts, left), first_with(arts, right)) {
        (Some(lf), Some(rf)) => {
            if lf != rf {
                let f = concept_conflict(c, left, right, concept)[0];
                assert(f.description[0] == 'A');
                lemma_text_at(f.description, 0);
                assert(f.artifact[lf.len() as int] == ';');
                lemma_text_at(f.artifact, lf.len() as int);
                assert(f.supporting_evidence[lf.len() as int] == ':');
                lemma_text_at(f.supporting_evidence, lf.len() as int);
            }
        },
        _ => {},
    }
}

/// Evidence-quality findings of a grounded extraction are complete.
pub proof fn lemma_evidence_complete(x: ExtractionModel)
    requires
        grounded(x),
    ensures
        all_complete(evidence_quality_findings(x)),
{
    if research_decisions(x).len() > 0 {
        lemma_trace_findings_complete(x, TraceFinding::Misuse);
        lemma_filter_grounded(x.entities, picks(x, Pick::ResearchDecision));
        lemma_filter_grounded(x.entities, picks(x, Pick::EvidenceClaim));
        lemma_filter_grounded(research_decisions(x), picks(x, Pick::Unlinked));
        lemma_filter_grounded(evidence_claims(x), picks(x, Pick::Unconnected));
        let a = x.traces.filter(trace_flag_fn(x, TraceFinding::Misuse)).map_values(
            trace_finding_fn(TraceFinding::Misuse),
        );
        let b = research_decisions(x).filter(picks(x, Pick::Unlinked)).map_values(
            entity_finding_fn(EntityFinding::ResearchUnlinked),
        );
        let d = evidence_claims(x).filter(picks(x, Pick::Unconnected)).map_values(
            entity_finding_fn(EntityFinding::DecorativeEvidence),
        );
        lemma_entity_findings_complete(
            EntityFinding::ResearchUnlinked,
            research_decisions(x).filter(picks(x, Pick::Unlinked)),
        );
        lemma_entity_findings_complete(
            EntityFinding::DecorativeEvidence,
            evidence_claims(x).filter(picks(x, Pick::Unconnected)),
        );
        lemma_complete_add(a, b);
        lemma_complete_add(a + b, d);
    }
}

/// Traceability findings of a grounded extraction are complete.
pub proof fn lemma_traceability_complete(x: ExtractionModel, m: DeterministicMetrics)
    requires
        grounded(x),
    ensures
        all_complete(traceability_findings(x, m)),
{
    lemma_trace_findings_complete(x, TraceFinding::Theater);
    lemma_filter_grounded(x.entities, picks(x, Pick::UntracedRequirement));
    lemma_entity_findings_complete(
        EntityFinding::UntracedRequirement,
        x.entities.filter(picks(x, Pick::UntracedRequirement)),
    );
    let a = x.traces.filter(trace_flag_fn(x, TraceFinding::Theater)).map_values(
        trace_finding_fn(TraceFinding::Theater),
    );
    let b = if or_zero(m.requirement_traceability_coverage) < 1000 {
        x.entities.filter(picks(x, Pick::UntracedRequirement)).map_values(
            entity_finding_fn(EntityFinding::UntracedRequirement),
        )
    } else {
        seq![]
    };
    lemma_complete_add(a, b);
}

/// Actionability findings of a grounded extraction are complete.
pub proof fn lemma_actionability_complete(c: Corpus, x: ExtractionModel, m: DeterministicMetrics)
    requires
        grounded(x),
    ensures
        all_complete(actionability_findings(c, x, m)),
{
    reveal_strlit("Actionability.A");
    lemma_text_at("Actionability.A"@, 0);
    reveal_strlit("Not all identified requirements have explicit acceptance criteria.");
    lemma_text_at("Not all identified requirements have explicit acceptance criteria."@, 0);
    reveal_strlit("generated package");
    lemma_text_at("generated package"@, 0);
    reveal_strlit("Acceptance criteria coverage: ");
    lemma_text_at("Acceptance criteria coverage: "@, 0);
    reveal_strlit("Add testable acceptance criteria for every implementable important requirement.");
    lemma_text_at("Add testable acceptance criteria for every implementable important requirement."@, 0);
    reveal_strlit("Actionability.B");
    lemma_text_at("Actionability.B"@, 0);
    reveal_strlit("Architecture lacks enough concrete responsibility or data-flow guidance to begin implementation confidently.");
    lemma_text_at("Architecture lacks enough concrete responsibility or data-flow guidance to begin implementation confidently."@, 0);
    reveal_strlit("No complete combination of decisions, modules/components, responsibilities, and data flow was found.");
    lemma_text_at("No complete combination of decisions, modules/components, responsibilities, and data flow was found."@, 0);
    reveal_strlit("Describe the smallest concrete modules, boundaries, data flow, and unresolved implementation choices.");
    lemma_text_at("Describe the smallest concrete modules, boundaries, data flow, and unresolved implementation choices."@, 0);
    reveal_strlit("Architecture introduces several major distributed-system mechanisms without corresponding brief scope.");
    lemma_text_at("Architecture introduces several major distributed-system mechanisms without corresponding brief scope."@, 0);
    reveal_strlit("At least three of microservices, Kubernetes, event bus, service mesh, or distributed architecture are prescribed for a minimal brief.");
    lemma_text_at("At least three of microservices, Kubernetes, event bus, service mesh, or distributed architecture are prescribed for a minimal brief."@, 0);
    reveal_strlit("Remove unsupported complexity or link each mechanism to a confirmed requirement and constraint.");
    lemma_text_at("Remove unsupported complexity or link each mechanism to a confirmed requirement and constraint."@, 0);
    let g = criteria_gap(m.acceptance_criteria_coverage);
    assert(g.supporting_evidence[0] == 'A');
    lemma_text_at(g.supporting_evidence, 0);
    let reps = unsupported_reps(x);
    lemma_reps_grounded(x);
    if reps.len() > 0 {
        lemma_entity_finding_complete(EntityFinding::HiddenBlocker, reps[0]);
    }
    let a = if or_zero(m.acceptance_criteria_coverage) < 1000 {
        seq![criteria_gap(m.acceptance_criteria_coverage)]
    } else {
        seq![]
    };
    let b = if architecture_points(c, x) < 5 {
        seq![architecture_gap()]
    } else {
        seq![]
    };
    let d = if complexity_terms(artifact_models(c.artifacts@)) >= 3 && brief_reqs(x).len() <= 2 {
        seq![over_engineering()]
    } else {
        seq![]
    };
    let e = if reps.len() > 0 && !has_kind(x, EntityKind::OpenQuestion) {
        seq![entity_finding_spec(EntityFinding::HiddenBlocker, reps[0])]
    } else {
        seq![]
    };
    lemma_complete_add(a, b);
    lemma_complete_add(a + b, d);
    lemma_complete_add(a + b + d, e);
}

/// Artifact-quality findings are complete.
pub proof fn lemma_artifact_complete(m: DeterministicMetrics)
    ensures
        all_complete(artifact_quality_findings(m)),
{
    reveal_strlit("Artifact Completeness & Navigation");
    lemma_text_at("Artifact Completeness & Navigation"@, 0);
    reveal_strlit("One or more submitted internal artifact links are broken.");
    lemma_text_at("One or more submitted internal artifact links are broken."@, 0);
    reveal_strlit("generated package");
    lemma_text_at("generated package"@, 0);
    reveal_strlit("Broken internal links: ");
    lemma_text_at("Broken internal links: "@, 0);
    reveal_strlit("Repair or remove every broken internal artifact link.");
    lemma_text_at("Repair or remove every broken internal artifact link."@, 0);
    let f = broken_links_finding(broken_count(m));
    assert(f.supporting_evidence[0] == 'B');
    lemma_text_at(f.supporting_evidence, 0);
}

/// The findings of a report scored from an extraction whose evidence is grounded are
/// complete.
proof fn lemma_findings_complete_grounded(
    r: ValidationReport,
    c: Corpus,
    x: ExtractionModel,
    m: DeterministicMetrics,
)
    requires
        report_of(r, c, x, m),
        grounded(x),
    ensures
        all_complete(findings_of(dimension_list(r.dimensions))),
{
    lemma_brief_fidelity_complete(c, x, m);
    lemma_assumption_complete(x);
    lemma_consistency_complete(c, m);
    lemma_evidence_complete(x);
    lemma_traceability_complete(x, m);
    lemma_actionability_complete(c, x, m);
    lemma_artifact_complete(m);
    crate::report::lemma_dimension_list(r.dimensions);
    let d = r.dimensions;
    lemma_complete_add(d.brief_fidelity@.findings, d.assumption_discipline@.findings);
    lemma_complete_add(
        d.brief_fidelity@.findings + d.assumption_discipline@.findings,
        d.cross_document_consistency@.findings,
    );
    lemma_complete_add(
        d.brief_fidelity@.findings + d.assumption_discipline@.findings
            + d.cross_document_consistency@.findings,
        d.evidence_quality@.findings,
    );
    lemma_complete_add(
        d.brief_fidelity@.findings + d.assumption_discipline@.findings
            + d.cross_document_consistency@.findings + d.evidence_quality@.findings,
        d.traceability@.findings,
    );
    lemma_complete_add(
        d.brief_fidelity@.findings + d.assumption_discipline@.findings
            + d.cross_document_consistency@.findings + d.evidence_quality@.findings
            + d.traceability@.findings,
        d.actionability@.findings,
    );
    lemma_complete_add(
        d.brief_fidelity@.findings + d.assumption_discipline@.findings
            + d.cross_document_consistency@.findings + d.evidence_quality@.findings
            + d.traceability@.findings + d.actionability@.findings,
        d.artifact_quality@.findings,
    );
}

/// The extraction of a corpus whose sources have non-blank names quotes grounded evidence in
/// every entity and every trace.
pub proof fn lemma_extraction_grounded(c: Corpus)
    requires
        sources_named(c),
    ensures
        grounded(extraction_of(c)),
{
    let x = extraction_of(c);
    let names = source_names(c);
    law_evidence_cites_sources(c);
    lemma_extraction_traces(c);
    reveal_strlit("PROJECT_MODEL.json");
    assert forall|s: Seq<char>| names.contains(s) implies has_text(s) by {
        if s == "PROJECT_MODEL.json"@ {
            lemma_text_at(s, 0);
        } else if s != crate::extract::artifact_name(c.brief.relative_path@) {
            let k = choose|k: int|
                0 <= k < c.artifacts@.len() && s == crate::extract::artifact_name(
                    c.artifacts@[k].relative_path@,
                );
            assert(trim(crate::extract::artifact_name(c.artifacts@[k].relative_path@)).len() > 0);
        }
    }
    assert forall|i: int| 0 <= i < x.entities.len() implies evidence_grounded(
        #[trigger] x.entities[i].evidence,
    ) by {
        assert(names.contains(x.entities[i].evidence.artifact));
        assert(quoted(x.entities[i].evidence));
    }
    assert forall|i: int| 0 <= i < x.traces.len() implies evidence_grounded(
        #[trigger] x.traces[i].evidence,
    ) by {
        assert(x.traces.to_set().contains(x.traces[i]));
        assert(crate::extract::valid_traces(c).contains(x.traces[i]));
    }
}

/// Every negative finding of a report carries its severity, criterion, description, artifact,
/// supporting evidence and recommended correction: every statement that can raise a finding
/// quotes non-blank evidence from a named source.
pub proof fn law_findings_complete(r: ValidationReport, c: Corpus, m: DeterministicMetrics)
    requires
        report_of(r, c, extraction_of(c), m),
        sources_named(c),
    ensures
        all_complete(findings_of(dimension_list(r.dimensions))),
{
    lemma_extraction_grounded(c);
    lemma_findings_complete_grounded(r, c, extraction_of(c), m);
}

/// Any non-zero cross-project leakage is reported as a critical retrieval failure, after the
/// critical findings; without leakage the critical failures are exactly the critical findings.
pub proof fn law_leakage_is_critical(
    r: ValidationReport,
    c: Corpus,
    x: ExtractionModel,
    m: DeterministicMetrics,
)
    requires
        report_of(r, c, x, m),
    ensures
        (m.cross_project_leakage matches Some(n) && n > 0) ==> r.critical_failures.len() > 0
            && strs(r.critical_failures@).last() == leakage_failures(m)[0],
        !(m.cross_project_leakage matches Some(n) && n > 0) ==> strs(r.critical_failures@)
            == critical_descriptions(findings_of(dimension_list(r.dimensions))),
{
    let all = findings_of(dimension_list(r.dimensions));
    assert(strs(r.critical_failures@).len() == r.critical_failures@.len());
    if !(m.cross_project_leakage matches Some(n) && n > 0) {
        assert(leakage_failures(m) =~= Seq::<Seq<char>>::empty());
        assert(critical_descriptions(all) + leakage_failures(m) =~= critical_descriptions(all));
    }
}

/// The predicate "some generated requirement shares at least half of its terms".
pub open spec fn fully_covered(gens: Seq<EntityModel>) -> spec_fn(EntityModel) -> bool {
    |r: EntityModel| covered_by(r, gens, 1, 2)
}

/// The predicate "covered by a quarter of its terms, but not by half".
pub open spec fn partly_covered(gens: Seq<EntityModel>) -> spec_fn(EntityModel) -> bool {
    |r: EntityModel| !covered_by(r, gens, 1, 2) && covered_by(r, gens, 1, 4)
}

/// The predicate "not fully covered".
pub open spec fn not_fully_covered(gens: Seq<EntityModel>) -> spec_fn(EntityModel) -> bool {
    |r: EntityModel| !covered_by(r, gens, 1, 2)
}

/// The finding of a requirement that is not fully covered: Medium when partly covered, High
/// when missing.
pub open spec fn gap_finding(gens: Seq<EntityModel>) -> spec_fn(EntityModel) -> FindingModel {
    |r: EntityModel|
        if covered_by(r, gens, 1, 4) {
            entity_finding_spec(EntityFinding::PartialRequirement, r)
        } else {
            entity_finding_spec(EntityFinding::MissingRequirement, r)
        }
}

/// Coverage credit and findings of the first `n` requirements.
proof fn lemma_coverage_prefix(reqs: Seq<EntityModel>, gens: Seq<EntityModel>, n: int)
    requires
        0 <= n <= reqs.len(),
    ensures
        credit_sum(reqs, gens, n) == 2 * reqs.take(n).filter(fully_covered(gens)).len()
            + reqs.take(n).filter(partly_covered(gens)).len(),
        coverage_findings(reqs, gens, n) == reqs.take(n).filter(not_fully_covered(gens)).map_values(
            gap_finding(gens),
        ),
    decreases n,
{
    reveal(Seq::filter);
    let t = reqs.take(n);
    if n == 0 {
        assert(t.filter(fully_covered(gens)) =~= Seq::<EntityModel>::empty());
        assert(t.filter(partly_covered(gens)) =~= Seq::<EntityModel>::empty());
        assert(t.filter(not_fully_covered(gens)) =~= Seq::<EntityModel>::empty());
        assert(t.filter(not_fully_covered(gens)).map_values(gap_finding(gens)) =~= Seq::<
            FindingModel,
        >::empty());
    } else {
        lemma_coverage_prefix(reqs, gens, n - 1);
        let r = reqs[n - 1];
        assert(t.drop_last() =~= reqs.take(n - 1));
        assert(t.last() == r);
        let nf = reqs.take(n - 1).filter(not_fully_covered(gens));
        if covered_by(r, gens, 1, 2) {
            assert(t.filter(not_fully_covered(gens)) == nf);
            assert(coverage_finding(r, gens) =~= Seq::<FindingModel>::empty());
            assert(coverage_findings(reqs, gens, n) =~= coverage_findings(reqs, gens, n - 1));
        } else {
            assert(t.filter(not_fully_covered(gens)) == nf.push(r));
            assert(nf.push(r).map_values(gap_finding(gens)) =~= nf.map_values(gap_finding(gens)).push(
                gap_finding(gens)(r),
            ));
            assert(coverage_finding(r, gens) =~= seq![gap_finding(gens)(r)]);
            assert(coverage_findings(reqs, gens, n) =~= coverage_findings(reqs, gens, n - 1).push(
                gap_finding(gens)(r),
            ));
        }
    }
}

/// Explicit-requirement coverage: each brief requirement earns full credit (two halves) when a
/// generated requirement shares at least half of its terms, half credit when one shares at
/// least a quarter, none otherwise; and each requirement not fully covered raises one finding,
/// in brief order, Medium when partly covered and High when missing.
pub proof fn law_requirement_coverage(reqs: Seq<EntityModel>, gens: Seq<EntityModel>)
    ensures
        credit_sum(reqs, gens, reqs.len() as int) == 2 * reqs.filter(fully_covered(gens)).len()
            + reqs.filter(partly_covered(gens)).len(),
        coverage_findings(reqs, gens, reqs.len() as int) == reqs.filter(
            not_fully_covered(gens),
        ).map_values(gap_finding(gens)),
        forall|i: int|
            0 <= i < coverage_findings(reqs, gens, reqs.len() as int).len() ==> (#[trigger] coverage_findings(
                reqs,
                gens,
                reqs.len() as int,
            )[i]).severity == (if covered_by(
                reqs.filter(not_fully_covered(gens))[i],
                gens,
                1,
                4,
            ) {
                Severity::Medium
            } else {
                Severity::High
            }),
{
    lemma_coverage_prefix(reqs, gens, reqs.len() as int);
    assert(reqs.take(reqs.len() as int) =~= reqs);
}

/// A score rounded to tenths does not change when its numerator and denominator are scaled
/// alike.
proof fn lemma_tenths_scale(p: int, q: int, s: int, max: int)
    requires
        q > 0,
        s > 0,
        max >= 0,
    ensures
        tenths(s * p, s * q, max) == tenths(p, q, max),
{
    assert(s * p <= 0 <==> p <= 0) by (nonlinear_arith)
        requires
            s > 0,
    ;
    assert(s * p >= max * (s * q) <==> p >= max * q) by (nonlinear_arith)
        requires
            s > 0,
    ;
    if p > 0 && p < max * q {
        assert(20 * (s * p) + s * q == s * (20 * p + q)) by (nonlinear_arith);
        assert(2 * (s * q) == s * (2 * q)) by (nonlinear_arith);
        vstd::arithmetic::div_mod::lemma_div_multiples_vanish_quotient(s, 20 * p + q, 2 * q);
    }
}

/// Brief fidelity is scored from coverage `c2 / (2n)` (credit in halves over `n` brief
/// requirements, at least one), contradiction credit `k / 3` and answer adoption `a / 1000`.
/// With user answers the weights are 8, 6 and 6 points; without, the 6 answer points are shared
/// out in the ratio 8 : 6, so coverage weighs 80/7 and contradictions 60/7. The sum is clamped
/// to 0..20 points and rounded half up to tenths; full coverage without contradictions (and
/// with every answer adopted) scores the full 20 points.
pub proof fn law_brief_fidelity_formula(c: Corpus, x: ExtractionModel, m: DeterministicMetrics)
    ensures
        ({
            let reqs = brief_reqs(x);
            let n = if reqs.len() == 0 {
                1
            } else {
                reqs.len() as int
            };
            let c2 = credit_sum(reqs, generated_reqs(x), reqs.len() as int);
            let k = contradiction_credit(contradiction_findings(c).len() as int);
            let a = or_zero(m.user_answer_adoption_rate);
            &&& !has_kind(x, EntityKind::UserAnswer) ==> brief_fidelity_score(c, x, m) == tenths(
                40 * c2 + 20 * n * k,
                7 * n,
                20,
            )
            &&& has_kind(x, EntityKind::UserAnswer) ==> brief_fidelity_score(c, x, m) == tenths(
                2000 * c2 + 1000 * n * k + 3 * a * n,
                500 * n,
                20,
            )
            &&& (reqs.len() > 0 && c2 == 2 * n && k == 3 && (has_kind(x, EntityKind::UserAnswer)
                ==> a == 1000)) ==> brief_fidelity_score(c, x, m) == 200
        }),
{
    let reqs = brief_reqs(x);
    let n = if reqs.len() == 0 {
        1
    } else {
        reqs.len() as int
    };
    let c2 = credit_sum(reqs, generated_reqs(x), reqs.len() as int);
    let k = contradiction_credit(contradiction_findings(c).len() as int);
    let a = or_zero(m.user_answer_adoption_rate);
    assert(120000 * c2 + 60000 * n * k == 3000 * (40 * c2 + 20 * n * k)) by (nonlinear_arith);
    assert(21000 * n == 3000 * (7 * n)) by (nonlinear_arith);
    lemma_tenths_scale(40 * c2 + 20 * n * k, 7 * n, 3000, 20);
    assert(84000 * c2 + 42000 * n * k + 126 * a * n == 42 * (2000 * c2 + 1000 * n * k + 3 * a * n))
        by (nonlinear_arith);
    assert(21000 * n == 42 * (500 * n)) by (nonlinear_arith);
    lemma_tenths_scale(2000 * c2 + 1000 * n * k + 3 * a * n, 500 * n, 42, 20);
    if reqs.len() > 0 && c2 == 2 * n && k == 3 {
        assert(40 * c2 + 20 * n * k == 20 * (7 * n)) by (nonlinear_arith)
            requires
                c2 == 2 * n,
                k == 3,
        ;
        if has_kind(x, EntityKind::UserAnswer) && a == 1000 {
            assert(2000 * c2 + 1000 * n * k + 3 * a * n == 20 * (500 * n)) by (nonlinear_arith)
                requires
                    c2 == 2 * n,
                    k == 3,
                    a == 1000,
            ;
        }
    }
}

/// Two artifact lists with the same paths and contents, in the same order.
pub open spec fn alike(a1: Seq<ArtifactModel>, a2: Seq<ArtifactModel>) -> bool {
    &&& a1.len() == a2.len()
    &&& forall|i: int|
        0 <= i < a1.len() ==> (#[trigger] a1[i]).relative_path == a2[i].relative_path && a1[i].content
            == a2[i].content
}

/// Two corpora with the same brief, artifact paths and contents, project model and metadata;
/// their package identities, content hashes and skipped files may differ.
pub open spec fn same_sources(c1: Corpus, c2: Corpus) -> bool {
    &&& c1.brief.relative_path@ == c2.brief.relative_path@
    &&& c1.brief.content@ == c2.brief.content@
    &&& alike(artifact_models(c1.artifacts@), artifact_models(c2.artifacts@))
    &&& c1.project_model == c2.project_model
    &&& c1.metadata == c2.metadata
}

/// What is read from an artifact list depends only on its paths and contents.
proof fn lemma_alike_reads(a1: Seq<ArtifactModel>, a2: Seq<ArtifactModel>, n: int)
    requires
        alike(a1, a2),
        0 <= n <= a1.len(),
    ensures
        crate::extract::artifacts_scan(a1, n) == crate::extract::artifacts_scan(a2, n),
        crate::metrics::artifacts_names(a1, n) == crate::metrics::artifacts_names(a2, n),
        crate::metrics::present_paths(a1) == crate::metrics::present_paths(a2),
        crate::metrics::broken_total(a1, n) == crate::metrics::broken_total(a2, n),
    decreases n,
{
    assert(crate::metrics::present_paths(a1) =~= crate::metrics::present_paths(a2)) by {
        assert forall|x: Seq<char>| crate::metrics::present_paths(a1).contains(x) implies crate::metrics::present_paths(a2).contains(x) by {
            let i = choose|i: int| 0 <= i < a1.len() && crate::metrics::normalized_path(a1[i].relative_path) == x;
            assert(a1[i].relative_path == a2[i].relative_path);
        }
        assert forall|x: Seq<char>| crate::metrics::present_paths(a2).contains(x) implies crate::metrics::present_paths(a1).contains(x) by {
            let i = choose|i: int| 0 <= i < a2.len() && crate::metrics::normalized_path(a2[i].relative_path) == x;
            assert(a1[i].relative_path == a2[i].relative_path);
        }
    }
    if n > 0 {
        lemma_alike_reads(a1, a2, n - 1);
        assert(a1[n - 1].relative_path == a2[n - 1].relative_path && a1[n - 1].content == a2[n - 1].content);
        assert(crate::extract::artifact_entities(a1[n - 1], false) == crate::extract::artifact_entities(a2[n - 1], false));
        assert(crate::extract::artifact_traces(a1[n - 1], false) == crate::extract::artifact_traces(a2[n - 1], false));
        let p = crate::metrics::present_paths(a1);
        assert(crate::metrics::broken_in(a1[n - 1], p) == crate::metrics::broken_in(a2[n - 1], p));
    }
}

/// Which artifact first contains a phrase depends only on paths and contents.
proof fn lemma_alike_first_with(a1: Seq<ArtifactModel>, a2: Seq<ArtifactModel>, phrase: Seq<char>)
    requires
        alike(a1, a2),
    ensures
        first_with(a1, phrase) == first_with(a2, phrase),
    decreases a1.len(),
{
    if a1.len() > 0 {
        assert(a1[0].relative_path == a2[0].relative_path && a1[0].content == a2[0].content);
        assert(alike(a1.drop_first(), a2.drop_first())) by {
            assert forall|i: int| 0 <= i < a1.drop_first().len() implies (#[trigger] a1.drop_first()[i]).relative_path
                == a2.drop_first()[i].relative_path && a1.drop_first()[i].content == a2.drop_first()[i].content by {
                assert(a1.drop_first()[i] == a1[i + 1] && a2.drop_first()[i] == a2[i + 1]);
            }
        }
        lemma_alike_first_with(a1.drop_first(), a2.drop_first(), phrase);
    }
}

/// Whether some artifact contains a term, or is a README, depends only on paths and contents.
proof fn lemma_alike_has(a1: Seq<ArtifactModel>, a2: Seq<ArtifactModel>, term: Seq<char>)
    requires
        alike(a1, a2),
    ensures
        generated_has(a1, term) == generated_has(a2, term),
        has_readme(a1) == has_readme(a2),
{
    if generated_has(a1, term) {
        let i = choose|i: int| 0 <= i < a1.len() && has_sub(lower(a1[i].content), term);
        assert(a1[i].content == a2[i].content);
    }
    if generated_has(a2, term) {
        let i = choose|i: int| 0 <= i < a2.len() && has_sub(lower(a2[i].content), term);
        assert(a1[i].content == a2[i].content);
    }
    if has_readme(a1) {
        let i = choose|i: int| 0 <= i < a1.len() && lower(file_name(a1[i].relative_path)) == "readme.md"@;
        assert(a1[i].relative_path == a2[i].relative_path);
    }
    if has_readme(a2) {
        let i = choose|i: int| 0 <= i < a2.len() && lower(file_name(a2[i].relative_path)) == "readme.md"@;
        assert(a1[i].relative_path == a2[i].relative_path);
    }
}

/// Corpora with the same sources are scanned alike.
proof fn lemma_same_scan(c1: Corpus, c2: Corpus)
    requires
        same_sources(c1, c2),
    ensures
        crate::extract::corpus_scan(c1) == crate::extract::corpus_scan(c2),
        crate::extract::valid_traces(c1) == crate::extract::valid_traces(c2),
        extraction_of(c1) == extraction_of(c2),
{
    let a1 = artifact_models(c1.artifacts@);
    let a2 = artifact_models(c2.artifacts@);
    lemma_alike_reads(a1, a2, a1.len() as int);
    assert(crate::extract::artifact_entities(c1.brief@, true) == crate::extract::artifact_entities(c2.brief@, true));
    assert(crate::extract::artifact_traces(c1.brief@, true) == crate::extract::artifact_traces(c2.brief@, true));
    assert(crate::extract::corpus_scan(c1) == crate::extract::corpus_scan(c2));
    assert(crate::extract::valid_traces(c1) =~= crate::extract::valid_traces(c2));
}

/// Corpora with the same sources have the same metrics and the same rubric.
#[verifier::rlimit(30)]
proof fn lemma_same_rubric(c1: Corpus, c2: Corpus, x: ExtractionModel, m: DeterministicMetrics)
    requires
        same_sources(c1, c2),
    ensures
        crate::metrics::metrics_of(m, c1, x) == crate::metrics::metrics_of(m, c2, x),
        forall|d: Dimensions| rubric_dimensions(d, c1, x, m) == rubric_dimensions(d, c2, x, m),
{
    let a1 = artifact_models(c1.artifacts@);
    let a2 = artifact_models(c2.artifacts@);
    lemma_alike_reads(a1, a2, a1.len() as int);
    assert(crate::metrics::completion(c1) == crate::metrics::completion(c2));
    assert(crate::metrics::broken_links(c1) == crate::metrics::broken_links(c2));
    assert(crate::metrics::project_name_set(c1) == crate::metrics::project_name_set(c2));
    assert forall|bt: Seq<char>, gt: Seq<char>| conflict_found(c1, bt, gt) == conflict_found(c2, bt, gt) by {
        lemma_alike_has(a1, a2, gt);
    }
    assert(contradiction_findings(c1) == contradiction_findings(c2));
    assert forall|l: Seq<char>, r: Seq<char>, k: Seq<char>| concept_conflict(c1, l, r, k) == concept_conflict(c2, l, r, k) by {
        lemma_alike_first_with(a1, a2, l);
        lemma_alike_first_with(a1, a2, r);
    }
    assert(consistency_findings(c1, m) == consistency_findings(c2, m));
    assert forall|t: Seq<char>| generated_has(a1, t) == generated_has(a2, t) by {
        lemma_alike_has(a1, a2, t);
    }
    assert(has_readme(a1) == has_readme(a2)) by {
        lemma_alike_has(a1, a2, seq![]);
    }
    assert(concrete_terms(a1) == concrete_terms(a2));
    assert(architecture_points(c1, x) == architecture_points(c2, x));
    assert(brief_fidelity_score(c1, x, m) == brief_fidelity_score(c2, x, m));
    assert(brief_fidelity_findings(c1, x, m) == brief_fidelity_findings(c2, x, m));
    assert(actionability_score(c1, x, m) == actionability_score(c2, x, m));
    assert(actionability_findings(c1, x, m) == actionability_findings(c2, x, m));
    assert(artifact_quality_score(c1, m) == artifact_quality_score(c2, m));
}

/// The report never depends on the package identity or on content hashes: two corpora with
/// the same brief, artifact paths and contents, project model and metadata have the same
/// extraction, the metrics of one are the metrics of the other, and their reports agree in
/// every dimension, total, list and note.
pub proof fn law_report_ignores_identity(
    c1: Corpus,
    c2: Corpus,
    m: DeterministicMetrics,
    r1: ValidationReport,
    r2: ValidationReport,
)
    requires
        same_sources(c1, c2),
        crate::metrics::metrics_of(m, c1, extraction_of(c1)),
        report_of(r1, c1, extraction_of(c1), m),
        report_of(r2, c2, extraction_of(c2), m),
    ensures
        extraction_of(c1) == extraction_of(c2),
        crate::metrics::metrics_of(m, c2, extraction_of(c2)),
        dimension_list(r1.dimensions) == dimension_list(r2.dimensions),
        r1.drpfs == r2.drpfs,
        strs(r1.critical_failures@) == strs(r2.critical_failures@),
        strs(r1.strengths@) == strs(r2.strengths@),
        strs(r1.highest_priority_improvements@) == strs(r2.highest_priority_improvements@),
        strs(r1.unsupported_decisions@) == strs(r2.unsupported_decisions@),
        strs(r1.unresolved_assumptions_and_questions@) == strs(
            r2.unresolved_assumptions_and_questions@,
        ),
        r1.external_verification_note@ == r2.external_verification_note@,
{
    lemma_same_scan(c1, c2);
    let x = extraction_of(c1);
    lemma_same_rubric(c1, c2, x, m);
    assert(rubric_dimensions(r2.dimensions, c1, x, m));
    assert(report_of(r2, c1, x, m));
    law_scoring_isolated(r1, r2, c1, x, m);
}

/// Some finding of a list has criterion `k`.
pub open spec fn has_criterion(fs: Seq<FindingModel>, k: Seq<char>) -> bool {
    exists|i: int| 0 <= i < fs.len() && (#[trigger] fs[i]).criterion == k
}

/// Some finding of a list has failure mode `mode`.
pub open spec fn has_mode(fs: Seq<FindingModel>, mode: Seq<char>) -> bool {
    exists|i: int| 0 <= i < fs.len() && (#[trigger] fs[i]).failure_mode == Some(mode)
}

/// The predicate "has failure mode `mode`".
pub open spec fn with_mode(mode: Seq<char>) -> spec_fn(FindingModel) -> bool {
    |f: FindingModel| f.failure_mode == Some(mode)
}

/// Filtering keeps a list whose elements all pass.
proof fn lemma_filter_keeps_all<A>(s: Seq<A>, p: spec_fn(A) -> bool)
    requires
        forall|i: int| 0 <= i < s.len() ==> p(#[trigger] s[i]),
    ensures
        s.filter(p) == s,
    decreases s.len(),
{
    reveal(Seq::filter);
    if s.len() > 0 {
        lemma_filter_keeps_all(s.drop_last(), p);
        assert(s.drop_last().push(s.last()) =~= s);
    } else {
        assert(s.filter(p) =~= s);
    }
}

/// Filtering empties a list whose elements all fail.
proof fn lemma_filter_drops_all<A>(s: Seq<A>, p: spec_fn(A) -> bool)
    requires
        forall|i: int| 0 <= i < s.len() ==> !p(#[trigger] s[i]),
    ensures
        s.filter(p).len() == 0,
    decreases s.len(),
{
    reveal(Seq::filter);
    if s.len() > 0 {
        lemma_filter_drops_all(s.drop_last(), p);
    }
}

/// Assumption discipline raises one AssumptionPromotion finding per unsupported high-impact
/// choice, and a FalseCompleteness finding exactly when unsupported choices exist and no open
/// question is visible.
pub proof fn law_assumption_findings(x: ExtractionModel)
    ensures
        assumption_discipline_findings(x).filter(with_mode("AssumptionPromotion"@)).len()
            == unsupported_reps(x).filter(picks(x, Pick::HighImpact)).len(),
        has_mode(assumption_discipline_findings(x), "FalseCompleteness"@) <==> (unsupported_reps(
            x,
        ).len() > 0 && !has_kind(x, EntityKind::OpenQuestion)),
{
    reveal_strlit("AssumptionPromotion");
    reveal_strlit("FalseCompleteness");
    let ap = "AssumptionPromotion"@;
    let fc = "FalseCompleteness"@;
    assert(ap != fc) by {
        assert(ap[0] != fc[0]);
    }
    let reps = unsupported_reps(x);
    let promoted = reps.filter(picks(x, Pick::HighImpact)).map_values(
        entity_finding_fn(EntityFinding::AssumptionPromotion),
    );
    let hidden = if reps.len() > 0 && !has_kind(x, EntityKind::OpenQuestion) {
        seq![entity_finding_spec(EntityFinding::HiddenUnknown, reps[0])]
    } else {
        seq![]
    };
    let fs = assumption_discipline_findings(x);
    assert(fs == promoted + hidden);
    assert forall|i: int| 0 <= i < promoted.len() implies with_mode(ap)(#[trigger] promoted[i]) by {}
    assert forall|i: int| 0 <= i < hidden.len() implies !with_mode(ap)(#[trigger] hidden[i]) by {}
    lemma_filter_keeps_all(promoted, with_mode(ap));
    lemma_filter_drops_all(hidden, with_mode(ap));
    Seq::filter_distributes_over_add(promoted, hidden, with_mode(ap));
    if has_mode(fs, fc) {
        let i = choose|i: int| 0 <= i < fs.len() && (#[trigger] fs[i]).failure_mode == Some(fc);
        if i < promoted.len() {
            assert(fs[i] == promoted[i]);
        }
    }
    if reps.len() > 0 && !has_kind(x, EntityKind::OpenQuestion) {
        assert(fs[promoted.len() as int] == hidden[0]);
    }
}

/// Actionability raises an Actionability.A finding exactly when acceptance-criteria coverage
/// is not 100%, and an Actionability.C finding exactly when unsupported choices exist and no
/// open question is visible.
pub proof fn law_actionability_findings(c: Corpus, x: ExtractionModel, m: DeterministicMetrics)
    requires
        m.acceptance_criteria_coverage matches Some(v) ==> v <= 1000,
    ensures
        has_criterion(actionability_findings(c, x, m), "Actionability.A"@) <==> m.acceptance_criteria_coverage
            != Some(1000u32),
        has_criterion(actionability_findings(c, x, m), "Actionability.C"@) <==> (unsupported_reps(
            x,
        ).len() > 0 && !has_kind(x, EntityKind::OpenQuestion)),
{
    reveal_strlit("Actionability.A");
    reveal_strlit("Actionability.B");
    reveal_strlit("Actionability.C");
    let ka = "Actionability.A"@;
    let kb = "Actionability.B"@;
    let kc = "Actionability.C"@;
    assert(ka != kb && ka != kc && kb != kc) by {
        assert(ka[14] != kb[14] && ka[14] != kc[14] && kb[14] != kc[14]);
    }
    let reps = unsupported_reps(x);
    let a = if or_zero(m.acceptance_criteria_coverage) < 1000 {
        seq![criteria_gap(m.acceptance_criteria_coverage)]
    } else {
        seq![]
    };
    let b = if architecture_points(c, x) < 5 {
        seq![architecture_gap()]
    } else {
        seq![]
    };
    let o = if complexity_terms(artifact_models(c.artifacts@)) >= 3 && brief_reqs(x).len() <= 2 {
        seq![over_engineering()]
    } else {
        seq![]
    };
    let h = if reps.len() > 0 && !has_kind(x, EntityKind::OpenQuestion) {
        seq![entity_finding_spec(EntityFinding::HiddenBlocker, reps[0])]
    } else {
        seq![]
    };
    let fs = actionability_findings(c, x, m);
    assert(fs == a + b + o + h);
    assert(or_zero(m.acceptance_criteria_coverage) < 1000 <==> m.acceptance_criteria_coverage
        != Some(1000u32));
    if a.len() > 0 {
        assert(fs[0] == a[0]);
    }
    if h.len() > 0 {
        assert(fs[fs.len() - 1] == h[0]);
    }
    if has_criterion(fs, ka) {
        let i = choose|i: int| 0 <= i < fs.len() && (#[trigger] fs[i]).criterion == ka;
        if i < a.len() {
            assert(fs[i] == a[i]);
        } else if i < a.len() + b.len() {
            assert(fs[i] == b[i - a.len()]);
        } else if i < a.len() + b.len() + o.len() {
            assert(fs[i] == o[i - a.len() - b.len()]);
        } else {
            assert(fs[i] == h[i - a.len() - b.len() - o.len()]);
        }
    }
    if has_criterion(fs, kc) {
        let i = choose|i: int| 0 <= i < fs.len() && (#[trigger] fs[i]).criterion == kc;
        if i < a.len() {
            assert(fs[i] == a[i]);
        } else if i < a.len() + b.len() {
            assert(fs[i] == b[i - a.len()]);
        } else if i < a.len() + b.len() + o.len() {
            assert(fs[i] == o[i - a.len() - b.len()]);
        } else {
            assert(fs[i] == h[i - a.len() - b.len() - o.len()]);
        }
    }
}

/// The rank of a severity, most severe highest.
pub open spec fn severity_rank(s: Severity) -> int {
    match s {
        Severity::Critical => 3,
        Severity::High => 2,
        Severity::Medium => 1,
        Severity::Low => 0,
    }
}

/// The highest-priority improvements come from the findings ordered by descending severity
/// (Critical, High, Medium, Low, each in report order): they are the first distinct corrections
/// of that order, at most seven, and when there are at most seven distinct corrections every
/// one of them is listed.
pub proof fn law_improvements_ranked(fs: Seq<FindingModel>)
    ensures
        forall|i: int, j: int|
            0 <= i < j < by_severity(fs).len() ==> severity_rank((#[trigger] by_severity(fs)[i]).severity)
                >= severity_rank((#[trigger] by_severity(fs)[j]).severity),
        by_severity(fs).len() == fs.len(),
        ({
            let corr = by_severity(fs).map_values(finding_text(true));
            let d = first_occurrences(corr);
            &&& improvements(fs) == d.take(if d.len() > 7 { 7 } else { d.len() as int })
            &&& forall|t: Seq<char>| improvements(fs).contains(t) ==> corr.contains(t)
            &&& d.len() <= 7 ==> forall|t: Seq<char>| corr.contains(t) ==> improvements(fs).contains(t)
        }),
{
    let c = fs.filter(of_severity(Severity::Critical));
    let h = fs.filter(of_severity(Severity::High));
    let m = fs.filter(of_severity(Severity::Medium));
    let l = fs.filter(of_severity(Severity::Low));
    let b = by_severity(fs);
    assert(b == c + h + m + l);
    assert forall|i: int| 0 <= i < c.len() implies (#[trigger] c[i]).severity == Severity::Critical by {
        fs.lemma_filter_pred(of_severity(Severity::Critical), i);
    }
    assert forall|i: int| 0 <= i < h.len() implies (#[trigger] h[i]).severity == Severity::High by {
        fs.lemma_filter_pred(of_severity(Severity::High), i);
    }
    assert forall|i: int| 0 <= i < m.len() implies (#[trigger] m[i]).severity == Severity::Medium by {
        fs.lemma_filter_pred(of_severity(Severity::Medium), i);
    }
    assert forall|i: int| 0 <= i < l.len() implies (#[trigger] l[i]).severity == Severity::Low by {
        fs.lemma_filter_pred(of_severity(Severity::Low), i);
    }
    assert forall|i: int| 0 <= i < b.len() implies severity_rank((#[trigger] b[i]).severity) == (if i
        < c.len() {
        3
    } else if i < c.len() + h.len() {
        2
    } else if i < c.len() + h.len() + m.len() {
        1
    } else {
        0int
    }) by {
        if i < c.len() {
            assert(b[i] == c[i]);
        } else if i < c.len() + h.len() {
            assert(b[i] == h[i - c.len()]);
        } else if i < c.len() + h.len() + m.len() {
            assert(b[i] == m[i - c.len() - h.len()]);
        } else {
            assert(b[i] == l[i - c.len() - h.len() - m.len()]);
        }
    }
    lemma_severity_partition(fs);
    let corr = b.map_values(finding_text(true));
    let d = first_occurrences(corr);
    lemma_first_occurrences(corr);
    if d.len() <= 7 {
        assert(d.take(d.len() as int) =~= d);
    }
    assert forall|t: Seq<char>| improvements(fs).contains(t) implies corr.contains(t) by {
        let k = choose|k: int| 0 <= k < improvements(fs).len() && improvements(fs)[k] == t;
        if d.len() > 7 {
            assert(d.take(7)[k] == d[k]);
        }
        assert(d.contains(t));
    }
}

/// The four severity classes of a list of findings together hold as many findings as the list.
proof fn lemma_severity_partition(fs: Seq<FindingModel>)
    ensures
        by_severity(fs).len() == fs.len(),
    decreases fs.len(),
{
    reveal(Seq::filter);
    if fs.len() > 0 {
        lemma_severity_partition(fs.drop_last());
    }
}

/// The rubric's traceability scale: coverage of 100% earns the full 9 points, 90–99% 8, 80–89%
/// 7, 70–79% 6, 60–69% 5, 50–59% 4, and below 50% at most 3 (none without coverage); the points
/// never fall as coverage rises. With full coverage, no unsupported decision and no
/// traceability theater the dimension scores its full 15 points.
pub proof fn law_traceability_scale(c1: int, c2: int, x: ExtractionModel, m: DeterministicMetrics)
    ensures
        c1 <= c2 ==> trace_points(c1) <= trace_points(c2),
        c1 >= 1000 ==> trace_points(c1) == 9,
        900 <= c1 < 1000 ==> trace_points(c1) == 8,
        800 <= c1 < 900 ==> trace_points(c1) == 7,
        700 <= c1 < 800 ==> trace_points(c1) == 6,
        600 <= c1 < 700 ==> trace_points(c1) == 5,
        500 <= c1 < 600 ==> trace_points(c1) == 4,
        c1 < 500 ==> 0 <= trace_points(c1) <= 3,
        c1 <= 0 ==> trace_points(c1) == 0,
        (m.requirement_traceability_coverage == Some(1000u32) && m.unsupported_decision_rate == Some(
            0u32,
        ) && x.traces.filter(trace_flag_fn(x, TraceFinding::Theater)).len() == 0)
            ==> traceability_score(x, m) == 150,
{
}

} // verus!
