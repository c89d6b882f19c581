//! Deterministic metrics calculated only from authoritative submitted records.
//!
//! Percentages are held in tenths of a percent: `505` stands for `50.5%`.
use vstd::prelude::*;

use crate::extract::{
    entity_models, trace_models, EntityKind, EntityModel, ExtractedEntity, Extraction,
    ExtractionModel, TraceLink, TraceModel,
};
use crate::corpus::{artifact_models, Artifact, ArtifactModel, Corpus};
use crate::extract::{artifact_name, slash_path};
use crate::json::{find_key, json_find, member_get, object_get, JsonMember, JsonValue};
use crate::order::{insert_sorted, strictly_sorted};
use crate::text::{
    begins_with, chars_eq, chars_of as lit, contains, find_sub, first_in, first_sub, has_sub,
    lines, lower, next_in_class, split_by, split_chars, split_lines, starts_with, strip, strip_chars,
    strip_start, strip_start_chars, string_of, sub_vec, to_lower, to_upper, trim, trim_chars, upper,
    views, CharClass,
};

verus! {

/// Stores deterministic metrics calculated only from authoritative submitted records.
///
/// Rates are tenths of a percent; absent values are unavailable, never zero by default.
#[derive(Clone, Debug, Default, PartialEq)]
pub struct DeterministicMetrics {
    /// Percentage of metadata-declared required artifacts that exist.
    pub required_artifact_completion: Option<u32>,
    /// Percentage of identified requirements referenced by an acceptance criterion.
    pub acceptance_criteria_coverage: Option<u32>,
    /// Percentage of identified requirements participating in an explicit trace.
    pub requirement_traceability_coverage: Option<u32>,
    /// Percentage of identified decisions lacking explicit valid provenance.
    pub unsupported_decision_rate: Option<u32>,
    /// Percentage of detected high-impact inferences explicitly labeled as assumptions.
    pub high_impact_assumption_labeling_rate: Option<u32>,
    /// Percentage of research-dependent decisions linked to identified evidence.
    pub evidence_linkage_rate: Option<u32>,
    /// Count of resolvable submitted internal links whose targets do not exist.
    pub broken_internal_links: Option<usize>,
    /// Distinct submitted project-name variants discovered from explicit fields.
    pub conflicting_project_names: Vec<String>,
    /// Count of unresolved high or critical findings supplied in metadata.
    pub unresolved_high_severity_findings: Option<usize>,
    /// Identifiers of unresolved high or critical findings supplied in metadata.
    pub unresolved_high_severity_finding_ids: Vec<String>,
    /// Percentage of identified user answers participating in an explicit trace.
    pub user_answer_adoption_rate: Option<u32>,
    /// Number of records retrieved from a different project.
    pub cross_project_leakage: Option<usize>,
    /// Supplied context size reported by execution metadata.
    pub context_supplied: Option<u64>,
    /// Retrieval operation count reported by execution metadata.
    pub retrieval_calls: Option<u64>,
    /// Number of questions shown to the user when supplied.
    pub user_questions: Option<u64>,
    /// Number of model calls when supplied.
    pub model_calls: Option<u64>,
    /// Total token usage when supplied.
    pub token_usage: Option<u64>,
}

/// `n` out of `d` as tenths of a percent, rounded half up.
pub open spec fn pct(n: int, d: int) -> int {
    (2000 * n + d) / (2 * d)
}

/// A rate over a denominator, unavailable when the denominator is zero.
pub open spec fn rate(n: int, d: int) -> Option<int> {
    if d == 0 {
        None
    } else {
        Some(pct(n, d))
    }
}

/// An optional exact integer.
pub open spec fn opt_int(o: Option<u32>) -> Option<int> {
    match o {
        Some(x) => Some(x as int),
        None => None,
    }
}

/// Converts a numerator and denominator into tenths of a percent, unavailable for a zero
/// denominator; the rate must fit the result type.
pub fn percentage(numerator: usize, denominator: usize) -> (r: Option<u32>)
    requires
        denominator > 0 ==> pct(numerator as int, denominator as int) <= u32::MAX,
    ensures
        opt_int(r) == rate(numerator as int, denominator as int),
        numerator <= denominator ==> (r matches Some(v) ==> v <= 1000),
{
    if denominator == 0 {
        return None;
    }
    let n = numerator as u128;
    let d = denominator as u128;
    assert(2000 * n + d <= 2001 * 0x1_0000_0000_0000_0000u128);
    let v = (2000 * n + d) / (2 * d);
    if numerator > denominator {
        return Some(v as u32);
    }
    assert(v <= 1000) by (nonlinear_arith)
        requires
            v == (2000 * n + d) / (2 * d),
            n <= d,
            d > 0,
    {
        assert(2000 * n + d <= 2001 * d);
        assert((2000 * n + d) / (2 * d) <= (2001 * d) / (2 * d)) by {
            vstd::arithmetic::div_mod::lemma_div_is_ordered(
                (2000 * n + d) as int,
                (2001 * d) as int,
                (2 * d) as int,
            );
        }
        vstd::arithmetic::div_mod::lemma_div_multiples_vanish_quotient(
            d as int,
            2001,
            2,
        );
    }
    Some(v as u32)
}

/// A rate is unavailable exactly when its denominator is zero, and otherwise lies between 0%
/// and 100% (0 and 1000 tenths) when its numerator counts part of its denominator.
pub proof fn law_rate_bounds(n: int, d: int)
    requires
        0 <= n <= d,
    ensures
        rate(n, d) is None <==> d == 0,
        rate(n, d) matches Some(v) ==> 0 <= v <= 1000,
{
    if d > 0 {
        let v = pct(n, d);
        assert(0 <= v <= 1000) by (nonlinear_arith)
            requires
                v == (2000 * n + d) / (2 * d),
                0 <= n <= d,
                d > 0,
        {
            assert(2000 * n + d <= 2001 * d);
            vstd::arithmetic::div_mod::lemma_div_is_ordered(2000 * n + d, 2001 * d, 2 * d);
            vstd::arithmetic::div_mod::lemma_div_multiples_vanish_quotient(d, 2001, 2);
        }
    }
}

/// The identifiers of the entities satisfying `p`.
pub open spec fn ids_where(es: Seq<EntityModel>, p: spec_fn(EntityModel) -> bool) -> Set<Seq<char>> {
    Set::new(|x: Seq<char>| exists|i: int| 0 <= i < es.len() && p(es[i]) && es[i].id == Some(x))
}

/// The predicate "has role `k`".
pub open spec fn of_kind(k: EntityKind) -> spec_fn(EntityModel) -> bool {
    |e: EntityModel| e.kind == k
}

/// The identifiers of entities with role `k`.
pub open spec fn kind_ids(es: Seq<EntityModel>, k: EntityKind) -> Set<Seq<char>> {
    ids_where(es, of_kind(k))
}

/// One more entity adds its identifier when it satisfies `p`.
pub proof fn lemma_ids_where_step(es: Seq<EntityModel>, p: spec_fn(EntityModel) -> bool, n: int)
    requires
        0 <= n < es.len(),
    ensures
        ids_where(es.take(n + 1), p) == if p(es[n]) && es[n].id is Some {
            ids_where(es.take(n), p).insert(es[n].id->0)
        } else {
            ids_where(es.take(n), p)
        },
{
    let a = es.take(n + 1);
    let b = es.take(n);
    let target = if p(es[n]) && es[n].id is Some {
        ids_where(b, p).insert(es[n].id->0)
    } else {
        ids_where(b, p)
    };
    assert forall|x: Seq<char>| ids_where(a, p).contains(x) == target.contains(x) by {
        if ids_where(a, p).contains(x) {
            let i = choose|i: int| 0 <= i < a.len() && p(a[i]) && a[i].id == Some(x);
            if i < n {
                assert(b[i] == a[i]);
            }
        }
        if ids_where(b, p).contains(x) {
            let i = choose|i: int| 0 <= i < b.len() && p(b[i]) && b[i].id == Some(x);
            assert(a[i] == b[i]);
        }
        if p(es[n]) && es[n].id == Some(x) {
            assert(a[n] == es[n]);
        }
    }
    assert(ids_where(a, p) =~= target);
}

/// Adds a text to a duplicate-free list unless it is already present.
pub fn push_unique(list: &mut Vec<Vec<char>>, x: Vec<char>)
    requires
        views(old(list)@).no_duplicates(),
    ensures
        views(final(list)@).no_duplicates(),
        views(final(list)@).to_set() == views(old(list)@).to_set().insert(x@),
{
    let ghost before = views(list@);
    let mut i: usize = 0;
    while i < list.len()
        invariant
            i <= list.len(),
            before == views(list@),
            before.no_duplicates(),
            forall|k: int| 0 <= k < i ==> before[k] != x@,
        decreases list.len() - i,
    {
        if chars_eq(&list[i], &x) {
            assert(before[i as int] == x@);
            assert(before.to_set().insert(x@) =~= before.to_set());
            return;
        }
        i = i + 1;
    }
    let ghost xv = x@;
    list.push(x);
    assert(views(list@) =~= before.push(xv));
    proof {
        before.lemma_push_to_set_commute(xv);
    }
}

/// A duplicate-free list describing a set fixes the set's size.
pub proof fn lemma_card(list: Seq<Seq<char>>, s: Set<Seq<char>>)
    requires
        list.no_duplicates(),
        list.to_set() == s,
    ensures
        s.finite(),
        s.len() == list.len(),
{
    list.unique_seq_to_set();
    vstd::seq_lib::seq_to_set_is_finite(list);
}

/// Collects the distinct identifiers of entities with role `k`.
pub fn unique_kind_ids(es: &Vec<ExtractedEntity>, k: EntityKind) -> (r: Vec<Vec<char>>)
    ensures
        views(r@).no_duplicates(),
        views(r@).to_set() == kind_ids(entity_models(es@), k),
{
    let ghost em = entity_models(es@);
    let mut r: Vec<Vec<char>> = Vec::new();
    let mut i: usize = 0;
    assert(ids_where(em.take(0), of_kind(k)) =~= Set::empty());
    assert(views(r@).to_set() =~= Set::empty());
    while i < es.len()
        invariant
            i <= es.len(),
            em == entity_models(es@),
            views(r@).no_duplicates(),
            views(r@).to_set() == ids_where(em.take(i as int), of_kind(k)),
        decreases es.len() - i,
    {
        proof {
            lemma_ids_where_step(em, of_kind(k), i as int);
        }
        if es[i].kind == k {
            match &es[i].id {
                Some(id) => {
                    push_unique(&mut r, lit(id.as_str()));
                },
                None => {},
            }
        }
        i = i + 1;
    }
    assert(em.take(es.len() as int) =~= em);
    r
}

/// Keeping the elements of a duplicate-free list that satisfy `q`.
pub proof fn lemma_filter_unique(
    list: Seq<Seq<char>>,
    kept: Seq<Seq<char>>,
    q: spec_fn(Seq<char>) -> bool,
    i: int,
)
    requires
        list.no_duplicates(),
        0 <= i < list.len(),
        kept.no_duplicates(),
        kept.to_set() == Set::new(|x: Seq<char>| list.take(i).contains(x) && q(x)),
    ensures
        q(list[i]) ==> kept.push(list[i]).no_duplicates() && kept.push(list[i]).to_set() == Set::new(
            |x: Seq<char>| list.take(i + 1).contains(x) && q(x),
        ),
        !q(list[i]) ==> kept.to_set() == Set::new(
            |x: Seq<char>| list.take(i + 1).contains(x) && q(x),
        ),
{
    let next = Set::new(|x: Seq<char>| list.take(i + 1).contains(x) && q(x));
    assert forall|x: Seq<char>| list.take(i + 1).contains(x) == (list.take(i).contains(x) || x
        == list[i]) by {
        crate::extract::lemma_take_push_contains(list, i, x);
    }
    if q(list[i]) {
        assert(!kept.contains(list[i])) by {
            if kept.contains(list[i]) {
                assert(kept.to_set().contains(list[i]));
                let k = choose|k: int| 0 <= k < i && #[trigger] list.take(i)[k] == list[i];
                assert(list[k] == list[i]);
            }
        }
        let p = kept.push(list[i]);
        assert forall|a: int, b: int| 0 <= a < b < p.len() implies p[a] != p[b] by {
            if b == p.len() - 1 {
                assert(kept.contains(p[a]) ==> p[a] != list[i]);
                assert(kept[a] == p[a]);
            } else {
                assert(kept[a] == p[a] && kept[b] == p[b]);
            }
        }
        kept.lemma_push_to_set_commute(list[i]);
        assert forall|x: Seq<char>| p.to_set().contains(x) == next.contains(x) by {
            assert(p.to_set().contains(x) == (kept.to_set().contains(x) || x == list[i]));
        }
        assert(p.to_set() =~= next);
    } else {
        assert(kept.to_set() =~= next);
    }
}

/// The requirement identifiers covered by an acceptance criterion that names them.
pub open spec fn ac_covers(es: Seq<EntityModel>, x: Seq<char>) -> bool {
    exists|i: int|
        0 <= i < es.len() && es[i].kind == EntityKind::AcceptanceCriterion
            && es[i].related_ids.contains(x)
}

/// `x` is an endpoint of some validated trace.
pub open spec fn touches(ts: Seq<TraceModel>, x: Seq<char>) -> bool {
    exists|i: int| 0 <= i < ts.len() && (ts[i].from_id == x || ts[i].to_id == x)
}

/// Coverage of identified requirements by acceptance criteria.
pub open spec fn acceptance_coverage(x: ExtractionModel) -> Option<int> {
    let reqs = kind_ids(x.entities, EntityKind::Requirement);
    let covered = Set::new(|id: Seq<char>| reqs.contains(id) && ac_covers(x.entities, id));
    rate(covered.len() as int, reqs.len() as int)
}

/// Coverage of identified requirements by validated traces.
pub open spec fn traceability_coverage(x: ExtractionModel) -> Option<int> {
    let reqs = kind_ids(x.entities, EntityKind::Requirement);
    let traced = Set::new(|id: Seq<char>| reqs.contains(id) && touches(x.traces, id));
    rate(traced.len() as int, reqs.len() as int)
}

/// Share of identified user answers participating in a validated trace.
pub open spec fn answer_adoption(x: ExtractionModel) -> Option<int> {
    let ans = kind_ids(x.entities, EntityKind::UserAnswer);
    let adopted = Set::new(|id: Seq<char>| ans.contains(id) && touches(x.traces, id));
    rate(adopted.len() as int, ans.len() as int)
}

/// Decides whether a text is a validated trace endpoint.
pub fn trace_touches(traces: &Vec<TraceLink>, id: &[char]) -> (r: bool)
    ensures
        r == touches(trace_models(traces@), id@),
{
    let ghost tm = trace_models(traces@);
    let mut i: usize = 0;
    while i < traces.len()
        invariant
            i <= traces.len(),
            tm == trace_models(traces@),
            forall|k: int| 0 <= k < i ==> !(tm[k].from_id == id@ || tm[k].to_id == id@),
        decreases traces.len() - i,
    {
        let from = lit(traces[i].from_id.as_str());
        let to = lit(traces[i].to_id.as_str());
        if chars_eq(&from, id) || chars_eq(&to, id) {
            assert(tm[i as int].from_id == from@ && tm[i as int].to_id == to@);
            return true;
        }
        i = i + 1;
    }
    false
}

/// Decides whether some acceptance criterion names `id` among its related identifiers.
pub fn criterion_covers(es: &Vec<ExtractedEntity>, id: &[char]) -> (r: bool)
    ensures
        r == ac_covers(entity_models(es@), id@),
{
    let ghost em = entity_models(es@);
    let mut i: usize = 0;
    while i < es.len()
        invariant
            i <= es.len(),
            em == entity_models(es@),
            forall|k: int|
                0 <= k < i ==> !(em[k].kind == EntityKind::AcceptanceCriterion
                    && #[trigger] em[k].related_ids.contains(id@)),
        decreases es.len() - i,
    {
        if es[i].kind == EntityKind::AcceptanceCriterion {
            let related = &es[i].related_ids;
            assert(em[i as int].related_ids == crate::extract::strs(related@));
            let mut j: usize = 0;
            while j < related.len()
                invariant
                    i < es.len(),
                    em[i as int].kind == EntityKind::AcceptanceCriterion,
                    j <= related.len(),
                    em == entity_models(es@),
                    em[i as int].related_ids == crate::extract::strs(related@),
                    forall|q: int| 0 <= q < j ==> em[i as int].related_ids[q] != id@,
                decreases related.len() - j,
            {
                if chars_eq(&lit(related[j].as_str()), id) {
                    assert(em[i as int].related_ids[j as int] == id@);
                    assert(em[i as int].related_ids.contains(id@));
                    return true;
                }
                j = j + 1;
            }
        }
        i = i + 1;
    }
    false
}

/// Which identifier predicate a filtered count uses.
pub enum IdTest {
    /// Named by an acceptance criterion.
    CoveredByCriterion,
    /// An endpoint of a validated trace.
    Traced,
}

/// The identifier predicate selected by `t`.
pub open spec fn id_test(x: ExtractionModel, t: IdTest) -> spec_fn(Seq<char>) -> bool {
    match t {
        IdTest::CoveredByCriterion => |id: Seq<char>| ac_covers(x.entities, id),
        IdTest::Traced => |id: Seq<char>| touches(x.traces, id),
    }
}

/// Counts the identifiers of a duplicate-free list that pass test `t`.
pub fn count_passing(x: &Extraction, list: &Vec<Vec<char>>, t: IdTest) -> (r: usize)
    requires
        views(list@).no_duplicates(),
    ensures
        r == Set::new(|id: Seq<char>| views(list@).to_set().contains(id) && id_test(x@, t)(id)).len(),
        r <= list.len(),
{
    let ghost lv = views(list@);
    let ghost q = id_test(x@, t);
    let mut kept: Vec<Vec<char>> = Vec::new();
    let mut i: usize = 0;
    assert(views(kept@).to_set() =~= Set::new(|id: Seq<char>| lv.take(0).contains(id) && q(id)));
    while i < list.len()
        invariant
            i <= list.len(),
            lv == views(list@),
            lv.no_duplicates(),
            q == id_test(x@, t),
            views(kept@).no_duplicates(),
            views(kept@).to_set() == Set::new(|id: Seq<char>| lv.take(i as int).contains(id) && q(id)),
            kept.len() <= i,
        decreases list.len() - i,
    {
        proof {
            lemma_filter_unique(lv, views(kept@), q, i as int);
        }
        let pass = match t {
            IdTest::CoveredByCriterion => criterion_covers(&x.entities, &list[i]),
            IdTest::Traced => trace_touches(&x.traces, &list[i]),
        };
        if pass {
            let ghost before = views(kept@);
            kept.push(sub_copy(&list[i]));
            assert(views(kept@) =~= before.push(lv[i as int]));
        }
        i = i + 1;
    }
    assert(lv.take(list.len() as int) =~= lv);
    assert(views(kept@).to_set() =~= Set::new(|id: Seq<char>| lv.to_set().contains(id) && q(id)));
    proof {
        lemma_card(views(kept@), views(kept@).to_set());
    }
    kept.len()
}

/// Copies a character vector.
pub fn sub_copy(v: &Vec<char>) -> (r: Vec<char>)
    ensures
        r@ == v@,
{
    let r = crate::text::sub_vec(v, 0, v.len());
    assert(v@.subrange(0, v@.len() as int) =~= v@);
    r
}

/// A rate of identifiers with role `k` that pass test `t`.
pub fn kind_rate(x: &Extraction, k: EntityKind, t: IdTest) -> (r: Option<u32>)
    ensures
        opt_int(r) == ({
            let ids = kind_ids(x@.entities, k);
            let passing = Set::new(|id: Seq<char>| ids.contains(id) && id_test(x@, t)(id));
            rate(passing.len() as int, ids.len() as int)
        }),
        r matches Some(v) ==> v <= 1000,
{
    let ids = unique_kind_ids(&x.entities, k);
    proof {
        lemma_card(views(ids@), kind_ids(x@.entities, k));
    }
    let n = count_passing(x, &ids, t);
    proof {
        law_rate_bounds(n as int, ids.len() as int);
    }
    percentage(n, ids.len())
}

/// Calculates coverage from explicit requirement IDs referenced by acceptance criteria.
pub fn acceptance_criteria_coverage(x: &Extraction) -> (r: Option<u32>)
    ensures
        opt_int(r) == acceptance_coverage(x@),
        r matches Some(v) ==> v <= 1000,
{
    let r = kind_rate(x, EntityKind::Requirement, IdTest::CoveredByCriterion);
    let ghost reqs = kind_ids(x@.entities, EntityKind::Requirement);
    assert(Set::new(|id: Seq<char>| reqs.contains(id) && id_test(x@, IdTest::CoveredByCriterion)(id))
        =~= Set::new(|id: Seq<char>| reqs.contains(id) && ac_covers(x@.entities, id)));
    r
}

/// Calculates traceability from explicit links touching identified requirement IDs.
pub fn requirement_traceability_coverage(x: &Extraction) -> (r: Option<u32>)
    ensures
        opt_int(r) == traceability_coverage(x@),
        r matches Some(v) ==> v <= 1000,
{
    let r = kind_rate(x, EntityKind::Requirement, IdTest::Traced);
    let ghost reqs = kind_ids(x@.entities, EntityKind::Requirement);
    assert(Set::new(|id: Seq<char>| reqs.contains(id) && id_test(x@, IdTest::Traced)(id))
        =~= Set::new(|id: Seq<char>| reqs.contains(id) && touches(x@.traces, id)));
    r
}

/// Calculates adoption from identified user-answer IDs participating in explicit traces.
pub fn user_answer_adoption_rate(x: &Extraction) -> (r: Option<u32>)
    ensures
        opt_int(r) == answer_adoption(x@),
        r matches Some(v) ==> v <= 1000,
{
    let r = kind_rate(x, EntityKind::UserAnswer, IdTest::Traced);
    let ghost ans = kind_ids(x@.entities, EntityKind::UserAnswer);
    assert(Set::new(|id: Seq<char>| ans.contains(id) && id_test(x@, IdTest::Traced)(id))
        =~= Set::new(|id: Seq<char>| ans.contains(id) && touches(x@.traces, id)));
    r
}


/// Identifier prefixes accepted as decision provenance.
pub open spec fn provenance_id(x: Seq<char>) -> bool {
    ||| begins_with(x, "REQ-"@)
    ||| begins_with(x, "ANS-"@)
    ||| begins_with(x, "ASM-"@)
    ||| begins_with(x, "ASSUMPTION-"@)
    ||| begins_with(x, "CON-"@)
    ||| begins_with(x, "CST-"@)
    ||| begins_with(x, "EVD-"@)
    ||| begins_with(x, "SRC-"@)
}

/// Identifier prefixes of evidence records.
pub open spec fn evidence_id(x: Seq<char>) -> bool {
    begins_with(x, "EVD-"@) || begins_with(x, "SRC-"@)
}

/// Recognizes identifier prefixes accepted as decision provenance.
pub fn is_provenance_identifier(x: &[char]) -> (r: bool)
    ensures
        r == provenance_id(x@),
{
    starts_with(x, &lit("REQ-")) || starts_with(x, &lit("ANS-")) || starts_with(x, &lit("ASM-"))
        || starts_with(x, &lit("ASSUMPTION-")) || starts_with(x, &lit("CON-")) || starts_with(
        x,
        &lit("CST-"),
    ) || starts_with(x, &lit("EVD-")) || starts_with(x, &lit("SRC-"))
}

/// Recognizes evidence-record identifier prefixes.
pub fn is_evidence_identifier(x: &[char]) -> (r: bool)
    ensures
        r == evidence_id(x@),
{
    starts_with(x, &lit("EVD-")) || starts_with(x, &lit("SRC-"))
}

/// Consequential platform, persistence, identity, deployment and business vocabulary.
pub open spec fn high_impact(text: Seq<char>) -> bool {
    let l = lower(text);
    ||| has_sub(l, "platform"@)
    ||| has_sub(l, "framework"@)
    ||| has_sub(l, "multiplayer"@)
    ||| has_sub(l, "authentication"@)
    ||| has_sub(l, "database"@)
    ||| has_sub(l, "postgres"@)
    ||| has_sub(l, "persistence"@)
    ||| has_sub(l, "deployment"@)
    ||| has_sub(l, "monetization"@)
    ||| has_sub(l, "regulatory"@)
    ||| has_sub(l, "cloud"@)
}

/// Detects consequential platform, persistence, identity, deployment, and business choices.
pub fn contains_high_impact_concept(text: &[char]) -> (r: bool)
    ensures
        r == high_impact(text@),
{
    let l = to_lower(text);
    contains(&l, &lit("platform")) || contains(&l, &lit("framework")) || contains(
        &l,
        &lit("multiplayer"),
    ) || contains(&l, &lit("authentication")) || contains(&l, &lit("database")) || contains(
        &l,
        &lit("postgres"),
    ) || contains(&l, &lit("persistence")) || contains(&l, &lit("deployment")) || contains(
        &l,
        &lit("monetization"),
    ) || contains(&l, &lit("regulatory")) || contains(&l, &lit("cloud"))
}

/// A high-impact concept of the statement that the (lower-cased) brief also names.
pub open spec fn concept_in_brief(text: Seq<char>, brief: Seq<char>) -> bool {
    let l = lower(text);
    ||| has_sub(l, "platform"@) && has_sub(brief, "platform"@)
    ||| has_sub(l, "framework"@) && has_sub(brief, "framework"@)
    ||| has_sub(l, "multiplayer"@) && has_sub(brief, "multiplayer"@)
    ||| has_sub(l, "authentication"@) && has_sub(brief, "authentication"@)
    ||| has_sub(l, "database"@) && has_sub(brief, "database"@)
    ||| has_sub(l, "postgres"@) && has_sub(brief, "postgres"@)
    ||| has_sub(l, "persistence"@) && has_sub(brief, "persistence"@)
    ||| has_sub(l, "deployment"@) && has_sub(brief, "deployment"@)
    ||| has_sub(l, "monetization"@) && has_sub(brief, "monetization"@)
    ||| has_sub(l, "regulatory"@) && has_sub(brief, "regulatory"@)
    ||| has_sub(l, "cloud"@) && has_sub(brief, "cloud"@)
}

/// Whether a concept occurs in both texts.
fn in_both(l: &[char], brief: &[char], c: &str) -> (r: bool)
    ensures
        r == (has_sub(l@, c@) && has_sub(brief@, c@)),
{
    let cc = lit(c);
    contains(l, &cc) && contains(brief, &cc)
}

/// Checks whether a high-impact concept in a decision was explicitly present in the brief.
pub fn concept_is_present_in_brief(text: &[char], brief: &[char]) -> (r: bool)
    ensures
        r == concept_in_brief(text@, brief@),
{
    let l = to_lower(text);
    in_both(&l, brief, "platform") || in_both(&l, brief, "framework") || in_both(
        &l,
        brief,
        "multiplayer",
    ) || in_both(&l, brief, "authentication") || in_both(&l, brief, "database") || in_both(
        &l,
        brief,
        "postgres",
    ) || in_both(&l, brief, "persistence") || in_both(&l, brief, "deployment") || in_both(
        &l,
        brief,
        "monetization",
    ) || in_both(&l, brief, "regulatory") || in_both(&l, brief, "cloud")
}

/// Wording that claims research, evidence, or externally verified support.
pub open spec fn research_text(text: Seq<char>) -> bool {
    let l = lower(text);
    ||| has_sub(l, "research"@)
    ||| has_sub(l, "evidence"@)
    ||| has_sub(l, "study"@)
    ||| has_sub(l, "benchmark"@)
    ||| has_sub(l, "market data"@)
    ||| has_sub(l, "regulation"@)
}

/// Detects wording that claims research, evidence, or externally verified support.
pub fn has_research_wording(text: &[char]) -> (r: bool)
    ensures
        r == research_text(text@),
{
    let l = to_lower(text);
    contains(&l, &lit("research")) || contains(&l, &lit("evidence")) || contains(&l, &lit("study"))
        || contains(&l, &lit("benchmark")) || contains(&l, &lit("market data")) || contains(
        &l,
        &lit("regulation"),
    )
}

/// Some related identifier of the entity satisfies `p`.
pub open spec fn related_any(e: EntityModel, p: spec_fn(Seq<char>) -> bool) -> bool {
    exists|j: int| 0 <= j < e.related_ids.len() && p(e.related_ids[j])
}

/// The predicate "is a provenance identifier".
pub open spec fn provenance_pred() -> spec_fn(Seq<char>) -> bool {
    |x: Seq<char>| provenance_id(x)
}

/// The predicate "is an evidence identifier".
pub open spec fn evidence_pred() -> spec_fn(Seq<char>) -> bool {
    |x: Seq<char>| evidence_id(x)
}

/// A decision that explicitly claims research dependence.
pub open spec fn research_dependent(e: EntityModel) -> bool {
    research_text(e.text) || related_any(e, evidence_pred())
}

/// A validated trace joins `x` to an identifier satisfying `p`.
pub open spec fn trace_joins(ts: Seq<TraceModel>, x: Seq<char>, p: spec_fn(Seq<char>) -> bool) -> bool {
    exists|i: int|
        0 <= i < ts.len() && ((ts[i].from_id == x && p(ts[i].to_id)) || (ts[i].to_id == x && p(
            ts[i].from_id,
        )))
}

/// A decision entity with identifier `x` has valid explicit provenance.
pub open spec fn valid_provenance(e: EntityModel, ts: Seq<TraceModel>, x: Seq<char>) -> bool {
    related_any(e, provenance_pred()) || trace_joins(ts, x, provenance_pred())
}

/// Whether some related identifier of an entity passes the provenance or evidence test.
pub fn related_has(e: &ExtractedEntity, evidence_only: bool) -> (r: bool)
    ensures
        r == related_any(e@, if evidence_only { evidence_pred() } else { provenance_pred() }),
{
    let ghost p = if evidence_only { evidence_pred() } else { provenance_pred() };
    let mut j: usize = 0;
    while j < e.related_ids.len()
        invariant
            j <= e.related_ids.len(),
            p == (if evidence_only { evidence_pred() } else { provenance_pred() }),
            forall|q: int| 0 <= q < j ==> !p(#[trigger] e@.related_ids[q]),
        decreases e.related_ids.len() - j,
    {
        let x = lit(e.related_ids[j].as_str());
        let ok = if evidence_only {
            is_evidence_identifier(&x)
        } else {
            is_provenance_identifier(&x)
        };
        if ok {
            assert(p(e@.related_ids[j as int]));
            return true;
        }
        j = j + 1;
    }
    false
}

/// Whether a validated trace joins `x` to a provenance or evidence identifier.
pub fn trace_joins_test(traces: &Vec<TraceLink>, x: &[char], evidence_only: bool) -> (r: bool)
    ensures
        r == trace_joins(
            trace_models(traces@),
            x@,
            if evidence_only { evidence_pred() } else { provenance_pred() },
        ),
{
    let ghost p = if evidence_only { evidence_pred() } else { provenance_pred() };
    let ghost tm = trace_models(traces@);
    let mut i: usize = 0;
    while i < traces.len()
        invariant
            i <= traces.len(),
            tm == trace_models(traces@),
            p == (if evidence_only { evidence_pred() } else { provenance_pred() }),
            forall|k: int|
                0 <= k < i ==> !((tm[k].from_id == x@ && p(tm[k].to_id)) || (tm[k].to_id == x@ && p(
                    tm[k].from_id,
                ))),
        decreases traces.len() - i,
    {
        let from = lit(traces[i].from_id.as_str());
        let to = lit(traces[i].to_id.as_str());
        let test_to = if evidence_only {
            is_evidence_identifier(&to)
        } else {
            is_provenance_identifier(&to)
        };
        let test_from = if evidence_only {
            is_evidence_identifier(&from)
        } else {
            is_provenance_identifier(&from)
        };
        if (chars_eq(&from, x) && test_to) || (chars_eq(&to, x) && test_from) {
            assert(tm[i as int].from_id == from@ && tm[i as int].to_id == to@);
            return true;
        }
        i = i + 1;
    }
    false
}

/// Checks whether an explicit trace connects a decision to evidence.
pub fn trace_links_evidence(traces: &Vec<TraceLink>, x: &[char]) -> (r: bool)
    ensures
        r == trace_joins(trace_models(traces@), x@, evidence_pred()),
{
    trace_joins_test(traces, x, true)
}

/// Determines whether a decision has a valid explicit source, requirement, answer, or assumption.
pub fn entity_has_valid_provenance(e: &ExtractedEntity, traces: &Vec<TraceLink>, x: &[char]) -> (r: bool)
    ensures
        r == valid_provenance(e@, trace_models(traces@), x@),
{
    related_has(e, false) || trace_joins_test(traces, x, false)
}

/// Detects decisions that explicitly claim research, evidence, or externally verified support.
pub fn research_dependent_entity(e: &ExtractedEntity) -> (r: bool)
    ensures
        r == research_dependent(e@),
{
    let t = lit(e.text.as_str());
    has_research_wording(&t) || related_has(e, true)
}

/// Some decision entity with identifier `x` satisfies `p`.
pub open spec fn some_decision(es: Seq<EntityModel>, x: Seq<char>, p: spec_fn(EntityModel) -> bool) -> bool {
    exists|i: int|
        0 <= i < es.len() && es[i].kind == EntityKind::Decision && es[i].id == Some(x) && p(es[i])
}

/// The decision identifiers without any valid provenance.
pub open spec fn unsupported_ids(x: ExtractionModel) -> Set<Seq<char>> {
    let ds = kind_ids(x.entities, EntityKind::Decision);
    Set::new(
        |id: Seq<char>|
            ds.contains(id) && !some_decision(
                x.entities,
                id,
                |e: EntityModel| valid_provenance(e, x.traces, id),
            ),
    )
}

/// The decision identifiers that claim research dependence.
pub open spec fn research_ids(x: ExtractionModel) -> Set<Seq<char>> {
    let ds = kind_ids(x.entities, EntityKind::Decision);
    Set::new(
        |id: Seq<char>| ds.contains(id) && some_decision(x.entities, id, |e: EntityModel| research_dependent(e)),
    )
}

/// The research-dependent decision identifiers linked to evidence.
pub open spec fn linked_ids(x: ExtractionModel) -> Set<Seq<char>> {
    let rs = research_ids(x);
    Set::new(
        |id: Seq<char>|
            rs.contains(id) && some_decision(
                x.entities,
                id,
                |e: EntityModel| related_any(e, evidence_pred()) || trace_joins(x.traces, id, evidence_pred()),
            ),
    )
}

/// Share of identified decisions without valid provenance.
pub open spec fn unsupported_rate(x: ExtractionModel) -> Option<int> {
    rate(unsupported_ids(x).len() as int, kind_ids(x.entities, EntityKind::Decision).len() as int)
}

/// Share of research-dependent decisions linked to evidence.
pub open spec fn linkage_rate(x: ExtractionModel) -> Option<int> {
    rate(linked_ids(x).len() as int, research_ids(x).len() as int)
}

/// Which decision test a scan applies.
pub enum DecisionTest {
    /// Has valid provenance.
    Provenance,
    /// Claims research dependence.
    Research,
    /// Is linked to evidence.
    Linked,
}

/// The entity predicate of a decision test for identifier `id`.
pub open spec fn decision_pred(x: ExtractionModel, id: Seq<char>, t: DecisionTest) -> spec_fn(EntityModel) -> bool {
    match t {
        DecisionTest::Provenance => |e: EntityModel| valid_provenance(e, x.traces, id),
        DecisionTest::Research => |e: EntityModel| research_dependent(e),
        DecisionTest::Linked => |e: EntityModel|
            related_any(e, evidence_pred()) || trace_joins(x.traces, id, evidence_pred()),
    }
}

/// Whether some decision entity with identifier `id` passes test `t`.
pub fn some_decision_passes(x: &Extraction, id: &[char], t: &DecisionTest) -> (r: bool)
    ensures
        r == some_decision(x@.entities, id@, decision_pred(x@, id@, *t)),
{
    let ghost em = x@.entities;
    let ghost p = decision_pred(x@, id@, *t);
    let mut i: usize = 0;
    while i < x.entities.len()
        invariant
            i <= x.entities.len(),
            em == x@.entities,
            p == decision_pred(x@, id@, *t),
            forall|k: int|
                0 <= k < i ==> !(em[k].kind == EntityKind::Decision && em[k].id == Some(id@) && p(
                    #[trigger] em[k],
                )),
        decreases x.entities.len() - i,
    {
        let e = &x.entities[i];
        if e.kind == EntityKind::Decision {
            match &e.id {
                Some(eid) => {
                    if chars_eq(&lit(eid.as_str()), id) {
                        let pass = match t {
                            DecisionTest::Provenance => entity_has_valid_provenance(e, &x.traces, id),
                            DecisionTest::Research => research_dependent_entity(e),
                            DecisionTest::Linked => related_has(e, true) || trace_links_evidence(
                                &x.traces,
                                id,
                            ),
                        };
                        if pass {
                            assert(p(em[i as int]));
                            return true;
                        }
                    }
                },
                None => {},
            }
        }
        i = i + 1;
    }
    false
}

/// Keeps the identifiers of a duplicate-free list for which some decision passes `t`
/// (or, when `negate`, for which none does).
pub fn filter_decisions(x: &Extraction, list: &Vec<Vec<char>>, t: DecisionTest, negate: bool) -> (r: Vec<Vec<char>>)
    requires
        views(list@).no_duplicates(),
    ensures
        views(r@).no_duplicates(),
        views(r@).to_set() == Set::new(
            |id: Seq<char>|
                views(list@).to_set().contains(id) && (some_decision(
                    x@.entities,
                    id,
                    decision_pred(x@, id, t),
                ) != negate),
        ),
        r.len() <= list.len(),
{
    let ghost lv = views(list@);
    let ghost q = |id: Seq<char>| some_decision(x@.entities, id, decision_pred(x@, id, t)) != negate;
    let mut kept: Vec<Vec<char>> = Vec::new();
    let mut i: usize = 0;
    assert(views(kept@).to_set() =~= Set::new(|id: Seq<char>| lv.take(0).contains(id) && q(id)));
    while i < list.len()
        invariant
            i <= list.len(),
            lv == views(list@),
            lv.no_duplicates(),
            q == (|id: Seq<char>| some_decision(x@.entities, id, decision_pred(x@, id, t)) != negate),
            views(kept@).no_duplicates(),
            views(kept@).to_set() == Set::new(|id: Seq<char>| lv.take(i as int).contains(id) && q(id)),
            kept.len() <= i,
        decreases list.len() - i,
    {
        proof {
            lemma_filter_unique(lv, views(kept@), q, i as int);
        }
        let found = some_decision_passes(x, &list[i], &t);
        if found != negate {
            let ghost before = views(kept@);
            kept.push(sub_copy(&list[i]));
            assert(views(kept@) =~= before.push(lv[i as int]));
        }
        i = i + 1;
    }
    assert(lv.take(list.len() as int) =~= lv);
    assert(views(kept@).to_set() =~= Set::new(
        |id: Seq<char>| lv.to_set().contains(id) && q(id),
    ));
    kept
}

/// Calculates the share of identified decisions with no explicit provenance endpoint.
pub fn unsupported_decision_rate(x: &Extraction) -> (r: Option<u32>)
    ensures
        opt_int(r) == unsupported_rate(x@),
        r matches Some(v) ==> v <= 1000,
{
    let ds = unique_kind_ids(&x.entities, EntityKind::Decision);
    let unsupported = filter_decisions(x, &ds, DecisionTest::Provenance, true);
    proof {
        lemma_card(views(ds@), kind_ids(x@.entities, EntityKind::Decision));
        assert(views(unsupported@).to_set() =~= unsupported_ids(x@));
        lemma_card(views(unsupported@), unsupported_ids(x@));
    }
    proof {
        law_rate_bounds(unsupported.len() as int, ds.len() as int);
    }
    percentage(unsupported.len(), ds.len())
}

/// Calculates explicit evidence linkage for decisions whose text claims research dependence.
pub fn evidence_linkage_rate(x: &Extraction) -> (r: Option<u32>)
    ensures
        opt_int(r) == linkage_rate(x@),
        r matches Some(v) ==> v <= 1000,
{
    let ds = unique_kind_ids(&x.entities, EntityKind::Decision);
    let research = filter_decisions(x, &ds, DecisionTest::Research, false);
    let linked = filter_decisions(x, &research, DecisionTest::Linked, false);
    proof {
        assert(views(research@).to_set() =~= research_ids(x@));
        lemma_card(views(research@), research_ids(x@));
        assert(views(linked@).to_set() =~= linked_ids(x@));
        lemma_card(views(linked@), linked_ids(x@));
    }
    proof {
        law_rate_bounds(linked.len() as int, research.len() as int);
    }
    percentage(linked.len(), research.len())
}

/// Explicit assumptions that name a high-impact concept, counted over the first `n` entities.
pub open spec fn labeled_count(es: Seq<EntityModel>, n: int) -> int
    decreases n,
{
    if n <= 0 {
        0
    } else {
        labeled_count(es, n - 1) + if es[n - 1].kind == EntityKind::Assumption && high_impact(
            es[n - 1].text,
        ) {
            1int
        } else {
            0int
        }
    }
}

/// Unlabeled high-impact decisions absent from the brief and without related identifiers,
/// counted over the first `n` entities.
pub open spec fn implicit_count(es: Seq<EntityModel>, brief: Seq<char>, n: int) -> int
    decreases n,
{
    if n <= 0 {
        0
    } else {
        implicit_count(es, brief, n - 1) + if es[n - 1].kind == EntityKind::Decision && high_impact(
            es[n - 1].text,
        ) && !concept_in_brief(es[n - 1].text, brief) && es[n - 1].related_ids.len() == 0 {
            1int
        } else {
            0int
        }
    }
}

/// Labeling coverage of high-impact inferred choices.
pub open spec fn labeling_rate(es: Seq<EntityModel>, brief: Seq<char>) -> Option<int> {
    let b = lower(brief);
    let l = labeled_count(es, es.len() as int);
    let m = implicit_count(es, b, es.len() as int);
    rate(l, l + m)
}

/// Calculates labeling coverage for explicit and implicit high-impact inferred choices.
pub fn assumption_labeling_rate(brief: &str, x: &Extraction) -> (r: Option<u32>)
    ensures
        opt_int(r) == labeling_rate(x@.entities, brief@),
        r matches Some(v) ==> v <= 1000,
{
    let b = to_lower(&lit(brief));
    let ghost em = x@.entities;
    let mut labeled: usize = 0;
    let mut implicit: usize = 0;
    let mut i: usize = 0;
    while i < x.entities.len()
        invariant
            i <= x.entities.len(),
            em == x@.entities,
            b@ == lower(brief@),
            labeled == labeled_count(em, i as int),
            implicit == implicit_count(em, b@, i as int),
            labeled + implicit <= i,
        decreases x.entities.len() - i,
    {
        let e = &x.entities[i];
        let t = lit(e.text.as_str());
        if e.kind == EntityKind::Assumption && contains_high_impact_concept(&t) {
            labeled = labeled + 1;
        } else if e.kind == EntityKind::Decision && contains_high_impact_concept(&t)
            && !concept_is_present_in_brief(&t, &b) && e.related_ids.len() == 0 {
            implicit = implicit + 1;
        }
        i = i + 1;
    }
    proof {
        law_rate_bounds(labeled as int, labeled + implicit as int);
    }
    percentage(labeled, labeled + implicit)
}


/// Path pieces between slashes, without empty and `.` pieces.
pub open spec fn raw_components(p: Seq<char>) -> Seq<Seq<char>> {
    split_by(p, CharClass::Slash).filter(|c: Seq<char>| c.len() > 0 && c != "."@)
}

/// Components left after applying each `..` to the component before it.
pub open spec fn resolve_components(cs: Seq<Seq<char>>) -> Seq<Seq<char>>
    decreases cs.len(),
{
    if cs.len() == 0 {
        seq![]
    } else {
        let prev = resolve_components(cs.drop_last());
        if cs.last() == ".."@ {
            if prev.len() > 0 {
                prev.drop_last()
            } else {
                prev
            }
        } else {
            prev.push(cs.last())
        }
    }
}

/// Components joined by slashes.
pub open spec fn join_slash(cs: Seq<Seq<char>>) -> Seq<char>
    decreases cs.len(),
{
    if cs.len() == 0 {
        seq![]
    } else if cs.len() == 1 {
        cs[0]
    } else {
        join_slash(cs.drop_last()) + seq!['/'] + cs.last()
    }
}

/// A lexically normalized, lower-cased form of a list of raw components.
pub open spec fn normalize_components(cs: Seq<Seq<char>>) -> Seq<char> {
    lower(join_slash(resolve_components(cs)))
}

/// A package-relative path normalized for stable case-insensitive comparison.
pub open spec fn normalized_path(p: Seq<char>) -> Seq<char> {
    normalize_components(raw_components(p))
}

/// The normalized target of a link written in artifact `source`.
pub open spec fn resolved_link(source: Seq<char>, target: Seq<char>) -> Seq<char> {
    let t = artifact_name(target);
    let src = raw_components(source);
    let parent = if src.len() > 0 {
        src.drop_last()
    } else {
        seq![]
    };
    if t.len() > 0 && t[0] == '/' {
        normalize_components(raw_components(t))
    } else {
        normalize_components(parent + raw_components(t))
    }
}

/// Splits a path into its raw components.
pub fn path_components(p: &[char]) -> (r: Vec<Vec<char>>)
    ensures
        views(r@) == raw_components(p@),
{
    let pieces = split_chars(p, CharClass::Slash);
    let ghost all = views(pieces@);
    let dot = lit(".");
    let mut r: Vec<Vec<char>> = Vec::new();
    let mut i: usize = 0;
    while i < pieces.len()
        invariant
            i <= pieces.len(),
            all == views(pieces@),
            all == split_by(p@, CharClass::Slash),
            dot@ == "."@,
            views(r@) == all.take(i as int).filter(|c: Seq<char>| c.len() > 0 && c != "."@),
        decreases pieces.len() - i,
    {
        let ghost before = r@;
        assert(all.take(i + 1).drop_last() =~= all.take(i as int));
        assert(all.take(i + 1).last() == all[i as int]);
        reveal(Seq::filter);
        if pieces[i].len() > 0 && !chars_eq(&pieces[i], &dot) {
            let c = sub_vec(&pieces[i], 0, pieces[i].len());
            assert(c@ =~= pieces@[i as int]@);
            r.push(c);
            assert(views(r@) =~= views(before).push(all[i as int]));
        }
        i = i + 1;
    }
    assert(all.take(pieces.len() as int) =~= all);
    r
}

/// Applies `..` components and joins the result, lower-cased.
pub fn normalize_list(cs: &Vec<Vec<char>>) -> (r: Vec<char>)
    ensures
        r@ == normalize_components(views(cs@)),
{
    let ghost cv = views(cs@);
    let parent = lit("..");
    let mut stack: Vec<Vec<char>> = Vec::new();
    let mut i: usize = 0;
    while i < cs.len()
        invariant
            i <= cs.len(),
            cv == views(cs@),
            parent@ == ".."@,
            views(stack@) == resolve_components(cv.take(i as int)),
        decreases cs.len() - i,
    {
        assert(cv.take(i + 1).drop_last() =~= cv.take(i as int));
        assert(cv.take(i + 1).last() == cv[i as int]);
        let ghost before = views(stack@);
        if chars_eq(&cs[i], &parent) {
            if stack.len() > 0 {
                stack.pop();
                assert(views(stack@) =~= before.drop_last());
            }
        } else {
            stack.push(sub_vec(&cs[i], 0, cs[i].len()));
            assert(cs@[i as int]@.subrange(0, cs@[i as int]@.len() as int) =~= cs@[i as int]@);
            assert(views(stack@) =~= before.push(cv[i as int]));
        }
        i = i + 1;
    }
    assert(cv.take(cs.len() as int) =~= cv);
    let ghost sv = views(stack@);
    let mut joined: Vec<char> = Vec::new();
    let mut k: usize = 0;
    while k < stack.len()
        invariant
            k <= stack.len(),
            sv == views(stack@),
            joined@ == join_slash(sv.take(k as int)),
        decreases stack.len() - k,
    {
        assert(sv.take(k + 1).drop_last() =~= sv.take(k as int));
        if k > 0 {
            joined.push('/');
        }
        let mut j: usize = 0;
        let ghost base = joined@;
        let piece = &stack[k];
        while j < piece.len()
            invariant
                piece@ == stack@[k as int]@,
                j <= piece.len(),
                sv == views(stack@),
                k < stack.len(),
                joined@ == base + stack[k as int]@.take(j as int),
            decreases piece.len() - j,
        {
            joined.push(piece[j]);
            j = j + 1;
            assert(joined@ =~= base + stack[k as int]@.take(j as int));
        }
        assert(stack[k as int]@.take(j as int) =~= stack[k as int]@);
        proof {
            if k == 0 {
                assert(sv.take(1) =~= seq![sv[0]]);
                assert(joined@ =~= sv[0]);
            } else {
                assert(joined@ =~= join_slash(sv.take(k as int)) + seq!['/'] + sv[k as int]);
            }
        }
        k = k + 1;
    }
    assert(sv.take(stack.len() as int) =~= sv);
    to_lower(&joined)
}

/// Normalizes a package-relative path for stable case-insensitive comparison.
pub fn normalize_path(p: &[char]) -> (r: Vec<char>)
    ensures
        r@ == normalized_path(p@),
{
    let cs = path_components(p);
    normalize_list(&cs)
}

/// Resolves one relative link against its source artifact using lexical components.
pub fn resolve_link(source: &[char], target: &[char]) -> (r: Vec<char>)
    ensures
        r@ == resolved_link(source@, target@),
{
    let t = slash_path(target);
    if t.len() > 0 && t[0] == '/' {
        let cs = path_components(&t);
        return normalize_list(&cs);
    }
    let src = path_components(source);
    let tc = path_components(&t);
    let mut all: Vec<Vec<char>> = Vec::new();
    let n = if src.len() > 0 {
        src.len() - 1
    } else {
        0
    };
    let mut i: usize = 0;
    let ghost parent = if views(src@).len() > 0 {
        views(src@).drop_last()
    } else {
        seq![]
    };
    while i < n
        invariant
            i <= n,
            n == if src.len() > 0 {
                src.len() - 1
            } else {
                0
            },
            parent == (if views(src@).len() > 0 {
                views(src@).drop_last()
            } else {
                seq![]
            }),
            views(all@) == parent.take(i as int),
        decreases n - i,
    {
        let ghost before = views(all@);
        let c = sub_vec(&src[i], 0, src[i].len());
        assert(src@[i as int]@.subrange(0, src@[i as int]@.len() as int) =~= src@[i as int]@);
        assert(parent[i as int] == views(src@)[i as int]);
        all.push(c);
        assert(views(all@) =~= before.push(c@));
        assert(parent.take(i + 1) =~= parent.take(i as int).push(parent[i as int]));
        i = i + 1;
    }
    assert(parent.take(n as int) =~= parent);
    let mut j: usize = 0;
    while j < tc.len()
        invariant
            j <= tc.len(),
            views(all@) == parent + views(tc@).take(j as int),
        decreases tc.len() - j,
    {
        let ghost before = views(all@);
        let c = sub_vec(&tc[j], 0, tc[j].len());
        assert(tc@[j as int]@.subrange(0, tc@[j as int]@.len() as int) =~= tc@[j as int]@);
        all.push(c);
        assert(views(all@) =~= before.push(c@));
        assert(views(tc@).take(j + 1) =~= views(tc@).take(j as int).push(views(tc@)[j as int]));
        j = j + 1;
        assert(views(all@) =~= parent + views(tc@).take(j as int));
    }
    assert(views(tc@).take(tc.len() as int) =~= views(tc@));
    normalize_list(&all)
}

/// Web, mail, data, script and same-document link targets.
pub open spec fn external_link(t: Seq<char>) -> bool {
    let l = lower(t);
    ||| t.len() > 0 && t[0] == '#'
    ||| has_sub(l, "://"@)
    ||| begins_with(l, "mailto:"@)
    ||| begins_with(l, "tel:"@)
    ||| begins_with(l, "data:"@)
    ||| begins_with(l, "javascript:"@)
}

/// Distinguishes web, mail, data, and same-document links from file targets.
pub fn is_external_link(t: &[char]) -> (r: bool)
    ensures
        r == external_link(t@),
{
    let l = to_lower(t);
    (t.len() > 0 && t[0] == '#') || contains(&l, &lit("://")) || starts_with(&l, &lit("mailto:"))
        || starts_with(&l, &lit("tel:")) || starts_with(&l, &lit("data:")) || starts_with(
        &l,
        &lit("javascript:"),
    )
}

/// The part of `s` before the first occurrence of `p`, or all of `s`.
pub open spec fn before_sub(s: Seq<char>, p: Seq<char>) -> Seq<char> {
    if first_sub(s, p) >= 0 {
        s.take(first_sub(s, p))
    } else {
        s
    }
}

/// The link target written between `](` and `)`: trimmed, angle brackets removed, a quoted
/// title dropped.
pub open spec fn link_target(raw: Seq<char>) -> Seq<char> {
    let r = strip(strip(trim(raw), CharClass::OpenAngle), CharClass::CloseAngle);
    trim(before_sub(r, " \""@))
}

/// A link target's path, before any `#` fragment or `?` query.
pub open spec fn link_path(t: Seq<char>) -> Seq<char> {
    t.take(first_in(t, CharClass::LinkSuffix) as int)
}

/// Non-external, non-empty Markdown link paths of a text, in order.
pub open spec fn link_targets(s: Seq<char>) -> Seq<Seq<char>>
    decreases s.len(),
{
    let a = first_sub(s, "]("@);
    if a < 0 || a + 2 > s.len() {
        seq![]
    } else {
        let rest = s.skip(a + 2);
        let e = first_in(rest, CharClass::CloseParen);
        if e >= rest.len() {
            seq![]
        } else {
            let t = link_target(rest.take(e as int));
            let here = if !external_link(t) && link_path(t).len() > 0 {
                seq![link_path(t)]
            } else {
                seq![]
            };
            here + link_targets(rest.skip((e + 1) as int))
        }
    }
}

/// Extracts non-external, non-anchor Markdown link targets from submitted text.
pub fn internal_link_targets(content: &[char]) -> (r: Vec<Vec<char>>)
    ensures
        views(r@) == link_targets(content@),
{
    let open = lit("](");
    let quote = lit(" \"");
    let mut r: Vec<Vec<char>> = Vec::new();
    let mut pos: usize = 0;
    assert(content@.skip(0) =~= content@);
    assert(views(r@) =~= Seq::<Seq<char>>::empty());
    loop
        invariant
            pos <= content.len(),
            open@ == "]("@,
            quote@ == " \""@,
            link_targets(content@) == views(r@) + link_targets(content@.skip(pos as int)),
        decreases content.len() - pos,
    {
        let rem = sub_vec(content, pos, content.len());
        assert(rem@ =~= content@.skip(pos as int));
        let a = match find_sub(&rem, &open) {
            Some(a) => a,
            None => {
                assert(views(r@) + link_targets(rem@) =~= views(r@));
                return r;
            },
        };
        proof {
            reveal_strlit("](");
        }
        let start = a + 2;
        let e = next_in_class(&rem, start, CharClass::CloseParen);
        let ghost rest = rem@.skip(start as int);
        assert(rem@.skip(start as int).skip(0) =~= rest);
        if e >= rem.len() {
            assert(views(r@) + link_targets(rem@) =~= views(r@));
            return r;
        }
        let inner = sub_vec(&rem, start, e);
        assert(inner@ =~= rest.take((e - start) as int));
        let t0 = trim_chars(&inner);
        let t1 = strip_chars(&t0, CharClass::OpenAngle);
        let t2 = strip_chars(&t1, CharClass::CloseAngle);
        let t3 = match find_sub(&t2, &quote) {
            Some(q) => sub_vec(&t2, 0, q),
            None => sub_vec(&t2, 0, t2.len()),
        };
        assert(t3@ =~= before_sub(t2@, " \""@));
        let target = trim_chars(&t3);
        let ghost before = views(r@);
        if !is_external_link(&target) {
            let cut = next_in_class(&target, 0, CharClass::LinkSuffix);
            assert(target@.skip(0) =~= target@);
            let path = sub_vec(&target, 0, cut);
            if path.len() > 0 {
                r.push(path);
            }
        }
        assert(rest.skip((e - start) + 1) =~= content@.skip(pos + e + 1));
        assert(views(r@) + link_targets(content@.skip(pos + e + 1)) =~= before + link_targets(
            rem@,
        ));
        pos = pos + e + 1;
    }
}

/// Normalized paths of a sequence of artifacts.
pub open spec fn present_paths(arts: Seq<ArtifactModel>) -> Set<Seq<char>> {
    Set::new(|x: Seq<char>| exists|i: int| 0 <= i < arts.len() && normalized_path(arts[i].relative_path) == x)
}

/// Links of one artifact whose resolved target is not a submitted artifact.
pub open spec fn broken_in(a: ArtifactModel, present: Set<Seq<char>>) -> int {
    link_targets(a.content).filter(|t: Seq<char>| !present.contains(resolved_link(a.relative_path, t))).len() as int
}

/// Broken links in the first `n` artifacts.
pub open spec fn broken_total(arts: Seq<ArtifactModel>, n: int) -> int
    decreases n,
{
    if n <= 0 {
        0
    } else {
        broken_total(arts, n - 1) + broken_in(arts[n - 1], present_paths(arts))
    }
}

/// Collects the normalized paths of a sequence of artifacts.
pub fn present_list(arts: &Vec<Artifact>) -> (r: Vec<Vec<char>>)
    ensures
        forall|x: Seq<char>| #![auto] views(r@).contains(x) == present_paths(artifact_models(arts@)).contains(x),
{
    let ghost am = artifact_models(arts@);
    let mut r: Vec<Vec<char>> = Vec::new();
    let mut i: usize = 0;
    while i < arts.len()
        invariant
            i <= arts.len(),
            am == artifact_models(arts@),
            r.len() == i,
            forall|k: int| 0 <= k < i ==> #[trigger] views(r@)[k] == normalized_path(am[k].relative_path),
        decreases arts.len() - i,
    {
        let ghost before = views(r@);
        let np = normalize_path(&lit(arts[i].relative_path.as_str()));
        r.push(np);
        assert(views(r@) =~= before.push(np@));
        i = i + 1;
    }
    assert forall|x: Seq<char>| #![auto] views(r@).contains(x) == present_paths(am).contains(x) by {
        if views(r@).contains(x) {
            let k = choose|k: int| 0 <= k < views(r@).len() && views(r@)[k] == x;
            assert(normalized_path(am[k].relative_path) == x);
        }
        if present_paths(am).contains(x) {
            let k = choose|k: int| 0 <= k < am.len() && normalized_path(am[k].relative_path) == x;
            assert(views(r@)[k] == x);
        }
    }
    r
}

/// The predicate "resolves to no submitted artifact" for links of `source`.
pub open spec fn unresolved_from(source: Seq<char>, present: Set<Seq<char>>) -> spec_fn(Seq<char>) -> bool {
    |t: Seq<char>| !present.contains(resolved_link(source, t))
}

/// Counts submitted relative Markdown links whose normalized target is absent; the count
/// saturates at `usize::MAX`.
pub fn count_broken_internal_links(arts: &Vec<Artifact>) -> (r: usize)
    ensures
        r as int == if broken_total(artifact_models(arts@), arts@.len() as int) <= usize::MAX {
            broken_total(artifact_models(arts@), arts@.len() as int)
        } else {
            usize::MAX as int
        },
{
    let ghost am = artifact_models(arts@);
    let present = present_list(arts);
    let mut total: usize = 0;
    let mut saturated = false;
    let mut i: usize = 0;
    proof {
        lemma_broken_nonneg(am, 0);
    }
    while i < arts.len()
        invariant
            i <= arts.len(),
            am == artifact_models(arts@),
            forall|x: Seq<char>| #![auto] views(present@).contains(x) == present_paths(am).contains(x),
            broken_total(am, i as int) >= 0,
            saturated ==> total == usize::MAX && broken_total(am, i as int) >= usize::MAX,
            !saturated ==> total == broken_total(am, i as int),
        decreases arts.len() - i,
    {
        let source = lit(arts[i].relative_path.as_str());
        let content = lit(arts[i].content.as_str());
        let targets = internal_link_targets(&content);
        let ghost tv = views(targets@);
        let ghost pr = present_paths(am);
        let ghost q = unresolved_from(source@, pr);
        let mut count: usize = 0;
        let mut j: usize = 0;
        while j < targets.len()
            invariant
                j <= targets.len(),
                tv == views(targets@),
                q == unresolved_from(source@, pr),
                pr == present_paths(am),
                forall|x: Seq<char>| #![auto] views(present@).contains(x) == pr.contains(x),
                count == tv.take(j as int).filter(q).len(),
                count <= j,
            decreases targets.len() - j,
        {
            let resolved = resolve_link(&source, &targets[j]);
            let hit = crate::extract::contains_text(&present, &resolved);
            assert(tv.take(j + 1).drop_last() =~= tv.take(j as int));
            reveal(Seq::filter);
            if !hit {
                count = count + 1;
            }
            j = j + 1;
        }
        assert(tv.take(targets.len() as int) =~= tv);
        assert(tv.filter(q) == link_targets(am[i as int].content).filter(
            |t: Seq<char>| !pr.contains(resolved_link(am[i as int].relative_path, t)),
        ));
        if !saturated {
            if total <= usize::MAX - count {
                total = total + count;
            } else {
                total = usize::MAX;
                saturated = true;
            }
        }
        proof {
            lemma_broken_nonneg(am, i as int + 1);
        }
        i = i + 1;
    }
    total
}

/// Broken-link totals are never negative.
pub proof fn lemma_broken_nonneg(arts: Seq<ArtifactModel>, n: int)
    ensures
        broken_total(arts, n) >= 0,
    decreases n,
{
    if n > 0 {
        lemma_broken_nonneg(arts, n - 1);
    }
}


/// The project name declared by one line (`Project name: X` or `Project: X`, possibly as a
/// heading).
pub open spec fn line_name(line: Seq<char>) -> Option<Seq<char>> {
    let t = trim(strip_start(trim(line), CharClass::Hash));
    let l = lower(t);
    let c = first_in(t, CharClass::Colon);
    if c < t.len() && (begins_with(l, "project name:"@) || begins_with(l, "project:"@)) {
        Some(trim(t.skip((c + 1) as int)))
    } else {
        None
    }
}

/// Extracts the project name a line declares.
pub fn name_in_line(line: &[char]) -> (r: Option<Vec<char>>)
    ensures
        match r {
            Some(x) => line_name(line@) == Some(x@),
            None => line_name(line@) is None,
        },
{
    let t0 = trim_chars(line);
    let t1 = strip_start_chars(&t0, CharClass::Hash);
    let t = trim_chars(&t1);
    let l = to_lower(&t);
    let c = next_in_class(&t, 0, CharClass::Colon);
    assert(t@.skip(0) =~= t@);
    if c < t.len() && (starts_with(&l, &lit("project name:")) || starts_with(&l, &lit("project:"))) {
        let rest = sub_vec(&t, c + 1, t.len());
        Some(trim_chars(&rest))
    } else {
        None
    }
}

/// Project names declared by the first `n` lines of `ls`.
pub open spec fn lines_names(ls: Seq<Seq<char>>, n: int) -> Set<Seq<char>>
    decreases n,
{
    if n <= 0 {
        Set::empty()
    } else {
        match line_name(ls[n - 1]) {
            Some(x) => lines_names(ls, n - 1).insert(x),
            None => lines_names(ls, n - 1),
        }
    }
}

/// Project names declared by the first `n` artifacts.
pub open spec fn artifacts_names(arts: Seq<ArtifactModel>, n: int) -> Set<Seq<char>>
    decreases n,
{
    if n <= 0 {
        Set::empty()
    } else {
        let ls = lines(arts[n - 1].content);
        artifacts_names(arts, n - 1).union(lines_names(ls, ls.len() as int))
    }
}

/// Trimmed `project_name` string members anywhere in a structured model.
pub open spec fn json_names(v: JsonValue) -> Set<Seq<char>>
    decreases v, crate::json::child_count(v) + 1,
{
    match v {
        JsonValue::Object(m) => {
            let own = match crate::extract::member_text(m@, "project_name"@) {
                Some(x) => Set::empty().insert(trim(x)),
                None => Set::empty(),
            };
            own.union(json_names_children(v, 0))
        },
        JsonValue::Array(_) => json_names_children(v, 0),
        _ => Set::empty(),
    }
}

/// `json_names` of the children of `v` from position `i` on.
pub open spec fn json_names_children(v: JsonValue, i: int) -> Set<Seq<char>>
    decreases v, crate::json::child_count(v) - i,
{
    if i < 0 || i >= crate::json::child_count(v) {
        Set::empty()
    } else {
        proof {
            crate::json::lemma_child_decreases(v, i);
        }
        json_names(crate::json::child(v, i)).union(json_names_children(v, i + 1))
    }
}

/// Project names declared by the structured model.
pub open spec fn model_names(c: Corpus) -> Set<Seq<char>> {
    match c.project_model {
        Some(m) => json_names(m),
        None => Set::empty(),
    }
}

/// Non-empty project names declared by the model or by generated artifact lines.
pub open spec fn project_name_set(c: Corpus) -> Set<Seq<char>> {
    let arts = artifact_models(c.artifacts@);
    let model = model_names(c);
    model.union(artifacts_names(arts, arts.len() as int)).filter(|x: Seq<char>| x.len() > 0)
}

/// Adds a name to a strictly sorted list when it is non-empty.
pub fn add_name(names: &mut Vec<Vec<char>>, x: Vec<char>)
    requires
        strictly_sorted(views(old(names)@)),
    ensures
        strictly_sorted(views(final(names)@)),
        views(final(names)@).to_set() == if x@.len() > 0 {
            views(old(names)@).to_set().insert(x@)
        } else {
            views(old(names)@).to_set()
        },
{
    if x.len() > 0 {
        insert_sorted(names, x);
    }
}

/// Recursively collects explicit `project_name` values from structured model data.
pub fn collect_named_values(value: &JsonValue, names: &mut Vec<Vec<char>>)
    requires
        strictly_sorted(views(old(names)@)),
    ensures
        strictly_sorted(views(final(names)@)),
        views(final(names)@).to_set() == views(old(names)@).to_set().union(
            json_names(*value).filter(|x: Seq<char>| x.len() > 0),
        ),
    decreases value, crate::json::child_count(*value) + 1,
{
    match value {
        JsonValue::Object(m) => {
            let ghost s0 = views(names@).to_set();
            match crate::extract::member_string(m, "project_name") {
                Some(n) => {
                    let t = trim_chars(&lit(n.as_str()));
                    add_name(names, t);
                },
                None => {},
            }
            collect_named_children(value, 0, names);
            assert(views(names@).to_set() =~= s0.union(
                json_names(*value).filter(|x: Seq<char>| x.len() > 0),
            ));
        },
        JsonValue::Array(_) => {
            collect_named_children(value, 0, names);
        },
        _ => {
            assert(views(names@).to_set() =~= views(old(names)@).to_set().union(
                json_names(*value).filter(|x: Seq<char>| x.len() > 0),
            ));
        },
    }
}

/// Collects project names from the children of `value` from position `i` on.
pub fn collect_named_children(value: &JsonValue, i: usize, names: &mut Vec<Vec<char>>)
    requires
        strictly_sorted(views(old(names)@)),
    ensures
        strictly_sorted(views(final(names)@)),
        views(final(names)@).to_set() == views(old(names)@).to_set().union(
            json_names_children(*value, i as int).filter(|x: Seq<char>| x.len() > 0),
        ),
    decreases value, crate::json::child_count(*value) - i,
{
    let c: &JsonValue = match value {
        JsonValue::Array(a) => {
            if i >= a.len() {
                assert(views(names@).to_set() =~= views(old(names)@).to_set().union(
                    json_names_children(*value, i as int).filter(|x: Seq<char>| x.len() > 0),
                ));
                return;
            }
            &a[i]
        },
        JsonValue::Object(m) => {
            if i >= m.len() {
                assert(views(names@).to_set() =~= views(old(names)@).to_set().union(
                    json_names_children(*value, i as int).filter(|x: Seq<char>| x.len() > 0),
                ));
                return;
            }
            &m[i].value
        },
        _ => {
            assert(views(names@).to_set() =~= views(old(names)@).to_set().union(
                json_names_children(*value, i as int).filter(|x: Seq<char>| x.len() > 0),
            ));
            return;
        },
    };
    proof {
        crate::json::lemma_child_decreases(*value, i as int);
    }
    let ghost s0 = views(names@).to_set();
    collect_named_values(c, names);
    collect_named_children(value, i + 1, names);
    assert(views(names@).to_set() =~= s0.union(
        json_names_children(*value, i as int).filter(|x: Seq<char>| x.len() > 0),
    ));
}

/// Extracts explicit project-name fields, sorted and without duplicates or empty names.
pub fn project_names(corpus: &Corpus) -> (r: Vec<Vec<char>>)
    ensures
        strictly_sorted(views(r@)),
        views(r@).to_set() == project_name_set(*corpus),
{
    let mut names: Vec<Vec<char>> = Vec::new();
    let ghost nonempty = |x: Seq<char>| x.len() > 0;
    assert(views(names@).to_set() =~= Set::empty());
    let ghost model = model_names(*corpus);
    match &corpus.project_model {
        Some(m) => {
            collect_named_values(m, &mut names);
        },
        None => {},
    }
    assert(views(names@).to_set() =~= model.filter(nonempty));
    let ghost am = artifact_models(corpus.artifacts@);
    let mut k: usize = 0;
    while k < corpus.artifacts.len()
        invariant
            k <= corpus.artifacts.len(),
            am == artifact_models(corpus.artifacts@),
            nonempty == (|x: Seq<char>| x.len() > 0),
            strictly_sorted(views(names@)),
            views(names@).to_set() == model.union(artifacts_names(am, k as int)).filter(nonempty),
        decreases corpus.artifacts.len() - k,
    {
        let content = lit(corpus.artifacts[k].content.as_str());
        let ls = split_lines(&content);
        let ghost lv = views(ls@);
        let ghost s0 = views(names@).to_set();
        let mut j: usize = 0;
        while j < ls.len()
            invariant
                j <= ls.len(),
                lv == views(ls@),
                nonempty == (|x: Seq<char>| x.len() > 0),
                strictly_sorted(views(names@)),
                views(names@).to_set() == s0.union(lines_names(lv, j as int).filter(nonempty)),
            decreases ls.len() - j,
        {
            let ghost before = views(names@).to_set();
            match name_in_line(&ls[j]) {
                Some(x) => {
                    add_name(&mut names, x);
                },
                None => {},
            }
            assert(views(names@).to_set() =~= s0.union(lines_names(lv, j + 1).filter(nonempty)));
            j = j + 1;
        }
        assert(views(names@).to_set() =~= model.union(artifacts_names(am, k + 1)).filter(nonempty));
        k = k + 1;
    }
    names
}

/// Whether a metadata finding is high or critical and not resolved.
pub open spec fn unresolved_high(m: Seq<JsonMember>) -> bool {
    let sev = match member_get(m, "severity"@) {
        Some(JsonValue::String(x)) => upper(x@),
        _ => seq![],
    };
    let resolved = match member_get(m, "resolved"@) {
        Some(JsonValue::Bool(b)) => b,
        _ => match member_get(m, "status"@) {
            Some(JsonValue::String(x)) => lower(x@) == "resolved"@,
            _ => false,
        },
    };
    (sev == "HIGH"@ || sev == "CRITICAL"@) && !resolved
}

/// Classifies one metadata finding by severity and resolution state.
pub fn is_unresolved_high_severity(m: &Vec<JsonMember>) -> (r: bool)
    ensures
        r == unresolved_high(m@),
{
    let sev = match object_get(m, &lit("severity")) {
        Some(JsonValue::String(x)) => to_upper(&lit(x.as_str())),
        _ => Vec::new(),
    };
    let high = chars_eq(&sev, &lit("HIGH")) || chars_eq(&sev, &lit("CRITICAL"));
    let resolved = match object_get(m, &lit("resolved")) {
        Some(JsonValue::Bool(b)) => *b,
        _ => match object_get(m, &lit("status")) {
            Some(JsonValue::String(x)) => chars_eq(&to_lower(&lit(x.as_str())), &lit("resolved")),
            _ => false,
        },
    };
    proof {
        if sev@.len() == 0 {
            reveal_strlit("HIGH");
            reveal_strlit("CRITICAL");
        }
    }
    high && !resolved
}

/// The metadata findings list, when metadata has an array keyed `findings`.
pub open spec fn findings_list(meta: Option<JsonValue>) -> Option<Seq<JsonValue>> {
    match meta {
        Some(v) => match json_find(v, "findings"@) {
            Some(JsonValue::Array(a)) => Some(a@),
            _ => None,
        },
        None => None,
    }
}

/// Whether a findings entry is an unresolved high-severity object.
pub open spec fn flagged(v: JsonValue) -> bool {
    match v {
        JsonValue::Object(m) => unresolved_high(m@),
        _ => false,
    }
}

/// Count and identifiers of unresolved high-severity entries among the first `n`.
pub open spec fn flagged_prefix(fs: Seq<JsonValue>, n: int) -> (int, Seq<Seq<char>>)
    decreases n,
{
    if n <= 0 {
        (0, seq![])
    } else {
        let prev = flagged_prefix(fs, n - 1);
        if flagged(fs[n - 1]) {
            let id = match fs[n - 1] {
                JsonValue::Object(m) => crate::extract::member_text(m@, "id"@),
                _ => None,
            };
            (prev.0 + 1, match id {
                Some(x) => prev.1.push(x),
                None => prev.1,
            })
        } else {
            prev
        }
    }
}

/// Calculates unresolved high-severity finding counts and IDs from metadata.
pub fn unresolved_findings(meta: &Option<JsonValue>) -> (r: (Option<usize>, Vec<String>))
    ensures
        match findings_list(*meta) {
            Some(fs) => r.0 == Some(flagged_prefix(fs, fs.len() as int).0 as usize)
                && crate::extract::strs(r.1@) == flagged_prefix(fs, fs.len() as int).1,
            None => r.0 is None && r.1@.len() == 0,
        },
{
    let m = match meta {
        Some(m) => m,
        None => {
            return (None, Vec::new());
        },
    };
    let fs = match find_key(m, &lit("findings")) {
        Some(JsonValue::Array(a)) => a,
        _ => {
            return (None, Vec::new());
        },
    };
    let mut count: usize = 0;
    let mut ids: Vec<String> = Vec::new();
    let mut i: usize = 0;
    while i < fs.len()
        invariant
            i <= fs.len(),
            findings_list(*meta) == Some(fs@),
            count == flagged_prefix(fs@, i as int).0,
            crate::extract::strs(ids@) == flagged_prefix(fs@, i as int).1,
            count <= i,
        decreases fs.len() - i,
    {
        match &fs[i] {
            JsonValue::Object(obj) => {
                if is_unresolved_high_severity(obj) {
                    count = count + 1;
                    match crate::extract::member_string(obj, "id") {
                        Some(x) => {
                            let ghost before = ids@;
                            ids.push(x.clone());
                            assert(crate::extract::strs(ids@) =~= crate::extract::strs(before).push(
                                x@,
                            ));
                        },
                        None => {},
                    }
                }
            },
            _ => {},
        }
        i = i + 1;
    }
    (Some(count), ids)
}

/// The path a required-artifact entry names: a string, or the first of an object's `path`,
/// `file`, `name` or `artifact` strings.
pub open spec fn required_path(v: JsonValue) -> Option<Seq<char>> {
    match v {
        JsonValue::String(x) => Some(x@),
        JsonValue::Object(m) => {
            let mm = m@;
            if crate::extract::member_text(mm, "path"@) is Some {
                crate::extract::member_text(mm, "path"@)
            } else if crate::extract::member_text(mm, "file"@) is Some {
                crate::extract::member_text(mm, "file"@)
            } else if crate::extract::member_text(mm, "name"@) is Some {
                crate::extract::member_text(mm, "name"@)
            } else {
                crate::extract::member_text(mm, "artifact"@)
            }
        },
        _ => None,
    }
}

/// Required paths named by the first `n` entries.
pub open spec fn required_paths(a: Seq<JsonValue>, n: int) -> Seq<Seq<char>>
    decreases n,
{
    if n <= 0 {
        seq![]
    } else {
        match required_path(a[n - 1]) {
            Some(p) => required_paths(a, n - 1).push(p),
            None => required_paths(a, n - 1),
        }
    }
}

/// Percentage of metadata-declared required artifacts that are submitted.
pub open spec fn completion(c: Corpus) -> Option<int> {
    match c.metadata {
        Some(m) => match json_find(m, "required_artifacts"@) {
            Some(JsonValue::Array(a)) => {
                let ps = required_paths(a@, a@.len() as int);
                let present = present_paths(artifact_models(c.artifacts@));
                let found = ps.filter(|p: Seq<char>| present.contains(normalized_path(artifact_name(p))));
                rate(found.len() as int, ps.len() as int)
            },
            _ => None,
        },
        None => None,
    }
}

/// Extracts a required artifact path from a string or common object fields.
pub fn required_artifact_path(v: &JsonValue) -> (r: Option<Vec<char>>)
    ensures
        match r {
            Some(x) => required_path(*v) == Some(x@),
            None => required_path(*v) is None,
        },
{
    match v {
        JsonValue::String(x) => Some(lit(x.as_str())),
        JsonValue::Object(m) => {
            let mut found = crate::extract::member_string(m, "path");
            if found.is_none() {
                found = crate::extract::member_string(m, "file");
            }
            if found.is_none() {
                found = crate::extract::member_string(m, "name");
            }
            if found.is_none() {
                found = crate::extract::member_string(m, "artifact");
            }
            match found {
                Some(x) => Some(lit(x.as_str())),
                None => None,
            }
        },
        _ => None,
    }
}

/// Calculates required-artifact completion from an explicit metadata manifest.
pub fn required_artifact_completion(corpus: &Corpus) -> (r: Option<u32>)
    ensures
        opt_int(r) == completion(*corpus),
        r matches Some(v) ==> v <= 1000,
{
    let m = match &corpus.metadata {
        Some(m) => m,
        None => {
            return None;
        },
    };
    let a = match find_key(m, &lit("required_artifacts")) {
        Some(JsonValue::Array(a)) => a,
        _ => {
            return None;
        },
    };
    let present = present_list(&corpus.artifacts);
    let ghost pr = present_paths(artifact_models(corpus.artifacts@));
    let ghost q = |p: Seq<char>| pr.contains(normalized_path(artifact_name(p)));
    let mut total: usize = 0;
    let mut found: usize = 0;
    let mut i: usize = 0;
    while i < a.len()
        invariant
            i <= a.len(),
            pr == present_paths(artifact_models(corpus.artifacts@)),
            q == (|p: Seq<char>| pr.contains(normalized_path(artifact_name(p)))),
            forall|x: Seq<char>| #![auto] views(present@).contains(x) == pr.contains(x),
            total == required_paths(a@, i as int).len(),
            found == required_paths(a@, i as int).filter(q).len(),
            found <= total <= i,
        decreases a.len() - i,
    {
        match required_artifact_path(&a[i]) {
            Some(p) => {
                let n = normalize_path(&slash_path(&p));
                let hit = crate::extract::contains_text(&present, &n);
                let ghost ps = required_paths(a@, i as int);
                assert(ps.push(p@).drop_last() =~= ps);
                reveal(Seq::filter);
                total = total + 1;
                if hit {
                    found = found + 1;
                }
            },
            None => {},
        }
        i = i + 1;
    }
    proof {
        law_rate_bounds(found as int, total as int);
    }
    percentage(found, total)
}

/// The unsigned integer found for `key` in metadata.
pub open spec fn metadata_unsigned(meta: Option<JsonValue>, key: Seq<char>) -> Option<u64> {
    match meta {
        Some(m) => match json_find(m, key) {
            Some(JsonValue::Number(n)) => n.unsigned,
            _ => None,
        },
        None => None,
    }
}

/// Reads one unsigned integer metadata value.
pub fn metadata_u64(meta: &Option<JsonValue>, key: &str) -> (r: Option<u64>)
    ensures
        r == metadata_unsigned(*meta, key@),
{
    match meta {
        Some(m) => match find_key(m, &lit(key)) {
            Some(JsonValue::Number(n)) => n.unsigned,
            _ => None,
        },
        None => None,
    }
}

/// The literal text of the number found for `key` in metadata.
pub open spec fn metadata_literal(meta: Option<JsonValue>, key: Seq<char>) -> Option<Seq<char>> {
    match meta {
        Some(m) => match json_find(m, key) {
            Some(JsonValue::Number(n)) => Some(n.literal@),
            _ => None,
        },
        None => None,
    }
}

/// Reads the literal of one numeric metadata value, for consumers that need its decimal value.
pub fn metadata_number_literal(meta: &Option<JsonValue>, key: &str) -> (r: Option<String>)
    ensures
        opt_text(r) == metadata_literal(*meta, key@),
{
    match meta {
        Some(m) => match find_key(m, &lit(key)) {
            Some(JsonValue::Number(n)) => Some(n.literal.clone()),
            _ => None,
        },
        None => None,
    }
}

/// The characters of an optional string.
pub open spec fn opt_text(o: Option<String>) -> Option<Seq<char>> {
    match o {
        Some(s) => Some(s@),
        None => None,
    }
}


/// A platform-sized count read from metadata, when it fits.
pub open spec fn metadata_count(meta: Option<JsonValue>, key: Seq<char>) -> Option<usize> {
    match metadata_unsigned(meta, key) {
        Some(v) => if v <= usize::MAX {
            Some(v as usize)
        } else {
            None
        },
        None => None,
    }
}

/// Broken internal links of a corpus, saturated at `usize::MAX`.
pub open spec fn broken_links(c: Corpus) -> int {
    let arts = artifact_models(c.artifacts@);
    let t = broken_total(arts, arts.len() as int);
    if t <= usize::MAX {
        t
    } else {
        usize::MAX as int
    }
}

/// Every deterministic metric of a corpus and its extraction, as `calculate_metrics` computes it.
pub open spec fn metrics_of(m: DeterministicMetrics, c: Corpus, x: ExtractionModel) -> bool {
    &&& opt_int(m.required_artifact_completion) == completion(c)
    &&& opt_int(m.acceptance_criteria_coverage) == acceptance_coverage(x)
    &&& opt_int(m.requirement_traceability_coverage) == traceability_coverage(x)
    &&& opt_int(m.unsupported_decision_rate) == unsupported_rate(x)
    &&& opt_int(m.high_impact_assumption_labeling_rate) == labeling_rate(x.entities, c.brief.content@)
    &&& opt_int(m.evidence_linkage_rate) == linkage_rate(x)
    &&& m.broken_internal_links == Some(broken_links(c) as usize)
    &&& strictly_sorted(crate::extract::strs(m.conflicting_project_names@))
    &&& crate::extract::strs(m.conflicting_project_names@).to_set() == project_name_set(c)
    &&& match findings_list(c.metadata) {
        Some(fs) => m.unresolved_high_severity_findings == Some(flagged_prefix(fs, fs.len() as int).0 as usize)
            && crate::extract::strs(m.unresolved_high_severity_finding_ids@) == flagged_prefix(fs, fs.len() as int).1,
        None => m.unresolved_high_severity_findings is None && m.unresolved_high_severity_finding_ids@.len() == 0,
    }
    &&& opt_int(m.user_answer_adoption_rate) == answer_adoption(x)
    &&& m.cross_project_leakage == metadata_count(c.metadata, "cross_project_leakage"@)
    &&& m.context_supplied == metadata_unsigned(c.metadata, "context_supplied"@)
    &&& m.retrieval_calls == metadata_unsigned(c.metadata, "retrieval_calls"@)
    &&& m.user_questions == metadata_unsigned(c.metadata, "user_questions"@)
    &&& m.model_calls == metadata_unsigned(c.metadata, "model_calls"@)
    &&& m.token_usage == metadata_unsigned(c.metadata, "token_usage"@)
}

/// Metrics are determined by the corpus and its extraction alone: two metric records of the
/// same corpus and extraction agree on every value and list.
pub proof fn law_metrics_determined(m1: DeterministicMetrics, m2: DeterministicMetrics, c: Corpus, x: ExtractionModel)
    requires
        metrics_of(m1, c, x),
        metrics_of(m2, c, x),
    ensures
        m1.required_artifact_completion == m2.required_artifact_completion,
        m1.acceptance_criteria_coverage == m2.acceptance_criteria_coverage,
        m1.requirement_traceability_coverage == m2.requirement_traceability_coverage,
        m1.unsupported_decision_rate == m2.unsupported_decision_rate,
        m1.high_impact_assumption_labeling_rate == m2.high_impact_assumption_labeling_rate,
        m1.evidence_linkage_rate == m2.evidence_linkage_rate,
        m1.broken_internal_links == m2.broken_internal_links,
        crate::extract::strs(m1.conflicting_project_names@) == crate::extract::strs(m2.conflicting_project_names@),
        m1.unresolved_high_severity_findings == m2.unresolved_high_severity_findings,
        crate::extract::strs(m1.unresolved_high_severity_finding_ids@) == crate::extract::strs(
            m2.unresolved_high_severity_finding_ids@,
        ),
        m1.user_answer_adoption_rate == m2.user_answer_adoption_rate,
        m1.cross_project_leakage == m2.cross_project_leakage,
        m1.context_supplied == m2.context_supplied,
        m1.retrieval_calls == m2.retrieval_calls,
        m1.user_questions == m2.user_questions,
        m1.model_calls == m2.model_calls,
        m1.token_usage == m2.token_usage,
{
    crate::order::lemma_sorted_unique(
        crate::extract::strs(m1.conflicting_project_names@),
        crate::extract::strs(m2.conflicting_project_names@),
    );
    assert(m1.required_artifact_completion == m2.required_artifact_completion) by {
        match (m1.required_artifact_completion, m2.required_artifact_completion) {
            (Some(a), Some(b)) => assert(a as int == b as int),
            _ => {},
        }
    }
    assert(m1.acceptance_criteria_coverage == m2.acceptance_criteria_coverage) by {
        match (m1.acceptance_criteria_coverage, m2.acceptance_criteria_coverage) {
            (Some(a), Some(b)) => assert(a as int == b as int),
            _ => {},
        }
    }
    assert(m1.requirement_traceability_coverage == m2.requirement_traceability_coverage) by {
        match (m1.requirement_traceability_coverage, m2.requirement_traceability_coverage) {
            (Some(a), Some(b)) => assert(a as int == b as int),
            _ => {},
        }
    }
    assert(m1.unsupported_decision_rate == m2.unsupported_decision_rate) by {
        match (m1.unsupported_decision_rate, m2.unsupported_decision_rate) {
            (Some(a), Some(b)) => assert(a as int == b as int),
            _ => {},
        }
    }
    assert(m1.high_impact_assumption_labeling_rate == m2.high_impact_assumption_labeling_rate) by {
        match (m1.high_impact_assumption_labeling_rate, m2.high_impact_assumption_labeling_rate) {
            (Some(a), Some(b)) => assert(a as int == b as int),
            _ => {},
        }
    }
    assert(m1.evidence_linkage_rate == m2.evidence_linkage_rate) by {
        match (m1.evidence_linkage_rate, m2.evidence_linkage_rate) {
            (Some(a), Some(b)) => assert(a as int == b as int),
            _ => {},
        }
    }
    assert(m1.user_answer_adoption_rate == m2.user_answer_adoption_rate) by {
        match (m1.user_answer_adoption_rate, m2.user_answer_adoption_rate) {
            (Some(a), Some(b)) => assert(a as int == b as int),
            _ => {},
        }
    }
}

/// Every available rate of `m` lies between 0% and 100% (0 and 1000 tenths).
pub open spec fn rates_within_bounds(m: DeterministicMetrics) -> bool {
    &&& (m.required_artifact_completion matches Some(v) ==> v <= 1000)
    &&& (m.acceptance_criteria_coverage matches Some(v) ==> v <= 1000)
    &&& (m.requirement_traceability_coverage matches Some(v) ==> v <= 1000)
    &&& (m.unsupported_decision_rate matches Some(v) ==> v <= 1000)
    &&& (m.high_impact_assumption_labeling_rate matches Some(v) ==> v <= 1000)
    &&& (m.evidence_linkage_rate matches Some(v) ==> v <= 1000)
    &&& (m.user_answer_adoption_rate matches Some(v) ==> v <= 1000)
}

/// Calculates deterministic metrics without using lexical similarity as arithmetic evidence.
pub fn calculate_metrics(corpus: &Corpus, extraction: &Extraction) -> (r: DeterministicMetrics)
    ensures
        metrics_of(r, *corpus, extraction@),
        rates_within_bounds(r),
{
    let names = project_names(corpus);
    let mut name_strings: Vec<String> = Vec::new();
    let mut i: usize = 0;
    while i < names.len()
        invariant
            i <= names.len(),
            crate::extract::strs(name_strings@) == views(names@).take(i as int),
        decreases names.len() - i,
    {
        let ghost before = name_strings@;
        let x = string_of(&names[i]);
        name_strings.push(x);
        assert(crate::extract::strs(name_strings@) =~= crate::extract::strs(before).push(x@));
        assert(views(names@).take(i + 1) =~= views(names@).take(i as int).push(views(names@)[i as int]));
        i = i + 1;
    }
    assert(views(names@).take(names.len() as int) =~= views(names@));
    let (unresolved_count, unresolved_ids) = unresolved_findings(&corpus.metadata);
    let leakage = match metadata_u64(&corpus.metadata, "cross_project_leakage") {
        Some(v) => if v <= usize::MAX as u64 {
            Some(v as usize)
        } else {
            None
        },
        None => None,
    };
    DeterministicMetrics {
        required_artifact_completion: required_artifact_completion(corpus),
        acceptance_criteria_coverage: acceptance_criteria_coverage(extraction),
        requirement_traceability_coverage: requirement_traceability_coverage(extraction),
        unsupported_decision_rate: unsupported_decision_rate(extraction),
        high_impact_assumption_labeling_rate: assumption_labeling_rate(
            corpus.brief.content.as_str(),
            extraction,
        ),
        evidence_linkage_rate: evidence_linkage_rate(extraction),
        broken_internal_links: Some(count_broken_internal_links(&corpus.artifacts)),
        conflicting_project_names: name_strings,
        unresolved_high_severity_findings: unresolved_count,
        unresolved_high_severity_finding_ids: unresolved_ids,
        user_answer_adoption_rate: user_answer_adoption_rate(extraction),
        cross_project_leakage: leakage,
        context_supplied: metadata_u64(&corpus.metadata, "context_supplied"),
        retrieval_calls: metadata_u64(&corpus.metadata, "retrieval_calls"),
        user_questions: metadata_u64(&corpus.metadata, "user_questions"),
        model_calls: metadata_u64(&corpus.metadata, "model_calls"),
        token_usage: metadata_u64(&corpus.metadata, "token_usage"),
    }
}

/// The identifier begins with `p`.
pub open spec fn prefixed(x: Seq<char>, p: Seq<char>) -> bool {
    x.len() >= p.len() && x.take(p.len() as int) == p
}

/// The identifier begins with a prefix of the records that give a decision its source: a
/// requirement, user answer, assumption, constraint, evidence or source record.
pub open spec fn source_record_id(x: Seq<char>) -> bool {
    ||| prefixed(x, "REQ-"@)
    ||| prefixed(x, "ANS-"@)
    ||| prefixed(x, "ASM-"@)
    ||| prefixed(x, "ASSUMPTION-"@)
    ||| prefixed(x, "CON-"@)
    ||| prefixed(x, "CST-"@)
    ||| prefixed(x, "EVD-"@)
    ||| prefixed(x, "SRC-"@)
}

/// A decision identified as `id` is supported: some decision entity with that identifier
/// relates to a source record, or a validated trace joins `id` to one.
pub open spec fn decision_supported(x: ExtractionModel, id: Seq<char>) -> bool {
    ||| exists|i: int, j: int|
        0 <= i < x.entities.len() && x.entities[i].kind == EntityKind::Decision && x.entities[i].id
            == Some(id) && 0 <= j < x.entities[i].related_ids.len() && source_record_id(
            #[trigger] x.entities[i].related_ids[j],
        )
    ||| (exists|i: int| some_decision(x.entities, id, |e: EntityModel| true) && 0 <= i < x.traces.len() && (
        (#[trigger] x.traces[i].from_id == id && source_record_id(x.traces[i].to_id)) || (
        x.traces[i].to_id == id && source_record_id(x.traces[i].from_id))))
}

/// `begins_with` is the prefix test.
proof fn lemma_begins_with(x: Seq<char>, p: Seq<char>)
    ensures
        begins_with(x, p) == prefixed(x, p),
{
    if x.len() >= p.len() {
        assert(x.subrange(0, p.len() as int) =~= x.take(p.len() as int));
    }
}

/// Decision provenance: a decision is counted unsupported exactly when no decision entity with
/// its identifier relates to a requirement, user answer, assumption, constraint, evidence or
/// source record (identifiers beginning REQ-, ANS-, ASM-, ASSUMPTION-, CON-, CST-, EVD- or
/// SRC-) and no validated trace joins it to one.
pub proof fn law_decision_provenance(x: ExtractionModel, id: Seq<char>)
    ensures
        unsupported_ids(x).contains(id) <==> (kind_ids(x.entities, EntityKind::Decision).contains(id)
            && !decision_supported(x, id)),
{
    assert forall|y: Seq<char>| provenance_id(y) == source_record_id(y) by {
        lemma_begins_with(y, "REQ-"@);
        lemma_begins_with(y, "ANS-"@);
        lemma_begins_with(y, "ASM-"@);
        lemma_begins_with(y, "ASSUMPTION-"@);
        lemma_begins_with(y, "CON-"@);
        lemma_begins_with(y, "CST-"@);
        lemma_begins_with(y, "EVD-"@);
        lemma_begins_with(y, "SRC-"@);
    }
    let p = |e: EntityModel| valid_provenance(e, x.traces, id);
    if some_decision(x.entities, id, p) {
        let i = choose|i: int|
            0 <= i < x.entities.len() && x.entities[i].kind == EntityKind::Decision && x.entities[i].id
                == Some(id) && p(x.entities[i]);
        let e = x.entities[i];
        assert(some_decision(x.entities, id, |e: EntityModel| true));
        if related_any(e, provenance_pred()) {
            let j = choose|j: int| 0 <= j < e.related_ids.len() && provenance_pred()(e.related_ids[j]);
            assert(source_record_id(x.entities[i].related_ids[j]));
        } else {
            let k = choose|k: int|
                0 <= k < x.traces.len() && ((x.traces[k].from_id == id && provenance_pred()(
                    x.traces[k].to_id,
                )) || (x.traces[k].to_id == id && provenance_pred()(x.traces[k].from_id)));
            assert(x.traces[k].from_id == id || x.traces[k].to_id == id);
        }
        assert(decision_supported(x, id));
    }
    if decision_supported(x, id) {
        if exists|i: int, j: int|
            0 <= i < x.entities.len() && x.entities[i].kind == EntityKind::Decision && x.entities[i].id
                == Some(id) && 0 <= j < x.entities[i].related_ids.len() && source_record_id(
                #[trigger] x.entities[i].related_ids[j],
            ) {
            let (i, j) = choose|i: int, j: int|
                0 <= i < x.entities.len() && x.entities[i].kind == EntityKind::Decision
                    && x.entities[i].id == Some(id) && 0 <= j < x.entities[i].related_ids.len()
                    && source_record_id(#[trigger] x.entities[i].related_ids[j]);
            assert(provenance_pred()(x.entities[i].related_ids[j]));
            assert(p(x.entities[i]));
        } else {
            let k = choose|k: int| some_decision(x.entities, id, |e: EntityModel| true) && 0 <= k < x.traces.len() && (
                (#[trigger] x.traces[k].from_id == id && source_record_id(x.traces[k].to_id)) || (
                x.traces[k].to_id == id && source_record_id(x.traces[k].from_id)));
            let i = choose|i: int|
                0 <= i < x.entities.len() && x.entities[i].kind == EntityKind::Decision && x.entities[i].id
                    == Some(id) && (|e: EntityModel| true)(x.entities[i]);
            assert(trace_joins(x.traces, id, provenance_pred()));
            assert(p(x.entities[i]));
        }
    }
}

} // verus!
