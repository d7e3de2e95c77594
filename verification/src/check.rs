//! A whole check over a corpus: every declared rule run in a fixed order,
//! the findings narrowed to what was asked about, waivers applied, and the
//! verdict drawn. The caller gathers what lives outside the library (the
//! records, the claim files, which paths exist) and hands it in.
use crate::config::{first_key, list_or_empty, lookup, Config, RuleLevel};
use crate::gate::{enabled, gated, level_severity, with_severity};
use crate::record::Record;
use crate::references::build_index_reporting_collisions;
use crate::report::{
    finding_views, ran_paths, records_read_by_any_rule_within, string_views, CheckReport, Finding, FindingSeverity,
    FindingView, Notice, ReportStatus, RuleExecution, RuleStatus, ScopeInfo, ScopeSource,
};
use crate::rules;
use crate::rules::below;
use crate::text::str_eq;
use crate::waiver::{apply_waivers, load_waivers, waived, Waiver};
use vstd::prelude::*;

verus! {

/// Everything a check reads that the library cannot: gathered by the caller.
pub struct CheckInputs {
    /// The configuration file the run was given, as findings name it.
    pub config_path: String,
    /// Every record of the corpus, in or out of the requested scope: a
    /// reference resolves against all of them.
    pub records: Vec<Record>,
    /// Each record's full text, by path.
    pub full_text: Vec<(String, String)>,
    /// Every tracked path of the repository.
    pub tracked_paths: Vec<String>,
    /// The record paths the run reports on.
    pub in_scope: Vec<String>,
    /// The path prefixes the run was asked about; empty for the whole corpus.
    pub requested_scopes: Vec<String>,
    /// `(path, content)` of every claim file under the declared claim paths.
    pub claims: Vec<(String, String)>,
    /// Records whose governed files changed since they were last touched.
    pub drifted: Vec<String>,
    /// Embodiment locator paths that are tracked and exist.
    pub present_locators: Vec<String>,
    /// Declared record-type directories that exist.
    pub existing_dirs: Vec<String>,
    /// `YYYY-MM-DD`, for waiver expiry.
    pub today: String,
    /// Observations gathered while collecting the inputs.
    pub notices: Vec<Notice>,
    /// How the examined set was selected.
    pub source: ScopeSource,
}

/// The order a check runs the rules in. The rule judging the configuration's
/// reach over the other executions comes last.
pub open spec fn check_order() -> Seq<Seq<char>> {
    seq![
        rules::RULE_HEADER_REQUIRED_FIELDS@,
        rules::RULE_POINTER_RESOLUTION@,
        rules::RULE_POINTER_TARGET_STATUS@,
        rules::RULE_FIELD_QUALITY@,
        rules::RULE_FIELD_PENDING@,
        rules::RULE_CLAIM_STATUS_AGREEMENT@,
        rules::RULE_FILENAME_TITLE_CONSISTENCY@,
        rules::RULE_RELATION_SUPERSESSION_RECIPROCITY@,
        rules::RULE_REVISION_LOG_CHANGE_CLASS_REQUIRED@,
        rules::RULE_EMBODIMENT_CONSISTENCY@,
        rules::RULE_EMBODIMENT_LOCATOR_EXISTS@,
        rules::RULE_EMBODIMENT_LOCATOR_PROMOTION_CANDIDATE@,
        rules::RULE_HEADER_LAYOUT_CONSISTENCY@,
        rules::RULE_HEADER_FIELD_SET_CONSISTENCY@,
        rules::RULE_FIELD_UNTRIMMED_VALUE@,
        rules::RULE_HEADER_FIELD_CASE_MISMATCH@,
        rules::RULE_NARRATIVE_FIELD_STALE@,
        rules::RULE_TYPE_DIR_MATCHES_NOTHING@,
        rules::RULE_IDENTITY_COLLISION@,
        rules::RULE_TYPE_RECORD_OUTSIDE_DECLARED_DIR@,
        rules::RULE_TYPE_NO_DECLARED_SPEC@,
        rules::RULE_HEADER_DEPRECATED_SHAPE@,
        rules::RULE_HEADER_POINTER_FIELD_CLEAN@,
        rules::RULE_CONFIG_POINTER_DECLARATION_MISSING@,
        rules::RULE_CONFIG_POINTER_FIELD_NOT_KNOWN@,
        rules::RULE_CONFIG_POINTER_NARRATIVE_OVERLAP@,
        rules::RULE_CONFIG_KNOWN_FIELDS_DECLARATION_MISSING@,
        rules::RULE_CONFIG_RELATION_FIELD_NOT_KNOWN@,
        rules::RULE_CONFIG_HEADER_NONE_HAS_NO_REQUIRED_FIELDS@,
        rules::RULE_RELATION_TARGET_STATUS_UNDECLARED@,
        rules::RULE_CONFIG_SCOPE_MATCHES_NOTHING@,
    ]
}

/// An execution of rule `id` as gating makes it: run with a population when
/// the configuration declares the rule, reported not enabled without one
/// otherwise.
pub open spec fn executed_as(config: Config, id: Seq<char>, e: RuleExecution) -> bool {
    &&& e.rule@ == id
    &&& enabled(config, id) ==> e.status == RuleStatus::Ran && e.population is Some
    &&& !enabled(config, id) ==> e.status == RuleStatus::NotEnabled && e.population is None
}

/// A finding a check may carry: one from a rule the configuration declares,
/// at the severity that rule's declared level gives.
pub open spec fn declared_finding(config: Config, ids: Seq<Seq<char>>, f: FindingView) -> bool {
    exists|k: int|
        0 <= k < ids.len() && enabled(config, #[trigger] ids[k]) && f.severity == level_severity(
            lookup(config.rules@, ids[k])->0.level,
        )
}

/// An execution of `id` that ran with a population.
pub open spec fn ran_rule(e: RuleExecution, id: Seq<char>) -> bool {
    e.rule@ == id && e.status == RuleStatus::Ran && e.population is Some
}

/// A run of the rule `id` produces an execution of `id` that ran with a
/// population.
pub open spec fn runs_as<F: FnOnce() -> (RuleExecution, Vec<Finding>)>(run: F, id: Seq<char>) -> bool {
    forall|out: (RuleExecution, Vec<Finding>)| call_ensures(run, (), out) ==> ran_rule(out.0, id)
}

/// What gating makes of a rule's findings: none when the configuration
/// does not turn the rule on, else each at the declared level's severity.
pub open spec fn gated_findings(config: Config, id: Seq<char>, fs: Seq<FindingView>) -> Seq<FindingView> {
    if enabled(config, id) {
        with_severity(fs, level_severity(lookup(config.rules@, id)->0.level))
    } else {
        Seq::empty()
    }
}

/// Append a gated run of the rule `id`, whose findings before gating are
/// `expected`, to the executions and findings gathered so far.
fn append_run(
    config: &Config,
    id: &str,
    exec: RuleExecution,
    found: Vec<Finding>,
    execs: &mut Vec<RuleExecution>,
    findings: &mut Vec<Finding>,
    Ghost(done): Ghost<Seq<Seq<char>>>,
    Ghost(expected): Ghost<Seq<FindingView>>,
    Ghost(ran): Ghost<spec_fn(RuleExecution) -> bool>,
)
    requires
        !enabled(*config, id@) ==> exec.rule@ == id@ && exec.status == RuleStatus::NotEnabled
            && exec.population is None && found@.len() == 0,
        enabled(*config, id@) ==> ran(exec),
        enabled(*config, id@) ==> ran_rule(exec, id@) && finding_views(found@) == with_severity(
            expected,
            level_severity(lookup(config.rules@, id@)->0.level),
        ),
        old(execs)@.len() == done.len(),
        forall|k: int| 0 <= k < done.len() ==> executed_as(*config, done[k], #[trigger] old(execs)@[k]),
        forall|i: int| 0 <= i < old(findings)@.len() ==> declared_finding(*config, done, #[trigger] old(findings)@[i]@),
    ensures
        final(execs)@ == old(execs)@.push(exec),
        final(execs)@.len() == done.len() + 1,
        forall|k: int| 0 <= k < done.len() + 1 ==> executed_as(*config, done.push(id@)[k], #[trigger] final(execs)@[k]),
        forall|i: int|
            0 <= i < final(findings)@.len() ==> declared_finding(*config, done.push(id@), #[trigger] final(findings)@[i]@),
        finding_views(final(findings)@) == finding_views(old(findings)@) + gated_findings(*config, id@, expected),
{
    let mut found = found;
    let ghost before = findings@;
    let ghost ids = done.push(id@);
    let ghost sev = level_severity(lookup(config.rules@, id@)->0.level);
    proof {
        if enabled(*config, id@) {
            assert forall|j: int| 0 <= j < found@.len() implies (#[trigger] found@[j])@.severity == sev by {
                assert(finding_views(found@).len() == found@.len());
                assert(with_severity(expected, sev).len() == expected.len());
                assert(finding_views(found@)[j] == found@[j]@);
                assert(with_severity(expected, sev)[j] == FindingView { severity: sev, ..expected[j] });
            }
        } else {
            assert(finding_views(found@) =~= gated_findings(*config, id@, expected));
        }
        assert forall|i: int| 0 <= i < before.len() implies declared_finding(*config, ids, #[trigger] before[i]@) by {
            let k = choose|k: int|
                0 <= k < done.len() && enabled(*config, #[trigger] done[k]) && before[i]@.severity == level_severity(
                    lookup(config.rules@, done[k])->0.level,
                );
            assert(ids[k] == done[k]);
        }
    }
    let ghost fresh = found@;
    findings.append(&mut found);
    proof {
        assert(findings@ == before + fresh);
        assert(finding_views(findings@) =~= finding_views(before) + finding_views(fresh));
        assert forall|i: int| 0 <= i < findings@.len() implies declared_finding(*config, ids, #[trigger] findings@[i]@) by {
            if i >= before.len() {
                let j = i - before.len();
                assert(findings@[i] == fresh[j]);
                assert(finding_views(fresh)[j] == fresh[j]@);
                assert(ids[done.len() as int] == id@);
            } else {
                assert(findings@[i] == before[i]);
            }
        }
    }
    let ghost pre = execs@;
    execs.push(exec);
    proof {
        assert forall|k: int| 0 <= k < done.len() + 1 implies executed_as(*config, ids[k], #[trigger] execs@[k]) by {
            if k < done.len() {
                assert(execs@[k] == pre[k]);
                assert(ids[k] == done[k]);
            }
        }
    }
}

/// Run one rule through `gated`, its findings before gating being
/// `expected`, and append what it reported.
fn step<F>(
    config: &Config,
    id: &str,
    run: F,
    execs: &mut Vec<RuleExecution>,
    findings: &mut Vec<Finding>,
    Ghost(done): Ghost<Seq<Seq<char>>>,
    Ghost(expected): Ghost<Seq<FindingView>>,
    Ghost(ran): Ghost<spec_fn(RuleExecution) -> bool>,
) where F: FnOnce() -> (RuleExecution, Vec<Finding>)
    requires
        call_requires(run, ()),
        runs_as(run, id@),
        forall|out: (RuleExecution, Vec<Finding>)| call_ensures(run, (), out) ==> finding_views(out.1@) == expected,
        forall|out: (RuleExecution, Vec<Finding>)| call_ensures(run, (), out) ==> ran(out.0),
        old(execs)@.len() == done.len(),
        forall|k: int| 0 <= k < done.len() ==> executed_as(*config, done[k], #[trigger] old(execs)@[k]),
        forall|i: int| 0 <= i < old(findings)@.len() ==> declared_finding(*config, done, #[trigger] old(findings)@[i]@),
    ensures
        final(execs)@.len() == done.len() + 1,
        forall|k: int| 0 <= k < done.len() + 1 ==> executed_as(*config, done.push(id@)[k], #[trigger] final(execs)@[k]),
        forall|i: int|
            0 <= i < final(findings)@.len() ==> declared_finding(*config, done.push(id@), #[trigger] final(findings)@[i]@),
        finding_views(final(findings)@) == finding_views(old(findings)@) + gated_findings(*config, id@, expected),
        final(execs)@.drop_last() == old(execs)@,
        enabled(*config, id@) ==> ran(final(execs)@.last()),
{
    let ghost run_g = run;
    let (exec, found) = gated(config, id, run);
    proof {
        if enabled(*config, id@) {
            let out = choose|out: (RuleExecution, Vec<Finding>)|
                {
                    &&& call_ensures(run_g, (), out)
                    &&& exec == out.0
                    &&& finding_views(found@) == with_severity(
                        finding_views(out.1@),
                        level_severity(lookup(config.rules@, id@)->0.level),
                    )
                };
            assert(ran_rule(out.0, id@));
            assert(ran(out.0));
        }
    }
    append_run(config, id, exec, found, execs, findings, Ghost(done), Ghost(expected), Ghost(ran));
    assert(execs@.drop_last() =~= old(execs)@);
}

/// The strings of one option of the rule `id`'s setting (0: `not_in`,
/// 1: `closed_statuses`, otherwise `terminal_statuses`); none when the rule
/// or the option is not declared.
pub open spec fn option_strings(config: Config, id: Seq<char>, which: u8) -> Seq<Seq<char>> {
    match lookup(config.rules@, id) {
        Some(s) => list_or_empty(
            if which == 0 {
                s.not_in
            } else if which == 1 {
                s.closed_statuses
            } else {
                s.terminal_statuses
            },
        ),
        None => Seq::empty(),
    }
}

/// The options a rule setting carries, or none.
fn option_list(config: &Config, id: &str, which: u8) -> (r: Vec<String>)
    ensures
        string_views(r@) == option_strings(*config, id@, which),
{
    match config.rule_setting(id) {
        Some(s) => {
            let v = if which == 0 {
                &s.not_in
            } else if which == 1 {
                &s.closed_statuses
            } else {
                &s.terminal_statuses
            };
            match v {
                Some(l) => l.clone(),
                None => Vec::new(),
            }
        },
        None => Vec::new(),
    }
}

/// How many records have type `name`.
pub open spec fn type_count(records: Seq<Record>, name: Seq<char>) -> nat
    decreases records.len(),
{
    if records.len() == 0 {
        0
    } else {
        type_count(records.drop_last(), name) + if records.last().record_type@ == name {
            1nat
        } else {
            0nat
        }
    }
}

/// The count `matched` gives the type `name`: its first entry's, or none.
pub open spec fn count_of(matched: Seq<(String, usize)>, name: Seq<char>) -> int {
    match lookup(matched, name) {
        Some(n) => n as int,
        None => 0,
    }
}

/// `type.dir-matches-nothing`'s findings for the type `name`, counting
/// `records` directly.
pub open spec fn counted_dir_findings(
    config: Config,
    path: Seq<char>,
    records: Seq<Record>,
    existing: Seq<Seq<char>>,
    name: Seq<char>,
) -> Seq<FindingView> {
    match lookup(config.record_types@, name) {
        Some(t) => if type_count(records, name) == 0 && !existing.contains(t.dir@) {
            seq![
                crate::report::finding_of(
                    rules::RULE_TYPE_DIR_MATCHES_NOTHING@,
                    FindingSeverity::Warning,
                    path,
                    None,
                    "record type '"@ + name + "' declares dir '"@ + t.dir@
                        + "', which does not exist -- every rule for this type examines nothing"@,
                ),
            ]
        } else {
            Seq::empty()
        },
        None => Seq::empty(),
    }
}

/// Findings gathered per candidate agree when each candidate's do.
pub proof fn lemma_findings_by_congruent<A>(
    s: Seq<A>,
    f: spec_fn(A) -> Seq<FindingView>,
    g: spec_fn(A) -> Seq<FindingView>,
)
    requires
        forall|i: int| 0 <= i < s.len() ==> f(#[trigger] s[i]) == g(s[i]),
    ensures
        rules::findings_by(s, f) == rules::findings_by(s, g),
    decreases s.len(),
{
    if s.len() > 0 {
        lemma_findings_by_congruent(s.drop_last(), f, g);
        assert(f(s[s.len() - 1]) == g(s[s.len() - 1]));
    }
}

/// `(type, how many records have it)` for every type a record has.
fn type_counts(records: &[Record]) -> (r: Vec<(String, usize)>)
    ensures
        forall|name: Seq<char>| #[trigger] count_of(r@, name) == type_count(records@, name),
{
    let mut names: Vec<String> = Vec::new();
    let mut i: usize = 0;
    while i < records.len()
        invariant
            i <= records.len(),
            forall|j: int| 0 <= j < i ==> string_views(names@).contains(#[trigger] records@[j].record_type@),
        decreases records.len() - i,
    {
        if !crate::report::contains_string(&names, records[i].record_type.as_str()) {
            let ghost before = string_views(names@);
            names.push(records[i].record_type.clone());
            assert(string_views(names@) =~= before.push(records@[i as int].record_type@));
            assert forall|j: int| 0 <= j < i + 1 implies string_views(names@).contains(#[trigger] records@[j].record_type@) by {
                if j < i {
                    let k = choose|k: int| 0 <= k < before.len() && before[k] == records@[j].record_type@;
                    assert(string_views(names@)[k] == before[k]);
                } else {
                    assert(string_views(names@)[before.len() as int] == records@[i as int].record_type@);
                }
            }
        }
        i += 1;
    }
    let mut out: Vec<(String, usize)> = Vec::new();
    let mut k: usize = 0;
    while k < names.len()
        invariant
            k <= names.len(),
            out@.len() == k,
            forall|j: int| 0 <= j < k ==> (#[trigger] out@[j]).1 == type_count(records@, out@[j].0@),
            forall|j: int| 0 <= j < k ==> (#[trigger] out@[j]).0@ == names@[j]@,
            forall|j: int| 0 <= j < records.len() ==> string_views(names@).contains(#[trigger] records@[j].record_type@),
        decreases names.len() - k,
    {
        let mut n: usize = 0;
        let mut m: usize = 0;
        while m < records.len()
            invariant
                k < names.len(),
                m <= records.len(),
                n <= m,
                n == type_count(records@.take(m as int), names@[k as int]@),
            decreases records.len() - m,
        {
            assert(records@.take(m + 1).drop_last() =~= records@.take(m as int));
            if str_eq(records[m].record_type.as_str(), names[k].as_str()) {
                n += 1;
            }
            m += 1;
        }
        assert(records@.take(records.len() as int) =~= records@);
        out.push((names[k].clone(), n));
        k += 1;
    }
    proof {
        assert forall|name: Seq<char>| #[trigger] count_of(out@, name) == type_count(records@, name) by {
            crate::config::lemma_first_key(out@, name);
            if first_key(out@, name) is None {
                assert forall|j: int| 0 <= j < records.len() implies records@[j].record_type@ != name by {
                    if records@[j].record_type@ == name {
                        assert(string_views(names@).contains(records@[j].record_type@));
                        let q = choose|q: int| 0 <= q < names@.len() && string_views(names@)[q] == name;
                        assert(out@[q].0@ == names@[q]@);
                    }
                }
                lemma_type_count_absent(records@, name);
            }
        }
    }
    out
}

/// A type no record has counts zero.
proof fn lemma_type_count_absent(records: Seq<Record>, name: Seq<char>)
    requires
        forall|j: int| 0 <= j < records.len() ==> records[j].record_type@ != name,
    ensures
        type_count(records, name) == 0,
    decreases records.len(),
{
    if records.len() > 0 {
        lemma_type_count_absent(records.drop_last(), name);
    }
}

/// What the rule at position `k` of `check_order` reports about the
/// inputs, before gating, as that rule's own contract states it. The rule
/// judging the configuration's reach, last in the order, reads the other
/// executions instead; see `scope_output`.
pub open spec fn rule_output(config: Config, inputs: CheckInputs, k: int) -> Seq<FindingView> {
    let recs = inputs.records@;
    let cp = inputs.config_path@;
    if k == 0 {
        rules::findings_by(recs, |rec: Record| rules::required_record_findings(config, rec)) + rules::findings_by(rules::slots_of(config, recs, rules::FieldSlots::Required), |s: (int, Seq<char>)| rules::slot_verdict(rules::SlotCheck::Required, recs[s.0], s.1).1)
    } else if k == 1 {
        rules::findings_by(rules::slots_of(config, recs, rules::FieldSlots::PointerAndNarrative), |s: (int, Seq<char>)| rules::ref_verdict(rules::RefCheck::Resolution, config, recs, Seq::<Seq<char>>::empty(), recs[s.0], s.1).1)
    } else if k == 2 {
        rules::findings_by(rules::slots_of(config, recs, rules::FieldSlots::PointerAndNarrative), |s: (int, Seq<char>)| rules::ref_verdict(rules::RefCheck::TargetStatus, config, recs, option_strings(config, rules::RULE_POINTER_TARGET_STATUS@, 0), recs[s.0], s.1).1)
    } else if k == 3 {
        rules::findings_by(rules::slots_of(config, recs, rules::FieldSlots::Required), |s: (int, Seq<char>)| rules::slot_verdict(rules::SlotCheck::Quality, recs[s.0], s.1).1)
    } else if k == 4 {
        rules::findings_by(rules::slots_of(config, recs, rules::FieldSlots::Required), |s: (int, Seq<char>)| rules::slot_verdict(rules::SlotCheck::Pending, recs[s.0], s.1).1)
    } else if k == 5 {
        rules::findings_by(rules::claim_occurrences(inputs.claims@), |o: rules::ClaimV| rules::claim_findings(config, recs, option_strings(config, rules::RULE_CLAIM_STATUS_AGREEMENT@, 1), o))
    } else if k == 6 {
        rules::findings_by(recs, |rec: Record| rules::title_verdict(inputs.full_text@, rec).1)
    } else if k == 7 {
        rules::findings_by(rules::role_records(config, recs, rules::role_slots(rules::RoleCheck::Supersession)), |rec: Record| rules::role_verdict(rules::RoleCheck::Supersession, config, recs, Seq::<Seq<char>>::empty(), Seq::<Seq<char>>::empty(), rec).1)
    } else if k == 8 {
        rules::findings_by(recs, |rec: Record| rules::revision_verdict(inputs.full_text@, rec).1)
    } else if k == 9 {
        rules::findings_by(rules::role_records(config, recs, rules::role_slots(rules::RoleCheck::Consistency)), |rec: Record| rules::role_verdict(rules::RoleCheck::Consistency, config, Seq::<Record>::empty(), Seq::<Seq<char>>::empty(), string_views(inputs.drifted@), rec).1)
    } else if k == 10 {
        rules::findings_by(rules::role_records(config, recs, rules::role_slots(rules::RoleCheck::LocatorExists)), |rec: Record| rules::role_verdict(rules::RoleCheck::LocatorExists, config, Seq::<Record>::empty(), string_views(inputs.present_locators@), Seq::<Seq<char>>::empty(), rec).1)
    } else if k == 11 {
        rules::findings_by(crate::order::sorted(crate::config::dedup(rules::citations(config, rules::role_records(config, recs, rules::RoleSlots::Locator)).map_values(|c: (Seq<char>, Seq<char>)| c.0))), |l: Seq<char>| rules::promotion_findings(rules::citations(config, rules::role_records(config, recs, rules::RoleSlots::Locator)), l))
    } else if k == 12 {
        rules::findings_by(rules::eligible_records(rules::RecordCheck::LayoutConsistency, config, recs), |rec: Record| rules::record_verdict(rules::RecordCheck::LayoutConsistency, config, rec).1)
    } else if k == 13 {
        rules::findings_by(rules::eligible_records(rules::RecordCheck::FieldSetConsistency, config, recs), |rec: Record| rules::record_verdict(rules::RecordCheck::FieldSetConsistency, config, rec).1)
    } else if k == 14 {
        rules::findings_by(rules::slots_of(config, recs, rules::FieldSlots::Declared), |s: (int, Seq<char>)| rules::slot_verdict(rules::SlotCheck::Untrimmed, recs[s.0], s.1).1)
    } else if k == 15 {
        rules::findings_by(rules::slots_of(config, recs, rules::FieldSlots::Declared), |s: (int, Seq<char>)| rules::slot_verdict(rules::SlotCheck::CaseMismatch, recs[s.0], s.1).1)
    } else if k == 16 {
        rules::findings_by(rules::slots_of(config, recs, rules::FieldSlots::Narrative), |s: (int, Seq<char>)| rules::ref_verdict(rules::RefCheck::Stale, config, recs, option_strings(config, rules::RULE_NARRATIVE_FIELD_STALE@, 2), recs[s.0], s.1).1)
    } else if k == 17 {
        rules::findings_by(rules::type_names(config), |n: Seq<char>| counted_dir_findings(config, cp, recs, string_views(inputs.existing_dirs@), n))
    } else if k == 18 {
        rules::findings_by(crate::references::collisions(recs), |c: (Seq<char>, Seq<Record>)| rules::collision_findings(c))
    } else if k == 19 {
        rules::findings_by(crate::order::path_sorted(rules::unowned(rules::declared_dirs(config), rules::outside_candidates(rules::declared_dirs(config), string_views(inputs.tracked_paths@)))), |p: Seq<char>| rules::outside_finding(p))
    } else if k == 20 {
        rules::findings_by(rules::type_names(config), |n: Seq<char>| rules::named_type_findings(rules::TypeCheck::NoDeclaredSpec, config, cp, n))
    } else if k == 21 {
        rules::findings_by(rules::type_names(config), |n: Seq<char>| rules::named_type_findings(rules::TypeCheck::DeprecatedShape, config, cp, n))
    } else if k == 22 {
        rules::findings_by(rules::slots_of(config, recs, rules::FieldSlots::Pointer), |s: (int, Seq<char>)| rules::ref_verdict(rules::RefCheck::PointerClean, config, Seq::<Record>::empty(), Seq::<Seq<char>>::empty(), recs[s.0], s.1).1)
    } else if k == 23 {
        rules::findings_by(rules::type_names(config), |n: Seq<char>| rules::named_type_findings(rules::TypeCheck::PointerDeclarationMissing, config, cp, n))
    } else if k == 24 {
        rules::findings_by(rules::type_names(config), |n: Seq<char>| rules::named_type_findings(rules::TypeCheck::PointerFieldNotKnown, config, cp, n))
    } else if k == 25 {
        rules::findings_by(rules::type_names(config), |n: Seq<char>| rules::named_type_findings(rules::TypeCheck::PointerNarrativeOverlap, config, cp, n))
    } else if k == 26 {
        rules::findings_by(rules::type_names(config), |n: Seq<char>| rules::named_type_findings(rules::TypeCheck::KnownFieldsDeclarationMissing, config, cp, n))
    } else if k == 27 {
        rules::findings_by(rules::type_names(config), |n: Seq<char>| rules::named_type_findings(rules::TypeCheck::RelationFieldNotKnown, config, cp, n))
    } else if k == 28 {
        rules::findings_by(rules::type_names(config), |n: Seq<char>| rules::named_type_findings(rules::TypeCheck::HeaderNoneHasNoRequiredFields, config, cp, n))
    } else if k == 29 {
        rules::findings_by(rules::slots_of(config, recs, rules::FieldSlots::PointerAndNarrative), |s: (int, Seq<char>)| rules::ref_verdict(rules::RefCheck::TargetStatusUndeclared, config, recs, Seq::<Seq<char>>::empty(), recs[s.0], s.1).1)
    } else {
        Seq::empty()
    }
}

/// How the rule at position `k` of `check_order` reports its run over the
/// inputs, when it runs: its population and the records it examined, as
/// that rule's own contract states them.
pub open spec fn rule_run(config: Config, inputs: CheckInputs, k: int, e: RuleExecution) -> bool {
    let recs = inputs.records@;
    if k == 0 {
        rules::ran_as(e, rules::RULE_HEADER_REQUIRED_FIELDS@, crate::report::PopulationUnit::Field, rules::outcomes_by(rules::slots_of(config, recs, rules::FieldSlots::Required), |s: (int, Seq<char>)| rules::slot_verdict(rules::SlotCheck::Required, recs[s.0], s.1).0), rules::paths_by(rules::slots_of(config, recs, rules::FieldSlots::Required), |s: (int, Seq<char>)| recs[s.0].path@))
    } else if k == 1 {
        rules::ran_as(e, rules::RULE_POINTER_RESOLUTION@, crate::report::PopulationUnit::Field, rules::outcomes_by(rules::slots_of(config, recs, rules::FieldSlots::PointerAndNarrative), |s: (int, Seq<char>)| rules::ref_verdict(rules::RefCheck::Resolution, config, recs, Seq::<Seq<char>>::empty(), recs[s.0], s.1).0), rules::paths_by(rules::slots_of(config, recs, rules::FieldSlots::PointerAndNarrative), |s: (int, Seq<char>)| recs[s.0].path@))
    } else if k == 2 {
        rules::ran_as(e, rules::RULE_POINTER_TARGET_STATUS@, crate::report::PopulationUnit::Field, rules::outcomes_by(rules::slots_of(config, recs, rules::FieldSlots::PointerAndNarrative), |s: (int, Seq<char>)| rules::ref_verdict(rules::RefCheck::TargetStatus, config, recs, option_strings(config, rules::RULE_POINTER_TARGET_STATUS@, 0), recs[s.0], s.1).0), rules::paths_by(rules::slots_of(config, recs, rules::FieldSlots::PointerAndNarrative), |s: (int, Seq<char>)| recs[s.0].path@))
    } else if k == 3 {
        rules::ran_as(e, rules::RULE_FIELD_QUALITY@, crate::report::PopulationUnit::Field, rules::outcomes_by(rules::slots_of(config, recs, rules::FieldSlots::Required), |s: (int, Seq<char>)| rules::slot_verdict(rules::SlotCheck::Quality, recs[s.0], s.1).0), rules::paths_by(rules::slots_of(config, recs, rules::FieldSlots::Required), |s: (int, Seq<char>)| recs[s.0].path@))
    } else if k == 4 {
        rules::ran_as(e, rules::RULE_FIELD_PENDING@, crate::report::PopulationUnit::Field, rules::outcomes_by(rules::slots_of(config, recs, rules::FieldSlots::Required), |s: (int, Seq<char>)| rules::slot_verdict(rules::SlotCheck::Pending, recs[s.0], s.1).0), rules::paths_by(rules::slots_of(config, recs, rules::FieldSlots::Required), |s: (int, Seq<char>)| recs[s.0].path@))
    } else if k == 5 {
        rules::ran_on_config(e, rules::RULE_CLAIM_STATUS_AGREEMENT@, crate::report::PopulationUnit::Claim, rules::outcomes_by(crate::config::dedup(rules::claim_occurrences(inputs.claims@).map_values(|o: rules::ClaimV| crate::values::normalize(o.2))), |k: Seq<char>| if crate::references::resolve(recs, k) is Some { crate::report::Outcome::Examined } else { crate::report::Outcome::Absent }))
    } else if k == 6 {
        rules::ran_as(e, rules::RULE_FILENAME_TITLE_CONSISTENCY@, crate::report::PopulationUnit::Record, rules::outcomes_by(recs, |rec: Record| rules::title_verdict(inputs.full_text@, rec).0), rules::paths_by(recs, |rec: Record| rec.path@))
    } else if k == 7 {
        rules::ran_as(e, rules::RULE_RELATION_SUPERSESSION_RECIPROCITY@, crate::report::PopulationUnit::Field, rules::outcomes_by(rules::role_records(config, recs, rules::role_slots(rules::RoleCheck::Supersession)), |rec: Record| rules::role_verdict(rules::RoleCheck::Supersession, config, recs, Seq::<Seq<char>>::empty(), Seq::<Seq<char>>::empty(), rec).0), rules::paths_by(rules::role_records(config, recs, rules::role_slots(rules::RoleCheck::Supersession)), |rec: Record| rec.path@))
    } else if k == 8 {
        rules::ran_as(e, rules::RULE_REVISION_LOG_CHANGE_CLASS_REQUIRED@, crate::report::PopulationUnit::Record, rules::outcomes_by(recs, |rec: Record| rules::revision_verdict(inputs.full_text@, rec).0), rules::paths_by(recs, |rec: Record| rec.path@))
    } else if k == 9 {
        rules::ran_as(e, rules::RULE_EMBODIMENT_CONSISTENCY@, crate::report::PopulationUnit::Field, rules::outcomes_by(rules::role_records(config, recs, rules::role_slots(rules::RoleCheck::Consistency)), |rec: Record| rules::role_verdict(rules::RoleCheck::Consistency, config, Seq::<Record>::empty(), Seq::<Seq<char>>::empty(), string_views(inputs.drifted@), rec).0), rules::paths_by(rules::role_records(config, recs, rules::role_slots(rules::RoleCheck::Consistency)), |rec: Record| rec.path@))
    } else if k == 10 {
        rules::ran_as(e, rules::RULE_EMBODIMENT_LOCATOR_EXISTS@, crate::report::PopulationUnit::Field, rules::outcomes_by(rules::role_records(config, recs, rules::role_slots(rules::RoleCheck::LocatorExists)), |rec: Record| rules::role_verdict(rules::RoleCheck::LocatorExists, config, Seq::<Record>::empty(), string_views(inputs.present_locators@), Seq::<Seq<char>>::empty(), rec).0), rules::paths_by(rules::role_records(config, recs, rules::role_slots(rules::RoleCheck::LocatorExists)), |rec: Record| rec.path@))
    } else if k == 11 {
        rules::ran_as(e, rules::RULE_EMBODIMENT_LOCATOR_PROMOTION_CANDIDATE@, crate::report::PopulationUnit::Field, rules::outcomes_by(rules::role_records(config, recs, rules::RoleSlots::Locator), |rec: Record| rules::role_verdict(rules::RoleCheck::PromotionCandidate, config, Seq::<Record>::empty(), Seq::<Seq<char>>::empty(), Seq::<Seq<char>>::empty(), rec).0), rules::paths_by(rules::role_records(config, recs, rules::RoleSlots::Locator), |rec: Record| rec.path@))
    } else if k == 12 {
        rules::ran_as(e, rules::RULE_HEADER_LAYOUT_CONSISTENCY@, crate::report::PopulationUnit::Record, rules::outcomes_by(rules::eligible_records(rules::RecordCheck::LayoutConsistency, config, recs), |rec: Record| rules::record_verdict(rules::RecordCheck::LayoutConsistency, config, rec).0), rules::paths_by(rules::eligible_records(rules::RecordCheck::LayoutConsistency, config, recs), |rec: Record| rec.path@))
    } else if k == 13 {
        rules::ran_as(e, rules::RULE_HEADER_FIELD_SET_CONSISTENCY@, crate::report::PopulationUnit::Record, rules::outcomes_by(rules::eligible_records(rules::RecordCheck::FieldSetConsistency, config, recs), |rec: Record| rules::record_verdict(rules::RecordCheck::FieldSetConsistency, config, rec).0), rules::paths_by(rules::eligible_records(rules::RecordCheck::FieldSetConsistency, config, recs), |rec: Record| rec.path@))
    } else if k == 14 {
        rules::ran_as(e, rules::RULE_FIELD_UNTRIMMED_VALUE@, crate::report::PopulationUnit::Field, rules::outcomes_by(rules::slots_of(config, recs, rules::FieldSlots::Declared), |s: (int, Seq<char>)| rules::slot_verdict(rules::SlotCheck::Untrimmed, recs[s.0], s.1).0), rules::paths_by(rules::slots_of(config, recs, rules::FieldSlots::Declared), |s: (int, Seq<char>)| recs[s.0].path@))
    } else if k == 15 {
        rules::ran_as(e, rules::RULE_HEADER_FIELD_CASE_MISMATCH@, crate::report::PopulationUnit::Field, rules::outcomes_by(rules::slots_of(config, recs, rules::FieldSlots::Declared), |s: (int, Seq<char>)| rules::slot_verdict(rules::SlotCheck::CaseMismatch, recs[s.0], s.1).0), rules::paths_by(rules::slots_of(config, recs, rules::FieldSlots::Declared), |s: (int, Seq<char>)| recs[s.0].path@))
    } else if k == 16 {
        rules::ran_as(e, rules::RULE_NARRATIVE_FIELD_STALE@, crate::report::PopulationUnit::Field, rules::outcomes_by(rules::slots_of(config, recs, rules::FieldSlots::Narrative), |s: (int, Seq<char>)| rules::ref_verdict(rules::RefCheck::Stale, config, recs, option_strings(config, rules::RULE_NARRATIVE_FIELD_STALE@, 2), recs[s.0], s.1).0), rules::paths_by(rules::slots_of(config, recs, rules::FieldSlots::Narrative), |s: (int, Seq<char>)| recs[s.0].path@))
    } else if k == 17 {
        rules::ran_on_config(e, rules::RULE_TYPE_DIR_MATCHES_NOTHING@, crate::report::PopulationUnit::RecordType, rules::outcomes_by(rules::type_names(config), |n: Seq<char>| crate::report::Outcome::Examined))
    } else if k == 18 {
        rules::ran_as(e, rules::RULE_IDENTITY_COLLISION@, crate::report::PopulationUnit::Record, rules::outcomes_by(recs, |rec: Record| if rec.id_spec() is Some { crate::report::Outcome::Examined } else { crate::report::Outcome::OutOfScope }), rules::paths_by(recs, |rec: Record| rec.path@))
    } else if k == 19 {
        rules::ran_on_config(e, rules::RULE_TYPE_RECORD_OUTSIDE_DECLARED_DIR@, crate::report::PopulationUnit::Path, rules::outcomes_by(rules::outside_candidates(rules::declared_dirs(config), string_views(inputs.tracked_paths@)), |p: Seq<char>| crate::report::Outcome::Examined))
    } else if k == 20 {
        rules::ran_on_config(e, rules::RULE_TYPE_NO_DECLARED_SPEC@, crate::report::PopulationUnit::RecordType, rules::outcomes_by(rules::type_names(config), |n: Seq<char>| crate::report::Outcome::Examined))
    } else if k == 21 {
        rules::ran_on_config(e, rules::RULE_HEADER_DEPRECATED_SHAPE@, crate::report::PopulationUnit::RecordType, rules::outcomes_by(rules::type_names(config), |n: Seq<char>| crate::report::Outcome::Examined))
    } else if k == 22 {
        rules::ran_as(e, rules::RULE_HEADER_POINTER_FIELD_CLEAN@, crate::report::PopulationUnit::Field, rules::outcomes_by(rules::slots_of(config, recs, rules::FieldSlots::Pointer), |s: (int, Seq<char>)| rules::ref_verdict(rules::RefCheck::PointerClean, config, Seq::<Record>::empty(), Seq::<Seq<char>>::empty(), recs[s.0], s.1).0), rules::paths_by(rules::slots_of(config, recs, rules::FieldSlots::Pointer), |s: (int, Seq<char>)| recs[s.0].path@))
    } else if k == 23 {
        rules::ran_on_config(e, rules::RULE_CONFIG_POINTER_DECLARATION_MISSING@, crate::report::PopulationUnit::RecordType, rules::outcomes_by(rules::type_names(config), |n: Seq<char>| crate::report::Outcome::Examined))
    } else if k == 24 {
        rules::ran_on_config(e, rules::RULE_CONFIG_POINTER_FIELD_NOT_KNOWN@, crate::report::PopulationUnit::RecordType, rules::outcomes_by(rules::type_names(config), |n: Seq<char>| crate::report::Outcome::Examined))
    } else if k == 25 {
        rules::ran_on_config(e, rules::RULE_CONFIG_POINTER_NARRATIVE_OVERLAP@, crate::report::PopulationUnit::RecordType, rules::outcomes_by(rules::type_names(config), |n: Seq<char>| crate::report::Outcome::Examined))
    } else if k == 26 {
        rules::ran_on_config(e, rules::RULE_CONFIG_KNOWN_FIELDS_DECLARATION_MISSING@, crate::report::PopulationUnit::RecordType, rules::outcomes_by(rules::type_names(config), |n: Seq<char>| crate::report::Outcome::Examined))
    } else if k == 27 {
        rules::ran_on_config(e, rules::RULE_CONFIG_RELATION_FIELD_NOT_KNOWN@, crate::report::PopulationUnit::RecordType, rules::outcomes_by(rules::type_names(config), |n: Seq<char>| crate::report::Outcome::Examined))
    } else if k == 28 {
        rules::ran_on_config(e, rules::RULE_CONFIG_HEADER_NONE_HAS_NO_REQUIRED_FIELDS@, crate::report::PopulationUnit::RecordType, rules::outcomes_by(rules::type_names(config), |n: Seq<char>| crate::report::Outcome::Examined))
    } else if k == 29 {
        rules::ran_as(e, rules::RULE_RELATION_TARGET_STATUS_UNDECLARED@, crate::report::PopulationUnit::Field, rules::outcomes_by(rules::slots_of(config, recs, rules::FieldSlots::PointerAndNarrative), |s: (int, Seq<char>)| rules::ref_verdict(rules::RefCheck::TargetStatusUndeclared, config, recs, Seq::<Seq<char>>::empty(), recs[s.0], s.1).0), rules::paths_by(rules::slots_of(config, recs, rules::FieldSlots::PointerAndNarrative), |s: (int, Seq<char>)| recs[s.0].path@))
    } else {
        false
    }
}

/// Each rule of `done` that the configuration turns on reported its run as
/// its contract states.
pub open spec fn runs_reported(config: Config, inputs: CheckInputs, done: Seq<Seq<char>>, execs: Seq<RuleExecution>) -> bool {
    forall|j: int| 0 <= j < done.len() && enabled(config, done[j]) ==> #[trigger] rule_run(config, inputs, j, execs[j])
}

/// One more run reported.
proof fn lemma_runs_push(
    config: Config,
    inputs: CheckInputs,
    done: Seq<Seq<char>>,
    id: Seq<char>,
    before: Seq<RuleExecution>,
    after: Seq<RuleExecution>,
)
    requires
        runs_reported(config, inputs, done, before),
        before.len() == done.len(),
        after.len() == before.len() + 1,
        after.drop_last() == before,
        enabled(config, id) ==> rule_run(config, inputs, done.len() as int, after.last()),
    ensures
        runs_reported(config, inputs, done.push(id), after),
{
    assert forall|j: int| 0 <= j < done.push(id).len() && enabled(config, done.push(id)[j]) implies #[trigger] rule_run(
        config,
        inputs,
        j,
        after[j],
    ) by {
        if j < done.len() {
            assert(after[j] == before[j]);
            assert(done.push(id)[j] == done[j]);
        }
    }
}

/// What the rule judging the configuration's reach reports, over the
/// executions of the rules before it.
pub open spec fn scope_output(config_path: Seq<char>, executed: Seq<RuleExecution>) -> Seq<FindingView> {
    rules::findings_by(rules::judged_executions(executed), |e: RuleExecution| rules::scope_verdict(config_path, e).1)
}

/// How the rule judging the configuration's reach reports its run over
/// the executions before it.
pub open spec fn scope_run(config_path: Seq<char>, executed: Seq<RuleExecution>, e: RuleExecution) -> bool {
    rules::ran_on_config(
        e,
        rules::RULE_CONFIG_SCOPE_MATCHES_NOTHING@,
        crate::report::PopulationUnit::Rule,
        rules::outcomes_by(rules::judged_executions(executed), |x: RuleExecution| rules::scope_verdict(config_path, x).0),
    )
}

/// The findings of the rules `ids`, the first rules of `check_order`, each
/// as gating leaves it, in order.
pub open spec fn gathered(config: Config, inputs: CheckInputs, ids: Seq<Seq<char>>) -> Seq<FindingView>
    decreases ids.len(),
{
    if ids.len() == 0 {
        Seq::empty()
    } else {
        gathered(config, inputs, ids.drop_last()) + gated_findings(
            config,
            ids.last(),
            rule_output(config, inputs, ids.len() - 1),
        )
    }
}

/// Every finding a check's rules report, before the run is narrowed to what
/// it was asked about and waivers are applied: each rule's own findings in
/// `check_order`, as gating leaves them.
pub open spec fn check_findings(config: Config, inputs: CheckInputs, executed: Seq<RuleExecution>) -> Seq<FindingView> {
    gathered(config, inputs, check_order().drop_last()) + gated_findings(
        config,
        rules::RULE_CONFIG_SCOPE_MATCHES_NOTHING@,
        scope_output(inputs.config_path@, executed.drop_last()),
    )
}

/// Run every rule of the check, in `check_order`, each through `gated`.
/// Every declared rule runs and reports its population and the records it
/// examined as its own contract states them; every undeclared one is
/// reported not enabled. The findings are each rule's own, in order, at the
/// severity its declared level gives.
#[verifier::rlimit(100)]
#[verifier::spinoff_prover]
pub fn run_rules(config: &Config, inputs: &CheckInputs) -> (r: (Vec<RuleExecution>, Vec<Finding>))
    ensures
        r.0@.len() == check_order().len(),
        forall|k: int| 0 <= k < r.0@.len() ==> executed_as(*config, check_order()[k], #[trigger] r.0@[k]),
        forall|i: int| 0 <= i < r.1@.len() ==> declared_finding(*config, check_order(), #[trigger] r.1@[i]@),
        finding_views(r.1@) == check_findings(*config, *inputs, r.0@),
        runs_reported(*config, *inputs, check_order().drop_last(), r.0@.drop_last()),
        enabled(*config, rules::RULE_CONFIG_SCOPE_MATCHES_NOTHING@) ==> scope_run(
            inputs.config_path@,
            r.0@.drop_last(),
            r.0@.last(),
        ),
{
    let records = &inputs.records;
    let cp = inputs.config_path.as_str();
    let (index, collisions) = build_index_reporting_collisions(records);
    let mut execs: Vec<RuleExecution> = Vec::new();
    let mut findings: Vec<Finding> = Vec::new();
    let ghost mut done: Seq<Seq<char>> = Seq::empty();
    let not_in = option_list(config, rules::RULE_POINTER_TARGET_STATUS, 0);
    let closed = option_list(config, rules::RULE_CLAIM_STATUS_AGREEMENT, 1);
    let terminal = option_list(config, rules::RULE_NARRATIVE_FIELD_STALE, 2);
    let matched = type_counts(records.as_slice());
    proof {
        assert(finding_views(findings@) =~= gathered(*config, *inputs, done));
        assert(runs_reported(*config, *inputs, done, execs@));
        assert forall|n: Seq<char>| #[trigger] rules::dir_findings(*config, cp@, matched@, string_views(inputs.existing_dirs@), n)
            == counted_dir_findings(*config, cp@, records@, string_views(inputs.existing_dirs@), n) by {
            assert(count_of(matched@, n) == type_count(records@, n));
        }
        lemma_findings_by_congruent(
            rules::type_names(*config),
            |n: Seq<char>| rules::dir_findings(*config, cp@, matched@, string_views(inputs.existing_dirs@), n),
            |n: Seq<char>| counted_dir_findings(*config, cp@, records@, string_views(inputs.existing_dirs@), n),
        );
    }

    let ghost pre_execs = execs@;
    let run = || -> (r: (RuleExecution, Vec<Finding>))
        ensures
            ran_rule(r.0, rules::RULE_HEADER_REQUIRED_FIELDS@),
            finding_views(r.1@) == rule_output(*config, *inputs, 0),
            rule_run(*config, *inputs, 0, r.0),
    {
        rules::header_required_fields(records, config)
    };
    step(config, rules::RULE_HEADER_REQUIRED_FIELDS, run, &mut execs, &mut findings, Ghost(done), Ghost(rule_output(*config, *inputs, 0)), Ghost(|e: RuleExecution| rule_run(*config, *inputs, 0, e)));
    proof {
        lemma_gathered_push(*config, *inputs, done, rules::RULE_HEADER_REQUIRED_FIELDS@);
        lemma_runs_push(*config, *inputs, done, rules::RULE_HEADER_REQUIRED_FIELDS@, pre_execs, execs@);
        done = done.push(rules::RULE_HEADER_REQUIRED_FIELDS@);
    }

    let ghost pre_execs = execs@;
    let run = || -> (r: (RuleExecution, Vec<Finding>))
        ensures
            ran_rule(r.0, rules::RULE_POINTER_RESOLUTION@),
            finding_views(r.1@) == rule_output(*config, *inputs, 1),
            rule_run(*config, *inputs, 1, r.0),
    {
        rules::pointer_resolution(records, config, &index)
    };
    step(config, rules::RULE_POINTER_RESOLUTION, run, &mut execs, &mut findings, Ghost(done), Ghost(rule_output(*config, *inputs, 1)), Ghost(|e: RuleExecution| rule_run(*config, *inputs, 1, e)));
    proof {
        lemma_gathered_push(*config, *inputs, done, rules::RULE_POINTER_RESOLUTION@);
        lemma_runs_push(*config, *inputs, done, rules::RULE_POINTER_RESOLUTION@, pre_execs, execs@);
        done = done.push(rules::RULE_POINTER_RESOLUTION@);
    }

    let ghost pre_execs = execs@;
    let run = || -> (r: (RuleExecution, Vec<Finding>))
        ensures
            ran_rule(r.0, rules::RULE_POINTER_TARGET_STATUS@),
            finding_views(r.1@) == rule_output(*config, *inputs, 2),
            rule_run(*config, *inputs, 2, r.0),
    {
        rules::pointer_target_status(records, config, not_in.as_slice(), &index)
    };
    step(config, rules::RULE_POINTER_TARGET_STATUS, run, &mut execs, &mut findings, Ghost(done), Ghost(rule_output(*config, *inputs, 2)), Ghost(|e: RuleExecution| rule_run(*config, *inputs, 2, e)));
    proof {
        lemma_gathered_push(*config, *inputs, done, rules::RULE_POINTER_TARGET_STATUS@);
        lemma_runs_push(*config, *inputs, done, rules::RULE_POINTER_TARGET_STATUS@, pre_execs, execs@);
        done = done.push(rules::RULE_POINTER_TARGET_STATUS@);
    }

    let ghost pre_execs = execs@;
    let run = || -> (r: (RuleExecution, Vec<Finding>))
        ensures
            ran_rule(r.0, rules::RULE_FIELD_QUALITY@),
            finding_views(r.1@) == rule_output(*config, *inputs, 3),
            rule_run(*config, *inputs, 3, r.0),
    {
        rules::field_quality(records, config)
    };
    step(config, rules::RULE_FIELD_QUALITY, run, &mut execs, &mut findings, Ghost(done), Ghost(rule_output(*config, *inputs, 3)), Ghost(|e: RuleExecution| rule_run(*config, *inputs, 3, e)));
    proof {
        lemma_gathered_push(*config, *inputs, done, rules::RULE_FIELD_QUALITY@);
        lemma_runs_push(*config, *inputs, done, rules::RULE_FIELD_QUALITY@, pre_execs, execs@);
        done = done.push(rules::RULE_FIELD_QUALITY@);
    }

    let ghost pre_execs = execs@;
    let run = || -> (r: (RuleExecution, Vec<Finding>))
        ensures
            ran_rule(r.0, rules::RULE_FIELD_PENDING@),
            finding_views(r.1@) == rule_output(*config, *inputs, 4),
            rule_run(*config, *inputs, 4, r.0),
    {
        rules::field_pending(records, config)
    };
    step(config, rules::RULE_FIELD_PENDING, run, &mut execs, &mut findings, Ghost(done), Ghost(rule_output(*config, *inputs, 4)), Ghost(|e: RuleExecution| rule_run(*config, *inputs, 4, e)));
    proof {
        lemma_gathered_push(*config, *inputs, done, rules::RULE_FIELD_PENDING@);
        lemma_runs_push(*config, *inputs, done, rules::RULE_FIELD_PENDING@, pre_execs, execs@);
        done = done.push(rules::RULE_FIELD_PENDING@);
    }

    let ghost pre_execs = execs@;
    let run = || -> (r: (RuleExecution, Vec<Finding>))
        ensures
            ran_rule(r.0, rules::RULE_CLAIM_STATUS_AGREEMENT@),
            finding_views(r.1@) == rule_output(*config, *inputs, 5),
            rule_run(*config, *inputs, 5, r.0),
    {
        rules::claim_status_agreement(inputs.claims.as_slice(), closed.as_slice(), config, &index)
    };
    step(config, rules::RULE_CLAIM_STATUS_AGREEMENT, run, &mut execs, &mut findings, Ghost(done), Ghost(rule_output(*config, *inputs, 5)), Ghost(|e: RuleExecution| rule_run(*config, *inputs, 5, e)));
    proof {
        lemma_gathered_push(*config, *inputs, done, rules::RULE_CLAIM_STATUS_AGREEMENT@);
        lemma_runs_push(*config, *inputs, done, rules::RULE_CLAIM_STATUS_AGREEMENT@, pre_execs, execs@);
        done = done.push(rules::RULE_CLAIM_STATUS_AGREEMENT@);
    }

    let ghost pre_execs = execs@;
    let run = || -> (r: (RuleExecution, Vec<Finding>))
        ensures
            ran_rule(r.0, rules::RULE_FILENAME_TITLE_CONSISTENCY@),
            finding_views(r.1@) == rule_output(*config, *inputs, 6),
            rule_run(*config, *inputs, 6, r.0),
    {
        rules::filename_title_consistency(records, &inputs.full_text)
    };
    step(config, rules::RULE_FILENAME_TITLE_CONSISTENCY, run, &mut execs, &mut findings, Ghost(done), Ghost(rule_output(*config, *inputs, 6)), Ghost(|e: RuleExecution| rule_run(*config, *inputs, 6, e)));
    proof {
        lemma_gathered_push(*config, *inputs, done, rules::RULE_FILENAME_TITLE_CONSISTENCY@);
        lemma_runs_push(*config, *inputs, done, rules::RULE_FILENAME_TITLE_CONSISTENCY@, pre_execs, execs@);
        done = done.push(rules::RULE_FILENAME_TITLE_CONSISTENCY@);
    }

    let ghost pre_execs = execs@;
    let run = || -> (r: (RuleExecution, Vec<Finding>))
        ensures
            ran_rule(r.0, rules::RULE_RELATION_SUPERSESSION_RECIPROCITY@),
            finding_views(r.1@) == rule_output(*config, *inputs, 7),
            rule_run(*config, *inputs, 7, r.0),
    {
        rules::supersession_reciprocity(records, config, &index)
    };
    step(config, rules::RULE_RELATION_SUPERSESSION_RECIPROCITY, run, &mut execs, &mut findings, Ghost(done), Ghost(rule_output(*config, *inputs, 7)), Ghost(|e: RuleExecution| rule_run(*config, *inputs, 7, e)));
    proof {
        lemma_gathered_push(*config, *inputs, done, rules::RULE_RELATION_SUPERSESSION_RECIPROCITY@);
        lemma_runs_push(*config, *inputs, done, rules::RULE_RELATION_SUPERSESSION_RECIPROCITY@, pre_execs, execs@);
        done = done.push(rules::RULE_RELATION_SUPERSESSION_RECIPROCITY@);
    }

    let ghost pre_execs = execs@;
    let run = || -> (r: (RuleExecution, Vec<Finding>))
        ensures
            ran_rule(r.0, rules::RULE_REVISION_LOG_CHANGE_CLASS_REQUIRED@),
            finding_views(r.1@) == rule_output(*config, *inputs, 8),
            rule_run(*config, *inputs, 8, r.0),
    {
        rules::revision_log_change_class(records, &inputs.full_text)
    };
    step(config, rules::RULE_REVISION_LOG_CHANGE_CLASS_REQUIRED, run, &mut execs, &mut findings, Ghost(done), Ghost(rule_output(*config, *inputs, 8)), Ghost(|e: RuleExecution| rule_run(*config, *inputs, 8, e)));
    proof {
        lemma_gathered_push(*config, *inputs, done, rules::RULE_REVISION_LOG_CHANGE_CLASS_REQUIRED@);
        lemma_runs_push(*config, *inputs, done, rules::RULE_REVISION_LOG_CHANGE_CLASS_REQUIRED@, pre_execs, execs@);
        done = done.push(rules::RULE_REVISION_LOG_CHANGE_CLASS_REQUIRED@);
    }

    let ghost pre_execs = execs@;
    let run = || -> (r: (RuleExecution, Vec<Finding>))
        ensures
            ran_rule(r.0, rules::RULE_EMBODIMENT_CONSISTENCY@),
            finding_views(r.1@) == rule_output(*config, *inputs, 9),
            rule_run(*config, *inputs, 9, r.0),
    {
        rules::embodiment_consistency(records, config, &inputs.drifted)
    };
    step(config, rules::RULE_EMBODIMENT_CONSISTENCY, run, &mut execs, &mut findings, Ghost(done), Ghost(rule_output(*config, *inputs, 9)), Ghost(|e: RuleExecution| rule_run(*config, *inputs, 9, e)));
    proof {
        lemma_gathered_push(*config, *inputs, done, rules::RULE_EMBODIMENT_CONSISTENCY@);
        lemma_runs_push(*config, *inputs, done, rules::RULE_EMBODIMENT_CONSISTENCY@, pre_execs, execs@);
        done = done.push(rules::RULE_EMBODIMENT_CONSISTENCY@);
    }

    let ghost pre_execs = execs@;
    let run = || -> (r: (RuleExecution, Vec<Finding>))
        ensures
            ran_rule(r.0, rules::RULE_EMBODIMENT_LOCATOR_EXISTS@),
            finding_views(r.1@) == rule_output(*config, *inputs, 10),
            rule_run(*config, *inputs, 10, r.0),
    {
        rules::embodiment_locator_exists(records, config, &inputs.present_locators)
    };
    step(config, rules::RULE_EMBODIMENT_LOCATOR_EXISTS, run, &mut execs, &mut findings, Ghost(done), Ghost(rule_output(*config, *inputs, 10)), Ghost(|e: RuleExecution| rule_run(*config, *inputs, 10, e)));
    proof {
        lemma_gathered_push(*config, *inputs, done, rules::RULE_EMBODIMENT_LOCATOR_EXISTS@);
        lemma_runs_push(*config, *inputs, done, rules::RULE_EMBODIMENT_LOCATOR_EXISTS@, pre_execs, execs@);
        done = done.push(rules::RULE_EMBODIMENT_LOCATOR_EXISTS@);
    }

    let ghost pre_execs = execs@;
    let run = || -> (r: (RuleExecution, Vec<Finding>))
        ensures
            ran_rule(r.0, rules::RULE_EMBODIMENT_LOCATOR_PROMOTION_CANDIDATE@),
            finding_views(r.1@) == rule_output(*config, *inputs, 11),
            rule_run(*config, *inputs, 11, r.0),
    {
        rules::embodiment_locator_promotion_candidate(records, config)
    };
    step(config, rules::RULE_EMBODIMENT_LOCATOR_PROMOTION_CANDIDATE, run, &mut execs, &mut findings, Ghost(done), Ghost(rule_output(*config, *inputs, 11)), Ghost(|e: RuleExecution| rule_run(*config, *inputs, 11, e)));
    proof {
        lemma_gathered_push(*config, *inputs, done, rules::RULE_EMBODIMENT_LOCATOR_PROMOTION_CANDIDATE@);
        lemma_runs_push(*config, *inputs, done, rules::RULE_EMBODIMENT_LOCATOR_PROMOTION_CANDIDATE@, pre_execs, execs@);
        done = done.push(rules::RULE_EMBODIMENT_LOCATOR_PROMOTION_CANDIDATE@);
    }

    let ghost pre_execs = execs@;
    let run = || -> (r: (RuleExecution, Vec<Finding>))
        ensures
            ran_rule(r.0, rules::RULE_HEADER_LAYOUT_CONSISTENCY@),
            finding_views(r.1@) == rule_output(*config, *inputs, 12),
            rule_run(*config, *inputs, 12, r.0),
    {
        rules::header_layout_consistency(records, config)
    };
    step(config, rules::RULE_HEADER_LAYOUT_CONSISTENCY, run, &mut execs, &mut findings, Ghost(done), Ghost(rule_output(*config, *inputs, 12)), Ghost(|e: RuleExecution| rule_run(*config, *inputs, 12, e)));
    proof {
        lemma_gathered_push(*config, *inputs, done, rules::RULE_HEADER_LAYOUT_CONSISTENCY@);
        lemma_runs_push(*config, *inputs, done, rules::RULE_HEADER_LAYOUT_CONSISTENCY@, pre_execs, execs@);
        done = done.push(rules::RULE_HEADER_LAYOUT_CONSISTENCY@);
    }

    let ghost pre_execs = execs@;
    let run = || -> (r: (RuleExecution, Vec<Finding>))
        ensures
            ran_rule(r.0, rules::RULE_HEADER_FIELD_SET_CONSISTENCY@),
            finding_views(r.1@) == rule_output(*config, *inputs, 13),
            rule_run(*config, *inputs, 13, r.0),
    {
        rules::header_field_set_consistency(records, config)
    };
    step(config, rules::RULE_HEADER_FIELD_SET_CONSISTENCY, run, &mut execs, &mut findings, Ghost(done), Ghost(rule_output(*config, *inputs, 13)), Ghost(|e: RuleExecution| rule_run(*config, *inputs, 13, e)));
    proof {
        lemma_gathered_push(*config, *inputs, done, rules::RULE_HEADER_FIELD_SET_CONSISTENCY@);
        lemma_runs_push(*config, *inputs, done, rules::RULE_HEADER_FIELD_SET_CONSISTENCY@, pre_execs, execs@);
        done = done.push(rules::RULE_HEADER_FIELD_SET_CONSISTENCY@);
    }

    let ghost pre_execs = execs@;
    let run = || -> (r: (RuleExecution, Vec<Finding>))
        ensures
            ran_rule(r.0, rules::RULE_FIELD_UNTRIMMED_VALUE@),
            finding_views(r.1@) == rule_output(*config, *inputs, 14),
            rule_run(*config, *inputs, 14, r.0),
    {
        rules::field_untrimmed_value(records, config)
    };
    step(config, rules::RULE_FIELD_UNTRIMMED_VALUE, run, &mut execs, &mut findings, Ghost(done), Ghost(rule_output(*config, *inputs, 14)), Ghost(|e: RuleExecution| rule_run(*config, *inputs, 14, e)));
    proof {
        lemma_gathered_push(*config, *inputs, done, rules::RULE_FIELD_UNTRIMMED_VALUE@);
        lemma_runs_push(*config, *inputs, done, rules::RULE_FIELD_UNTRIMMED_VALUE@, pre_execs, execs@);
        done = done.push(rules::RULE_FIELD_UNTRIMMED_VALUE@);
    }

    let ghost pre_execs = execs@;
    let run = || -> (r: (RuleExecution, Vec<Finding>))
        ensures
            ran_rule(r.0, rules::RULE_HEADER_FIELD_CASE_MISMATCH@),
            finding_views(r.1@) == rule_output(*config, *inputs, 15),
            rule_run(*config, *inputs, 15, r.0),
    {
        rules::header_field_case_mismatch(records, config)
    };
    step(config, rules::RULE_HEADER_FIELD_CASE_MISMATCH, run, &mut execs, &mut findings, Ghost(done), Ghost(rule_output(*config, *inputs, 15)), Ghost(|e: RuleExecution| rule_run(*config, *inputs, 15, e)));
    proof {
        lemma_gathered_push(*config, *inputs, done, rules::RULE_HEADER_FIELD_CASE_MISMATCH@);
        lemma_runs_push(*config, *inputs, done, rules::RULE_HEADER_FIELD_CASE_MISMATCH@, pre_execs, execs@);
        done = done.push(rules::RULE_HEADER_FIELD_CASE_MISMATCH@);
    }

    let ghost pre_execs = execs@;
    let run = || -> (r: (RuleExecution, Vec<Finding>))
        ensures
            ran_rule(r.0, rules::RULE_NARRATIVE_FIELD_STALE@),
            finding_views(r.1@) == rule_output(*config, *inputs, 16),
            rule_run(*config, *inputs, 16, r.0),
    {
        rules::narrative_field_stale(records, config, terminal.as_slice(), &index)
    };
    step(config, rules::RULE_NARRATIVE_FIELD_STALE, run, &mut execs, &mut findings, Ghost(done), Ghost(rule_output(*config, *inputs, 16)), Ghost(|e: RuleExecution| rule_run(*config, *inputs, 16, e)));
    proof {
        lemma_gathered_push(*config, *inputs, done, rules::RULE_NARRATIVE_FIELD_STALE@);
        lemma_runs_push(*config, *inputs, done, rules::RULE_NARRATIVE_FIELD_STALE@, pre_execs, execs@);
        done = done.push(rules::RULE_NARRATIVE_FIELD_STALE@);
    }

    let ghost pre_execs = execs@;
    let run = || -> (r: (RuleExecution, Vec<Finding>))
        ensures
            ran_rule(r.0, rules::RULE_TYPE_DIR_MATCHES_NOTHING@),
            finding_views(r.1@) == rule_output(*config, *inputs, 17),
            rule_run(*config, *inputs, 17, r.0),
    {
        rules::type_dir_matches_nothing(config, cp, &matched, &inputs.existing_dirs)
    };
    step(config, rules::RULE_TYPE_DIR_MATCHES_NOTHING, run, &mut execs, &mut findings, Ghost(done), Ghost(rule_output(*config, *inputs, 17)), Ghost(|e: RuleExecution| rule_run(*config, *inputs, 17, e)));
    proof {
        lemma_gathered_push(*config, *inputs, done, rules::RULE_TYPE_DIR_MATCHES_NOTHING@);
        lemma_runs_push(*config, *inputs, done, rules::RULE_TYPE_DIR_MATCHES_NOTHING@, pre_execs, execs@);
        done = done.push(rules::RULE_TYPE_DIR_MATCHES_NOTHING@);
    }

    let ghost pre_execs = execs@;
    let run = move || -> (r: (RuleExecution, Vec<Finding>))
        ensures
            ran_rule(r.0, rules::RULE_IDENTITY_COLLISION@),
            finding_views(r.1@) == rule_output(*config, *inputs, 18),
            rule_run(*config, *inputs, 18, r.0),
    {
        rules::identity_collision(records, collisions)
    };
    step(config, rules::RULE_IDENTITY_COLLISION, run, &mut execs, &mut findings, Ghost(done), Ghost(rule_output(*config, *inputs, 18)), Ghost(|e: RuleExecution| rule_run(*config, *inputs, 18, e)));
    proof {
        lemma_gathered_push(*config, *inputs, done, rules::RULE_IDENTITY_COLLISION@);
        lemma_runs_push(*config, *inputs, done, rules::RULE_IDENTITY_COLLISION@, pre_execs, execs@);
        done = done.push(rules::RULE_IDENTITY_COLLISION@);
    }

    let ghost pre_execs = execs@;
    let run = || -> (r: (RuleExecution, Vec<Finding>))
        ensures
            ran_rule(r.0, rules::RULE_TYPE_RECORD_OUTSIDE_DECLARED_DIR@),
            finding_views(r.1@) == rule_output(*config, *inputs, 19),
            rule_run(*config, *inputs, 19, r.0),
    {
        rules::type_record_outside_declared_dir(config, inputs.tracked_paths.as_slice())
    };
    step(config, rules::RULE_TYPE_RECORD_OUTSIDE_DECLARED_DIR, run, &mut execs, &mut findings, Ghost(done), Ghost(rule_output(*config, *inputs, 19)), Ghost(|e: RuleExecution| rule_run(*config, *inputs, 19, e)));
    proof {
        lemma_gathered_push(*config, *inputs, done, rules::RULE_TYPE_RECORD_OUTSIDE_DECLARED_DIR@);
        lemma_runs_push(*config, *inputs, done, rules::RULE_TYPE_RECORD_OUTSIDE_DECLARED_DIR@, pre_execs, execs@);
        done = done.push(rules::RULE_TYPE_RECORD_OUTSIDE_DECLARED_DIR@);
    }

    let ghost pre_execs = execs@;
    let run = || -> (r: (RuleExecution, Vec<Finding>))
        ensures
            ran_rule(r.0, rules::RULE_TYPE_NO_DECLARED_SPEC@),
            finding_views(r.1@) == rule_output(*config, *inputs, 20),
            rule_run(*config, *inputs, 20, r.0),
    {
        rules::type_no_declared_spec(config, cp)
    };
    step(config, rules::RULE_TYPE_NO_DECLARED_SPEC, run, &mut execs, &mut findings, Ghost(done), Ghost(rule_output(*config, *inputs, 20)), Ghost(|e: RuleExecution| rule_run(*config, *inputs, 20, e)));
    proof {
        lemma_gathered_push(*config, *inputs, done, rules::RULE_TYPE_NO_DECLARED_SPEC@);
        lemma_runs_push(*config, *inputs, done, rules::RULE_TYPE_NO_DECLARED_SPEC@, pre_execs, execs@);
        done = done.push(rules::RULE_TYPE_NO_DECLARED_SPEC@);
    }

    let ghost pre_execs = execs@;
    let run = || -> (r: (RuleExecution, Vec<Finding>))
        ensures
            ran_rule(r.0, rules::RULE_HEADER_DEPRECATED_SHAPE@),
            finding_views(r.1@) == rule_output(*config, *inputs, 21),
            rule_run(*config, *inputs, 21, r.0),
    {
        rules::header_deprecated_shape(config, cp)
    };
    step(config, rules::RULE_HEADER_DEPRECATED_SHAPE, run, &mut execs, &mut findings, Ghost(done), Ghost(rule_output(*config, *inputs, 21)), Ghost(|e: RuleExecution| rule_run(*config, *inputs, 21, e)));
    proof {
        lemma_gathered_push(*config, *inputs, done, rules::RULE_HEADER_DEPRECATED_SHAPE@);
        lemma_runs_push(*config, *inputs, done, rules::RULE_HEADER_DEPRECATED_SHAPE@, pre_execs, execs@);
        done = done.push(rules::RULE_HEADER_DEPRECATED_SHAPE@);
    }

    let ghost pre_execs = execs@;
    let run = || -> (r: (RuleExecution, Vec<Finding>))
        ensures
            ran_rule(r.0, rules::RULE_HEADER_POINTER_FIELD_CLEAN@),
            finding_views(r.1@) == rule_output(*config, *inputs, 22),
            rule_run(*config, *inputs, 22, r.0),
    {
        rules::header_pointer_field_clean(records, config)
    };
    step(config, rules::RULE_HEADER_POINTER_FIELD_CLEAN, run, &mut execs, &mut findings, Ghost(done), Ghost(rule_output(*config, *inputs, 22)), Ghost(|e: RuleExecution| rule_run(*config, *inputs, 22, e)));
    proof {
        lemma_gathered_push(*config, *inputs, done, rules::RULE_HEADER_POINTER_FIELD_CLEAN@);
        lemma_runs_push(*config, *inputs, done, rules::RULE_HEADER_POINTER_FIELD_CLEAN@, pre_execs, execs@);
        done = done.push(rules::RULE_HEADER_POINTER_FIELD_CLEAN@);
    }

    let ghost pre_execs = execs@;
    let run = || -> (r: (RuleExecution, Vec<Finding>))
        ensures
            ran_rule(r.0, rules::RULE_CONFIG_POINTER_DECLARATION_MISSING@),
            finding_views(r.1@) == rule_output(*config, *inputs, 23),
            rule_run(*config, *inputs, 23, r.0),
    {
        rules::config_pointer_declaration_missing(config, cp)
    };
    step(config, rules::RULE_CONFIG_POINTER_DECLARATION_MISSING, run, &mut execs, &mut findings, Ghost(done), Ghost(rule_output(*config, *inputs, 23)), Ghost(|e: RuleExecution| rule_run(*config, *inputs, 23, e)));
    proof {
        lemma_gathered_push(*config, *inputs, done, rules::RULE_CONFIG_POINTER_DECLARATION_MISSING@);
        lemma_runs_push(*config, *inputs, done, rules::RULE_CONFIG_POINTER_DECLARATION_MISSING@, pre_execs, execs@);
        done = done.push(rules::RULE_CONFIG_POINTER_DECLARATION_MISSING@);
    }

    let ghost pre_execs = execs@;
    let run = || -> (r: (RuleExecution, Vec<Finding>))
        ensures
            ran_rule(r.0, rules::RULE_CONFIG_POINTER_FIELD_NOT_KNOWN@),
            finding_views(r.1@) == rule_output(*config, *inputs, 24),
            rule_run(*config, *inputs, 24, r.0),
    {
        rules::config_pointer_field_not_known(config, cp)
    };
    step(config, rules::RULE_CONFIG_POINTER_FIELD_NOT_KNOWN, run, &mut execs, &mut findings, Ghost(done), Ghost(rule_output(*config, *inputs, 24)), Ghost(|e: RuleExecution| rule_run(*config, *inputs, 24, e)));
    proof {
        lemma_gathered_push(*config, *inputs, done, rules::RULE_CONFIG_POINTER_FIELD_NOT_KNOWN@);
        lemma_runs_push(*config, *inputs, done, rules::RULE_CONFIG_POINTER_FIELD_NOT_KNOWN@, pre_execs, execs@);
        done = done.push(rules::RULE_CONFIG_POINTER_FIELD_NOT_KNOWN@);
    }

    let ghost pre_execs = execs@;
    let run = || -> (r: (RuleExecution, Vec<Finding>))
        ensures
            ran_rule(r.0, rules::RULE_CONFIG_POINTER_NARRATIVE_OVERLAP@),
            finding_views(r.1@) == rule_output(*config, *inputs, 25),
            rule_run(*config, *inputs, 25, r.0),
    {
        rules::config_pointer_narrative_overlap(config, cp)
    };
    step(config, rules::RULE_CONFIG_POINTER_NARRATIVE_OVERLAP, run, &mut execs, &mut findings, Ghost(done), Ghost(rule_output(*config, *inputs, 25)), Ghost(|e: RuleExecution| rule_run(*config, *inputs, 25, e)));
    proof {
        lemma_gathered_push(*config, *inputs, done, rules::RULE_CONFIG_POINTER_NARRATIVE_OVERLAP@);
        lemma_runs_push(*config, *inputs, done, rules::RULE_CONFIG_POINTER_NARRATIVE_OVERLAP@, pre_execs, execs@);
        done = done.push(rules::RULE_CONFIG_POINTER_NARRATIVE_OVERLAP@);
    }

    let ghost pre_execs = execs@;
    let run = || -> (r: (RuleExecution, Vec<Finding>))
        ensures
            ran_rule(r.0, rules::RULE_CONFIG_KNOWN_FIELDS_DECLARATION_MISSING@),
            finding_views(r.1@) == rule_output(*config, *inputs, 26),
            rule_run(*config, *inputs, 26, r.0),
    {
        rules::config_known_fields_declaration_missing(config, cp)
    };
    step(config, rules::RULE_CONFIG_KNOWN_FIELDS_DECLARATION_MISSING, run, &mut execs, &mut findings, Ghost(done), Ghost(rule_output(*config, *inputs, 26)), Ghost(|e: RuleExecution| rule_run(*config, *inputs, 26, e)));
    proof {
        lemma_gathered_push(*config, *inputs, done, rules::RULE_CONFIG_KNOWN_FIELDS_DECLARATION_MISSING@);
        lemma_runs_push(*config, *inputs, done, rules::RULE_CONFIG_KNOWN_FIELDS_DECLARATION_MISSING@, pre_execs, execs@);
        done = done.push(rules::RULE_CONFIG_KNOWN_FIELDS_DECLARATION_MISSING@);
    }

    let ghost pre_execs = execs@;
    let run = || -> (r: (RuleExecution, Vec<Finding>))
        ensures
            ran_rule(r.0, rules::RULE_CONFIG_RELATION_FIELD_NOT_KNOWN@),
            finding_views(r.1@) == rule_output(*config, *inputs, 27),
            rule_run(*config, *inputs, 27, r.0),
    {
        rules::config_relation_field_not_known(config, cp)
    };
    step(config, rules::RULE_CONFIG_RELATION_FIELD_NOT_KNOWN, run, &mut execs, &mut findings, Ghost(done), Ghost(rule_output(*config, *inputs, 27)), Ghost(|e: RuleExecution| rule_run(*config, *inputs, 27, e)));
    proof {
        lemma_gathered_push(*config, *inputs, done, rules::RULE_CONFIG_RELATION_FIELD_NOT_KNOWN@);
        lemma_runs_push(*config, *inputs, done, rules::RULE_CONFIG_RELATION_FIELD_NOT_KNOWN@, pre_execs, execs@);
        done = done.push(rules::RULE_CONFIG_RELATION_FIELD_NOT_KNOWN@);
    }

    let ghost pre_execs = execs@;
    let run = || -> (r: (RuleExecution, Vec<Finding>))
        ensures
            ran_rule(r.0, rules::RULE_CONFIG_HEADER_NONE_HAS_NO_REQUIRED_FIELDS@),
            finding_views(r.1@) == rule_output(*config, *inputs, 28),
            rule_run(*config, *inputs, 28, r.0),
    {
        rules::config_header_none_has_no_required_fields(config, cp)
    };
    step(config, rules::RULE_CONFIG_HEADER_NONE_HAS_NO_REQUIRED_FIELDS, run, &mut execs, &mut findings, Ghost(done), Ghost(rule_output(*config, *inputs, 28)), Ghost(|e: RuleExecution| rule_run(*config, *inputs, 28, e)));
    proof {
        lemma_gathered_push(*config, *inputs, done, rules::RULE_CONFIG_HEADER_NONE_HAS_NO_REQUIRED_FIELDS@);
        lemma_runs_push(*config, *inputs, done, rules::RULE_CONFIG_HEADER_NONE_HAS_NO_REQUIRED_FIELDS@, pre_execs, execs@);
        done = done.push(rules::RULE_CONFIG_HEADER_NONE_HAS_NO_REQUIRED_FIELDS@);
    }

    let ghost pre_execs = execs@;
    let run = || -> (r: (RuleExecution, Vec<Finding>))
        ensures
            ran_rule(r.0, rules::RULE_RELATION_TARGET_STATUS_UNDECLARED@),
            finding_views(r.1@) == rule_output(*config, *inputs, 29),
            rule_run(*config, *inputs, 29, r.0),
    {
        rules::relation_target_status_undeclared(records, config, &index)
    };
    step(config, rules::RULE_RELATION_TARGET_STATUS_UNDECLARED, run, &mut execs, &mut findings, Ghost(done), Ghost(rule_output(*config, *inputs, 29)), Ghost(|e: RuleExecution| rule_run(*config, *inputs, 29, e)));
    proof {
        lemma_gathered_push(*config, *inputs, done, rules::RULE_RELATION_TARGET_STATUS_UNDECLARED@);
        lemma_runs_push(*config, *inputs, done, rules::RULE_RELATION_TARGET_STATUS_UNDECLARED@, pre_execs, execs@);
        done = done.push(rules::RULE_RELATION_TARGET_STATUS_UNDECLARED@);
    }

    proof {
        assert(done =~= check_order().drop_last());
    }
    let ghost so_far = execs@;
    let ghost pre_execs = execs@;
    let run = || -> (r: (RuleExecution, Vec<Finding>))
        ensures
            ran_rule(r.0, rules::RULE_CONFIG_SCOPE_MATCHES_NOTHING@),
            finding_views(r.1@) == scope_output(cp@, so_far),
            scope_run(cp@, so_far, r.0),
    {
        rules::config_scope_matches_nothing(execs.as_slice(), cp)
    };
    let ghost run_g = run;
    let (exec, found) = gated(config, rules::RULE_CONFIG_SCOPE_MATCHES_NOTHING, run);
    proof {
        if enabled(*config, rules::RULE_CONFIG_SCOPE_MATCHES_NOTHING@) {
            let out = choose|out: (RuleExecution, Vec<Finding>)|
                {
                    &&& call_ensures(run_g, (), out)
                    &&& exec == out.0
                    &&& finding_views(found@) == with_severity(
                        finding_views(out.1@),
                        level_severity(lookup(config.rules@, rules::RULE_CONFIG_SCOPE_MATCHES_NOTHING@)->0.level),
                    )
                };
            assert(ran_rule(out.0, rules::RULE_CONFIG_SCOPE_MATCHES_NOTHING@));
            assert(scope_run(cp@, so_far, out.0));
        }
    }
    append_run(
        config,
        rules::RULE_CONFIG_SCOPE_MATCHES_NOTHING,
        exec,
        found,
        &mut execs,
        &mut findings,
        Ghost(done),
        Ghost(scope_output(cp@, so_far)),
        Ghost(|e: RuleExecution| scope_run(cp@, so_far, e)),
    );
    proof {
        done = done.push(rules::RULE_CONFIG_SCOPE_MATCHES_NOTHING@);
        assert(done =~= check_order());
        assert(execs@.drop_last() =~= so_far);
    }
    (execs, findings)
}

/// One more rule gathered: its findings, as gating leaves them, follow
/// those gathered before.
proof fn lemma_gathered_push(config: Config, inputs: CheckInputs, done: Seq<Seq<char>>, id: Seq<char>)
    ensures
        gathered(config, inputs, done.push(id)) == gathered(config, inputs, done) + gated_findings(
            config,
            id,
            rule_output(config, inputs, done.len() as int),
        ),
{
    assert(done.push(id).drop_last() =~= done);
}

/// Gathering reads the inputs only through what each rule reports.
proof fn lemma_gathered_congruent(config: Config, a: CheckInputs, b: CheckInputs, ids: Seq<Seq<char>>)
    requires
        forall|k: int| 0 <= k < ids.len() ==> #[trigger] rule_output(config, a, k) == rule_output(config, b, k),
    ensures
        gathered(config, a, ids) == gathered(config, b, ids),
    decreases ids.len(),
{
    if ids.len() > 0 {
        lemma_gathered_congruent(config, a, b, ids.drop_last());
        assert(rule_output(config, a, ids.len() - 1) == rule_output(config, b, ids.len() - 1));
    }
}

/// Asking about part of the corpus narrows only what is reported: every
/// rule still reads the whole corpus, so a reference to a record outside
/// the requested paths still resolves, and what the rules find before the
/// run is narrowed does not depend on the requested paths at all.
pub proof fn lemma_scope_does_not_narrow_the_corpus(
    config: Config,
    a: CheckInputs,
    b: CheckInputs,
    executed: Seq<RuleExecution>,
)
    requires
        a.records@ == b.records@,
        a.config_path@ == b.config_path@,
        a.full_text@ == b.full_text@,
        a.tracked_paths@ == b.tracked_paths@,
        a.claims@ == b.claims@,
        a.drifted@ == b.drifted@,
        a.present_locators@ == b.present_locators@,
        a.existing_dirs@ == b.existing_dirs@,
    ensures
        check_findings(config, a, executed) == check_findings(config, b, executed),
{
    assert forall|k: int| 0 <= k < check_order().drop_last().len() implies #[trigger] rule_output(config, a, k)
        == rule_output(config, b, k) by {}
    lemma_gathered_congruent(config, a, b, check_order().drop_last());
}

/// Whether a finding is about something the run was asked about: any
/// finding when the whole corpus was asked for; otherwise one about the
/// configuration, or about a path at or below a requested prefix.
pub open spec fn reported_on(f: FindingView, config_path: Seq<char>, scopes: Seq<Seq<char>>) -> bool {
    scopes.len() == 0 || f.file == config_path || exists|k: int|
        0 <= k < scopes.len() && below(f.file, #[trigger] scopes[k])
}

/// The findings that are reported on, in order.
pub open spec fn in_report(fs: Seq<FindingView>, config_path: Seq<char>, scopes: Seq<Seq<char>>) -> Seq<FindingView>
    decreases fs.len(),
{
    if fs.len() == 0 {
        Seq::empty()
    } else {
        in_report(fs.drop_last(), config_path, scopes) + if reported_on(fs.last(), config_path, scopes) {
            seq![fs.last()]
        } else {
            Seq::empty()
        }
    }
}

/// How many of `records` sit at a path in `scope`, however it is spelled.
pub open spec fn in_scope_count(records: Seq<Record>, scope: Seq<Seq<char>>) -> nat
    decreases records.len(),
{
    if records.len() == 0 {
        0
    } else {
        in_scope_count(records.drop_last(), scope) + if crate::order::has_same_path(scope, records.last().path@) {
            1nat
        } else {
            0nat
        }
    }
}

/// A finding no waiver covers, at error severity.
pub open spec fn blocks(f: FindingView) -> bool {
    f.waived is None && f.severity == FindingSeverity::Error
}

/// The status a check ends in. Findings present when something blocks; not run when
/// nothing was examined or no rule that reads records looked at any;
/// clean when no finding is left unwaived; findings present otherwise.
pub open spec fn verdict(blocking: bool, examined: nat, any_looked: bool, any_active: bool) -> ReportStatus {
    if blocking {
        ReportStatus::FindingsPresent
    } else if examined == 0 || !any_looked {
        ReportStatus::NotRun
    } else if !any_active {
        ReportStatus::Clean
    } else {
        ReportStatus::FindingsPresent
    }
}

fn is_reported_on(f: &Finding, config_path: &str, scopes: &Vec<String>) -> (r: bool)
    ensures
        r == reported_on(f@, config_path@, string_views(scopes@)),
{
    if scopes.len() == 0 || str_eq(f.file.as_str(), config_path) {
        return true;
    }
    let ghost sv = string_views(scopes@);
    let mut k: usize = 0;
    while k < scopes.len()
        invariant
            k <= scopes.len(),
            sv == string_views(scopes@),
            forall|j: int| 0 <= j < k ==> !below(f@.file, #[trigger] sv[j]),
        decreases scopes.len() - k,
    {
        assert(sv[k as int] == scopes@[k as int]@);
        if rules::is_below(f.file.as_str(), scopes[k].as_str()) {
            return true;
        }
        k += 1;
    }
    false
}

/// Draw a check's conclusion from what its rules reported: keep the
/// findings the run was asked about, mark those an active waiver covers,
/// and decide whether anything blocks and what the run established.
/// Waived findings stay listed.
pub fn conclude(
    config: &Config,
    inputs: CheckInputs,
    waivers: &[Waiver],
    executed: Vec<RuleExecution>,
    findings: Vec<Finding>,
) -> (r: CheckReport)
    ensures
        r.rules_executed@ == executed@,
        r.findings@.len() == in_report(
            finding_views(findings@),
            inputs.config_path@,
            string_views(inputs.requested_scopes@),
        ).len(),
        forall|i: int|
            0 <= i < r.findings@.len() ==> (#[trigger] r.findings@[i])@ == waived(
                waivers@,
                in_report(finding_views(findings@), inputs.config_path@, string_views(inputs.requested_scopes@))[i],
                inputs.today@,
            ),
        r.blocking == exists|i: int| 0 <= i < r.findings@.len() && blocks(#[trigger] r.findings@[i]@),
        r.files_examined == in_scope_count(inputs.records@, string_views(inputs.in_scope@)),
        r.status == verdict(
            r.blocking,
            r.files_examined as nat,
            exists|k: int| 0 <= k < executed@.len() && crate::gate::looked(#[trigger] executed@[k]),
            exists|i: int| 0 <= i < r.findings@.len() && (#[trigger] r.findings@[i]).waived is None,
        ),
        r.records_read_by_any_rule == crate::order::path_distinct(
            crate::report::ran_paths(executed@).filter(
                |p: Seq<char>| crate::order::has_same_path(string_views(inputs.in_scope@), p),
            ),
        ).len(),
        r.scope.source == inputs.source,
        string_views(r.scope.record_types@) == config.record_types@.map_values(|e: (String, crate::config::RecordTypeConfig)| e.0@),
        r.notices@ == inputs.notices@,
{
    let ghost fv = finding_views(findings@);
    let ghost scopes = string_views(inputs.requested_scopes@);
    let mut kept: Vec<Finding> = Vec::new();
    let mut i: usize = 0;
    let mut rest = findings;
    let mut taken: Vec<Finding> = Vec::new();
    while i < rest.len()
        invariant
            i <= rest.len(),
            fv == finding_views(rest@),
            scopes == string_views(inputs.requested_scopes@),
            finding_views(kept@) == in_report(fv.take(i as int), inputs.config_path@, scopes),
        decreases rest.len() - i,
    {
        assert(fv.take(i + 1).drop_last() =~= fv.take(i as int));
        assert(fv.take(i + 1).last() == rest@[i as int]@);
        if is_reported_on(&rest[i], inputs.config_path.as_str(), &inputs.requested_scopes) {
            let f = &rest[i];
            let ghost before = finding_views(kept@);
            kept.push(
                Finding {
                    rule: f.rule.clone(),
                    severity: f.severity,
                    file: f.file.clone(),
                    line: f.line,
                    message: f.message.clone(),
                    waived: match &f.waived {
                        Some(w) => Some(w.clone()),
                        None => None,
                    },
                },
            );
            assert(finding_views(kept@) =~= before.push(rest@[i as int]@));
        }
        i += 1;
    }
    assert(fv.take(rest.len() as int) =~= fv);
    let ghost kv = finding_views(kept@);
    apply_waivers(&mut kept, waivers, inputs.today.as_str());
    let mut blocking = false;
    let mut active = false;
    let mut j: usize = 0;
    while j < kept.len()
        invariant
            j <= kept.len(),
            blocking == exists|k: int| 0 <= k < j && blocks(#[trigger] kept@[k]@),
            active == exists|k: int| 0 <= k < j && (#[trigger] kept@[k]).waived is None,
        decreases kept.len() - j,
    {
        assert(blocks(kept@[j as int]@) == (kept@[j as int].waived is None && kept@[j as int].severity
            == FindingSeverity::Error));
        if kept[j].waived.is_none() {
            active = true;
            if kept[j].severity == FindingSeverity::Error {
                blocking = true;
            }
        }
        j += 1;
    }
    let ghost in_view = string_views(inputs.in_scope@);
    let mut examined: usize = 0;
    let mut m: usize = 0;
    while m < inputs.records.len()
        invariant
            m <= inputs.records.len(),
            examined <= m,
            in_view == string_views(inputs.in_scope@),
            examined == in_scope_count(inputs.records@.take(m as int), in_view),
        decreases inputs.records.len() - m,
    {
        assert(inputs.records@.take(m + 1).drop_last() =~= inputs.records@.take(m as int));
        if crate::order::contains_path(&inputs.in_scope, inputs.records[m].path.as_str()) {
            examined += 1;
        }
        m += 1;
    }
    assert(inputs.records@.take(inputs.records.len() as int) =~= inputs.records@);
    let looked = crate::gate::any_rule_looked(executed.as_slice());
    let status = if blocking {
        ReportStatus::FindingsPresent
    } else if examined == 0 || !looked {
        ReportStatus::NotRun
    } else if !active {
        ReportStatus::Clean
    } else {
        ReportStatus::FindingsPresent
    };
    let read = records_read_by_any_rule_within(executed.as_slice(), &inputs.in_scope);
    let mut types: Vec<String> = Vec::new();
    let mut t: usize = 0;
    while t < config.record_types.len()
        invariant
            t <= config.record_types.len(),
            string_views(types@) == config.record_types@.take(t as int).map_values(
                |e: (String, crate::config::RecordTypeConfig)| e.0@,
            ),
        decreases config.record_types.len() - t,
    {
        let ghost before = string_views(types@);
        types.push(config.record_types[t].0.clone());
        assert(string_views(types@) =~= before.push(config.record_types@[t as int].0@));
        assert(config.record_types@.take(t + 1).map_values(|e: (String, crate::config::RecordTypeConfig)| e.0@)
            =~= config.record_types@.take(t as int).map_values(|e: (String, crate::config::RecordTypeConfig)| e.0@).push(
            config.record_types@[t as int].0@,
        ));
        t += 1;
    }
    assert(config.record_types@.take(config.record_types.len() as int) =~= config.record_types@);
    CheckReport {
        status,
        files_examined: examined,
        records_read_by_any_rule: read,
        rules_executed: executed,
        scope: ScopeInfo { source: inputs.source, record_types: types },
        blocking,
        findings: kept,
        notices: inputs.notices,
    }
}

/// Every record a check's rules report having examined is one of the
/// records of the corpus.
proof fn lemma_check_runs_within(config: Config, inputs: CheckInputs, execs: Seq<RuleExecution>)
    requires
        execs.len() == check_order().len(),
        forall|k: int| 0 <= k < execs.len() ==> executed_as(config, check_order()[k], #[trigger] execs[k]),
        runs_reported(config, inputs, check_order().drop_last(), execs.drop_last()),
        enabled(config, rules::RULE_CONFIG_SCOPE_MATCHES_NOTHING@) ==> scope_run(
            inputs.config_path@,
            execs.drop_last(),
            execs.last(),
        ),
    ensures
        forall|j: int|
            0 <= j < ran_paths(execs).len() ==> crate::examined::record_paths(inputs.records@).contains(
                #[trigger] ran_paths(execs)[j],
            ),
{
    let allowed = crate::examined::record_paths(inputs.records@);
    let done = check_order().drop_last();
    assert forall|k: int| 0 <= k < execs.len() && (#[trigger] execs[k]).status == RuleStatus::Ran implies forall|j: int|
        0 <= j < execs[k].examined_records@.len() ==> allowed.contains(
            #[trigger] string_views(execs[k].examined_records@)[j],
        ) by {
        assert(executed_as(config, check_order()[k], execs[k]));
        assert(enabled(config, check_order()[k]));
        if k < execs.len() - 1 {
            assert(done[k] == check_order()[k]);
            assert(execs.drop_last()[k] == execs[k]);
            assert(rule_run(config, inputs, k, execs.drop_last()[k]));
            crate::examined::lemma_rule_run_within(config, inputs, k, execs[k]);
        } else {
            assert(check_order()[k] == rules::RULE_CONFIG_SCOPE_MATCHES_NOTHING@);
            assert(execs.last() == execs[k]);
            assert(execs[k].examined_records@.len() == 0);
        }
    }
    crate::examined::lemma_ran_paths_within(execs, allowed);
}

/// A whole check: every rule run through `gated` in `check_order`, then
/// `conclude` over what they reported, with the waivers the corpus declares.
/// Every record a rule examined is a record of the corpus, so the records
/// read by any rule within the requested paths never outnumber the records
/// examined there.
pub fn check_corpus(config: &Config, inputs: CheckInputs) -> (r: CheckReport)
    ensures
        r.rules_executed@.len() == check_order().len(),
        forall|k: int|
            0 <= k < r.rules_executed@.len() ==> executed_as(*config, check_order()[k], #[trigger] r.rules_executed@[k]),
        forall|i: int| 0 <= i < r.findings@.len() ==> declared_finding(*config, check_order(), #[trigger] r.findings@[i]@),
        forall|i: int|
            0 <= i < r.findings@.len() ==> reported_on(
                #[trigger] r.findings@[i]@,
                inputs.config_path@,
                string_views(inputs.requested_scopes@),
            ),
        r.blocking == exists|i: int| 0 <= i < r.findings@.len() && blocks(#[trigger] r.findings@[i]@),
        r.files_examined == in_scope_count(inputs.records@, string_views(inputs.in_scope@)),
        r.status == verdict(
            r.blocking,
            r.files_examined as nat,
            exists|k: int| 0 <= k < r.rules_executed@.len() && crate::gate::looked(#[trigger] r.rules_executed@[k]),
            exists|i: int| 0 <= i < r.findings@.len() && (#[trigger] r.findings@[i]).waived is None,
        ),
        runs_reported(*config, inputs, check_order().drop_last(), r.rules_executed@.drop_last()),
        enabled(*config, rules::RULE_CONFIG_SCOPE_MATCHES_NOTHING@) ==> scope_run(
            inputs.config_path@,
            r.rules_executed@.drop_last(),
            r.rules_executed@.last(),
        ),
        r.findings@.len() == in_report(
            check_findings(*config, inputs, r.rules_executed@),
            inputs.config_path@,
            string_views(inputs.requested_scopes@),
        ).len(),
        exists|ws: Seq<Waiver>|
            {
                &&& #[trigger] crate::waiver::waiver_views(ws) == crate::waiver::loaded_waivers(inputs.records@)
                &&& forall|i: int|
                    0 <= i < r.findings@.len() ==> (#[trigger] r.findings@[i])@ == waived(
                        ws,
                        in_report(
                            check_findings(*config, inputs, r.rules_executed@),
                            inputs.config_path@,
                            string_views(inputs.requested_scopes@),
                        )[i],
                        inputs.today@,
                    )
            },
        r.records_read_by_any_rule == crate::order::path_distinct(
            ran_paths(r.rules_executed@).filter(
                |p: Seq<char>| crate::order::has_same_path(string_views(inputs.in_scope@), p),
            ),
        ).len(),
        r.records_read_by_any_rule <= r.files_examined,
        r.scope.source == inputs.source,
        r.notices@ == inputs.notices@,
{
    let ghost given = inputs;
    let (executed, findings) = run_rules(config, &inputs);
    let waivers = load_waivers(inputs.records.as_slice());
    let ghost fv = finding_views(findings@);
    let ghost cp = inputs.config_path@;
    let ghost scopes = string_views(inputs.requested_scopes@);
    let ghost today = inputs.today@;
    proof {
        lemma_in_report(fv, cp, scopes);
    }
    let r = conclude(config, inputs, waivers.as_slice(), executed, findings);
    proof {
        assert forall|i: int| 0 <= i < r.findings@.len() implies declared_finding(*config, check_order(), #[trigger] r.findings@[i]@)
            && reported_on(r.findings@[i]@, cp, scopes) by {
            let g = in_report(fv, cp, scopes)[i];
            crate::waiver::lemma_waiving_only_marks(waivers@, g, today);
            let k = choose|k: int| 0 <= k < fv.len() && fv[k] == g;
            assert(fv[k] == findings@[k]@);
        }
        assert(fv == check_findings(*config, given, r.rules_executed@));
        let ws = waivers@;
        assert(crate::waiver::waiver_views(ws) == crate::waiver::loaded_waivers(given.records@));
        lemma_check_runs_within(*config, given, r.rules_executed@);
        crate::examined::lemma_read_within_scope(r.rules_executed@, given.records@, string_views(given.in_scope@));
        assert(forall|i: int|
            0 <= i < r.findings@.len() ==> (#[trigger] r.findings@[i])@ == waived(
                ws,
                in_report(check_findings(*config, given, r.rules_executed@), given.config_path@, string_views(given.requested_scopes@))[i],
                given.today@,
            ));
    }
    r
}

/// What `in_report` keeps is a subsequence of what it was given, and each
/// kept finding is reported on.
pub proof fn lemma_in_report(fs: Seq<FindingView>, config_path: Seq<char>, scopes: Seq<Seq<char>>)
    ensures
        forall|i: int|
            0 <= i < in_report(fs, config_path, scopes).len() ==> reported_on(
                #[trigger] in_report(fs, config_path, scopes)[i],
                config_path,
                scopes,
            ) && exists|k: int| 0 <= k < fs.len() && fs[k] == in_report(fs, config_path, scopes)[i],
    decreases fs.len(),
{
    if fs.len() > 0 {
        lemma_in_report(fs.drop_last(), config_path, scopes);
        let a = in_report(fs.drop_last(), config_path, scopes);
        assert forall|i: int| 0 <= i < in_report(fs, config_path, scopes).len() implies reported_on(
            #[trigger] in_report(fs, config_path, scopes)[i],
            config_path,
            scopes,
        ) && exists|k: int| 0 <= k < fs.len() && fs[k] == in_report(fs, config_path, scopes)[i] by {
            if i < a.len() {
                assert(in_report(fs, config_path, scopes)[i] == a[i]);
                let k = choose|k: int| 0 <= k < fs.drop_last().len() && fs.drop_last()[k] == a[i];
                assert(fs[k] == fs.drop_last()[k]);
            } else {
                assert(in_report(fs, config_path, scopes)[i] == fs.last());
                assert(fs[fs.len() - 1] == fs.last());
            }
        }
    }
}

/// The rules `audit` runs, in order: cross-record reconciliation only.
pub open spec fn audit_order() -> Seq<Seq<char>> {
    seq![
        rules::RULE_POINTER_RESOLUTION@,
        rules::RULE_RELATION_SUPERSESSION_RECIPROCITY@,
        rules::RULE_IDENTITY_COLLISION@,
    ]
}

/// The status an audit ends in: not run over no records or when no rule
/// that reads records looked at any; clean when no finding is left
/// unwaived; findings present otherwise.
pub open spec fn audit_status(records: nat, any_looked: bool, any_active: bool) -> ReportStatus {
    if records == 0 || !any_looked {
        ReportStatus::NotRun
    } else if !any_active {
        ReportStatus::Clean
    } else {
        ReportStatus::FindingsPresent
    }
}

/// What the rule at position `k` of `audit_order` reports about `records`,
/// before gating, as that rule's own contract states it.
pub open spec fn audit_output(config: Config, recs: Seq<Record>, k: int) -> Seq<FindingView> {
    if k == 0 {
        rules::findings_by(rules::slots_of(config, recs, rules::FieldSlots::PointerAndNarrative), |s: (int, Seq<char>)| rules::ref_verdict(rules::RefCheck::Resolution, config, recs, Seq::<Seq<char>>::empty(), recs[s.0], s.1).1)
    } else if k == 1 {
        rules::findings_by(rules::role_records(config, recs, rules::role_slots(rules::RoleCheck::Supersession)), |rec: Record| rules::role_verdict(rules::RoleCheck::Supersession, config, recs, Seq::<Seq<char>>::empty(), Seq::<Seq<char>>::empty(), rec).1)
    } else if k == 2 {
        rules::findings_by(crate::references::collisions(recs), |c: (Seq<char>, Seq<Record>)| rules::collision_findings(c))
    } else {
        Seq::empty()
    }
}

/// How the rule at position `k` of `audit_order` reports its run over
/// `records`, when it runs, as that rule's own contract states it.
pub open spec fn audit_run(config: Config, recs: Seq<Record>, k: int, e: RuleExecution) -> bool {
    if k == 0 {
        rules::ran_as(e, rules::RULE_POINTER_RESOLUTION@, crate::report::PopulationUnit::Field, rules::outcomes_by(rules::slots_of(config, recs, rules::FieldSlots::PointerAndNarrative), |s: (int, Seq<char>)| rules::ref_verdict(rules::RefCheck::Resolution, config, recs, Seq::<Seq<char>>::empty(), recs[s.0], s.1).0), rules::paths_by(rules::slots_of(config, recs, rules::FieldSlots::PointerAndNarrative), |s: (int, Seq<char>)| recs[s.0].path@))
    } else if k == 1 {
        rules::ran_as(e, rules::RULE_RELATION_SUPERSESSION_RECIPROCITY@, crate::report::PopulationUnit::Field, rules::outcomes_by(rules::role_records(config, recs, rules::role_slots(rules::RoleCheck::Supersession)), |rec: Record| rules::role_verdict(rules::RoleCheck::Supersession, config, recs, Seq::<Seq<char>>::empty(), Seq::<Seq<char>>::empty(), rec).0), rules::paths_by(rules::role_records(config, recs, rules::role_slots(rules::RoleCheck::Supersession)), |rec: Record| rec.path@))
    } else if k == 2 {
        rules::ran_as(e, rules::RULE_IDENTITY_COLLISION@, crate::report::PopulationUnit::Record, rules::outcomes_by(recs, |rec: Record| if rec.id_spec() is Some { crate::report::Outcome::Examined } else { crate::report::Outcome::OutOfScope }), rules::paths_by(recs, |rec: Record| rec.path@))
    } else {
        false
    }
}

/// Every finding an audit's rules report, each as gating leaves it, in
/// `audit_order`.
pub open spec fn audit_findings(config: Config, recs: Seq<Record>) -> Seq<FindingView> {
    gated_findings(config, rules::RULE_POINTER_RESOLUTION@, audit_output(config, recs, 0)) + gated_findings(
        config,
        rules::RULE_RELATION_SUPERSESSION_RECIPROCITY@,
        audit_output(config, recs, 1),
    ) + gated_findings(config, rules::RULE_IDENTITY_COLLISION@, audit_output(config, recs, 2))
}

/// Cross-record reconciliation over a whole corpus: dangling references,
/// one-directional supersession and identifier collisions, each through
/// `gated`, with the corpus's waivers applied. Never scoped: every record
/// is examined.
pub fn audit_corpus(config: &Config, records: &Vec<Record>, today: &str, source: ScopeSource) -> (r: CheckReport)
    ensures
        r.rules_executed@.len() == audit_order().len(),
        forall|k: int|
            0 <= k < r.rules_executed@.len() ==> executed_as(*config, audit_order()[k], #[trigger] r.rules_executed@[k]),
        forall|i: int| 0 <= i < r.findings@.len() ==> declared_finding(*config, audit_order(), #[trigger] r.findings@[i]@),
        r.blocking == exists|i: int| 0 <= i < r.findings@.len() && blocks(#[trigger] r.findings@[i]@),
        r.files_examined == records@.len(),
        r.status == audit_status(
            records@.len(),
            exists|k: int| 0 <= k < r.rules_executed@.len() && crate::gate::looked(#[trigger] r.rules_executed@[k]),
            exists|i: int| 0 <= i < r.findings@.len() && (#[trigger] r.findings@[i]).waived is None,
        ),
        r.records_read_by_any_rule == crate::order::path_distinct(crate::report::ran_paths(r.rules_executed@)).len(),
        forall|k: int|
            0 <= k < r.rules_executed@.len() && enabled(*config, audit_order()[k]) ==> #[trigger] audit_run(
                *config,
                records@,
                k,
                r.rules_executed@[k],
            ),
        r.findings@.len() == audit_findings(*config, records@).len(),
        exists|ws: Seq<Waiver>|
            {
                &&& #[trigger] crate::waiver::waiver_views(ws) == crate::waiver::loaded_waivers(records@)
                &&& forall|i: int|
                    0 <= i < r.findings@.len() ==> (#[trigger] r.findings@[i])@ == waived(
                        ws,
                        audit_findings(*config, records@)[i],
                        today@,
                    )
            },
        r.scope.source == source,
        r.notices@.len() == 0,
{
    let (index, collisions) = build_index_reporting_collisions(records.as_slice());
    let mut execs: Vec<RuleExecution> = Vec::new();
    let mut findings: Vec<Finding> = Vec::new();
    let ghost mut done: Seq<Seq<char>> = Seq::empty();
    let run = || -> (r: (RuleExecution, Vec<Finding>))
        ensures
            ran_rule(r.0, rules::RULE_POINTER_RESOLUTION@),
            finding_views(r.1@) == audit_output(*config, records@, 0),
            audit_run(*config, records@, 0, r.0),
    {
        rules::pointer_resolution(records.as_slice(), config, &index)
    };
    step(config, rules::RULE_POINTER_RESOLUTION, run, &mut execs, &mut findings, Ghost(done), Ghost(audit_output(*config, records@, 0)), Ghost(|e: RuleExecution| audit_run(*config, records@, 0, e)));
    let ghost after_first = execs@;
    proof { done = done.push(rules::RULE_POINTER_RESOLUTION@); }
    let run = || -> (r: (RuleExecution, Vec<Finding>))
        ensures
            ran_rule(r.0, rules::RULE_RELATION_SUPERSESSION_RECIPROCITY@),
            finding_views(r.1@) == audit_output(*config, records@, 1),
            audit_run(*config, records@, 1, r.0),
    {
        rules::supersession_reciprocity(records.as_slice(), config, &index)
    };
    step(config, rules::RULE_RELATION_SUPERSESSION_RECIPROCITY, run, &mut execs, &mut findings, Ghost(done), Ghost(audit_output(*config, records@, 1)), Ghost(|e: RuleExecution| audit_run(*config, records@, 1, e)));
    let ghost after_second = execs@;
    proof { done = done.push(rules::RULE_RELATION_SUPERSESSION_RECIPROCITY@); }
    let run = move || -> (r: (RuleExecution, Vec<Finding>))
        ensures
            ran_rule(r.0, rules::RULE_IDENTITY_COLLISION@),
            finding_views(r.1@) == audit_output(*config, records@, 2),
            audit_run(*config, records@, 2, r.0),
    {
        rules::identity_collision(records.as_slice(), collisions)
    };
    step(config, rules::RULE_IDENTITY_COLLISION, run, &mut execs, &mut findings, Ghost(done), Ghost(audit_output(*config, records@, 2)), Ghost(|e: RuleExecution| audit_run(*config, records@, 2, e)));
    proof {
        done = done.push(rules::RULE_IDENTITY_COLLISION@);
        assert(done =~= audit_order());
        assert(execs@.drop_last() == after_second);
        assert(after_second.drop_last() == after_first);
        assert(execs@[0] == after_first.last());
        assert(execs@[1] == after_second.last());
        assert forall|k: int| 0 <= k < execs@.len() && enabled(*config, audit_order()[k]) implies #[trigger] audit_run(
            *config,
            records@,
            k,
            execs@[k],
        ) by {
            assert(audit_order()[k] == done[k]);
        }
    }
    assert(finding_views(findings@) =~= audit_findings(*config, records@));
    assert(findings@.len() == audit_findings(*config, records@).len());
    let waivers = load_waivers(records.as_slice());
    let ghost pre = findings@;
    apply_waivers(&mut findings, waivers.as_slice(), today);
    proof {
        assert(exists|ws: Seq<Waiver>|
            {
                &&& #[trigger] crate::waiver::waiver_views(ws) == crate::waiver::loaded_waivers(records@)
                &&& forall|i: int|
                    0 <= i < findings@.len() ==> (#[trigger] findings@[i])@ == waived(
                        ws,
                        audit_findings(*config, records@)[i],
                        today@,
                    )
            }) by {
            assert forall|i: int| 0 <= i < findings@.len() implies (#[trigger] findings@[i])@ == waived(
                waivers@,
                audit_findings(*config, records@)[i],
                today@,
            ) by {
                assert(finding_views(pre)[i] == pre[i]@);
            }
            assert(crate::waiver::waiver_views(waivers@) == crate::waiver::loaded_waivers(records@));
        }
        assert forall|i: int| 0 <= i < findings@.len() implies declared_finding(*config, audit_order(), #[trigger] findings@[i]@) by {
            crate::waiver::lemma_waiving_only_marks(waivers@, pre[i]@, today@);
            assert(declared_finding(*config, audit_order(), pre[i]@));
        }
    }
    let mut blocking = false;
    let mut active = false;
    let mut j: usize = 0;
    while j < findings.len()
        invariant
            j <= findings.len(),
            blocking == exists|k: int| 0 <= k < j && blocks(#[trigger] findings@[k]@),
            active == exists|k: int| 0 <= k < j && (#[trigger] findings@[k]).waived is None,
        decreases findings.len() - j,
    {
        assert(blocks(findings@[j as int]@) == (findings@[j as int].waived is None && findings@[j as int].severity
            == FindingSeverity::Error));
        if findings[j].waived.is_none() {
            active = true;
            if findings[j].severity == FindingSeverity::Error {
                blocking = true;
            }
        }
        j += 1;
    }
    let looked = crate::gate::any_rule_looked(execs.as_slice());
    let status = if records.len() == 0 || !looked {
        ReportStatus::NotRun
    } else if !active {
        ReportStatus::Clean
    } else {
        ReportStatus::FindingsPresent
    };
    let read = crate::report::records_read_by_any_rule(execs.as_slice());
    let mut types: Vec<String> = Vec::new();
    let mut t: usize = 0;
    while t < config.record_types.len()
        invariant
            t <= config.record_types.len(),
        decreases config.record_types.len() - t,
    {
        types.push(config.record_types[t].0.clone());
        t += 1;
    }
    CheckReport {
        status,
        files_examined: records.len(),
        records_read_by_any_rule: read,
        rules_executed: execs,
        scope: ScopeInfo { source, record_types: types },
        blocking,
        findings,
        notices: Vec::new(),
    }
}

} // verus!
