//! What a run examined: every path a rule reports having examined is the
//! path of a record it was handed, so the records a run read within a scope
//! never outnumber the records in that scope.
use crate::check::{in_scope_count, option_strings, rule_run, CheckInputs};
use crate::rules;
use crate::config::Config;
use crate::order::{has_same_path, lemma_path_distinct, lemma_sorted_same_members, path_distinct, path_sorted, Order};
use crate::record::Record;
use crate::report::{examined_paths, ran_paths, string_views, Outcome, PopulationUnit, RuleExecution, RuleStatus};
use crate::rules::{
    components, eligible_records, outcomes_by, paths_by, ran_as, role_records, slots_of, FieldSlots, RecordCheck, RoleSlots,
};
use vstd::prelude::*;

verus! {

/// The path of each record, in order.
pub open spec fn record_paths(recs: Seq<Record>) -> Seq<Seq<char>> {
    recs.map_values(|r: Record| r.path@)
}

/// Each candidate's path is the one `g` gives it.
pub proof fn lemma_paths_by<A>(s: Seq<A>, g: spec_fn(A) -> Seq<char>)
    ensures
        paths_by(s, g).len() == s.len(),
        forall|i: int| 0 <= i < s.len() ==> #[trigger] paths_by(s, g)[i] == g(s[i]),
    decreases s.len(),
{
    if s.len() > 0 {
        lemma_paths_by(s.drop_last(), g);
        assert forall|i: int| 0 <= i < s.len() implies #[trigger] paths_by(s, g)[i] == g(s[i]) by {
            if i < s.len() - 1 {
                assert(paths_by(s, g)[i] == paths_by(s.drop_last(), g)[i]);
                assert(s.drop_last()[i] == s[i]);
            }
        }
    }
}

/// Each candidate's outcome is the one `f` gives it.
pub proof fn lemma_outcomes_by<A>(s: Seq<A>, f: spec_fn(A) -> Outcome)
    ensures
        outcomes_by(s, f).len() == s.len(),
    decreases s.len(),
{
    if s.len() > 0 {
        lemma_outcomes_by(s.drop_last(), f);
    }
}

/// The examined paths are drawn from the candidates' paths.
pub proof fn lemma_examined_paths_within(outs: Seq<Outcome>, paths: Seq<Seq<char>>, allowed: Seq<Seq<char>>)
    requires
        outs.len() <= paths.len(),
        forall|i: int| 0 <= i < paths.len() ==> allowed.contains(#[trigger] paths[i]),
    ensures
        forall|j: int|
            0 <= j < examined_paths(outs, paths).len() ==> allowed.contains(#[trigger] examined_paths(outs, paths)[j]),
    decreases outs.len(),
{
    if outs.len() > 0 {
        lemma_examined_paths_within(outs.drop_last(), paths, allowed);
        let r = examined_paths(outs.drop_last(), paths);
        assert forall|j: int| 0 <= j < examined_paths(outs, paths).len() implies allowed.contains(
            #[trigger] examined_paths(outs, paths)[j],
        ) by {
            if j < r.len() {
                assert(examined_paths(outs, paths)[j] == r[j]);
            } else {
                assert(examined_paths(outs, paths)[j] == paths[outs.len() - 1]);
            }
        }
    }
}

/// A rule that ran over candidates `s` examined only paths `g` gives them.
pub proof fn lemma_ran_within<A>(
    e: RuleExecution,
    rule: Seq<char>,
    unit: PopulationUnit,
    s: Seq<A>,
    f: spec_fn(A) -> Outcome,
    g: spec_fn(A) -> Seq<char>,
    allowed: Seq<Seq<char>>,
)
    requires
        ran_as(e, rule, unit, outcomes_by(s, f), paths_by(s, g)),
        forall|i: int| 0 <= i < s.len() ==> allowed.contains(#[trigger] g(s[i])),
    ensures
        forall|j: int|
            0 <= j < e.examined_records@.len() ==> allowed.contains(#[trigger] string_views(e.examined_records@)[j]),
{
    let outs = outcomes_by(s, f);
    let paths = paths_by(s, g);
    lemma_outcomes_by(s, f);
    lemma_paths_by(s, g);
    assert forall|i: int| 0 <= i < paths.len() implies allowed.contains(#[trigger] paths[i]) by {
        assert(paths[i] == g(s[i]));
    }
    lemma_examined_paths_within(outs, paths, allowed);
    let ep = examined_paths(outs, paths);
    lemma_path_distinct(ep);
    lemma_sorted_same_members(Order::Components, path_distinct(ep));
    assert forall|j: int| 0 <= j < e.examined_records@.len() implies allowed.contains(
        #[trigger] string_views(e.examined_records@)[j],
    ) by {
        let x = string_views(e.examined_records@)[j];
        assert(path_sorted(path_distinct(ep)).contains(x)) by {
            assert(path_sorted(path_distinct(ep))[j] == x);
        }
        let k = choose|k: int| 0 <= k < ep.len() && ep[k] == x;
        assert(allowed.contains(ep[k]));
    }
}

/// A slot names a record by its position among the records.
pub proof fn lemma_slots_index(config: Config, recs: Seq<Record>, sel: FieldSlots)
    ensures
        forall|i: int|
            0 <= i < slots_of(config, recs, sel).len() ==> 0 <= #[trigger] slots_of(config, recs, sel)[i].0 < recs.len(),
    decreases recs.len(),
{
    if recs.len() > 0 {
        lemma_slots_index(config, recs.drop_last(), sel);
        let a = slots_of(config, recs.drop_last(), sel);
        assert forall|i: int| 0 <= i < slots_of(config, recs, sel).len() implies 0 <= #[trigger] slots_of(
            config,
            recs,
            sel,
        )[i].0 < recs.len() by {
            if i < a.len() {
                assert(slots_of(config, recs, sel)[i] == a[i]);
            }
        }
    }
}

/// The records a record-level rule is eligible for are records handed to it.
pub proof fn lemma_eligible_within(check: RecordCheck, config: Config, recs: Seq<Record>)
    ensures
        forall|i: int|
            0 <= i < eligible_records(check, config, recs).len() ==> recs.contains(
                #[trigger] eligible_records(check, config, recs)[i],
            ),
    decreases recs.len(),
{
    if recs.len() > 0 {
        lemma_eligible_within(check, config, recs.drop_last());
        let a = eligible_records(check, config, recs.drop_last());
        assert forall|i: int| 0 <= i < eligible_records(check, config, recs).len() implies recs.contains(
            #[trigger] eligible_records(check, config, recs)[i],
        ) by {
            if i < a.len() {
                assert(eligible_records(check, config, recs)[i] == a[i]);
                let k = choose|k: int| 0 <= k < recs.drop_last().len() && recs.drop_last()[k] == a[i];
                assert(recs[k] == a[i]);
            } else {
                assert(eligible_records(check, config, recs)[i] == recs.last());
                assert(recs[recs.len() - 1] == recs.last());
            }
        }
    }
}

/// The records a role-level rule reads are records handed to it.
pub proof fn lemma_role_within(config: Config, recs: Seq<Record>, w: RoleSlots)
    ensures
        forall|i: int|
            0 <= i < role_records(config, recs, w).len() ==> recs.contains(#[trigger] role_records(config, recs, w)[i]),
    decreases recs.len(),
{
    if recs.len() > 0 {
        lemma_role_within(config, recs.drop_last(), w);
        let a = role_records(config, recs.drop_last(), w);
        assert forall|i: int| 0 <= i < role_records(config, recs, w).len() implies recs.contains(
            #[trigger] role_records(config, recs, w)[i],
        ) by {
            if i < a.len() {
                assert(role_records(config, recs, w)[i] == a[i]);
                let k = choose|k: int| 0 <= k < recs.drop_last().len() && recs.drop_last()[k] == a[i];
                assert(recs[k] == a[i]);
            } else {
                assert(role_records(config, recs, w)[i] == recs.last());
                assert(recs[recs.len() - 1] == recs.last());
            }
        }
    }
}

/// A record handed to a rule has its path among the records' paths.
pub proof fn lemma_record_path(recs: Seq<Record>, r: Record)
    requires
        recs.contains(r),
    ensures
        record_paths(recs).contains(r.path@),
{
    let k = choose|k: int| 0 <= k < recs.len() && recs[k] == r;
    assert(record_paths(recs)[k] == r.path@);
}

/// Every path in the examined records of the runs that ran is allowed when
/// each run's is.
pub proof fn lemma_ran_paths_within(execs: Seq<RuleExecution>, allowed: Seq<Seq<char>>)
    requires
        forall|k: int|
            0 <= k < execs.len() && (#[trigger] execs[k]).status == RuleStatus::Ran ==> forall|j: int|
                0 <= j < execs[k].examined_records@.len() ==> allowed.contains(
                    #[trigger] string_views(execs[k].examined_records@)[j],
                ),
    ensures
        forall|j: int| 0 <= j < ran_paths(execs).len() ==> allowed.contains(#[trigger] ran_paths(execs)[j]),
    decreases execs.len(),
{
    if execs.len() > 0 {
        lemma_ran_paths_within(execs.drop_last(), allowed);
        let a = ran_paths(execs.drop_last());
        let e = execs.last();
        assert(execs[execs.len() - 1] == e);
        assert forall|j: int| 0 <= j < ran_paths(execs).len() implies allowed.contains(#[trigger] ran_paths(execs)[j]) by {
            if j < a.len() {
                assert(ran_paths(execs)[j] == a[j]);
            } else {
                assert(e.status == RuleStatus::Ran);
                assert(ran_paths(execs)[j] == string_views(e.examined_records@)[j - a.len()]);
            }
        }
    }
}

/// The paths of the records in `scope`, in record order.
pub open spec fn scoped_record_paths(recs: Seq<Record>, scope: Seq<Seq<char>>) -> Seq<Seq<char>>
    decreases recs.len(),
{
    if recs.len() == 0 {
        Seq::empty()
    } else {
        scoped_record_paths(recs.drop_last(), scope) + if has_same_path(scope, recs.last().path@) {
            seq![recs.last().path@]
        } else {
            Seq::<Seq<char>>::empty()
        }
    }
}

proof fn lemma_scoped_record_paths(recs: Seq<Record>, scope: Seq<Seq<char>>, p: Seq<char>)
    ensures
        scoped_record_paths(recs, scope).len() == in_scope_count(recs, scope),
        record_paths(recs).contains(p) && has_same_path(scope, p) ==> scoped_record_paths(recs, scope).contains(p),
    decreases recs.len(),
{
    if recs.len() > 0 {
        lemma_scoped_record_paths(recs.drop_last(), scope, p);
        let a = scoped_record_paths(recs.drop_last(), scope);
        let b = scoped_record_paths(recs, scope);
        if record_paths(recs).contains(p) && has_same_path(scope, p) {
            let k = choose|k: int| 0 <= k < recs.len() && record_paths(recs)[k] == p;
            if k < recs.len() - 1 {
                assert(record_paths(recs.drop_last())[k] == p);
                let q = choose|q: int| 0 <= q < a.len() && a[q] == p;
                assert(b[q] == p);
            } else {
                assert(recs.last().path@ == p);
                assert(b[b.len() - 1] == p);
            }
        }
    }
}

/// Paths no two of which are the same path, each the path of a record in
/// `scope`, are no more than the records in `scope`.
pub proof fn lemma_distinct_within_scope(x: Seq<Seq<char>>, recs: Seq<Record>, scope: Seq<Seq<char>>)
    requires
        forall|i: int, j: int| 0 <= i < j < x.len() ==> components(#[trigger] x[i]) != components(#[trigger] x[j]),
        forall|j: int| 0 <= j < x.len() ==> record_paths(recs).contains(#[trigger] x[j]) && has_same_path(scope, x[j]),
    ensures
        x.len() <= in_scope_count(recs, scope),
{
    let y = scoped_record_paths(recs, scope);
    lemma_scoped_record_paths(recs, scope, Seq::empty());
    let cx = x.map_values(|p: Seq<char>| components(p));
    let cy = y.map_values(|p: Seq<char>| components(p));
    assert forall|c: Seq<Seq<char>>| cx.to_set().contains(c) implies cy.to_set().contains(c) by {
        let j = choose|j: int| 0 <= j < cx.len() && cx[j] == c;
        assert(record_paths(recs).contains(x[j]) && has_same_path(scope, x[j]));
        lemma_scoped_record_paths(recs, scope, x[j]);
        let k = choose|k: int| 0 <= k < y.len() && y[k] == x[j];
        assert(cy[k] == c);
    }
    assert(cx.no_duplicates()) by {
        assert forall|i: int, j: int| 0 <= i < cx.len() && 0 <= j < cx.len() && i != j implies cx[i] != cx[j] by {
            if i < j {
                assert(components(x[i]) != components(x[j]));
            } else {
                assert(components(x[j]) != components(x[i]));
            }
        }
    }
    cx.unique_seq_to_set();
    cy.lemma_cardinality_of_set();
    vstd::seq_lib::seq_to_set_is_finite(cy);
    vstd::set_lib::lemma_len_subset(cx.to_set(), cy.to_set());
}

/// Every record a rule of a check reports having examined is one of the
/// records it was handed.
pub proof fn lemma_rule_run_within(config: Config, inputs: CheckInputs, k: int, e: RuleExecution)
    requires
        rule_run(config, inputs, k, e),
    ensures
        forall|j: int|
            0 <= j < e.examined_records@.len() ==> record_paths(inputs.records@).contains(
                #[trigger] string_views(e.examined_records@)[j],
            ),
{
    let recs = inputs.records@;
    let allowed = record_paths(recs);
    if k == 5 || k == 17 || k == 19 || (20 <= k <= 21) || (23 <= k <= 28) {
        assert(e.examined_records@.len() == 0);
    } else {
        if k == 0 {
            lemma_slots_index(config, recs, rules::FieldSlots::Required);
            let sl = rules::slots_of(config, recs, rules::FieldSlots::Required);
            assert forall|i: int| 0 <= i < sl.len() implies allowed.contains(#[trigger] recs[sl[i].0].path@) by {
                assert(allowed[sl[i].0] == recs[sl[i].0].path@);
            }
            lemma_ran_within(e, rules::RULE_HEADER_REQUIRED_FIELDS@, crate::report::PopulationUnit::Field, rules::slots_of(config, recs, rules::FieldSlots::Required), |s: (int, Seq<char>)| rules::slot_verdict(rules::SlotCheck::Required, recs[s.0], s.1).0, |s: (int, Seq<char>)| recs[s.0].path@, allowed);
        }
        if k == 1 {
            lemma_slots_index(config, recs, rules::FieldSlots::PointerAndNarrative);
            let sl = rules::slots_of(config, recs, rules::FieldSlots::PointerAndNarrative);
            assert forall|i: int| 0 <= i < sl.len() implies allowed.contains(#[trigger] recs[sl[i].0].path@) by {
                assert(allowed[sl[i].0] == recs[sl[i].0].path@);
            }
            lemma_ran_within(e, rules::RULE_POINTER_RESOLUTION@, crate::report::PopulationUnit::Field, rules::slots_of(config, recs, rules::FieldSlots::PointerAndNarrative), |s: (int, Seq<char>)| rules::ref_verdict(rules::RefCheck::Resolution, config, recs, Seq::<Seq<char>>::empty(), recs[s.0], s.1).0, |s: (int, Seq<char>)| recs[s.0].path@, allowed);
        }
        if k == 2 {
            lemma_slots_index(config, recs, rules::FieldSlots::PointerAndNarrative);
            let sl = rules::slots_of(config, recs, rules::FieldSlots::PointerAndNarrative);
            assert forall|i: int| 0 <= i < sl.len() implies allowed.contains(#[trigger] recs[sl[i].0].path@) by {
                assert(allowed[sl[i].0] == recs[sl[i].0].path@);
            }
            lemma_ran_within(e, rules::RULE_POINTER_TARGET_STATUS@, crate::report::PopulationUnit::Field, rules::slots_of(config, recs, rules::FieldSlots::PointerAndNarrative), |s: (int, Seq<char>)| rules::ref_verdict(rules::RefCheck::TargetStatus, config, recs, option_strings(config, rules::RULE_POINTER_TARGET_STATUS@, 0), recs[s.0], s.1).0, |s: (int, Seq<char>)| recs[s.0].path@, allowed);
        }
        if k == 3 {
            lemma_slots_index(config, recs, rules::FieldSlots::Required);
            let sl = rules::slots_of(config, recs, rules::FieldSlots::Required);
            assert forall|i: int| 0 <= i < sl.len() implies allowed.contains(#[trigger] recs[sl[i].0].path@) by {
                assert(allowed[sl[i].0] == recs[sl[i].0].path@);
            }
            lemma_ran_within(e, rules::RULE_FIELD_QUALITY@, crate::report::PopulationUnit::Field, rules::slots_of(config, recs, rules::FieldSlots::Required), |s: (int, Seq<char>)| rules::slot_verdict(rules::SlotCheck::Quality, recs[s.0], s.1).0, |s: (int, Seq<char>)| recs[s.0].path@, allowed);
        }
        if k == 4 {
            lemma_slots_index(config, recs, rules::FieldSlots::Required);
            let sl = rules::slots_of(config, recs, rules::FieldSlots::Required);
            assert forall|i: int| 0 <= i < sl.len() implies allowed.contains(#[trigger] recs[sl[i].0].path@) by {
                assert(allowed[sl[i].0] == recs[sl[i].0].path@);
            }
            lemma_ran_within(e, rules::RULE_FIELD_PENDING@, crate::report::PopulationUnit::Field, rules::slots_of(config, recs, rules::FieldSlots::Required), |s: (int, Seq<char>)| rules::slot_verdict(rules::SlotCheck::Pending, recs[s.0], s.1).0, |s: (int, Seq<char>)| recs[s.0].path@, allowed);
        }
        if k == 6 {
            assert forall|i: int| 0 <= i < recs.len() implies allowed.contains(#[trigger] recs[i].path@) by {
                assert(allowed[i] == recs[i].path@);
            }
            lemma_ran_within(e, rules::RULE_FILENAME_TITLE_CONSISTENCY@, crate::report::PopulationUnit::Record, recs, |rec: Record| rules::title_verdict(inputs.full_text@, rec).0, |rec: Record| rec.path@, allowed);
        }
        if k == 7 {
            lemma_role_within(config, recs, rules::role_slots(rules::RoleCheck::Supersession));
            let sl = rules::role_records(config, recs, rules::role_slots(rules::RoleCheck::Supersession));
            assert forall|i: int| 0 <= i < sl.len() implies allowed.contains(#[trigger] sl[i].path@) by {
                lemma_record_path(recs, sl[i]);
            }
            lemma_ran_within(e, rules::RULE_RELATION_SUPERSESSION_RECIPROCITY@, crate::report::PopulationUnit::Field, rules::role_records(config, recs, rules::role_slots(rules::RoleCheck::Supersession)), |rec: Record| rules::role_verdict(rules::RoleCheck::Supersession, config, recs, Seq::<Seq<char>>::empty(), Seq::<Seq<char>>::empty(), rec).0, |rec: Record| rec.path@, allowed);
        }
        if k == 8 {
            assert forall|i: int| 0 <= i < recs.len() implies allowed.contains(#[trigger] recs[i].path@) by {
                assert(allowed[i] == recs[i].path@);
            }
            lemma_ran_within(e, rules::RULE_REVISION_LOG_CHANGE_CLASS_REQUIRED@, crate::report::PopulationUnit::Record, recs, |rec: Record| rules::revision_verdict(inputs.full_text@, rec).0, |rec: Record| rec.path@, allowed);
        }
        if k == 9 {
            lemma_role_within(config, recs, rules::role_slots(rules::RoleCheck::Consistency));
            let sl = rules::role_records(config, recs, rules::role_slots(rules::RoleCheck::Consistency));
            assert forall|i: int| 0 <= i < sl.len() implies allowed.contains(#[trigger] sl[i].path@) by {
                lemma_record_path(recs, sl[i]);
            }
            lemma_ran_within(e, rules::RULE_EMBODIMENT_CONSISTENCY@, crate::report::PopulationUnit::Field, rules::role_records(config, recs, rules::role_slots(rules::RoleCheck::Consistency)), |rec: Record| rules::role_verdict(rules::RoleCheck::Consistency, config, Seq::<Record>::empty(), Seq::<Seq<char>>::empty(), string_views(inputs.drifted@), rec).0, |rec: Record| rec.path@, allowed);
        }
        if k == 10 {
            lemma_role_within(config, recs, rules::role_slots(rules::RoleCheck::LocatorExists));
            let sl = rules::role_records(config, recs, rules::role_slots(rules::RoleCheck::LocatorExists));
            assert forall|i: int| 0 <= i < sl.len() implies allowed.contains(#[trigger] sl[i].path@) by {
                lemma_record_path(recs, sl[i]);
            }
            lemma_ran_within(e, rules::RULE_EMBODIMENT_LOCATOR_EXISTS@, crate::report::PopulationUnit::Field, rules::role_records(config, recs, rules::role_slots(rules::RoleCheck::LocatorExists)), |rec: Record| rules::role_verdict(rules::RoleCheck::LocatorExists, config, Seq::<Record>::empty(), string_views(inputs.present_locators@), Seq::<Seq<char>>::empty(), rec).0, |rec: Record| rec.path@, allowed);
        }
        if k == 11 {
            lemma_role_within(config, recs, rules::RoleSlots::Locator);
            let sl = rules::role_records(config, recs, rules::RoleSlots::Locator);
            assert forall|i: int| 0 <= i < sl.len() implies allowed.contains(#[trigger] sl[i].path@) by {
                lemma_record_path(recs, sl[i]);
            }
            lemma_ran_within(e, rules::RULE_EMBODIMENT_LOCATOR_PROMOTION_CANDIDATE@, crate::report::PopulationUnit::Field, rules::role_records(config, recs, rules::RoleSlots::Locator), |rec: Record| rules::role_verdict(rules::RoleCheck::PromotionCandidate, config, Seq::<Record>::empty(), Seq::<Seq<char>>::empty(), Seq::<Seq<char>>::empty(), rec).0, |rec: Record| rec.path@, allowed);
        }
        if k == 12 {
            lemma_eligible_within(rules::RecordCheck::LayoutConsistency, config, recs);
            let sl = rules::eligible_records(rules::RecordCheck::LayoutConsistency, config, recs);
            assert forall|i: int| 0 <= i < sl.len() implies allowed.contains(#[trigger] sl[i].path@) by {
                lemma_record_path(recs, sl[i]);
            }
            lemma_ran_within(e, rules::RULE_HEADER_LAYOUT_CONSISTENCY@, crate::report::PopulationUnit::Record, rules::eligible_records(rules::RecordCheck::LayoutConsistency, config, recs), |rec: Record| rules::record_verdict(rules::RecordCheck::LayoutConsistency, config, rec).0, |rec: Record| rec.path@, allowed);
        }
        if k == 13 {
            lemma_eligible_within(rules::RecordCheck::FieldSetConsistency, config, recs);
            let sl = rules::eligible_records(rules::RecordCheck::FieldSetConsistency, config, recs);
            assert forall|i: int| 0 <= i < sl.len() implies allowed.contains(#[trigger] sl[i].path@) by {
                lemma_record_path(recs, sl[i]);
            }
            lemma_ran_within(e, rules::RULE_HEADER_FIELD_SET_CONSISTENCY@, crate::report::PopulationUnit::Record, rules::eligible_records(rules::RecordCheck::FieldSetConsistency, config, recs), |rec: Record| rules::record_verdict(rules::RecordCheck::FieldSetConsistency, config, rec).0, |rec: Record| rec.path@, allowed);
        }
        if k == 14 {
            lemma_slots_index(config, recs, rules::FieldSlots::Declared);
            let sl = rules::slots_of(config, recs, rules::FieldSlots::Declared);
            assert forall|i: int| 0 <= i < sl.len() implies allowed.contains(#[trigger] recs[sl[i].0].path@) by {
                assert(allowed[sl[i].0] == recs[sl[i].0].path@);
            }
            lemma_ran_within(e, rules::RULE_FIELD_UNTRIMMED_VALUE@, crate::report::PopulationUnit::Field, rules::slots_of(config, recs, rules::FieldSlots::Declared), |s: (int, Seq<char>)| rules::slot_verdict(rules::SlotCheck::Untrimmed, recs[s.0], s.1).0, |s: (int, Seq<char>)| recs[s.0].path@, allowed);
        }
        if k == 15 {
            lemma_slots_index(config, recs, rules::FieldSlots::Declared);
            let sl = rules::slots_of(config, recs, rules::FieldSlots::Declared);
            assert forall|i: int| 0 <= i < sl.len() implies allowed.contains(#[trigger] recs[sl[i].0].path@) by {
                assert(allowed[sl[i].0] == recs[sl[i].0].path@);
            }
            lemma_ran_within(e, rules::RULE_HEADER_FIELD_CASE_MISMATCH@, crate::report::PopulationUnit::Field, rules::slots_of(config, recs, rules::FieldSlots::Declared), |s: (int, Seq<char>)| rules::slot_verdict(rules::SlotCheck::CaseMismatch, recs[s.0], s.1).0, |s: (int, Seq<char>)| recs[s.0].path@, allowed);
        }
        if k == 16 {
            lemma_slots_index(config, recs, rules::FieldSlots::Narrative);
            let sl = rules::slots_of(config, recs, rules::FieldSlots::Narrative);
            assert forall|i: int| 0 <= i < sl.len() implies allowed.contains(#[trigger] recs[sl[i].0].path@) by {
                assert(allowed[sl[i].0] == recs[sl[i].0].path@);
            }
            lemma_ran_within(e, rules::RULE_NARRATIVE_FIELD_STALE@, crate::report::PopulationUnit::Field, rules::slots_of(config, recs, rules::FieldSlots::Narrative), |s: (int, Seq<char>)| rules::ref_verdict(rules::RefCheck::Stale, config, recs, option_strings(config, rules::RULE_NARRATIVE_FIELD_STALE@, 2), recs[s.0], s.1).0, |s: (int, Seq<char>)| recs[s.0].path@, allowed);
        }
        if k == 18 {
            assert forall|i: int| 0 <= i < recs.len() implies allowed.contains(#[trigger] recs[i].path@) by {
                assert(allowed[i] == recs[i].path@);
            }
            lemma_ran_within(e, rules::RULE_IDENTITY_COLLISION@, crate::report::PopulationUnit::Record, recs, |rec: Record| if rec.id_spec() is Some { crate::report::Outcome::Examined } else { crate::report::Outcome::OutOfScope }, |rec: Record| rec.path@, allowed);
        }
        if k == 22 {
            lemma_slots_index(config, recs, rules::FieldSlots::Pointer);
            let sl = rules::slots_of(config, recs, rules::FieldSlots::Pointer);
            assert forall|i: int| 0 <= i < sl.len() implies allowed.contains(#[trigger] recs[sl[i].0].path@) by {
                assert(allowed[sl[i].0] == recs[sl[i].0].path@);
            }
            lemma_ran_within(e, rules::RULE_HEADER_POINTER_FIELD_CLEAN@, crate::report::PopulationUnit::Field, rules::slots_of(config, recs, rules::FieldSlots::Pointer), |s: (int, Seq<char>)| rules::ref_verdict(rules::RefCheck::PointerClean, config, Seq::<Record>::empty(), Seq::<Seq<char>>::empty(), recs[s.0], s.1).0, |s: (int, Seq<char>)| recs[s.0].path@, allowed);
        }
        if k == 29 {
            lemma_slots_index(config, recs, rules::FieldSlots::PointerAndNarrative);
            let sl = rules::slots_of(config, recs, rules::FieldSlots::PointerAndNarrative);
            assert forall|i: int| 0 <= i < sl.len() implies allowed.contains(#[trigger] recs[sl[i].0].path@) by {
                assert(allowed[sl[i].0] == recs[sl[i].0].path@);
            }
            lemma_ran_within(e, rules::RULE_RELATION_TARGET_STATUS_UNDECLARED@, crate::report::PopulationUnit::Field, rules::slots_of(config, recs, rules::FieldSlots::PointerAndNarrative), |s: (int, Seq<char>)| rules::ref_verdict(rules::RefCheck::TargetStatusUndeclared, config, recs, Seq::<Seq<char>>::empty(), recs[s.0], s.1).0, |s: (int, Seq<char>)| recs[s.0].path@, allowed);
        }
    }
}

/// A run whose every examined path is a record's path reads, within a
/// scope, no more distinct records than the scope holds.
pub proof fn lemma_read_within_scope(execs: Seq<RuleExecution>, recs: Seq<Record>, scope: Seq<Seq<char>>)
    requires
        forall|j: int| 0 <= j < ran_paths(execs).len() ==> record_paths(recs).contains(#[trigger] ran_paths(execs)[j]),
    ensures
        path_distinct(ran_paths(execs).filter(|p: Seq<char>| has_same_path(scope, p))).len() <= in_scope_count(
            recs,
            scope,
        ),
{
    let pred = |p: Seq<char>| has_same_path(scope, p);
    let all = ran_paths(execs);
    let f = all.filter(pred);
    lemma_path_distinct(f);
    let x = path_distinct(f);
    assert forall|j: int| 0 <= j < x.len() implies record_paths(recs).contains(#[trigger] x[j]) && has_same_path(
        scope,
        x[j],
    ) by {
        let p = x[j];
        assert(x.contains(p));
        all.lemma_filter_contains_rev(pred, p);
        reveal(Seq::filter);
        all.filter_lemma(pred);
        let q = choose|q: int| 0 <= q < f.len() && f[q] == p;
        assert(pred(f[q]));
        let m = choose|m: int| 0 <= m < all.len() && all[m] == p;
        assert(record_paths(recs).contains(all[m]));
    }
    lemma_distinct_within_scope(x, recs, scope);
}

} // verus!
