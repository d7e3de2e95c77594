//! Detecting repairable facts: a record's stated value that disagrees with
//! what the tool computes from the record itself. Read-only.
use crate::config::{default_field, RelationRole};
use crate::embodiment::{compute_embodiment, embodiment, parse_realized_by, realized};
use crate::header::get_spec;
use crate::record::Record;
use crate::report::{FixFailure, FixReport, FixStatus, Notice, NoticeSeverity, Population, PopulationUnit, PopulationView};
use crate::text::{append, chars_of, copy_str, seq_eq, string_of, trim, trim_vec};
use vstd::prelude::*;

verus! {

/// One disagreement between a record's stated value and the computed one.
#[derive(Debug, Clone, PartialEq, Eq)]
pub struct Repair {
    pub record: String,
    pub field: String,
    pub current_value: String,
    pub computed_value: String,
    /// The repair tier; only recompute-in-place (tier 1) exists.
    pub tier: u8,
    /// The evidence the computation read.
    pub evidence: String,
}

/// `(record, field, current, computed, tier, evidence)`.
pub type RepairV = (Seq<char>, Seq<char>, Seq<char>, Seq<char>, u8, Seq<char>);

pub open spec fn repair_views(rs: Seq<Repair>) -> Seq<RepairV> {
    rs.map_values(|r: Repair| (r.record@, r.field@, r.current_value@, r.computed_value@, r.tier, r.evidence@))
}

/// Whether a record carries both the embodiment state and its locators
/// (under their default names), the two a repair is computed from.
pub open spec fn repairable(r: Record) -> bool {
    get_spec(r.header.fields_v(), default_field(RelationRole::EmbodimentState)) is Some && get_spec(
        r.header.fields_v(),
        default_field(RelationRole::EmbodimentLocator),
    ) is Some
}

/// The tier-1 repair a record needs, if its stated embodiment disagrees
/// with what its locators compute to.
pub open spec fn repair_of(r: Record) -> Seq<RepairV> {
    match (
        get_spec(r.header.fields_v(), default_field(RelationRole::EmbodimentState)),
        get_spec(r.header.fields_v(), default_field(RelationRole::EmbodimentLocator)),
    ) {
        (Some(stated), Some(locators)) => {
            let computed = embodiment(realized(locators), false);
            if trim(stated) != computed {
                seq![
                    (
                        r.path@,
                        default_field(RelationRole::EmbodimentState),
                        trim(stated),
                        computed,
                        1u8,
                        default_field(RelationRole::EmbodimentLocator) + ": "@ + locators,
                    ),
                ]
            } else {
                Seq::empty()
            }
        },
        _ => Seq::empty(),
    }
}

pub open spec fn repairs_of(recs: Seq<Record>) -> Seq<RepairV>
    decreases recs.len(),
{
    if recs.len() == 0 {
        Seq::empty()
    } else {
        repairs_of(recs.drop_last()) + repair_of(recs.last())
    }
}

pub open spec fn repairable_count(recs: Seq<Record>) -> nat
    decreases recs.len(),
{
    if recs.len() == 0 {
        0
    } else {
        repairable_count(recs.drop_last()) + if repairable(recs.last()) {
            1nat
        } else {
            0nat
        }
    }
}

/// A repair always changes something: it proposes a value different from
/// the one the record states, it is tier 1, and no record yields more than
/// one, so there are never more repairs than records examined.
pub proof fn lemma_repairs_are_changes(recs: Seq<Record>)
    ensures
        repairs_of(recs).len() <= repairable_count(recs),
        forall|k: int|
            0 <= k < repairs_of(recs).len() ==> (#[trigger] repairs_of(recs)[k]).2 != repairs_of(recs)[k].3
                && repairs_of(recs)[k].4 == 1u8,
    decreases recs.len(),
{
    if recs.len() > 0 {
        let rest = recs.drop_last();
        lemma_repairs_are_changes(rest);
        let a = repairs_of(rest);
        let b = repair_of(recs.last());
        assert(repairs_of(recs) == a + b);
        assert forall|k: int| 0 <= k < repairs_of(recs).len() implies (#[trigger] repairs_of(recs)[k]).2
            != repairs_of(recs)[k].3 && repairs_of(recs)[k].4 == 1u8 by {
            if k < a.len() {
                assert(repairs_of(recs)[k] == a[k]);
            } else {
                assert(repairs_of(recs)[k] == b[k - a.len()]);
            }
        }
    }
}

/// Tier-1 repairs of the embodiment state, with how many records were
/// examined (both fields present), so "examined some, found nothing" stays
/// distinct from "examined nothing".
pub fn detect_repairs(records: &[Record]) -> (r: (usize, Vec<Repair>))
    ensures
        r.0 == repairable_count(records@),
        repair_views(r.1@) == repairs_of(records@),
{
    let state_field = RelationRole::EmbodimentState.default_field_name();
    let locator_field = RelationRole::EmbodimentLocator.default_field_name();
    let mut repairs: Vec<Repair> = Vec::new();
    let mut examined: usize = 0;
    let mut i: usize = 0;
    while i < records.len()
        invariant
            i <= records.len(),
            state_field@ == default_field(RelationRole::EmbodimentState),
            locator_field@ == default_field(RelationRole::EmbodimentLocator),
            examined == repairable_count(records@.take(i as int)),
            examined <= i,
            repair_views(repairs@) == repairs_of(records@.take(i as int)),
        decreases records.len() - i,
    {
        assert(records@.take(i + 1).drop_last() =~= records@.take(i as int));
        assert(records@.take(i + 1).last() == records@[i as int]);
        let rec = &records[i];
        let ghost before = repair_views(repairs@);
        let stated = rec.header.get(state_field);
        let locators = rec.header.get(locator_field);
        match (stated, locators) {
            (Some(stated), Some(value)) => {
                examined += 1;
                let computed = compute_embodiment(&parse_realized_by(value), false);
                let sc = chars_of(stated);
                let st = trim_vec(&sc);
                let cc = chars_of(computed);
                if !seq_eq(&st, &cc) {
                    let mut evidence = copy_str(locator_field);
                    append(&mut evidence, ": ");
                    append(&mut evidence, value);
                    repairs.push(Repair {
                        record: rec.path.clone(),
                        field: copy_str(state_field),
                        current_value: string_of(&st),
                        computed_value: copy_str(computed),
                        tier: 1,
                        evidence,
                    });
                    assert(repair_views(repairs@) =~= before + repair_of(records@[i as int]));
                } else {
                    assert(before + Seq::<RepairV>::empty() =~= before);
                }
            },
            _ => {
                assert(before + Seq::<RepairV>::empty() =~= before);
            },
        }
        i += 1;
    }
    assert(records@.take(records.len() as int) =~= records@);
    (examined, repairs)
}

/// There are never more records examined than records.
pub proof fn lemma_repairable_count_le(recs: Seq<Record>)
    ensures
        repairable_count(recs) <= recs.len(),
    decreases recs.len(),
{
    if recs.len() > 0 {
        lemma_repairable_count_le(recs.drop_last());
    }
}

/// Detect the repairs a corpus needs, with the population it was judged
/// over: every record eligible, those carrying both embodiment fields
/// examined.
pub fn detect(records: &[Record]) -> (r: (Population, Vec<Repair>))
    ensures
        r.0@ == (PopulationView {
            unit: PopulationUnit::Record,
            eligible: records@.len(),
            examined: repairable_count(records@),
            out_of_scope: 0,
            unreadable: 0,
        }),
        repair_views(r.1@) == repairs_of(records@),
{
    let (examined, repairs) = detect_repairs(records);
    proof {
        lemma_repairable_count_le(records@);
    }
    (Population::of(PopulationUnit::Record, records.len(), examined), repairs)
}

/// The status a fix run ends in: not run when detect mode examined nothing;
/// a partial failure when any write failed; clean when nothing needed
/// repairing; applied when apply mode wrote repairs; repairs available
/// when detect mode found some. An apply run over nothing is not "not run":
/// its outcome is keyed on failures alone.
pub open spec fn fix_status_of(examined: nat, repairs: nat, failed: nat, ran_apply: bool) -> FixStatus {
    if examined == 0 && !ran_apply {
        FixStatus::NotRun
    } else if failed > 0 {
        FixStatus::PartialFailure
    } else if repairs == 0 {
        FixStatus::Clean
    } else if ran_apply {
        FixStatus::Applied
    } else {
        FixStatus::RepairsAvailable
    }
}

/// The report of a fix run. An identity warning becomes a notice, which
/// never moves the exit code.
pub fn build_fix_report(
    population: Population,
    repairs: Vec<Repair>,
    failed: Vec<FixFailure>,
    warning: Option<String>,
    ran_apply: bool,
) -> (r: FixReport)
    ensures
        r.status == fix_status_of(population@.examined, repairs@.len(), failed@.len(), ran_apply),
        r.population == population,
        r.repairs == repairs,
        r.failed == failed,
        r.notices@.len() == (if warning is Some { 1int } else { 0int }),
        warning matches Some(m) ==> r.notices@[0].severity == NoticeSeverity::Warning && r.notices@[0].subject@
            == "identity"@ && r.notices@[0].message == m,
{
    let status = if population.examined() == 0 && !ran_apply {
        FixStatus::NotRun
    } else if failed.len() > 0 {
        FixStatus::PartialFailure
    } else if repairs.len() == 0 {
        FixStatus::Clean
    } else if ran_apply {
        FixStatus::Applied
    } else {
        FixStatus::RepairsAvailable
    };
    let mut notices: Vec<Notice> = Vec::new();
    match warning {
        Some(message) => {
            notices.push(Notice { severity: NoticeSeverity::Warning, subject: copy_str("identity"), message });
        },
        None => {},
    }
    FixReport { status, population, repairs, failed, notices }
}

} // verus!
