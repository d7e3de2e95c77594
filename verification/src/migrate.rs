//! Previewing a schema change: which existing records would fail a proposed
//! new required field, before it is ever declared. Read-only.
use crate::field_state::{classify, field_state};
use crate::header::get_spec;
use crate::record::Record;
use crate::report::{census, population_of, Notice, NoticeSeverity, Outcome, Population, PopulationUnit};
use crate::text::{append, chars_of, copy_str, join, join_vecs, lines, lines_exec, string_of, views};
use crate::FieldState;
use vstd::prelude::*;

verus! {

/// A record that would newly fail if `field` were required.
#[derive(Debug, Clone, PartialEq, Eq)]
pub struct SchemaReportEntry {
    pub record: String,
    pub record_type: String,
    pub state: FieldState,
}

pub type EntryV = (Seq<char>, Seq<char>, FieldState);

pub open spec fn schema_entry_views(es: Seq<SchemaReportEntry>) -> Seq<EntryV> {
    es.map_values(|e: SchemaReportEntry| (e.record@, e.record_type@, e.state))
}

/// What the preview decides about one record: a header that did not parse
/// is not judged (no state can be claimed behind it); otherwise the field's
/// state, reported unless it is a real, present value.
pub open spec fn preview(r: Record, field: Seq<char>) -> (Outcome, Seq<EntryV>) {
    if r.header.unreadable_spec() {
        (Outcome::Unreadable, Seq::empty())
    } else {
        let state = field_state(get_spec(r.header.fields_v(), field));
        if state != FieldState::Present {
            (Outcome::Examined, seq![(r.path@, r.record_type@, state)])
        } else {
            (Outcome::Examined, Seq::empty())
        }
    }
}

pub open spec fn preview_outcomes(recs: Seq<Record>, field: Seq<char>) -> Seq<Outcome>
    decreases recs.len(),
{
    if recs.len() == 0 {
        Seq::empty()
    } else {
        preview_outcomes(recs.drop_last(), field).push(preview(recs.last(), field).0)
    }
}

pub open spec fn preview_entries(recs: Seq<Record>, field: Seq<char>) -> Seq<EntryV>
    decreases recs.len(),
{
    if recs.len() == 0 {
        Seq::empty()
    } else {
        preview_entries(recs.drop_last(), field) + preview(recs.last(), field).1
    }
}

/// The records whose header did not parse, one notice each.
pub open spec fn unreadable_paths(recs: Seq<Record>) -> Seq<Seq<char>>
    decreases recs.len(),
{
    if recs.len() == 0 {
        Seq::empty()
    } else {
        unreadable_paths(recs.drop_last()) + if recs.last().header.unreadable_spec() {
            seq![recs.last().path@]
        } else {
            Seq::empty()
        }
    }
}

/// Every record whose value for `field` is not a real, present value: what
/// would newly fail if `field` were added to its type's required fields.
/// A record whose header did not parse is in the population and not judged,
/// and is disclosed by a warning notice, so a preview over a partly broken
/// corpus does not read as complete.
pub fn schema_report(records: &[Record], field: &str) -> (r: (Population, Vec<SchemaReportEntry>, Vec<Notice>))
    ensures
        r.0@ == population_of(PopulationUnit::Record, preview_outcomes(records@, field@)),
        schema_entry_views(r.1@) == preview_entries(records@, field@),
        r.2@.len() == unreadable_paths(records@).len(),
        forall|k: int| 0 <= k < r.2@.len() ==> {
            &&& (#[trigger] r.2@[k]).severity == NoticeSeverity::Warning
            &&& r.2@[k].subject@ == "header-unreadable"@
            &&& r.2@[k].message@ == unreadable_paths(records@)[k]
                + ": header did not parse -- excluded from this preview, not counted as failing"@
        },
{
    let mut outcomes: Vec<Outcome> = Vec::new();
    let mut report: Vec<SchemaReportEntry> = Vec::new();
    let mut notices: Vec<Notice> = Vec::new();
    let mut i: usize = 0;
    while i < records.len()
        invariant
            i <= records.len(),
            outcomes@ == preview_outcomes(records@.take(i as int), field@),
            schema_entry_views(report@) == preview_entries(records@.take(i as int), field@),
            notices@.len() == unreadable_paths(records@.take(i as int)).len(),
            forall|k: int| 0 <= k < notices@.len() ==> {
                &&& (#[trigger] notices@[k]).severity == NoticeSeverity::Warning
                &&& notices@[k].subject@ == "header-unreadable"@
                &&& notices@[k].message@ == unreadable_paths(records@.take(i as int))[k]
                    + ": header did not parse -- excluded from this preview, not counted as failing"@
            },
        decreases records.len() - i,
    {
        assert(records@.take(i + 1).drop_last() =~= records@.take(i as int));
        assert(records@.take(i + 1).last() == records@[i as int]);
        let rec = &records[i];
        let ghost up = unreadable_paths(records@.take(i as int));
        if rec.header.is_unreadable() {
            let mut m = rec.path.clone();
            append(&mut m, ": header did not parse -- excluded from this preview, not counted as failing");
            notices.push(Notice { severity: NoticeSeverity::Warning, subject: copy_str("header-unreadable"), message: m });
            outcomes.push(Outcome::Unreadable);
            assert(unreadable_paths(records@.take(i + 1)) =~= up.push(rec.path@));
            assert(preview_entries(records@.take(i + 1), field@) =~= preview_entries(records@.take(i as int), field@));
        } else {
            let state = classify(rec.header.get(field));
            if state != FieldState::Present {
                let ghost before = schema_entry_views(report@);
                report.push(SchemaReportEntry { record: rec.path.clone(), record_type: rec.record_type.clone(), state });
                assert(schema_entry_views(report@) =~= before + seq![(rec.path@, rec.record_type@, state)]);
            } else {
                assert(preview_entries(records@.take(i + 1), field@) =~= preview_entries(records@.take(i as int), field@));
            }
            outcomes.push(Outcome::Examined);
            assert(unreadable_paths(records@.take(i + 1)) =~= up);
        }
        i += 1;
    }
    assert(records@.take(records.len() as int) =~= records@);
    (census(PopulationUnit::Record, &outcomes), report, notices)
}

/// The records without a `Stable-Id` field, in order.
pub open spec fn lacking_stable_id(records: Seq<Record>) -> Seq<Seq<char>>
    decreases records.len(),
{
    if records.len() == 0 {
        Seq::empty()
    } else {
        lacking_stable_id(records.drop_last()) + if get_spec(records.last().header.fields_v(), "Stable-Id"@) is None {
            seq![records.last().path@]
        } else {
            Seq::empty()
        }
    }
}

/// The paths of the records a `Stable-Id` backfill would touch.
pub fn missing_stable_id(records: &[Record]) -> (r: Vec<String>)
    ensures
        crate::report::string_views(r@) == lacking_stable_id(records@),
{
    let mut out: Vec<String> = Vec::new();
    let mut i: usize = 0;
    while i < records.len()
        invariant
            i <= records.len(),
            crate::report::string_views(out@) == lacking_stable_id(records@.take(i as int)),
        decreases records.len() - i,
    {
        assert(records@.take(i + 1).drop_last() =~= records@.take(i as int));
        assert(records@.take(i + 1).last() == records@[i as int]);
        if records[i].header.get("Stable-Id").is_none() {
            let ghost before = crate::report::string_views(out@);
            out.push(records[i].path.clone());
            assert(crate::report::string_views(out@) =~= before.push(records@[i as int].path@));
        }
        i += 1;
    }
    assert(records@.take(records.len() as int) =~= records@);
    out
}

/// A backfill step as `(path, line)`.
pub type BackfillV = (Seq<char>, Option<int>);

pub open spec fn backfill_views(v: Seq<(String, Option<usize>)>) -> Seq<BackfillV> {
    v.map_values(
        |e: (String, Option<usize>)|
            (
                e.0@,
                match e.1 {
                    Some(s) => Some(s as int),
                    None => None,
                },
            ),
    )
}

/// What a `Stable-Id` backfill does with each record that lacks one, in
/// order: inserts the field at the first line of its header region, or,
/// with no header region to put it in, skips the record (`None`).
pub open spec fn backfill_plan(records: Seq<Record>) -> Seq<BackfillV>
    decreases records.len(),
{
    if records.len() == 0 {
        Seq::empty()
    } else {
        let r = records.last();
        backfill_plan(records.drop_last()) + if get_spec(r.header.fields_v(), "Stable-Id"@) is None {
            seq![
                (
                    r.path@,
                    match r.header.region {
                        Some((s, _)) => Some(s as int),
                        None => None,
                    },
                ),
            ]
        } else {
            Seq::empty()
        }
    }
}

/// The backfill's plan: for each record lacking a `Stable-Id`, its path and
/// the header line the field goes at, or `None` when it has no header
/// region and is skipped.
pub fn stable_id_backfill(records: &[Record]) -> (r: Vec<(String, Option<usize>)>)
    ensures
        backfill_views(r@) == backfill_plan(records@),
{
    let mut out: Vec<(String, Option<usize>)> = Vec::new();
    let mut i: usize = 0;
    while i < records.len()
        invariant
            i <= records.len(),
            backfill_views(out@) == backfill_plan(records@.take(i as int)),
        decreases records.len() - i,
    {
        assert(records@.take(i + 1).drop_last() =~= records@.take(i as int));
        assert(records@.take(i + 1).last() == records@[i as int]);
        if records[i].header.get("Stable-Id").is_none() {
            let at: Option<usize> = match records[i].header.region {
                Some((s, _)) => Some(s),
                None => None,
            };
            let ghost before = backfill_views(out@);
            out.push((records[i].path.clone(), at));
            assert(backfill_views(out@) =~= before.push(backfill_views(out@).last()));
        }
        i += 1;
    }
    assert(records@.take(records.len() as int) =~= records@);
    out
}

/// A record's text with a `> Stable-Id:` line inserted as line `at`
/// (0-indexed), each line ending in a newline. Given the 1-indexed first
/// line of the header region, the field lands right after that line.
pub open spec fn stable_id_inserted(content: Seq<char>, at: int, id: Seq<char>) -> Seq<char> {
    join(lines(content).insert(at, "> Stable-Id: "@ + id), "\n"@) + "\n"@
}

/// Insert a `Stable-Id` field into a record's text.
pub fn with_stable_id(content: &str, at: usize, id: &str) -> (r: String)
    requires
        at <= lines(content@).len(),
    ensures
        r@ == stable_id_inserted(content@, at as int, id@),
{
    let cs = chars_of(content);
    let mut ls = lines_exec(&cs);
    let mut line = chars_of("> Stable-Id: ");
    let ghost head = line@;
    let idc = chars_of(id);
    let mut k: usize = 0;
    while k < idc.len()
        invariant
            k <= idc.len(),
            line@ == head + idc@.take(k as int),
        decreases idc.len() - k,
    {
        line.push(idc[k]);
        assert(idc@.take(k + 1) =~= idc@.take(k as int).push(idc@[k as int]));
        k += 1;
    }
    assert(idc@.take(idc.len() as int) =~= idc@);
    let ghost before = views(ls@);
    ls.insert(at, line);
    assert(views(ls@) =~= before.insert(at as int, head + id@));
    let nl = chars_of("\n");
    let mut out = join_vecs(&ls, &nl);
    out.push('\n');
    proof {
        reveal_strlit("\n");
    }
    assert(out@ =~= join(views(ls@), "\n"@) + "\n"@);
    string_of(&out)
}

} // verus!
