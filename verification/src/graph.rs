//! The relationship graph as queryable data, built from what records
//! already carry: declared pointer and narrative fields, the supersession
//! field, and embodiment locators. No new field, no new rule.
use crate::config::{default_field, lookup, RelationRole};
use crate::embodiment::{parse_realized_by, realized};
use crate::record::Record;
use crate::references::{
    build_normalized_index, extract_references, references, resolve, RecordIndex,
};
use crate::report::{contains_string, string_views};
use crate::text::{chars_of, copy_str, str_eq};
use crate::values::{normalize, normalize_exec};
use vstd::prelude::*;

verus! {

/// Which kind a relationship field is: its value shape, not which rule
/// reads it. The supersession field is pointer-shaped.
#[derive(Debug, Clone, Copy, PartialEq, Eq, Structural)]
pub enum RelationKind {
    Pointer,
    Narrative,
}

pub open spec fn kind_name(k: RelationKind) -> Seq<char> {
    match k {
        RelationKind::Pointer => "pointer"@,
        RelationKind::Narrative => "narrative"@,
    }
}

impl RelationKind {
    /// The kind as reports write it.
    pub fn as_str(self) -> (r: &'static str)
        ensures
            r@ == kind_name(self),
    {
        match self {
            RelationKind::Pointer => "pointer",
            RelationKind::Narrative => "narrative",
        }
    }
}

/// A record governing a path: its embodiment locators name that path.
#[derive(Debug, Clone, PartialEq, Eq)]
pub struct GoverningRecord {
    pub record: String,
    pub record_type: String,
    /// The category the match came from: `spec`, `code` or `test`.
    pub via: String,
}

/// `(record, record type, category)`.
pub type GoverningV = (Seq<char>, Seq<char>, Seq<char>);

pub open spec fn governing_views(g: Seq<GoverningRecord>) -> Seq<GoverningV> {
    g.map_values(|x: GoverningRecord| (x.record@, x.record_type@, x.via@))
}

/// What one record contributes to `explain(path)`: one entry per category
/// whose locators name `path`, `spec`, `code`, `test` in that order.
pub open spec fn governs(r: Record, path: Seq<char>) -> Seq<GoverningV> {
    match crate::header::get_spec(r.header.fields_v(), default_field(RelationRole::EmbodimentLocator)) {
        None => Seq::empty(),
        Some(v) => {
            let p = realized(v);
            (if p.spec.contains(path) {
                seq![(r.path@, r.record_type@, "spec"@)]
            } else {
                Seq::empty()
            }) + (if p.code.contains(path) {
                seq![(r.path@, r.record_type@, "code"@)]
            } else {
                Seq::empty()
            }) + (if p.test.contains(path) {
                seq![(r.path@, r.record_type@, "test"@)]
            } else {
                Seq::empty()
            })
        },
    }
}

pub open spec fn governing(recs: Seq<Record>, path: Seq<char>) -> Seq<GoverningV>
    decreases recs.len(),
{
    if recs.len() == 0 {
        Seq::empty()
    } else {
        governing(recs.drop_last(), path) + governs(recs.last(), path)
    }
}

/// `r`'s `Realized-by` value lists `path` under category `via`.
pub open spec fn lists_under(r: Record, path: Seq<char>, via: Seq<char>) -> bool {
    match crate::header::get_spec(r.header.fields_v(), default_field(RelationRole::EmbodimentLocator)) {
        None => false,
        Some(v) => {
            ||| via == "spec"@ && realized(v).spec.contains(path)
            ||| via == "code"@ && realized(v).code.contains(path)
            ||| via == "test"@ && realized(v).test.contains(path)
        },
    }
}

/// `explain` answers exactly from the records' listings: for every record
/// whose `Realized-by` lists `path` under `spec`, `code` or `test` there is
/// an entry naming that record, its type and the category; and every entry
/// names a record that lists `path` under the entry's category.
pub proof fn lemma_explain_law(recs: Seq<Record>, path: Seq<char>)
    ensures
        forall|k: int, via: Seq<char>|
            0 <= k < recs.len() && #[trigger] lists_under(recs[k], path, via) ==> governing(recs, path).contains(
                (recs[k].path@, recs[k].record_type@, via),
            ),
        forall|e: GoverningV|
            #[trigger] governing(recs, path).contains(e) ==> exists|k: int|
                0 <= k < recs.len() && recs[k].path@ == e.0 && recs[k].record_type@ == e.1 && lists_under(
                    #[trigger] recs[k],
                    path,
                    e.2,
                ),
    decreases recs.len(),
{
    if recs.len() > 0 {
        let t = recs.drop_last();
        let r = recs.last();
        let a = governing(t, path);
        let b = governs(r, path);
        lemma_explain_law(t, path);
        assert(governing(recs, path) == a + b);
        assert forall|k: int, via: Seq<char>|
            0 <= k < recs.len() && #[trigger] lists_under(recs[k], path, via) implies governing(recs, path).contains(
                (recs[k].path@, recs[k].record_type@, via),
            ) by {
            let e = (recs[k].path@, recs[k].record_type@, via);
            if k < t.len() {
                assert(t[k] == recs[k]);
                assert(lists_under(t[k], path, via));
                let q = choose|q: int| 0 <= q < a.len() && a[q] == e;
                assert((a + b)[q] == e);
            } else {
                assert(recs[k] == r);
                let v = crate::header::get_spec(r.header.fields_v(), default_field(RelationRole::EmbodimentLocator)).unwrap();
                let p = realized(v);
                let s1: Seq<GoverningV> = if p.spec.contains(path) { seq![(r.path@, r.record_type@, "spec"@)] } else { Seq::empty() };
                let s2: Seq<GoverningV> = if p.code.contains(path) { seq![(r.path@, r.record_type@, "code"@)] } else { Seq::empty() };
                let s3: Seq<GoverningV> = if p.test.contains(path) { seq![(r.path@, r.record_type@, "test"@)] } else { Seq::empty() };
                assert(b == s1 + s2 + s3);
                if via == "spec"@ && p.spec.contains(path) {
                    assert((a + b)[a.len() as int] == e);
                } else if via == "code"@ && p.code.contains(path) {
                    assert((a + b)[(a.len() + s1.len()) as int] == e);
                } else {
                    assert((a + b)[(a.len() + s1.len() + s2.len()) as int] == e);
                }
            }
        }
        assert forall|e: GoverningV| #[trigger] governing(recs, path).contains(e) implies exists|k: int|
            0 <= k < recs.len() && recs[k].path@ == e.0 && recs[k].record_type@ == e.1 && lists_under(
                #[trigger] recs[k],
                path,
                e.2,
            ) by {
            let q = choose|q: int| 0 <= q < (a + b).len() && (a + b)[q] == e;
            if q < a.len() {
                assert(a[q] == e);
                assert(a.contains(e));
                let k = choose|k: int|
                    0 <= k < t.len() && t[k].path@ == e.0 && t[k].record_type@ == e.1 && lists_under(#[trigger] t[k], path, e.2);
                assert(recs[k] == t[k]);
            } else {
                let k = recs.len() - 1;
                assert(recs[k] == r);
                let v = crate::header::get_spec(r.header.fields_v(), default_field(RelationRole::EmbodimentLocator)).unwrap();
                let p = realized(v);
                let s1: Seq<GoverningV> = if p.spec.contains(path) { seq![(r.path@, r.record_type@, "spec"@)] } else { Seq::empty() };
                let s2: Seq<GoverningV> = if p.code.contains(path) { seq![(r.path@, r.record_type@, "code"@)] } else { Seq::empty() };
                let s3: Seq<GoverningV> = if p.test.contains(path) { seq![(r.path@, r.record_type@, "test"@)] } else { Seq::empty() };
                assert(b == s1 + s2 + s3);
                assert(b[q - a.len()] == e);
                assert(lists_under(recs[k], path, e.2));
            }
        }
    }
}

/// How many of the three categories of `r`'s `Realized-by` list `path`.
pub open spec fn categories_listing(r: Record, path: Seq<char>) -> nat {
    match crate::header::get_spec(r.header.fields_v(), default_field(RelationRole::EmbodimentLocator)) {
        None => 0,
        Some(v) => (if realized(v).spec.contains(path) { 1nat } else { 0nat }) + (if realized(v).code.contains(
            path,
        ) { 1nat } else { 0nat }) + (if realized(v).test.contains(path) { 1nat } else { 0nat }),
    }
}

/// How many (record, category) listings of `path` the records hold.
pub open spec fn listings(recs: Seq<Record>, path: Seq<char>) -> nat
    decreases recs.len(),
{
    if recs.len() == 0 {
        0
    } else {
        listings(recs.drop_last(), path) + categories_listing(recs.last(), path)
    }
}

/// `explain` gives one entry per listing, never more: as many entries as
/// there are (record, category) pairs whose locators name `path`.
pub proof fn lemma_explain_counts_listings(recs: Seq<Record>, path: Seq<char>)
    ensures
        governing(recs, path).len() == listings(recs, path),
    decreases recs.len(),
{
    if recs.len() > 0 {
        lemma_explain_counts_listings(recs.drop_last(), path);
    }
}

fn governing_entry(r: &Record, via: &str) -> (g: GoverningRecord)
    ensures
        (g.record@, g.record_type@, g.via@) == (r.path@, r.record_type@, via@),
{
    GoverningRecord { record: r.path.clone(), record_type: r.record_type.clone(), via: copy_str(via) }
}

/// Every record whose embodiment locators name `path`: which decisions
/// govern this file, answered from data the records already carry.
pub fn explain(records: &[Record], path: &str) -> (r: Vec<GoverningRecord>)
    ensures
        governing_views(r@) == governing(records@, path@),
{
    let field = RelationRole::EmbodimentLocator.default_field_name();
    let mut out: Vec<GoverningRecord> = Vec::new();
    let mut i: usize = 0;
    while i < records.len()
        invariant
            i <= records.len(),
            field@ == default_field(RelationRole::EmbodimentLocator),
            governing_views(out@) == governing(records@.take(i as int), path@),
        decreases records.len() - i,
    {
        assert(records@.take(i + 1).drop_last() =~= records@.take(i as int));
        assert(records@.take(i + 1).last() == records@[i as int]);
        let rec = &records[i];
        let ghost before = governing_views(out@);
        match rec.header.get(field) {
            None => {
                assert(before + Seq::<GoverningV>::empty() =~= before);
            },
            Some(v) => {
                let p = parse_realized_by(v);
                let ghost pv = realized(v@);
                let a = contains_string(&p.spec, path);
                let b = contains_string(&p.code, path);
                let c = contains_string(&p.test, path);
                assert(string_views(p.spec@) == pv.spec);
                assert(string_views(p.code@) == pv.code);
                assert(string_views(p.test@) == pv.test);
                if a {
                    out.push(governing_entry(rec, "spec"));
                }
                let ghost mid1 = governing_views(out@);
                if b {
                    out.push(governing_entry(rec, "code"));
                }
                let ghost mid2 = governing_views(out@);
                if c {
                    out.push(governing_entry(rec, "test"));
                }
                assert(governing_views(out@) =~= before + governs(records@[i as int], path@));
            },
        }
        i += 1;
    }
    assert(records@.take(records.len() as int) =~= records@);
    out
}

/// One edge of the graph.
#[derive(Debug, Clone, PartialEq, Eq)]
pub struct GraphEdge {
    pub from: String,
    pub relation: String,
    pub to: String,
    pub kind: RelationKind,
    /// `to` resolves to no discovered record.
    pub dangling: bool,
}

/// `(from, relation, to, kind, dangling)`.
pub type EdgeV = (Seq<char>, Seq<char>, Seq<char>, RelationKind, bool);

pub open spec fn edge_views(es: Seq<GraphEdge>) -> Seq<EdgeV> {
    es.map_values(|e: GraphEdge| (e.from@, e.relation@, e.to@, e.kind, e.dangling))
}

/// The declared fields of one kind, without the supersession field (which
/// is always added, once, as a pointer).
pub open spec fn kinded(fields: Seq<Seq<char>>, kind: RelationKind) -> Seq<(Seq<char>, RelationKind)>
    decreases fields.len(),
{
    if fields.len() == 0 {
        Seq::empty()
    } else {
        kinded(fields.drop_last(), kind) + if fields.last() == default_field(RelationRole::Supersession) {
            Seq::empty()
        } else {
            seq![(fields.last(), kind)]
        }
    }
}

pub open spec fn declared_for(by_type: Seq<(String, Vec<String>)>, record_type: Seq<char>) -> Seq<Seq<char>> {
    match lookup(by_type, record_type) {
        Some(v) => string_views(v@),
        None => Seq::empty(),
    }
}

/// The relationship fields of a record: its type's pointer fields, then its
/// narrative fields, then the supersession field.
pub open spec fn edge_fields(
    pointer: Seq<(String, Vec<String>)>,
    narrative: Seq<(String, Vec<String>)>,
    r: Record,
) -> Seq<(Seq<char>, RelationKind)> {
    kinded(declared_for(pointer, r.record_type@), RelationKind::Pointer) + kinded(
        declared_for(narrative, r.record_type@),
        RelationKind::Narrative,
    ) + seq![(default_field(RelationRole::Supersession), RelationKind::Pointer)]
}

/// The edges one field of a record contributes: one per reference it lists.
pub open spec fn field_edges(
    targets: Seq<Record>,
    from: Seq<char>,
    r: Record,
    f: (Seq<char>, RelationKind),
) -> Seq<EdgeV> {
    match crate::header::get_spec(r.header.fields_v(), f.0) {
        None => Seq::empty(),
        Some(v) => references(v).map_values(
            |to: Seq<char>| (from, f.0, to, f.1, resolve(targets, normalize(to)) is None),
        ),
    }
}

pub open spec fn fields_edges(
    targets: Seq<Record>,
    from: Seq<char>,
    r: Record,
    fs: Seq<(Seq<char>, RelationKind)>,
) -> Seq<EdgeV>
    decreases fs.len(),
{
    if fs.len() == 0 {
        Seq::empty()
    } else {
        fields_edges(targets, from, r, fs.drop_last()) + field_edges(targets, from, r, fs.last())
    }
}

/// Every edge of a record with an identity.
pub open spec fn record_edges(
    targets: Seq<Record>,
    pointer: Seq<(String, Vec<String>)>,
    narrative: Seq<(String, Vec<String>)>,
    r: Record,
) -> Seq<EdgeV> {
    match r.id_spec() {
        None => Seq::empty(),
        Some(from) => fields_edges(targets, from, r, edge_fields(pointer, narrative, r)),
    }
}

pub open spec fn graph_edges(
    targets: Seq<Record>,
    pointer: Seq<(String, Vec<String>)>,
    narrative: Seq<(String, Vec<String>)>,
    recs: Seq<Record>,
) -> Seq<EdgeV>
    decreases recs.len(),
{
    if recs.len() == 0 {
        Seq::empty()
    } else {
        graph_edges(targets, pointer, narrative, recs.drop_last()) + record_edges(
            targets,
            pointer,
            narrative,
            recs.last(),
        )
    }
}

fn declared_list<'a>(by_type: &'a Vec<(String, Vec<String>)>, record_type: &str) -> (r: Option<&'a Vec<String>>)
    ensures
        match r {
            Some(v) => declared_for(by_type@, record_type@) == string_views(v@),
            None => declared_for(by_type@, record_type@) == Seq::<Seq<char>>::empty(),
        },
{
    let mut i: usize = 0;
    while i < by_type.len()
        invariant
            i <= by_type.len(),
            forall|k: int| 0 <= k < i ==> by_type@[k].0@ != record_type@,
        decreases by_type.len() - i,
    {
        if str_eq(by_type[i].0.as_str(), record_type) {
            proof {
                crate::config::lemma_first_key(by_type@, record_type@);
            }
            return Some(&by_type[i].1);
        }
        i += 1;
    }
    proof {
        crate::config::lemma_first_key(by_type@, record_type@);
    }
    None
}

fn push_kinded(out: &mut Vec<(String, RelationKind)>, fields: Option<&Vec<String>>, kind: RelationKind)
    ensures
        final(out)@.map_values(|f: (String, RelationKind)| (f.0@, f.1)) == old(out)@.map_values(
            |f: (String, RelationKind)| (f.0@, f.1),
        ) + kinded(
            match fields {
                Some(v) => string_views(v@),
                None => Seq::<Seq<char>>::empty(),
            },
            kind,
        ),
{
    let ghost start = out@.map_values(|f: (String, RelationKind)| (f.0@, f.1));
    let sup = RelationRole::Supersession.default_field_name();
    match fields {
        None => {
            assert(start + kinded(Seq::<Seq<char>>::empty(), kind) =~= start);
        },
        Some(v) => {
            let ghost fv = string_views(v@);
            let mut k: usize = 0;
            while k < v.len()
                invariant
                    k <= v.len(),
                    fv == string_views(v@),
                    sup@ == default_field(RelationRole::Supersession),
                    out@.map_values(|f: (String, RelationKind)| (f.0@, f.1)) == start + kinded(fv.take(k as int), kind),
                decreases v.len() - k,
            {
                assert(fv.take(k + 1).drop_last() =~= fv.take(k as int));
                assert(fv.take(k + 1).last() == v@[k as int]@);
                let ghost before = out@.map_values(|f: (String, RelationKind)| (f.0@, f.1));
                if !str_eq(v[k].as_str(), sup) {
                    out.push((v[k].clone(), kind));
                    assert(out@.map_values(|f: (String, RelationKind)| (f.0@, f.1)) =~= before + seq![(v@[k as int]@, kind)]);
                } else {
                    assert(before + Seq::<(Seq<char>, RelationKind)>::empty() =~= before);
                }
                k += 1;
            }
            assert(fv.take(v.len() as int) =~= fv);
        },
    }
}

/// The record-relationship graph: every declared pointer and narrative
/// field edge, plus the supersession field's, for every record with an
/// identity. `dangling` marks an edge whose target resolves to no record.
/// `pointer_fields_by_type` and `narrative_fields_by_type` map type names to
/// their declared fields.
pub fn graph(
    records: &[Record],
    pointer_fields_by_type: &Vec<(String, Vec<String>)>,
    narrative_fields_by_type: &Vec<(String, Vec<String>)>,
) -> (r: Vec<GraphEdge>)
    ensures
        edge_views(r@) == graph_edges(records@, pointer_fields_by_type@, narrative_fields_by_type@, records@),
{
    let index = build_normalized_index(records);
    let mut edges: Vec<GraphEdge> = Vec::new();
    let mut i: usize = 0;
    while i < records.len()
        invariant
            i <= records.len(),
            index.targets() == records@,
            edge_views(edges@) == graph_edges(
                records@,
                pointer_fields_by_type@,
                narrative_fields_by_type@,
                records@.take(i as int),
            ),
        decreases records.len() - i,
    {
        assert(records@.take(i + 1).drop_last() =~= records@.take(i as int));
        assert(records@.take(i + 1).last() == records@[i as int]);
        let rec = &records[i];
        let ghost before = edge_views(edges@);
        match rec.id() {
            None => {
                assert(before + Seq::<EdgeV>::empty() =~= before);
            },
            Some(from) => {
                let mut fields: Vec<(String, RelationKind)> = Vec::new();
                push_kinded(&mut fields, declared_list(pointer_fields_by_type, rec.record_type.as_str()), RelationKind::Pointer);
                push_kinded(&mut fields, declared_list(narrative_fields_by_type, rec.record_type.as_str()), RelationKind::Narrative);
                let ghost two = fields@.map_values(|f: (String, RelationKind)| (f.0@, f.1));
                fields.push((copy_str(RelationRole::Supersession.default_field_name()), RelationKind::Pointer));
                let ghost fv = fields@.map_values(|f: (String, RelationKind)| (f.0@, f.1));
                assert(fv =~= two + seq![(default_field(RelationRole::Supersession), RelationKind::Pointer)]);
                assert(fv =~= edge_fields(pointer_fields_by_type@, narrative_fields_by_type@, *rec));
                let mut f: usize = 0;
                while f < fields.len()
                    invariant
                        f <= fields.len(),
                        index.targets() == records@,
                        fv == fields@.map_values(|x: (String, RelationKind)| (x.0@, x.1)),
                        edge_views(edges@) == before + fields_edges(records@, from@, *rec, fv.take(f as int)),
                    decreases fields.len() - f,
                {
                    assert(fv.take(f + 1).drop_last() =~= fv.take(f as int));
                    assert(fv.take(f + 1).last() == (fields@[f as int].0@, fields@[f as int].1));
                    let ghost mid = edge_views(edges@);
                    let name = fields[f].0.as_str();
                    let kind = fields[f].1;
                    match rec.header.get(name) {
                        None => {
                            assert(mid + Seq::<EdgeV>::empty() =~= mid);
                        },
                        Some(v) => {
                            let tos = extract_references(v);
                            let ghost tv = tos@.map_values(|s: String| s@);
                            let mut t: usize = 0;
                            while t < tos.len()
                                invariant
                                    t <= tos.len(),
                                    index.targets() == records@,
                                    tv == tos@.map_values(|s: String| s@),
                                    edge_views(edges@) == mid + tv.take(t as int).map_values(
                                        |to: Seq<char>| (from@, name@, to, kind, resolve(records@, normalize(to)) is None),
                                    ),
                                decreases tos.len() - t,
                            {
                                let tc = chars_of(tos[t].as_str());
                                let key = normalize_exec(&tc);
                                let dangling = !index.contains_key(&key);
                                let ghost e0 = edge_views(edges@);
                                edges.push(GraphEdge {
                                    from: from.clone(),
                                    relation: copy_str(name),
                                    to: tos[t].clone(),
                                    kind,
                                    dangling,
                                });
                                assert(tv[t as int] == tos@[t as int]@);
                                assert(edge_views(edges@) =~= e0.push((from@, name@, tv[t as int], kind, resolve(records@, normalize(tv[t as int])) is None)));
                                assert(tv.take(t + 1).map_values(
                                    |to: Seq<char>| (from@, name@, to, kind, resolve(records@, normalize(to)) is None),
                                ) =~= tv.take(t as int).map_values(
                                    |to: Seq<char>| (from@, name@, to, kind, resolve(records@, normalize(to)) is None),
                                ).push((from@, name@, tv[t as int], kind, resolve(records@, normalize(tv[t as int])) is None)));
                                t += 1;
                            }
                            assert(tv.take(tos.len() as int) =~= tv);
                        },
                    }
                    f += 1;
                }
                assert(fv.take(fields.len() as int) =~= fv);
            },
        }
        i += 1;
    }
    assert(records@.take(records.len() as int) =~= records@);
    edges
}

} // verus!
