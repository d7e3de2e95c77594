//! Which files of a repository are records, and which of them a run is
//! about. The caller lists the tracked paths and reads the files; this
//! module decides.
use crate::config::{Config, RecordTypeConfig, RelationRole};
use crate::header::HeaderShape;
use crate::record::{file_name, file_name_exec, governed_filename, is_governed_record_filename, upper_seq, upper_vec, Record};
use crate::order::{
    contains_path, has_same_path, in_order, lemma_path_distinct, lemma_sorted_in_order, lemma_sorted_paths_apart,
    lemma_sorted_permutes, lemma_sorted_same_members, path_distinct, path_sorted, sort_paths,
    Order,
};
use crate::report::{string_views, ScopeSource};
use crate::rules::{below, components, directly_in, is_below, is_directly_in, relation_field_name, relation_name};
use crate::embodiment::{locators, realized, realized_by_locator_paths};
use crate::header::first_exact;
use crate::text::{chars_of, lines, lines_exec, string_of, views};
use vstd::prelude::*;

verus! {

/// A file to load as a record: its path, the type that owns it, the prefix
/// its identifiers carry, and the header shape to parse it with.
#[derive(Debug, Clone)]
pub struct RecordFile {
    pub path: String,
    pub record_type: String,
    pub type_prefix: String,
    pub shape: HeaderShape,
}

/// `(path, type, prefix, shape)` of a record file.
pub type RecordFileV = (Seq<char>, Seq<char>, Seq<char>, HeaderShape);

pub open spec fn record_file_views(fs: Seq<RecordFile>) -> Seq<RecordFileV> {
    fs.map_values(|f: RecordFile| (f.path@, f.record_type@, f.type_prefix@, f.shape))
}

/// The prefix a type's identifiers carry: its declared `prefix`, or its name
/// upper-cased.
pub open spec fn type_prefix(name: Seq<char>, t: RecordTypeConfig) -> Seq<char> {
    match t.prefix {
        Some(p) => p@,
        None => upper_seq(name),
    }
}

/// A path a type owns: a governed record filename directly in the type's
/// directory -- that directory, not its subtree.
pub open spec fn owned_by(dir: Seq<char>, p: Seq<char>) -> bool {
    directly_in(p, dir) && match file_name(p) {
        Some(n) => governed_filename(n),
        None => false,
    }
}

/// The record files one type owns, in path order.
pub open spec fn files_of_type(name: Seq<char>, t: RecordTypeConfig, paths: Seq<Seq<char>>) -> Seq<RecordFileV>
    decreases paths.len(),
{
    if paths.len() == 0 {
        Seq::empty()
    } else {
        files_of_type(name, t, paths.drop_last()) + if owned_by(t.dir@, paths.last()) {
            seq![(paths.last(), name, type_prefix(name, t), t.header_shape)]
        } else {
            Seq::empty()
        }
    }
}

/// The record files of every declared type, type by type in declaration
/// order.
pub open spec fn files_for(types: Seq<(String, RecordTypeConfig)>, paths: Seq<Seq<char>>) -> Seq<RecordFileV>
    decreases types.len(),
{
    if types.len() == 0 {
        Seq::empty()
    } else {
        files_for(types.drop_last(), paths) + files_of_type(types.last().0@, types.last().1, paths)
    }
}

fn owned(dir: &str, p: &str) -> (r: bool)
    ensures
        r == owned_by(dir@, p@),
{
    if !is_directly_in(p, dir) {
        return false;
    }
    let pc = chars_of(p);
    match file_name_exec(&pc) {
        Some(n) => {
            let ns = string_of(&n);
            is_governed_record_filename(ns.as_str())
        },
        None => false,
    }
}

/// The prefix the identifiers of the type `name` carry.
pub fn prefix_of(name: &str, t: &RecordTypeConfig) -> (r: String)
    ensures
        r@ == type_prefix(name@, *t),
{
    match &t.prefix {
        Some(p) => p.clone(),
        None => {
            let cs = chars_of(name);
            let u = upper_vec(&cs);
            string_of(&u)
        },
    }
}

/// The files of `discovered` that are records, each with the type that
/// owns it. A path in no declared type's directory is not a record.
pub fn record_files(config: &Config, discovered: &[String]) -> (r: Vec<RecordFile>)
    ensures
        record_file_views(r@) == files_for(config.record_types@, string_views(discovered@)),
{
    let ghost pv = string_views(discovered@);
    let ghost types = config.record_types@;
    let mut out: Vec<RecordFile> = Vec::new();
    let mut t: usize = 0;
    while t < config.record_types.len()
        invariant
            t <= config.record_types.len(),
            types == config.record_types@,
            pv == string_views(discovered@),
            record_file_views(out@) == files_for(types.take(t as int), pv),
        decreases config.record_types.len() - t,
    {
        let name = &config.record_types[t].0;
        let cfg = &config.record_types[t].1;
        assert(types.take(t + 1).drop_last() =~= types.take(t as int));
        assert(types.take(t + 1).last() == types[t as int]);
        let prefix = prefix_of(name.as_str(), cfg);
        let ghost start = record_file_views(out@);
        let mut k: usize = 0;
        while k < discovered.len()
            invariant
                k <= discovered.len(),
                t < config.record_types.len(),
                types == config.record_types@,
                pv == string_views(discovered@),
                *name == types[t as int].0,
                *cfg == types[t as int].1,
                prefix@ == type_prefix(name@, *cfg),
                record_file_views(out@) == start + files_of_type(name@, *cfg, pv.take(k as int)),
            decreases discovered.len() - k,
        {
            assert(pv.take(k + 1).drop_last() =~= pv.take(k as int));
            assert(pv.take(k + 1).last() == discovered@[k as int]@);
            if owned(cfg.dir.as_str(), discovered[k].as_str()) {
                let ghost before = record_file_views(out@);
                out.push(
                    RecordFile {
                        path: discovered[k].clone(),
                        record_type: name.clone(),
                        type_prefix: prefix.clone(),
                        shape: cfg.header_shape,
                    },
                );
                assert(record_file_views(out@) =~= before.push(
                    (discovered@[k as int]@, name@, prefix@, cfg.header_shape),
                ));
            }
            k += 1;
        }
        assert(pv.take(discovered.len() as int) =~= pv);
        t += 1;
    }
    assert(types.take(config.record_types.len() as int) =~= types);
    out
}

/// Parse a record file's content as the record it is.
pub fn load_record(file: &RecordFile, content: &str) -> (r: Record)
    ensures
        r.path@ == file.path@,
        r.record_type@ == file.record_type@,
        r.type_prefix@ == file.type_prefix@,
        crate::header::parsed(r.header, content@, file.shape),
{
    Record::parse_with_shape_and_prefix(
        file.path.clone(),
        file.record_type.clone(),
        content,
        file.shape,
        file.type_prefix.clone(),
    )
}

/// The paths a repository holds: the lines of the tracked-file listing
/// and of the staged-file listing together, empty lines left out, each
/// path once however it is spelled (its first spelling kept), sorted as
/// paths.
pub open spec fn listed_paths(listed: Seq<char>, staged: Seq<char>) -> Seq<Seq<char>> {
    path_sorted(path_distinct((lines(listed) + lines(staged)).filter(|l: Seq<char>| l.len() > 0)))
}

/// How a set of files was discovered.
#[derive(Debug, Clone, Copy, PartialEq, Eq, Structural)]
pub enum DiscoverySource {
    /// The union of what git tracks and what it has staged.
    GitTracked,
}

/// The files git considers relevant, and how they were discovered: never a
/// raw filesystem walk, so an untracked scratch file never appears.
#[derive(Debug, Clone)]
pub struct DiscoveredFiles {
    pub paths: Vec<String>,
    pub source: DiscoverySource,
}

/// The files a repository holds, from the text of the tracked-file listing
/// and of the staged-file listing, one path per line.
pub fn discover_tracked_files(listed: &str, staged: &str) -> (r: DiscoveredFiles)
    ensures
        string_views(r.paths@) == listed_paths(listed@, staged@),
        r.source == DiscoverySource::GitTracked,
{
    DiscoveredFiles { paths: discovered_paths(listed, staged), source: DiscoverySource::GitTracked }
}

/// How a run selected its records, for the report, from how its files were
/// discovered.
pub fn scope_source(source: DiscoverySource) -> (r: ScopeSource)
    ensures
        r == ScopeSource::TrackedSweep,
{
    match source {
        DiscoverySource::GitTracked => ScopeSource::TrackedSweep,
    }
}

fn discovered_paths(listed: &str, staged: &str) -> (r: Vec<String>)
    ensures
        string_views(r@) == listed_paths(listed@, staged@),
{
    let mut all = lines_exec(&chars_of(listed));
    let b = lines_exec(&chars_of(staged));
    let ghost va = views(all@);
    let mut j: usize = 0;
    while j < b.len()
        invariant
            j <= b.len(),
            views(all@) == va + views(b@).take(j as int),
        decreases b.len() - j,
    {
        let ghost before = views(all@);
        all.push(b[j].clone());
        assert(views(all@) =~= before.push(b@[j as int]@));
        assert(views(b@).take(j + 1) =~= views(b@).take(j as int).push(b@[j as int]@));
        j += 1;
    }
    assert(views(b@).take(b.len() as int) =~= views(b@));
    let ghost whole = views(all@);
    let ghost pred = |l: Seq<char>| l.len() > 0;
    let mut distinct: Vec<String> = Vec::new();
    let mut i: usize = 0;
    while i < all.len()
        invariant
            i <= all.len(),
            whole == views(all@),
            pred == (|l: Seq<char>| l.len() > 0),
            string_views(distinct@) == path_distinct(whole.take(i as int).filter(pred)),
        decreases all.len() - i,
    {
        let line: &Vec<char> = &all[i];
        let ghost t = whole.take(i as int);
        assert(whole.take(i + 1) =~= t.push(line@));
        proof {
            reveal(Seq::filter);
            assert(t.push(line@).drop_last() =~= t);
        }
        if line.len() > 0 {
            assert(t.push(line@).filter(pred) == t.filter(pred).push(line@));
            assert(t.filter(pred).push(line@).drop_last() =~= t.filter(pred));
            let path = string_of(line);
            if !contains_path(&distinct, path.as_str()) {
                let ghost before = string_views(distinct@);
                distinct.push(path);
                assert(string_views(distinct@) =~= before.push(line@));
            }
        } else {
            assert(t.push(line@).filter(pred) == t.filter(pred));
        }
        i += 1;
    }
    assert(whole.take(all.len() as int) =~= whole);
    sort_paths(distinct)
}

/// Discovery lists only non-empty lines of the two listings, and every such
/// line as itself or as the same path spelled otherwise; no path twice, and
/// in path order. A path neither listing names never appears, however it
/// sits on disk.
pub proof fn lemma_discovery_lists_only_the_listed_lines(listed: Seq<char>, staged: Seq<char>)
    ensures
        forall|p: Seq<char>| #[trigger] listed_paths(listed, staged).contains(p) ==> (p.len() > 0 && (
            lines(listed) + lines(staged)).contains(p)),
        forall|p: Seq<char>|
            p.len() > 0 && #[trigger] (lines(listed) + lines(staged)).contains(p) ==> has_same_path(
                listed_paths(listed, staged),
                p,
            ),
        forall|i: int, j: int|
            0 <= i < j < listed_paths(listed, staged).len() ==> components(
                #[trigger] listed_paths(listed, staged)[i],
            ) != components(#[trigger] listed_paths(listed, staged)[j]),
        in_order(Order::Components, listed_paths(listed, staged)),
{
    let all = lines(listed) + lines(staged);
    let pred = |l: Seq<char>| l.len() > 0;
    let kept = all.filter(pred);
    let d = path_distinct(kept);
    let r = listed_paths(listed, staged);
    lemma_path_distinct(kept);
    lemma_sorted_same_members(Order::Components, d);
    lemma_sorted_permutes(Order::Components, d);
    lemma_sorted_in_order(Order::Components, d);
    assert forall|p: Seq<char>| #[trigger] r.contains(p) implies p.len() > 0 && all.contains(p) by {
        assert(d.contains(p));
        assert(kept.contains(p));
        all.lemma_filter_contains_rev(pred, p);
        reveal(Seq::filter);
        all.filter_lemma(pred);
        let k = choose|k: int| 0 <= k < kept.len() && kept[k] == p;
        assert(pred(kept[k]));
    }
    assert forall|p: Seq<char>| p.len() > 0 && #[trigger] all.contains(p) implies has_same_path(r, p) by {
        let k = choose|k: int| 0 <= k < all.len() && all[k] == p;
        all.lemma_filter_contains(pred, k);
        assert(has_same_path(d, p));
        let m = choose|m: int| 0 <= m < d.len() && components(#[trigger] d[m]) == components(p);
        assert(d.contains(d[m]));
        assert(r.contains(d[m]));
        let n = choose|n: int| 0 <= n < r.len() && r[n] == d[m];
        assert(components(r[n]) == components(p));
    }
    lemma_sorted_paths_apart(Order::Components, d);
}

/// Whether `p` lies at or below one of `scopes`; with no scope, every path
/// does.
pub open spec fn within_scopes(p: Seq<char>, scopes: Seq<Seq<char>>) -> bool {
    scopes.len() == 0 || exists|k: int| 0 <= k < scopes.len() && below(p, #[trigger] scopes[k])
}

/// The discovered paths at or below one of the requested prefixes, in
/// order; every path when none was requested.
pub fn scope_to_requested_paths(discovered: &[String], scopes: &Vec<String>) -> (r: Vec<String>)
    ensures
        string_views(r@) == string_views(discovered@).filter(|p: Seq<char>| within_scopes(p, string_views(scopes@))),
{
    let ghost pv = string_views(discovered@);
    let ghost sv = string_views(scopes@);
    let ghost pred = |p: Seq<char>| within_scopes(p, sv);
    let mut out: Vec<String> = Vec::new();
    let mut i: usize = 0;
    while i < discovered.len()
        invariant
            i <= discovered.len(),
            pv == string_views(discovered@),
            sv == string_views(scopes@),
            pred == (|p: Seq<char>| within_scopes(p, sv)),
            string_views(out@) == pv.take(i as int).filter(pred),
        decreases discovered.len() - i,
    {
        let p = discovered[i].as_str();
        let mut keep = scopes.len() == 0;
        let mut k: usize = 0;
        while k < scopes.len() && !keep
            invariant
                k <= scopes.len(),
                sv == string_views(scopes@),
                i < discovered.len(),
                keep == (sv.len() == 0 || exists|j: int| 0 <= j < k && below(p@, #[trigger] sv[j])),
            decreases scopes.len() - k,
        {
            assert(sv[k as int] == scopes@[k as int]@);
            if is_below(p, scopes[k].as_str()) {
                keep = true;
            }
            k += 1;
        }
        assert(keep == within_scopes(p@, sv));
        proof {
            assert(pv.take(i + 1).drop_last() =~= pv.take(i as int));
            assert(pv.take(i + 1).last() == p@);
            reveal(Seq::filter);
        }
        if keep {
            let ghost before = string_views(out@);
            out.push(discovered[i].clone());
            assert(string_views(out@) =~= before.push(p@));
        }
        i += 1;
    }
    assert(pv.take(discovered.len() as int) =~= pv);
    out
}

/// `(record, locator field line, locators)` for a record whose type's
/// locator field is written: the first field of that exact name.
pub open spec fn drift_entry(r: Record, config: Config) -> Seq<(Seq<char>, int, Seq<Seq<char>>)> {
    let fs = r.header.fields_v();
    match first_exact(fs, relation_name(config, r.record_type@, RelationRole::EmbodimentLocator)) {
        Some(i) => seq![(r.path@, fs[i].2, locators(realized(fs[i].1)))],
        None => Seq::empty(),
    }
}

pub open spec fn drift_entries(records: Seq<Record>, config: Config) -> Seq<(Seq<char>, int, Seq<Seq<char>>)>
    decreases records.len(),
{
    if records.len() == 0 {
        Seq::empty()
    } else {
        drift_entries(records.drop_last(), config) + drift_entry(records.last(), config)
    }
}

pub open spec fn drift_views(v: Seq<(String, usize, Vec<String>)>) -> Seq<(Seq<char>, int, Seq<Seq<char>>)> {
    v.map_values(|e: (String, usize, Vec<String>)| (e.0@, e.1 as int, string_views(e.2@)))
}

/// What deciding whether a record has drifted takes: the record, the line
/// its locator field sits on, and every locator that field names, for each
/// record whose type's locator field is written, in record order.
pub fn drift_candidates(records: &[Record], config: &Config) -> (r: Vec<(String, usize, Vec<String>)>)
    ensures
        drift_views(r@) == drift_entries(records@, *config),
{
    let mut out: Vec<(String, usize, Vec<String>)> = Vec::new();
    let mut i: usize = 0;
    while i < records.len()
        invariant
            i <= records.len(),
            drift_views(out@) == drift_entries(records@.take(i as int), *config),
        decreases records.len() - i,
    {
        assert(records@.take(i + 1).drop_last() =~= records@.take(i as int));
        assert(records@.take(i + 1).last() == records@[i as int]);
        let r = &records[i];
        let field = relation_field_name(config, r.record_type.as_str(), RelationRole::EmbodimentLocator);
        let ghost fs = r.header.fields_v();
        let mut j: usize = 0;
        let mut found: Option<usize> = None;
        while j < r.header.fields.len()
            invariant
                j <= r.header.fields.len(),
                fs == r.header.fields_v(),
                fs.len() == r.header.fields@.len(),
                match found {
                    Some(x) => x < j && first_exact(fs.take(j as int), field@) == Some(x as int),
                    None => first_exact(fs.take(j as int), field@) is None,
                },
            decreases r.header.fields.len() - j,
        {
            assert(fs.take(j + 1).drop_last() =~= fs.take(j as int));
            assert(fs.take(j + 1).last() == fs[j as int]);
            assert(fs[j as int].0 == r.header.fields@[j as int].key@);
            if found.is_none() && crate::text::str_eq(r.header.fields[j].key.as_str(), field) {
                found = Some(j);
            }
            j += 1;
        }
        assert(fs.take(r.header.fields.len() as int) =~= fs);
        let ghost before = drift_views(out@);
        match found {
            Some(j) => {
                let f = &r.header.fields[j];
                assert(fs[j as int] == (f.key@, f.value@, f.line as int));
                let locators = realized_by_locator_paths(f.value.as_str());
                assert(string_views(locators@) == locators@.map_values(|s: String| s@));
                out.push((r.path.clone(), f.line, locators));
                assert(drift_views(out@) =~= before + drift_entry(records@[i as int], *config));
            },
            None => {
                assert(drift_entry(records@[i as int], *config) =~= Seq::empty());
                assert(before + drift_entry(records@[i as int], *config) =~= before);
            },
        }
        i += 1;
    }
    assert(records@.take(records.len() as int) =~= records@);
    out
}

} // verus!
