//! Adopting an existing corpus: proposing one record type per directory
//! that holds record-shaped files. Only reads; never moves a file.
use crate::config::{requires_options, rule_requires_options};
use crate::new_record::{parse_record_filename, record_filename};
use crate::order::{contains_path, path_distinct, path_sorted, same_path, sort_paths};
use crate::record::{file_name, file_name_exec};
use crate::report::string_views;
use crate::rules::{all_rules, components, identity_dependent, identity_dependent_ids, path_components, rule_ids};
use crate::text::{
    chars_of, join, join_vecs, slice_vec, split_char, split_char_exec, starts_with, starts_with_exec,
    str_eq, string_of, views,
};
use crate::values::{rfind_char, rfind_char_exec};
use crate::yaml::{node_view, to_yaml, yaml_text, YamlNode, YamlNodeView};
use crate::config::CURRENT_SCHEMA_VERSION;
use vstd::prelude::*;

verus! {

/// A proposed record type.
#[derive(Debug, Clone)]
pub struct ProposedRecordType {
    pub name: String,
    pub dir: String,
    pub record_count: usize,
    /// The type prefix every filename in the directory carries, when they
    /// all agree on one.
    pub prefix: Option<String>,
}

/// A file that can be a record: not a template (leading `_`), and a record
/// filename in either convention.
pub open spec fn record_shaped(name: Seq<char>) -> bool {
    !starts_with(name, seq!['_']) && record_filename(name) is Some
}

/// The directory part of a path: everything before its last `/`, or the
/// empty directory.
pub open spec fn parent_of(path: Seq<char>) -> Seq<char> {
    match rfind_char(path, '/') {
        Some(i) => path.take(i),
        None => Seq::empty(),
    }
}

/// `(directory, detected prefix)` for every record-shaped file that is not
/// at the repository root, in discovery order.
pub open spec fn sightings(paths: Seq<Seq<char>>) -> Seq<(Seq<char>, Option<Seq<char>>)>
    decreases paths.len(),
{
    if paths.len() == 0 {
        Seq::empty()
    } else {
        let p = paths.last();
        sightings(paths.drop_last()) + match file_name(p) {
            Some(n) => if record_shaped(n) && parent_of(p).len() > 0 {
                seq![
                    (
                        parent_of(p),
                        match record_filename(n) {
                            Some((pre, _)) => pre,
                            None => None,
                        },
                    ),
                ]
            } else {
                Seq::empty()
            },
            None => Seq::empty(),
        }
    }
}

/// The prefixes seen in directory `d`, however its path is spelled, in
/// order.
pub open spec fn seen_in(s: Seq<(Seq<char>, Option<Seq<char>>)>, d: Seq<char>) -> Seq<Option<Seq<char>>>
    decreases s.len(),
{
    if s.len() == 0 {
        Seq::empty()
    } else {
        seen_in(s.drop_last(), d) + if components(s.last().0) == components(d) {
            seq![s.last().1]
        } else {
            Seq::empty()
        }
    }
}

/// `adr` from `adrs`: one trailing `s` removed.
pub open spec fn singular(name: Seq<char>) -> Seq<char> {
    if name.len() > 0 && name.last() == 's' {
        name.drop_last()
    } else {
        name
    }
}

/// The type name a directory proposes: its last component, singular.
pub open spec fn proposed_name(dir: Seq<char>) -> Seq<char> {
    let cs = components(dir);
    singular(if cs.len() > 0 { cs.last() } else { Seq::empty() })
}

/// How many of `dirs` propose `name`.
pub open spec fn name_count(dirs: Seq<Seq<char>>, name: Seq<char>) -> nat
    decreases dirs.len(),
{
    if dirs.len() == 0 {
        0
    } else {
        name_count(dirs.drop_last(), name) + if proposed_name(dirs.last()) == name {
            1nat
        } else {
            0nat
        }
    }
}

/// The prefix every sighting agrees on, or none.
pub open spec fn unanimous(ps: Seq<Option<Seq<char>>>) -> Option<Seq<char>> {
    if ps.len() > 0 && forall|i: int| 0 <= i < ps.len() ==> #[trigger] ps[i] == ps[0] {
        ps[0]
    } else {
        None
    }
}

/// `(name, dir, record count, prefix)` of a proposal.
pub type ProposalV = (Seq<char>, Seq<char>, nat, Option<Seq<char>>);

pub open spec fn proposal_views(ps: Seq<ProposedRecordType>) -> Seq<ProposalV> {
    ps.map_values(
        |p: ProposedRecordType|
            (
                p.name@,
                p.dir@,
                p.record_count as nat,
                match p.prefix {
                    Some(s) => Some(s@),
                    None => None,
                },
            ),
    )
}

/// The proposal for directory `d`: a name qualified by the whole path when
/// another directory would propose the same one, the count of records in it,
/// and the prefix they unanimously carry.
pub open spec fn proposal(s: Seq<(Seq<char>, Option<Seq<char>>)>, dirs: Seq<Seq<char>>, d: Seq<char>) -> ProposalV {
    (
        if name_count(dirs, proposed_name(d)) > 1 {
            join(components(d), "-"@)
        } else {
            proposed_name(d)
        },
        d,
        seen_in(s, d).len(),
        unanimous(seen_in(s, d)),
    )
}

/// Every proposal, directories in path order, each directory once however
/// its path is spelled.
pub open spec fn proposals(paths: Seq<Seq<char>>) -> Seq<ProposalV> {
    let s = sightings(paths);
    let dirs = path_sorted(path_distinct(s.map_values(|x: (Seq<char>, Option<Seq<char>>)| x.0)));
    dirs.map_values(|d: Seq<char>| proposal(s, dirs, d))
}

fn is_record_shaped(name: &str) -> (b: bool)
    ensures
        b == record_shaped(name@),
{
    let cs = chars_of(name);
    let us = vec!['_'];
    assert(us@ =~= seq!['_']);
    !starts_with_exec(&cs, &us) && parse_record_filename(name).is_some()
}

fn parent_exec(path: &[char]) -> (r: Vec<char>)
    ensures
        r@ == parent_of(path@),
{
    match rfind_char_exec(path, '/') {
        Some(i) => {
            proof {
                crate::values::lemma_rfind_char(path@, '/');
            }
            slice_vec(path, 0, i)
        },
        None => Vec::new(),
    }
}

fn proposed_name_exec(dir: &str) -> (r: Vec<char>)
    ensures
        r@ == proposed_name(dir@),
{
    let cs = crate::rules::components_of(dir);
    let mut last: Vec<char> = if cs.len() > 0 {
        assert(views(cs@)[cs.len() - 1] == cs@[cs.len() - 1]@);
        slice_vec(&cs[cs.len() - 1], 0, cs[cs.len() - 1].len())
    } else {
        Vec::new()
    };
    assert(cs@.len() > 0 ==> cs@[cs.len() - 1]@.subrange(0, cs@[cs.len() - 1]@.len() as int) =~= cs@[cs.len() - 1]@);
    if last.len() > 0 && last[last.len() - 1] == 's' {
        last.pop();
    }
    last
}

/// Propose one record type per directory holding record-shaped files, the
/// directories in path order. A file at the repository root has no
/// directory that identifies its type and proposes nothing. `_repo_root` is where the
/// paths are relative to; nothing here reads it.
pub fn detect_record_types(_repo_root: &str, discovered: &[String]) -> (r: Vec<ProposedRecordType>)
    ensures
        proposal_views(r@) == proposals(string_views(discovered@)),
{
    let ghost pv = string_views(discovered@);
    let mut dirs: Vec<String> = Vec::new();
    let mut pres: Vec<Option<String>> = Vec::new();
    let mut i: usize = 0;
    while i < discovered.len()
        invariant
            i <= discovered.len(),
            pv == string_views(discovered@),
            dirs@.len() == pres@.len(),
            forall|k: int| 0 <= k < dirs@.len() ==> #[trigger] sightings(pv.take(i as int))[k] == (
                dirs@[k]@,
                match pres@[k] {
                    Some(s) => Some(s@),
                    None => None::<Seq<char>>,
                },
            ),
            sightings(pv.take(i as int)).len() == dirs@.len(),
        decreases discovered.len() - i,
    {
        assert(pv.take(i + 1).drop_last() =~= pv.take(i as int));
        assert(pv.take(i + 1).last() == discovered@[i as int]@);
        let ghost pre = sightings(pv.take(i as int));
        let pc = chars_of(discovered[i].as_str());
        match file_name_exec(&pc) {
            Some(n) => {
                let ns = string_of(&n);
                let parent = parent_exec(&pc);
                if is_record_shaped(ns.as_str()) && parent.len() > 0 {
                    let detected = match parse_record_filename(ns.as_str()) {
                        Some((p, _)) => p,
                        None => None,
                    };
                    dirs.push(string_of(&parent));
                    pres.push(detected);
                    assert(sightings(pv.take(i + 1)) =~= pre.push(sightings(pv.take(i + 1)).last()));
                } else {
                    assert(sightings(pv.take(i + 1)) =~= pre);
                }
            },
            None => {
                assert(sightings(pv.take(i + 1)) =~= pre);
            },
        }
        i += 1;
    }
    assert(pv.take(discovered.len() as int) =~= pv);
    let ghost s = sightings(pv);
    assert(string_views(dirs@) =~= s.map_values(|x: (Seq<char>, Option<Seq<char>>)| x.0));
    let mut distinct: Vec<String> = Vec::new();
    let mut d: usize = 0;
    while d < dirs.len()
        invariant
            d <= dirs.len(),
            string_views(distinct@) == path_distinct(string_views(dirs@).take(d as int)),
        decreases dirs.len() - d,
    {
        assert(string_views(dirs@).take(d + 1).drop_last() =~= string_views(dirs@).take(d as int));
        assert(string_views(dirs@).take(d + 1).last() == dirs@[d as int]@);
        if !contains_path(&distinct, dirs[d].as_str()) {
            let ghost before = string_views(distinct@);
            distinct.push(dirs[d].clone());
            assert(string_views(distinct@) =~= before.push(dirs@[d as int]@));
        }
        d += 1;
    }
    assert(string_views(dirs@).take(dirs.len() as int) =~= string_views(dirs@));
    let order = sort_paths(distinct);
    let ghost ov = string_views(order@);
    let mut names: Vec<Vec<char>> = Vec::new();
    let mut j: usize = 0;
    while j < order.len()
        invariant
            j <= order.len(),
            ov == string_views(order@),
            views(names@) == ov.take(j as int).map_values(|x: Seq<char>| proposed_name(x)),
        decreases order.len() - j,
    {
        let ghost before = views(names@);
        names.push(proposed_name_exec(order[j].as_str()));
        assert(views(names@) =~= before.push(proposed_name(ov[j as int])));
        assert(ov.take(j + 1).map_values(|x: Seq<char>| proposed_name(x)) =~= ov.take(j as int).map_values(
            |x: Seq<char>| proposed_name(x),
        ).push(proposed_name(ov[j as int])));
        j += 1;
    }
    assert(ov.take(order.len() as int) =~= ov);
    assert(views(names@) =~= ov.map_values(|x: Seq<char>| proposed_name(x)));
    assert(names@.len() == order@.len());
    let mut out: Vec<ProposedRecordType> = Vec::new();
    let mut j: usize = 0;
    while j < order.len()
        invariant
            j <= order.len(),
            ov == string_views(order@),
            ov == path_sorted(path_distinct(s.map_values(|x: (Seq<char>, Option<Seq<char>>)| x.0))),
            views(names@) == ov.map_values(|x: Seq<char>| proposed_name(x)),
            names@.len() == order@.len(),
            dirs@.len() == pres@.len(),
            s.len() == dirs@.len(),
            forall|k: int| 0 <= k < dirs@.len() ==> #[trigger] s[k] == (
                dirs@[k]@,
                match pres@[k] {
                    Some(p) => Some(p@),
                    None => None::<Seq<char>>,
                },
            ),
            proposal_views(out@) == ov.take(j as int).map_values(|x: Seq<char>| proposal(s, ov, x)),
        decreases order.len() - j,
    {
        let dir = order[j].as_str();
        let name = &names[j];
        assert(views(names@)[j as int] == name@);
        // How many directories propose the same name.
        let mut same: usize = 0;
        let mut m: usize = 0;
        while m < names.len()
            invariant
                m <= names.len(),
                names@.len() == ov.len(),
                views(names@) == ov.map_values(|x: Seq<char>| proposed_name(x)),
                same == name_count(ov.take(m as int), name@),
                same <= m,
            decreases names.len() - m,
        {
            assert(ov.take(m + 1).drop_last() =~= ov.take(m as int));
            assert(views(names@)[m as int] == names@[m as int]@);
            if crate::text::seq_eq(&names[m], name) {
                same += 1;
            }
            m += 1;
        }
        assert(ov.take(names.len() as int) =~= ov);
        let final_name = if same > 1 {
            let cs = crate::rules::components_of(dir);
            let dash = chars_of("-");
            string_of(&join_vecs(&cs, &dash))
        } else {
            string_of(name)
        };
        // The records in this directory, and the prefixes they carry.
        let mut count: usize = 0;
        let mut first: Option<Option<String>> = None;
        let mut agree = true;
        let mut k: usize = 0;
        while k < dirs.len()
            invariant
                k <= dirs.len(),
                dirs@.len() == pres@.len(),
                s.len() == dirs@.len(),
                forall|q: int| 0 <= q < dirs@.len() ==> #[trigger] s[q] == (
                    dirs@[q]@,
                    match pres@[q] {
                        Some(p) => Some(p@),
                        None => None::<Seq<char>>,
                    },
                ),
                count == seen_in(s.take(k as int), dir@).len(),
                count <= k,
                match first {
                    None => count == 0,
                    Some(f) => count > 0 && seen_in(s.take(k as int), dir@)[0] == match f {
                        Some(p) => Some(p@),
                        None => None::<Seq<char>>,
                    },
                },
                agree == (forall|q: int| 0 <= q < seen_in(s.take(k as int), dir@).len() ==> #[trigger] seen_in(s.take(k as int), dir@)[q] == seen_in(s.take(k as int), dir@)[0]),
            decreases dirs.len() - k,
        {
            let ghost before = seen_in(s.take(k as int), dir@);
            assert(s.take(k + 1).drop_last() =~= s.take(k as int));
            assert(s.take(k + 1).last() == s[k as int]);
            if same_path(dirs[k].as_str(), dir) {
                let this: Option<String> = match &pres[k] {
                    Some(p) => Some(p.clone()),
                    None => None,
                };
                let ghost tv = match &this {
                    Some(p) => Some(p@),
                    None => None::<Seq<char>>,
                };
                assert(tv == s[k as int].1);
                let ghost after = seen_in(s.take(k + 1), dir@);
                assert(after =~= before.push(tv));
                let ghost was_first = first is None;
                let ghost old_agree = agree;
                match &first {
                    None => {
                        first = Some(this);
                    },
                    Some(f) => {
                        let same_prefix = match (f, &this) {
                            (Some(a), Some(b)) => str_eq(a.as_str(), b.as_str()),
                            (None, None) => true,
                            _ => false,
                        };
                        assert(same_prefix == (tv == before[0]));
                        if !same_prefix {
                            agree = false;
                        }
                    },
                }
                count += 1;
                proof {
                    if was_first {
                        assert(before.len() == 0);
                        assert(after.len() == 1);
                        assert(agree);
                    } else {
                        assert(before.len() > 0);
                        assert(after[0] == before[0]);
                        assert forall|q: int| 0 <= q < before.len() implies after[q] == before[q] by {}
                        if agree {
                            assert forall|q: int| 0 <= q < after.len() implies #[trigger] after[q] == after[0] by {
                                if q < before.len() {
                                    assert(before[q] == before[0]);
                                }
                            }
                        } else if old_agree {
                            assert(after[after.len() - 1] != after[0]);
                        } else {
                            let q = choose|q: int| 0 <= q < before.len() && #[trigger] before[q] != before[0];
                            assert(after[q] != after[0]);
                        }
                    }
                }
            } else {
                assert(seen_in(s.take(k + 1), dir@) =~= before);
            }
            k += 1;
        }
        assert(s.take(dirs.len() as int) =~= s);
        let prefix = match first {
            Some(f) => if agree {
                f
            } else {
                None
            },
            None => None,
        };
        let ghost before = proposal_views(out@);
        out.push(ProposedRecordType { name: final_name, dir: order[j].clone(), record_count: count, prefix });
        assert(proposal_views(out@) =~= before.push(proposal(s, ov, ov[j as int])));
        assert(ov.take(j + 1).map_values(|x: Seq<char>| proposal(s, ov, x)) =~= ov.take(j as int).map_values(
            |x: Seq<char>| proposal(s, ov, x),
        ).push(proposal(s, ov, ov[j as int])));
        j += 1;
    }
    assert(ov.take(order.len() as int) =~= ov);
    out
}

/// Whether no proposed type carries a filename prefix.
pub open spec fn no_prefix(ps: Seq<ProposalV>) -> bool {
    forall|k: int| 0 <= k < ps.len() ==> (#[trigger] ps[k]).3 is None
}

/// The rules an adopted configuration proposes: every rule this build
/// ships, in order, except those that cannot be declared without options
/// adopt mode cannot supply, and -- when no proposed type carries a
/// filename prefix -- those that read identities from prefixes and so could
/// never fire.
pub open spec fn proposed_rule_ids(ps: Seq<ProposalV>) -> Seq<Seq<char>> {
    rule_ids().filter(
        |id: Seq<char>| !requires_options(id) && !(identity_dependent_ids().contains(id) && no_prefix(ps)),
    )
}

/// The rules to propose for `proposed`, each at `warn`.
pub fn proposed_rules(proposed: &[ProposedRecordType]) -> (r: Vec<&'static str>)
    ensures
        r@.map_values(|s: &str| s@) == proposed_rule_ids(proposal_views(proposed@)),
{
    let ghost pv = proposal_views(proposed@);
    let mut none = true;
    let mut i: usize = 0;
    while i < proposed.len()
        invariant
            i <= proposed.len(),
            pv == proposal_views(proposed@),
            none == forall|k: int| 0 <= k < i ==> (#[trigger] pv[k]).3 is None,
        decreases proposed.len() - i,
    {
        assert(pv[i as int].3 is None <==> proposed@[i as int].prefix is None);
        if proposed[i].prefix.is_some() {
            none = false;
        }
        i += 1;
    }
    let ids = all_rules();
    let ghost all = ids@.map_values(|s: &str| s@);
    let ghost pred = |id: Seq<char>| !requires_options(id) && !(identity_dependent_ids().contains(id) && no_prefix(pv));
    let mut out: Vec<&'static str> = Vec::new();
    let mut j: usize = 0;
    while j < ids.len()
        invariant
            j <= ids.len(),
            all == ids@.map_values(|s: &str| s@),
            all == rule_ids(),
            none == no_prefix(pv),
            pred == (|id: Seq<char>| !requires_options(id) && !(identity_dependent_ids().contains(id) && no_prefix(pv))),
            out@.map_values(|s: &str| s@) == all.take(j as int).filter(pred),
        decreases ids.len() - j,
    {
        proof {
            assert(all.take(j + 1).drop_last() =~= all.take(j as int));
            assert(all.take(j + 1).last() == ids@[j as int]@);
            reveal(Seq::filter);
        }
        let id = ids[j];
        if !rule_requires_options(id) && !(identity_dependent(id) && none) {
            let ghost before = out@.map_values(|s: &str| s@);
            out.push(id);
            assert(out@.map_values(|s: &str| s@) =~= before.push(id@));
        }
        j += 1;
    }
    assert(all.take(ids.len() as int) =~= all);
    out
}

/// A proposed type's entry in the adopted configuration: its directory, no
/// required fields yet, the frontmatter shape every newly adopted type is
/// pointed at, and its prefix when the directory's filenames agree on one.
pub open spec fn type_entry(p: ProposalV) -> (Seq<char>, YamlNodeView) {
    (
        p.0,
        YamlNodeView::Mapping(
            seq![
                ("dir"@, YamlNodeView::Text(p.1)),
                ("required_fields"@, YamlNodeView::List(Seq::empty())),
                ("header_shape"@, YamlNodeView::Text("yaml-frontmatter"@)),
            ] + match p.3 {
                Some(pre) => seq![("prefix"@, YamlNodeView::Text(pre))],
                None => Seq::empty(),
            },
        ),
    )
}

/// The adopted configuration as a document: the schema version, one entry
/// per proposed type in order, and each proposed rule at `warn`.
pub open spec fn config_document(ps: Seq<ProposalV>) -> YamlNodeView {
    YamlNodeView::Mapping(
        seq![
            ("schema_version"@, YamlNodeView::Number(CURRENT_SCHEMA_VERSION as nat)),
            ("record_types"@, YamlNodeView::Mapping(ps.map_values(|p: ProposalV| type_entry(p)))),
            (
                "rules"@,
                YamlNodeView::Mapping(
                    proposed_rule_ids(ps).map_values(|id: Seq<char>| (id, YamlNodeView::Text("warn"@))),
                ),
            ),
        ],
    )
}

/// The first line of an adopted configuration.
pub open spec fn adopted_banner() -> Seq<char> {
    "# Adopted by `urzua init`. Nothing was moved.\n\n"@
}

/// The text of the adopted configuration: the banner, then what the YAML
/// serializer writes for the document.
pub open spec fn adopted_config(ps: Seq<ProposalV>) -> Seq<char> {
    adopted_banner() + yaml_text(config_document(ps))
}

fn text_node(s: &str) -> (r: YamlNode)
    ensures
        node_view(r) == YamlNodeView::Text(s@),
{
    YamlNode::Text(s.to_string())
}

fn type_node(p: &ProposedRecordType) -> (r: (String, YamlNode))
    ensures
        (r.0@, node_view(r.1)) == type_entry(proposal_views(seq![*p])[0]),
{
    proof {
        reveal_strlit("dir");
        reveal_strlit("required_fields");
        reveal_strlit("header_shape");
        reveal_strlit("yaml-frontmatter");
        reveal_strlit("prefix");
    }
    let mut entries: Vec<(String, YamlNode)> = Vec::new();
    entries.push(("dir".to_string(), text_node(p.dir.as_str())));
    let none_yet: Vec<YamlNode> = Vec::new();
    let list = YamlNode::List(none_yet);
    proof {
        let l = match node_view(list) {
            YamlNodeView::List(m) => m,
            _ => Seq::empty(),
        };
        assert(l =~= Seq::<YamlNodeView>::empty());
    }
    entries.push(("required_fields".to_string(), list));
    entries.push(("header_shape".to_string(), text_node("yaml-frontmatter")));
    if let Some(pre) = &p.prefix {
        entries.push(("prefix".to_string(), text_node(pre.as_str())));
    }
    let ghost want = type_entry(proposal_views(seq![*p])[0]).1;
    let node = YamlNode::Mapping(entries);
    proof {
        let got = match node_view(node) {
            YamlNodeView::Mapping(m) => m,
            _ => Seq::empty(),
        };
        let exp = match want {
            YamlNodeView::Mapping(m) => m,
            _ => Seq::empty(),
        };
        assert(got.len() == exp.len());
        assert forall|k: int| 0 <= k < got.len() implies got[k] == exp[k] by {}
        assert(got =~= exp);
    }
    (p.name.clone(), node)
}

/// The configuration adopt mode proposes for `proposed`, as YAML written by
/// the YAML library so that no directory name can break out of its value.
/// Ordered by `proposed`, so one corpus always gives the same bytes.
pub fn render_config_yaml(proposed: &[ProposedRecordType]) -> (r: String)
    ensures
        r@ == adopted_config(proposal_views(proposed@)),
{
    let ghost pv = proposal_views(proposed@);
    let mut types: Vec<(String, YamlNode)> = Vec::new();
    let mut i: usize = 0;
    while i < proposed.len()
        invariant
            i <= proposed.len(),
            pv == proposal_views(proposed@),
            types@.len() == i,
            forall|k: int| 0 <= k < i ==> ((#[trigger] types@[k]).0@, node_view(types@[k].1)) == type_entry(pv[k]),
        decreases proposed.len() - i,
    {
        let entry = type_node(&proposed[i]);
        assert(proposal_views(seq![proposed@[i as int]])[0] == pv[i as int]);
        types.push(entry);
        i += 1;
    }
    let ids = proposed_rules(proposed);
    let mut rules: Vec<(String, YamlNode)> = Vec::new();
    let mut j: usize = 0;
    while j < ids.len()
        invariant
            j <= ids.len(),
            rules@.len() == j,
            forall|k: int| 0 <= k < j ==> ((#[trigger] rules@[k]).0@, node_view(rules@[k].1)) == (
                ids@[k]@,
                YamlNodeView::Text("warn"@),
            ),
        decreases ids.len() - j,
    {
        rules.push((ids[j].to_string(), text_node("warn")));
        j += 1;
    }
    let mut root: Vec<(String, YamlNode)> = Vec::new();
    root.push(("schema_version".to_string(), YamlNode::Number(CURRENT_SCHEMA_VERSION as u64)));
    root.push(("record_types".to_string(), YamlNode::Mapping(types)));
    root.push(("rules".to_string(), YamlNode::Mapping(rules)));
    let doc = YamlNode::Mapping(root);
    proof {
        reveal_strlit("schema_version");
        reveal_strlit("record_types");
        reveal_strlit("rules");
        let tv = match node_view(YamlNode::Mapping(types)) {
            YamlNodeView::Mapping(m) => m,
            _ => Seq::empty(),
        };
        assert(tv =~= pv.map_values(|p: ProposalV| type_entry(p)));
        let rv = match node_view(YamlNode::Mapping(rules)) {
            YamlNodeView::Mapping(m) => m,
            _ => Seq::empty(),
        };
        let want = proposed_rule_ids(pv).map_values(|id: Seq<char>| (id, YamlNodeView::Text("warn"@)));
        assert(ids@.map_values(|s: &str| s@) == proposed_rule_ids(pv));
        assert forall|k: int| 0 <= k < rv.len() implies rv[k] == want[k] by {
            assert(ids@.map_values(|s: &str| s@)[k] == ids@[k]@);
        }
        assert(rv =~= want);
        let dv = match node_view(doc) {
            YamlNodeView::Mapping(m) => m,
            _ => Seq::empty(),
        };
        let dw = match config_document(pv) {
            YamlNodeView::Mapping(m) => m,
            _ => Seq::empty(),
        };
        assert(dv.len() == 3);
        assert(root@[0].0@ == "schema_version"@);
        assert(node_view(root@[0].1) == YamlNodeView::Number(CURRENT_SCHEMA_VERSION as nat));
        assert(dv[0] == (root@[0].0@, node_view(root@[0].1)));
        assert(dv[0] == dw[0]);
        assert(dv[1] == dw[1]);
        assert(dv[2] == dw[2]);
        assert(dv =~= dw);
    }
    let body = to_yaml(&doc);
    let banner = "# Adopted by `urzua init`. Nothing was moved.\n\n";
    proof {
        reveal_strlit("# Adopted by `urzua init`. Nothing was moved.\n\n");
    }
    crate::text::concat(banner, body.as_str())
}

} // verus!
