//! Sorting the strings a report lists, so that one corpus always yields one
//! report: names and identifiers by code point, the order `String`'s `Ord`
//! gives; paths component by component, the order `Path`'s `Ord` gives, so
//! that `docs/adr/y.md` comes before `docs/adr-old/x.md`.
use crate::report::string_views;
use crate::rules::{components, components_of};
use crate::text::{chars_of, seq_eq, views};
use crate::waiver::{lemma_lex_le_total_order, lex_le, lex_le_exec};
use vstd::prelude::*;

verus! {

/// How a list of strings is ordered.
#[derive(Debug, Clone, Copy, PartialEq, Eq, Structural)]
pub enum Order {
    /// By code point.
    Text,
    /// As paths: by their components (`components`: the `/`-separated
    /// pieces, empty and `.` pieces dropped), each compared by code point,
    /// so that a path sorts before every path below it. For the relative
    /// paths a repository lists, this is the order `Path`'s `Ord` gives.
    Components,
}

/// Lexicographic order on component lists, each component compared by code
/// point.
pub open spec fn comps_le(x: Seq<Seq<char>>, y: Seq<Seq<char>>) -> bool
    decreases x.len(),
{
    if x.len() == 0 {
        true
    } else if y.len() == 0 {
        false
    } else if x[0] == y[0] {
        comps_le(x.drop_first(), y.drop_first())
    } else {
        lex_le(x[0], y[0])
    }
}

/// `a` sorts no later than `b` as a path.
pub open spec fn path_le(a: Seq<char>, b: Seq<char>) -> bool {
    comps_le(components(a), components(b))
}

/// `a` sorts no later than `b` in order `o`.
pub open spec fn le_by(o: Order, a: Seq<char>, b: Seq<char>) -> bool {
    match o {
        Order::Text => lex_le(a, b),
        Order::Components => path_le(a, b),
    }
}

proof fn lemma_comps_le_total(x: Seq<Seq<char>>, y: Seq<Seq<char>>, z: Seq<Seq<char>>)
    ensures
        comps_le(x, x),
        comps_le(x, y) || comps_le(y, x),
        comps_le(x, y) && comps_le(y, z) ==> comps_le(x, z),
    decreases x.len(),
{
    if x.len() > 0 && y.len() > 0 && z.len() > 0 {
        lemma_comps_le_total(x.drop_first(), y.drop_first(), z.drop_first());
        lemma_lex_le_total_order(x[0], y[0], z[0]);
        lemma_lex_le_total_order(y[0], z[0], x[0]);
        lemma_lex_le_total_order(z[0], x[0], y[0]);
    } else if x.len() > 0 && y.len() > 0 {
        lemma_comps_le_total(x.drop_first(), y.drop_first(), z);
        lemma_lex_le_total_order(x[0], y[0], x[0]);
    } else if x.len() > 0 {
        lemma_comps_le_total(x.drop_first(), x.drop_first(), z);
    }
}

/// Each order is total, reflexive and transitive.
pub proof fn lemma_le_by(o: Order, a: Seq<char>, b: Seq<char>, c: Seq<char>)
    ensures
        le_by(o, a, a),
        le_by(o, a, b) || le_by(o, b, a),
        le_by(o, a, b) && le_by(o, b, c) ==> le_by(o, a, c),
{
    match o {
        Order::Text => lemma_lex_le_total_order(a, b, c),
        Order::Components => lemma_comps_le_total(components(a), components(b), components(c)),
    }
}

/// `x` placed after the last element of `s` that does not sort after it.
pub open spec fn insert_by(o: Order, s: Seq<Seq<char>>, x: Seq<char>) -> Seq<Seq<char>>
    decreases s.len(),
{
    if s.len() == 0 {
        seq![x]
    } else if le_by(o, s.last(), x) {
        s.push(x)
    } else {
        insert_by(o, s.drop_last(), x).push(s.last())
    }
}

/// Insertion sort in order `o`; elements that compare equal keep their
/// order.
pub open spec fn sorted_by(o: Order, s: Seq<Seq<char>>) -> Seq<Seq<char>>
    decreases s.len(),
{
    if s.len() == 0 {
        Seq::empty()
    } else {
        insert_by(o, sorted_by(o, s.drop_last()), s.last())
    }
}

/// Sorted by code point.
pub open spec fn sorted(s: Seq<Seq<char>>) -> Seq<Seq<char>> {
    sorted_by(Order::Text, s)
}

/// Sorted as paths.
pub open spec fn path_sorted(s: Seq<Seq<char>>) -> Seq<Seq<char>> {
    sorted_by(Order::Components, s)
}

/// Where `insert_by` puts `x`.
pub open spec fn back_pos(o: Order, s: Seq<Seq<char>>, x: Seq<char>) -> int
    decreases s.len(),
{
    if s.len() == 0 {
        0
    } else if le_by(o, s.last(), x) {
        s.len() as int
    } else {
        back_pos(o, s.drop_last(), x)
    }
}

pub proof fn lemma_insert_sorted(o: Order, s: Seq<Seq<char>>, x: Seq<char>)
    ensures
        0 <= back_pos(o, s, x) <= s.len(),
        insert_by(o, s, x) == s.insert(back_pos(o, s, x), x),
    decreases s.len(),
{
    if s.len() > 0 && !le_by(o, s.last(), x) {
        lemma_insert_sorted(o, s.drop_last(), x);
        assert(insert_by(o, s, x) =~= s.insert(back_pos(o, s, x), x));
    } else if s.len() > 0 {
        assert(s.push(x) =~= s.insert(s.len() as int, x));
    } else {
        assert(seq![x] =~= s.insert(0, x));
    }
}

proof fn lemma_back_pos_prefix(o: Order, s: Seq<Seq<char>>, x: Seq<char>, j: int)
    requires
        0 <= j <= s.len(),
        forall|k: int| j <= k < s.len() ==> !le_by(o, #[trigger] s[k], x),
    ensures
        back_pos(o, s, x) == back_pos(o, s.take(j), x),
    decreases s.len() - j,
{
    if j < s.len() {
        assert(s.drop_last().take(j) =~= s.take(j));
        lemma_back_pos_prefix(o, s.drop_last(), x, j);
    } else {
        assert(s.take(j) =~= s);
    }
}

fn comps_le_exec(x: &Vec<Vec<char>>, y: &Vec<Vec<char>>) -> (r: bool)
    ensures
        r == comps_le(views(x@), views(y@)),
{
    let ghost (xv, yv) = (views(x@), views(y@));
    let mut i: usize = 0;
    assert(xv.skip(0) =~= xv && yv.skip(0) =~= yv);
    while i < x.len() && i < y.len()
        invariant
            xv == views(x@),
            yv == views(y@),
            i <= x.len(),
            i <= y.len(),
            comps_le(xv, yv) == comps_le(xv.skip(i as int), yv.skip(i as int)),
        decreases x.len() - i,
    {
        assert(xv.skip(i as int)[0] == x@[i as int]@);
        assert(yv.skip(i as int)[0] == y@[i as int]@);
        if !seq_eq(&x[i], &y[i]) {
            return lex_le_exec(&x[i], &y[i]);
        }
        assert(xv.skip(i as int).drop_first() =~= xv.skip(i + 1));
        assert(yv.skip(i as int).drop_first() =~= yv.skip(i + 1));
        i += 1;
    }
    i == x.len()
}

fn le_by_exec(o: Order, a: &str, b: &str) -> (r: bool)
    ensures
        r == le_by(o, a@, b@),
{
    match o {
        Order::Text => {
            let x = chars_of(a);
            let y = chars_of(b);
            lex_le_exec(&x, &y)
        },
        Order::Components => {
            let x = components_of(a);
            let y = components_of(b);
            comps_le_exec(&x, &y)
        },
    }
}

/// `v`, sorted in order `o`.
pub fn sort_by(o: Order, v: Vec<String>) -> (r: Vec<String>)
    ensures
        string_views(r@) == sorted_by(o, string_views(v@)),
{
    let ghost input = string_views(v@);
    let mut r: Vec<String> = Vec::new();
    let mut i: usize = 0;
    while i < v.len()
        invariant
            i <= v.len(),
            input == string_views(v@),
            string_views(r@) == sorted_by(o, input.take(i as int)),
        decreases v.len() - i,
    {
        let x = v[i].clone();
        let ghost s = string_views(r@);
        let mut j: usize = r.len();
        while j > 0 && !le_by_exec(o, r[j - 1].as_str(), x.as_str())
            invariant
                j <= r.len(),
                s == string_views(r@),
                forall|k: int| j <= k < s.len() ==> !le_by(o, #[trigger] s[k], x@),
            decreases j,
        {
            j -= 1;
        }
        proof {
            lemma_back_pos_prefix(o, s, x@, j as int);
            if j > 0 {
                assert(s.take(j as int).last() == s[j - 1]);
                assert(back_pos(o, s.take(j as int), x@) == j);
            } else {
                assert(back_pos(o, s.take(0), x@) == 0);
            }
            lemma_insert_sorted(o, s, x@);
            assert(input.take(i + 1).drop_last() =~= input.take(i as int));
            assert(input.take(i + 1).last() == x@);
        }
        r.insert(j, x);
        assert(string_views(r@) =~= s.insert(j as int, x@));
        i += 1;
    }
    assert(input.take(v.len() as int) =~= input);
    r
}

/// `v`, sorted by code point.
pub fn sort_strings(v: Vec<String>) -> (r: Vec<String>)
    ensures
        string_views(r@) == sorted(string_views(v@)),
{
    sort_by(Order::Text, v)
}

/// `v`, sorted as paths.
pub fn sort_paths(v: Vec<String>) -> (r: Vec<String>)
    ensures
        string_views(r@) == path_sorted(string_views(v@)),
{
    sort_by(Order::Components, v)
}

/// Sorting keeps the length and draws every element from the input.
pub proof fn lemma_sorted_members(o: Order, s: Seq<Seq<char>>)
    ensures
        sorted_by(o, s).len() == s.len(),
        forall|i: int| 0 <= i < sorted_by(o, s).len() ==> s.contains(#[trigger] sorted_by(o, s)[i]),
{
    lemma_sorted_same_members(o, s);
    lemma_sorted_permutes(o, s);
    assert(sorted_by(o, s).len() == s.len()) by {
        s.to_multiset_ensures();
        sorted_by(o, s).to_multiset_ensures();
    }
    assert forall|i: int| 0 <= i < sorted_by(o, s).len() implies s.contains(#[trigger] sorted_by(o, s)[i]) by {
        assert(sorted_by(o, s).contains(sorted_by(o, s)[i]));
    }
}

/// Sorting only reorders: the sorted sequence holds each string exactly as
/// many times as the input does.
pub proof fn lemma_sorted_permutes(o: Order, s: Seq<Seq<char>>)
    ensures
        sorted_by(o, s).to_multiset() == s.to_multiset(),
    decreases s.len(),
{
    if s.len() > 0 {
        let t = sorted_by(o, s.drop_last());
        lemma_sorted_permutes(o, s.drop_last());
        lemma_insert_sorted(o, t, s.last());
        vstd::seq_lib::to_multiset_insert(t, back_pos(o, t, s.last()), s.last());
        vstd::seq_lib::to_multiset_build(s.drop_last(), s.last());
        assert(s.drop_last().push(s.last()) =~= s);
    } else {
        assert(sorted_by(o, s) =~= s);
    }
}

/// Sorting keeps exactly the members of the input, and a sequence with no
/// repeats stays without repeats.
pub proof fn lemma_sorted_same_members(o: Order, s: Seq<Seq<char>>)
    ensures
        forall|x: Seq<char>| #[trigger] sorted_by(o, s).contains(x) <==> s.contains(x),
        s.no_duplicates() ==> sorted_by(o, s).no_duplicates(),
{
    lemma_sorted_permutes(o, s);
    assert forall|x: Seq<char>| #[trigger] sorted_by(o, s).contains(x) <==> s.contains(x) by {
        vstd::seq_lib::to_multiset_contains(s, x);
        vstd::seq_lib::to_multiset_contains(sorted_by(o, s), x);
    }
    if s.no_duplicates() {
        s.lemma_multiset_has_no_duplicates();
        sorted_by(o, s).lemma_multiset_has_no_duplicates_conv();
    }
}

/// Every element of `s` sorts no later than the elements after it.
pub open spec fn in_order(o: Order, s: Seq<Seq<char>>) -> bool {
    forall|i: int, j: int| 0 <= i < j < s.len() ==> le_by(o, #[trigger] s[i], #[trigger] s[j])
}

proof fn lemma_insert_in_order(o: Order, s: Seq<Seq<char>>, x: Seq<char>)
    requires
        in_order(o, s),
    ensures
        in_order(o, insert_by(o, s, x)),
    decreases s.len(),
{
    if s.len() > 0 {
        let l = s.last();
        if le_by(o, l, x) {
            assert forall|i: int, j: int| 0 <= i < j < s.len() + 1 implies le_by(
                o,
                #[trigger] s.push(x)[i],
                #[trigger] s.push(x)[j],
            ) by {
                if j == s.len() {
                    if i < s.len() - 1 {
                        lemma_le_by(o, s[i], l, x);
                    }
                } else {
                    assert(s.push(x)[i] == s[i] && s.push(x)[j] == s[j]);
                }
            }
        } else {
            let t = insert_by(o, s.drop_last(), x);
            lemma_insert_in_order(o, s.drop_last(), x);
            lemma_insert_sorted(o, s.drop_last(), x);
            lemma_le_by(o, l, x, l);
            let p = back_pos(o, s.drop_last(), x);
            assert forall|k: int| 0 <= k < t.len() implies le_by(o, #[trigger] t[k], l) by {
                if k < p {
                    assert(t[k] == s[k]);
                } else if k > p {
                    assert(t[k] == s[k - 1]);
                }
            }
            assert forall|i: int, j: int| 0 <= i < j < t.len() + 1 implies le_by(
                o,
                #[trigger] t.push(l)[i],
                #[trigger] t.push(l)[j],
            ) by {
                if j < t.len() {
                    assert(t.push(l)[i] == t[i] && t.push(l)[j] == t[j]);
                } else {
                    assert(t.push(l)[i] == t[i]);
                }
            }
        }
    }
}

/// A sorted sequence is in order: each element sorts no later than every
/// element after it.
pub proof fn lemma_sorted_in_order(o: Order, s: Seq<Seq<char>>)
    ensures
        in_order(o, sorted_by(o, s)),
    decreases s.len(),
{
    if s.len() > 0 {
        lemma_sorted_in_order(o, s.drop_last());
        lemma_insert_in_order(o, sorted_by(o, s.drop_last()), s.last());
    }
}

/// `r` holds a path with the same components as `p`: the same path, however
/// it is spelled.
pub open spec fn has_same_path(r: Seq<Seq<char>>, p: Seq<char>) -> bool {
    exists|i: int| 0 <= i < r.len() && components(#[trigger] r[i]) == components(p)
}

/// The paths of `s`, each kept where it first occurs and dropped where it
/// repeats an earlier path: `a/b` and `a/b/` are one path.
pub open spec fn path_distinct(s: Seq<Seq<char>>) -> Seq<Seq<char>>
    decreases s.len(),
{
    if s.len() == 0 {
        Seq::empty()
    } else {
        let r = path_distinct(s.drop_last());
        if has_same_path(r, s.last()) {
            r
        } else {
            r.push(s.last())
        }
    }
}

fn comps_eq_exec(x: &Vec<Vec<char>>, y: &Vec<Vec<char>>) -> (r: bool)
    ensures
        r == (views(x@) == views(y@)),
{
    if x.len() != y.len() {
        return false;
    }
    let mut i: usize = 0;
    while i < x.len()
        invariant
            x.len() == y.len(),
            i <= x.len(),
            forall|k: int| 0 <= k < i ==> x@[k]@ == y@[k]@,
        decreases x.len() - i,
    {
        if !seq_eq(&x[i], &y[i]) {
            assert(views(x@)[i as int] != views(y@)[i as int]);
            return false;
        }
        i += 1;
    }
    assert(views(x@) =~= views(y@));
    true
}

/// Whether `a` and `b` are the same path, however each is spelled.
pub fn same_path(a: &str, b: &str) -> (r: bool)
    ensures
        r == (components(a@) == components(b@)),
{
    let x = components_of(a);
    let y = components_of(b);
    comps_eq_exec(&x, &y)
}

/// Whether `v` holds the path `p`, however it is spelled.
pub fn contains_path(v: &Vec<String>, p: &str) -> (r: bool)
    ensures
        r == has_same_path(string_views(v@), p@),
{
    let target = components_of(p);
    let ghost sv = string_views(v@);
    let mut i: usize = 0;
    while i < v.len()
        invariant
            i <= v.len(),
            sv == string_views(v@),
            views(target@) == components(p@),
            forall|k: int| 0 <= k < i ==> components(sv[k]) != components(p@),
        decreases v.len() - i,
    {
        let c = components_of(v[i].as_str());
        if comps_eq_exec(&c, &target) {
            assert(components(sv[i as int]) == components(p@));
            return true;
        }
        i += 1;
    }
    false
}

/// `v` with every path that repeats an earlier one dropped.
pub fn distinct_paths(v: &Vec<String>) -> (r: Vec<String>)
    ensures
        string_views(r@) == path_distinct(string_views(v@)),
{
    let ghost sv = string_views(v@);
    let mut r: Vec<String> = Vec::new();
    let mut i: usize = 0;
    while i < v.len()
        invariant
            i <= v.len(),
            sv == string_views(v@),
            string_views(r@) == path_distinct(sv.take(i as int)),
        decreases v.len() - i,
    {
        assert(sv.take(i + 1).drop_last() =~= sv.take(i as int));
        assert(sv.take(i + 1).last() == v@[i as int]@);
        if !contains_path(&r, v[i].as_str()) {
            let ghost before = string_views(r@);
            r.push(v[i].clone());
            assert(string_views(r@) =~= before.push(v@[i as int]@));
        }
        i += 1;
    }
    assert(sv.take(v.len() as int) =~= sv);
    r
}

/// `path_distinct` keeps only paths of `s`, no two of them the same path,
/// and for every path of `s` one that is the same path.
pub proof fn lemma_path_distinct(s: Seq<Seq<char>>)
    ensures
        forall|x: Seq<char>| #[trigger] path_distinct(s).contains(x) ==> s.contains(x),
        forall|i: int, j: int|
            0 <= i < j < path_distinct(s).len() ==> components(#[trigger] path_distinct(s)[i]) != components(
                #[trigger] path_distinct(s)[j],
            ),
        path_distinct(s).no_duplicates(),
        forall|x: Seq<char>| #[trigger] s.contains(x) ==> has_same_path(path_distinct(s), x),
    decreases s.len(),
{
    if s.len() > 0 {
        let t = s.drop_last();
        let l = s.last();
        let r = path_distinct(t);
        lemma_path_distinct(t);
        assert forall|x: Seq<char>| #[trigger] path_distinct(s).contains(x) implies s.contains(x) by {
            let k = choose|k: int| 0 <= k < path_distinct(s).len() && path_distinct(s)[k] == x;
            if k < r.len() {
                assert(path_distinct(s)[k] == r[k]);
                assert(r.contains(x));
                let m = choose|m: int| 0 <= m < t.len() && t[m] == x;
                assert(s[m] == x);
            } else {
                assert(s[s.len() - 1] == x);
            }
        }
        if !has_same_path(r, l) {
            assert forall|i: int, j: int| 0 <= i < j < r.len() + 1 implies components(
                #[trigger] r.push(l)[i],
            ) != components(#[trigger] r.push(l)[j]) by {
                assert(r.push(l)[i] == r[i]);
                if j < r.len() {
                    assert(r.push(l)[j] == r[j]);
                }
            }
        }
        assert forall|x: Seq<char>| #[trigger] s.contains(x) implies has_same_path(path_distinct(s), x) by {
            let m = choose|m: int| 0 <= m < s.len() && s[m] == x;
            if m < t.len() {
                assert(t[m] == x);
                assert(t.contains(x));
                let k = choose|k: int| 0 <= k < r.len() && components(#[trigger] r[k]) == components(x);
                assert(path_distinct(s)[k] == r[k]);
            } else if !has_same_path(r, l) {
                assert(path_distinct(s)[r.len() as int] == l);
            }
        }
    }
}

/// Sorting keeps paths apart: when no two entries of `d` are the same path,
/// no two entries of its sorted form are.
pub proof fn lemma_sorted_paths_apart(o: Order, d: Seq<Seq<char>>)
    requires
        forall|i: int, j: int| 0 <= i < j < d.len() ==> components(#[trigger] d[i]) != components(#[trigger] d[j]),
    ensures
        forall|i: int, j: int|
            0 <= i < j < sorted_by(o, d).len() ==> components(#[trigger] sorted_by(o, d)[i]) != components(
                #[trigger] sorted_by(o, d)[j],
            ),
{
    let r = sorted_by(o, d);
    assert(d.no_duplicates()) by {
        assert forall|i: int, j: int| 0 <= i < d.len() && 0 <= j < d.len() && i != j implies d[i] != d[j] by {
            if i < j {
                assert(components(d[i]) != components(d[j]));
            } else {
                assert(components(d[j]) != components(d[i]));
            }
        }
    }
    lemma_sorted_same_members(o, d);
    assert forall|i: int, j: int| 0 <= i < j < r.len() implies components(#[trigger] r[i]) != components(
        #[trigger] r[j],
    ) by {
        assert(r.contains(r[i]) && r.contains(r[j]));
        let a = choose|a: int| 0 <= a < d.len() && d[a] == r[i];
        let b = choose|b: int| 0 <= b < d.len() && d[b] == r[j];
        if a < b {
            assert(components(d[a]) != components(d[b]));
        } else if b < a {
            assert(components(d[b]) != components(d[a]));
        } else {
            assert(r[i] == r[j]);
        }
    }
}

} // verus!
