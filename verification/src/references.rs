//! References between records: recognising a reference token like `RFC-9`
//! in a field value, and resolving it to the record whose filename carries
//! that identifier. Identifiers compare by numeric value, so `ADR-0034` and
//! `ADR-34` name one record.
use crate::record::Record;
use crate::text::{
    is_alnum, is_alnum_char, is_whitespace, all_digits, all_upper, chars_of, ends_with, ends_with_exec, is_digit, is_upper, is_ws, seq_eq,
    slice_vec, split_char, split_char_exec, string_of, trim, trim_vec, views, words, words_exec,
    lemma_split_char_nonempty,
};
use crate::order::{sort_strings, sorted};
use crate::report::{contains_string, string_views};
use crate::values::{lemma_normalize_idempotent, normalize, normalize_exec, RecordId};
use vstd::prelude::*;

verus! {

/// A record reference like `RFC-9` or `DOC-ADR-2`: hyphen-separated, every
/// segment before the last a non-empty run of ASCII capitals, the last a
/// non-empty run of ASCII digits, and at least one prefix segment.
pub open spec fn is_reference(token: Seq<char>) -> bool {
    let segs = split_char(token, '-');
    &&& segs.len() >= 2
    &&& segs.last().len() > 0
    &&& all_digits(segs.last())
    &&& forall|i: int| 0 <= i < segs.len() - 1 ==> (#[trigger] segs[i]).len() > 0 && all_upper(segs[i])
}

fn all_digit_chars(s: &[char]) -> (r: bool)
    ensures
        r == all_digits(s@),
{
    let mut i: usize = 0;
    while i < s.len()
        invariant
            i <= s.len(),
            forall|k: int| 0 <= k < i ==> crate::text::is_digit_char(#[trigger] s@[k]),
        decreases s.len() - i,
    {
        if !is_digit(s[i]) {
            return false;
        }
        i += 1;
    }
    true
}

fn all_upper_chars(s: &[char]) -> (r: bool)
    ensures
        r == all_upper(s@),
{
    let mut i: usize = 0;
    while i < s.len()
        invariant
            i <= s.len(),
            forall|k: int| 0 <= k < i ==> crate::text::is_upper_char(#[trigger] s@[k]),
        decreases s.len() - i,
    {
        if !is_upper(s[i]) {
            return false;
        }
        i += 1;
    }
    true
}

/// Whether `token` is exactly one record reference.
pub fn is_record_reference(token: &[char]) -> (r: bool)
    ensures
        r == is_reference(token@),
{
    let segs = split_char_exec(token, '-');
    let ghost sv = views(segs@);
    proof {
        lemma_split_char_nonempty(token@, '-');
    }
    if segs.len() < 2 {
        return false;
    }
    let last = segs.len() - 1;
    assert(sv[last as int] == segs@[last as int]@);
    if segs[last].len() == 0 || !all_digit_chars(&segs[last]) {
        return false;
    }
    let mut i: usize = 0;
    while i < last
        invariant
            last == segs.len() - 1,
            i <= last,
            sv == views(segs@),
            sv == split_char(token@, '-'),
            forall|k: int| 0 <= k < i ==> (#[trigger] sv[k]).len() > 0 && all_upper(sv[k]),
        decreases last - i,
    {
        assert(sv[i as int] == segs@[i as int]@);
        if segs[i].len() == 0 || !all_upper_chars(&segs[i]) {
            return false;
        }
        i += 1;
    }
    true
}

/// `RFC-9's` is a reference to `RFC-9`: a trailing possessive (`'s` or
/// `’s`) is the one suffix stripped, since it does not change which record
/// is meant.
pub open spec fn strip_possessive(t: Seq<char>) -> Seq<char> {
    if ends_with(t, seq!['\'', 's']) || ends_with(t, seq!['\u{2019}', 's']) {
        t.take(t.len() - 2)
    } else {
        t
    }
}

fn strip_possessive_exec(t: &[char]) -> (r: Vec<char>)
    ensures
        r@ == strip_possessive(t@),
{
    let a = vec!['\'', 's'];
    let b = vec!['\u{2019}', 's'];
    assert(a@ =~= seq!['\'', 's']);
    assert(b@ =~= seq!['\u{2019}', 's']);
    if ends_with_exec(t, &a) || ends_with_exec(t, &b) {
        slice_vec(t, 0, t.len() - 2)
    } else {
        slice_vec(t, 0, t.len())
    }
}

/// `str::trim_end_matches(['.', ':'])`.
pub open spec fn trim_end_marks(t: Seq<char>) -> Seq<char>
    decreases t.len(),
{
    if t.len() > 0 && (t.last() == '.' || t.last() == ':') {
        trim_end_marks(t.drop_last())
    } else {
        t
    }
}

fn trim_end_marks_exec(t: &[char]) -> (r: Vec<char>)
    ensures
        r@ == trim_end_marks(t@),
{
    let mut j: usize = t.len();
    assert(t@.take(j as int) =~= t@);
    while j > 0 && (t[j - 1] == '.' || t[j - 1] == ':')
        invariant
            j <= t.len(),
            trim_end_marks(t@) == trim_end_marks(t@.take(j as int)),
        decreases j,
    {
        assert(t@.take(j as int).drop_last() =~= t@.take(j - 1));
        j -= 1;
    }
    slice_vec(t, 0, j)
}

/// The reference an entry of a header value claims: its first
/// whitespace-separated token, with trailing `.`/`:` and a possessive
/// removed, when that is a reference. Whatever follows is annotation.
pub open spec fn entry_reference(entry: Seq<char>) -> Option<Seq<char>> {
    let ws = words(trim(entry));
    if ws.len() == 0 {
        None
    } else {
        let token = strip_possessive(trim_end_marks(ws[0]));
        if is_reference(token) {
            Some(token)
        } else {
            None
        }
    }
}

/// The references of comma-separated entries, in order.
pub open spec fn entry_references(entries: Seq<Seq<char>>) -> Seq<Seq<char>>
    decreases entries.len(),
{
    if entries.len() == 0 {
        Seq::empty()
    } else {
        entry_references(entries.drop_last()) + match entry_reference(entries.last()) {
            Some(r) => seq![r],
            None => Seq::empty(),
        }
    }
}

/// The references a header value lists: one per comma-separated entry that
/// begins with one.
pub open spec fn references(value: Seq<char>) -> Seq<Seq<char>> {
    entry_references(split_char(value, ','))
}

fn entry_reference_exec(entry: &[char]) -> (r: Option<Vec<char>>)
    ensures
        match r {
            Some(t) => entry_reference(entry@) == Some(t@),
            None => entry_reference(entry@) is None,
        },
{
    let t = trim_vec(entry);
    let ws = words_exec(&t);
    if ws.len() == 0 {
        return None;
    }
    assert(views(ws@)[0] == ws@[0]@);
    let marks = trim_end_marks_exec(&ws[0]);
    let token = strip_possessive_exec(&marks);
    if is_record_reference(&token) {
        Some(token)
    } else {
        None
    }
}

/// The references a header value lists, in order.
pub fn extract_references(value: &str) -> (r: Vec<String>)
    ensures
        r@.map_values(|s: String| s@) == references(value@),
{
    let cs = chars_of(value);
    let entries = split_char_exec(&cs, ',');
    let ghost ev = views(entries@);
    let mut out: Vec<String> = Vec::new();
    let mut i: usize = 0;
    while i < entries.len()
        invariant
            i <= entries.len(),
            ev == views(entries@),
            ev == split_char(value@, ','),
            out@.map_values(|s: String| s@) == entry_references(ev.take(i as int)),
        decreases entries.len() - i,
    {
        assert(ev.take(i + 1).drop_last() =~= ev.take(i as int));
        assert(ev.take(i + 1).last() == entries@[i as int]@);
        let ghost before = out@.map_values(|s: String| s@);
        match entry_reference_exec(&entries[i]) {
            Some(t) => {
                out.push(string_of(&t));
                assert(out@.map_values(|s: String| s@) =~= before + seq![t@]);
            },
            None => {
                assert(before + Seq::<Seq<char>>::empty() =~= before);
            },
        }
        i += 1;
    }
    assert(ev.take(entries.len() as int) =~= ev);
    out
}

// ---------------------------------------------------------------------------
// Resolving references
// ---------------------------------------------------------------------------

/// The normalized identifier a record answers to, if its filename yields one.
pub open spec fn record_key(r: Record) -> Option<Seq<char>> {
    match r.id_spec() {
        Some(id) => Some(normalize(id)),
        None => None,
    }
}

/// The first record answering to `key`.
pub open spec fn first_claimant(recs: Seq<Record>, key: Seq<char>) -> Option<int>
    decreases recs.len(),
{
    if recs.len() == 0 {
        None
    } else {
        match first_claimant(recs.drop_last(), key) {
            Some(i) => Some(i),
            None => if record_key(recs.last()) == Some(key) {
                Some(recs.len() - 1)
            } else {
                None
            },
        }
    }
}

pub proof fn lemma_first_claimant(recs: Seq<Record>, key: Seq<char>)
    ensures
        first_claimant(recs, key) matches Some(i) ==> 0 <= i < recs.len() && record_key(recs[i]) == Some(
            key,
        ) && forall|k: int| 0 <= k < i ==> record_key(recs[k]) != Some(key),
        first_claimant(recs, key) is None ==> forall|k: int|
            0 <= k < recs.len() ==> record_key(recs[k]) != Some(key),
    decreases recs.len(),
{
    if recs.len() > 0 {
        lemma_first_claimant(recs.drop_last(), key);
        assert forall|k: int| 0 <= k < recs.len() - 1 implies recs.drop_last()[k] == recs[k] by {}
    }
}

/// The record a normalized identifier resolves to: the first record, in
/// the order given, answering to it.
pub open spec fn resolve(recs: Seq<Record>, key: Seq<char>) -> Option<Record> {
    match first_claimant(recs, key) {
        Some(i) => Some(recs[i]),
        None => None,
    }
}

pub open spec fn opt_chars(o: Option<Vec<char>>) -> Option<Seq<char>> {
    match o {
        Some(v) => Some(v@),
        None => None,
    }
}

/// Records by normalized identifier, built once over a corpus and shared by
/// every rule that resolves a reference.
pub struct RecordIndex<'a> {
    records: &'a [Record],
    keys: Vec<Option<Vec<char>>>,
}

impl<'a> RecordIndex<'a> {
    #[verifier::type_invariant]
    spec fn keyed(self) -> bool {
        &&& self.keys@.len() == self.records@.len()
        &&& forall|i: int| 0 <= i < self.keys@.len() ==> opt_chars(#[trigger] self.keys@[i]) == record_key(self.records@[i])
    }

    /// The records the index was built over, in order.
    pub closed spec fn targets(&self) -> Seq<Record> {
        self.records@
    }

    /// The record `key` (already normalized) resolves to.
    pub fn get(&self, key: &[char]) -> (r: Option<&'a Record>)
        ensures
            match r {
                Some(t) => resolve(self.targets(), key@) == Some(*t),
                None => resolve(self.targets(), key@) is None,
            },
    {
        proof {
            use_type_invariant(self);
        }
        let mut i: usize = 0;
        while i < self.keys.len()
            invariant
                i <= self.keys.len(),
                self.keys@.len() == self.records@.len(),
                forall|j: int| 0 <= j < self.keys@.len() ==> opt_chars(#[trigger] self.keys@[j]) == record_key(self.records@[j]),
                forall|k: int| 0 <= k < i ==> record_key(self.records@[k]) != Some(key@),
            decreases self.keys.len() - i,
        {
            assert(opt_chars(self.keys@[i as int]) == record_key(self.records@[i as int]));
            match &self.keys[i] {
                Some(k) => {
                    if seq_eq(k, key) {
                        proof {
                            lemma_first_claimant(self.records@, key@);
                        }
                        return Some(&self.records[i]);
                    }
                },
                None => {},
            }
            i += 1;
        }
        proof {
            lemma_first_claimant(self.records@, key@);
        }
        None
    }

    /// Whether some record answers to `key` (already normalized).
    pub fn contains_key(&self, key: &[char]) -> (r: bool)
        ensures
            r == resolve(self.targets(), key@) is Some,
    {
        self.get(key).is_some()
    }
}

/// The normalized identifier of `r`, if its filename yields one.
pub fn record_key_exec(r: &Record) -> (k: Option<Vec<char>>)
    ensures
        opt_chars(k) == record_key(*r),
{
    match r.id() {
        Some(id) => {
            let cs = chars_of(id.as_str());
            Some(normalize_exec(&cs))
        },
        None => None,
    }
}

/// Every record indexed by its normalized identifier; where several records
/// answer to one identifier, the first of them.
pub fn build_normalized_index<'a>(records: &'a [Record]) -> (r: RecordIndex<'a>)
    ensures
        r.targets() == records@,
{
    let mut keys: Vec<Option<Vec<char>>> = Vec::new();
    let mut i: usize = 0;
    while i < records.len()
        invariant
            i <= records.len(),
            keys@.len() == i,
            forall|j: int| 0 <= j < i ==> opt_chars(#[trigger] keys@[j]) == record_key(records@[j]),
        decreases records.len() - i,
    {
        keys.push(record_key_exec(&records[i]));
        i += 1;
    }
    RecordIndex { records, keys }
}


/// Every identifier a record answers to is already normalized.
pub proof fn lemma_present_keys_normalized(recs: Seq<Record>)
    ensures
        forall|i: int| 0 <= i < present_keys(recs).len() ==> normalize(#[trigger] present_keys(recs)[i])
            == present_keys(recs)[i],
    decreases recs.len(),
{
    if recs.len() > 0 {
        lemma_present_keys_normalized(recs.drop_last());
        let pre = present_keys(recs.drop_last());
        match recs.last().id_spec() {
            Some(id) => lemma_normalize_idempotent(id),
            None => {},
        }
        assert forall|i: int| 0 <= i < pre.len() implies present_keys(recs)[i] == pre[i] by {}
    }
}

/// One identifier and every record claiming it.
pub type IdentifierCollision<'a> = (RecordId, Vec<&'a Record>);

/// The identifiers records answer to, in record order (repeats kept).
pub open spec fn present_keys(recs: Seq<Record>) -> Seq<Seq<char>>
    decreases recs.len(),
{
    if recs.len() == 0 {
        Seq::empty()
    } else {
        present_keys(recs.drop_last()) + match record_key(recs.last()) {
            Some(k) => seq![k],
            None => Seq::empty(),
        }
    }
}

/// Every record answering to `key`, in order.
pub open spec fn claimants(recs: Seq<Record>, key: Seq<char>) -> Seq<Record>
    decreases recs.len(),
{
    if recs.len() == 0 {
        Seq::empty()
    } else {
        claimants(recs.drop_last(), key) + if record_key(recs.last()) == Some(key) {
            seq![recs.last()]
        } else {
            Seq::empty()
        }
    }
}

/// The identifiers among `keys` claimed by more than one record, with their
/// claimants.
pub open spec fn collisions_among(recs: Seq<Record>, keys: Seq<Seq<char>>) -> Seq<(Seq<char>, Seq<Record>)>
    decreases keys.len(),
{
    if keys.len() == 0 {
        Seq::empty()
    } else {
        let k = keys.last();
        collisions_among(recs, keys.drop_last()) + if claimants(recs, k).len() > 1 {
            seq![(k, claimants(recs, k))]
        } else {
            Seq::empty()
        }
    }
}

/// Every identifier more than one record answers to, in identifier order,
/// with its claimants in record order.
pub open spec fn collisions(recs: Seq<Record>) -> Seq<(Seq<char>, Seq<Record>)> {
    collisions_among(recs, sorted(crate::config::dedup(present_keys(recs))))
}

pub open spec fn collision_views(cs: Seq<IdentifierCollision>) -> Seq<(Seq<char>, Seq<Record>)> {
    cs.map_values(|c: IdentifierCollision| (c.0@, c.1@.map_values(|r: &Record| *r)))
}

/// The index, plus every identifier more than one record claims: the index
/// keeps one of them, and the others would otherwise stop existing for every
/// rule that resolves a reference.
pub fn build_index_reporting_collisions<'a>(records: &'a [Record]) -> (r: (
    RecordIndex<'a>,
    Vec<IdentifierCollision<'a>>,
))
    ensures
        r.0.targets() == records@,
        collision_views(r.1@) == collisions(records@),
{
    let index = build_normalized_index(records);
    let mut keys: Vec<String> = Vec::new();
    let mut i: usize = 0;
    while i < records.len()
        invariant
            i <= records.len(),
            string_views(keys@) == present_keys(records@.take(i as int)),
        decreases records.len() - i,
    {
        assert(records@.take(i + 1).drop_last() =~= records@.take(i as int));
        assert(records@.take(i + 1).last() == records@[i as int]);
        let ghost before = string_views(keys@);
        match record_key_exec(&records[i]) {
            Some(k) => {
                keys.push(string_of(&k));
                assert(string_views(keys@) =~= before + seq![k@]);
            },
            None => {
                assert(before + Seq::<Seq<char>>::empty() =~= before);
            },
        }
        i += 1;
    }
    assert(records@.take(records.len() as int) =~= records@);
    let mut distinct: Vec<String> = Vec::new();
    let mut d: usize = 0;
    while d < keys.len()
        invariant
            d <= keys.len(),
            string_views(distinct@) == crate::config::dedup(string_views(keys@).take(d as int)),
        decreases keys.len() - d,
    {
        assert(string_views(keys@).take(d + 1).drop_last() =~= string_views(keys@).take(d as int));
        assert(string_views(keys@).take(d + 1).last() == keys@[d as int]@);
        if !contains_string(&distinct, keys[d].as_str()) {
            let ghost before = string_views(distinct@);
            distinct.push(keys[d].clone());
            assert(string_views(distinct@) =~= before.push(keys@[d as int]@));
        }
        d += 1;
    }
    assert(string_views(keys@).take(keys.len() as int) =~= string_views(keys@));
    let order = sort_strings(distinct);
    let ghost ov = string_views(order@);
    assert(ov == sorted(crate::config::dedup(present_keys(records@))));
    let mut out: Vec<IdentifierCollision<'a>> = Vec::new();
    let mut j: usize = 0;
    while j < order.len()
        invariant
            j <= order.len(),
            ov == string_views(order@),
            ov == sorted(crate::config::dedup(present_keys(records@))),
            collision_views(out@) == collisions_among(records@, ov.take(j as int)),
        decreases order.len() - j,
    {
        assert(ov.take(j + 1).drop_last() =~= ov.take(j as int));
        assert(ov.take(j + 1).last() == order@[j as int]@);
        let kc = chars_of(order[j].as_str());
        let mut who: Vec<&'a Record> = Vec::new();
        let mut m: usize = 0;
        while m < records.len()
            invariant
                m <= records.len(),
                kc@ == ov[j as int],
                who@.map_values(|r: &Record| *r) == claimants(records@.take(m as int), kc@),
            decreases records.len() - m,
        {
            assert(records@.take(m + 1).drop_last() =~= records@.take(m as int));
            assert(records@.take(m + 1).last() == records@[m as int]);
            let ghost before = who@.map_values(|r: &Record| *r);
            let hit = match record_key_exec(&records[m]) {
                Some(k) => seq_eq(&k, &kc),
                None => false,
            };
            if hit {
                who.push(&records[m]);
                assert(who@.map_values(|r: &Record| *r) =~= before + seq![records@[m as int]]);
            } else {
                assert(before + Seq::<Record>::empty() =~= before);
            }
            m += 1;
        }
        assert(records@.take(records.len() as int) =~= records@);
        if who.len() > 1 {
            let id = RecordId::new(order[j].as_str());
            proof {
                let present = present_keys(records@);
                crate::order::lemma_sorted_members(crate::order::Order::Text, crate::config::dedup(present));
                crate::config::lemma_dedup_contains(present, ov[j as int]);
                lemma_present_keys_normalized(records@);
                assert(sorted(crate::config::dedup(present))[j as int] == ov[j as int]);
                assert(present.contains(ov[j as int]));
                let k = choose|k: int| 0 <= k < present.len() && present[k] == ov[j as int];
                assert(normalize(present[k]) == present[k]);
                assert(id@ == ov[j as int]);
            }
            let ghost before = collision_views(out@);
            out.push((id, who));
            assert(collision_views(out@) =~= before + seq![(ov[j as int], claimants(records@, ov[j as int]))]);
        } else {
            assert(collision_views(out@) =~= collision_views(out@) + Seq::<(Seq<char>, Seq<Record>)>::empty());
        }
        j += 1;
    }
    assert(ov.take(order.len() as int) =~= ov);
    (index, out)
}


// ---------------------------------------------------------------------------
// References in prose
// ---------------------------------------------------------------------------

/// Where prose is cut into candidate tokens: whitespace, `(` and `[`.
pub open spec fn scan_sep(c: char) -> bool {
    is_ws(c) || c == '(' || c == '['
}

/// `str::split` on `scan_sep`, built from the end.
pub open spec fn scan_pieces(s: Seq<char>) -> Seq<Seq<char>>
    decreases s.len(),
{
    if s.len() == 0 {
        seq![Seq::<char>::empty()]
    } else {
        let r = scan_pieces(s.drop_last());
        if scan_sep(s.last()) {
            r.push(Seq::<char>::empty())
        } else {
            r.update(r.len() - 1, r.last().push(s.last()))
        }
    }
}

pub proof fn lemma_scan_pieces_nonempty(s: Seq<char>)
    ensures
        scan_pieces(s).len() >= 1,
    decreases s.len(),
{
    if s.len() > 0 {
        lemma_scan_pieces_nonempty(s.drop_last());
    }
}

fn scan_pieces_exec(s: &[char]) -> (r: Vec<Vec<char>>)
    ensures
        views(r@) == scan_pieces(s@),
{
    let mut r: Vec<Vec<char>> = Vec::new();
    let mut cur: Vec<char> = Vec::new();
    let mut i: usize = 0;
    assert(s@.take(0) =~= Seq::<char>::empty());
    assert(views(r@).push(cur@) =~= seq![Seq::<char>::empty()]);
    while i < s.len()
        invariant
            i <= s.len(),
            views(r@).push(cur@) == scan_pieces(s@.take(i as int)),
        decreases s.len() - i,
    {
        let ghost prev = s@.take(i as int);
        proof {
            assert(s@.take(i + 1).drop_last() =~= prev);
            lemma_scan_pieces_nonempty(prev);
        }
        let c = s[i];
        if is_whitespace(c) || c == '(' || c == '[' {
            let done = cur;
            r.push(done);
            cur = Vec::new();
            assert(views(r@).push(cur@) =~= scan_pieces(prev).push(Seq::<char>::empty()));
        } else {
            let ghost before = views(r@).push(cur@);
            cur.push(c);
            assert(views(r@).push(cur@) =~= before.update(before.len() - 1, before.last().push(s@[i as int])));
        }
        i += 1;
    }
    assert(s@.take(s@.len() as int) == s@);
    r.push(cur);
    r
}

/// A character a reference token may keep at its edges.
pub open spec fn token_char(c: char) -> bool {
    is_alnum_char(c) || c == '-' || c == '\'' || c == '\u{2019}'
}

pub open spec fn quote_char(c: char) -> bool {
    c == '\'' || c == '\u{2019}'
}

/// How many leading characters satisfy `p`.
pub open spec fn lead_where(s: Seq<char>, p: spec_fn(char) -> bool) -> nat
    decreases s.len(),
{
    if s.len() > 0 && p(s[0]) {
        1 + lead_where(s.drop_first(), p)
    } else {
        0
    }
}

/// `s` with trailing characters satisfying `p` removed.
pub open spec fn trim_end_where(s: Seq<char>, p: spec_fn(char) -> bool) -> Seq<char>
    decreases s.len(),
{
    if s.len() > 0 && p(s.last()) {
        trim_end_where(s.drop_last(), p)
    } else {
        s
    }
}

/// `str::trim_matches` with a predicate.
pub open spec fn trim_where(s: Seq<char>, p: spec_fn(char) -> bool) -> Seq<char> {
    trim_end_where(s.skip(lead_where(s, p) as int), p)
}

/// The reference a prose token names: edge punctuation trimmed (quotes and
/// hyphens survive so a possessive does), the possessive stripped, then any
/// quote marks at either end.
pub open spec fn prose_reference(piece: Seq<char>) -> Option<Seq<char>> {
    let t1 = trim_where(piece, |c: char| !token_char(c));
    let t2 = strip_possessive(t1);
    let t3 = trim_where(t2, |c: char| quote_char(c));
    if is_reference(t3) {
        Some(t3)
    } else {
        None
    }
}

pub open spec fn prose_references(pieces: Seq<Seq<char>>) -> Seq<Seq<char>>
    decreases pieces.len(),
{
    if pieces.len() == 0 {
        Seq::empty()
    } else {
        prose_references(pieces.drop_last()) + match prose_reference(pieces.last()) {
            Some(r) => seq![r],
            None => Seq::empty(),
        }
    }
}

/// Every reference a line of prose names, in order.
pub open spec fn scanned(line: Seq<char>) -> Seq<Seq<char>> {
    prose_references(scan_pieces(line))
}

fn strippable(c: char, quotes: bool) -> (b: bool)
    ensures
        quotes ==> b == quote_char(c),
        !quotes ==> b == !token_char(c),
{
    if quotes {
        c == '\'' || c == '\u{2019}'
    } else {
        !(is_alnum(c) || c == '-' || c == '\'' || c == '\u{2019}')
    }
}

fn trim_where_exec(s: &[char], quotes: bool) -> (r: Vec<char>)
    ensures
        quotes ==> r@ == trim_where(s@, |c: char| quote_char(c)),
        !quotes ==> r@ == trim_where(s@, |c: char| !token_char(c)),
{
    let ghost p = if quotes {
        |c: char| quote_char(c)
    } else {
        |c: char| !token_char(c)
    };
    let mut a: usize = 0;
    assert(s@.skip(0) =~= s@);
    while a < s.len() && strippable(s[a], quotes)
        invariant
            a <= s.len(),
            p == (if quotes {
                |c: char| quote_char(c)
            } else {
                |c: char| !token_char(c)
            }),
            lead_where(s@, p) == a + lead_where(s@.skip(a as int), p),
        decreases s.len() - a,
    {
        assert(s@.skip(a as int).drop_first() =~= s@.skip(a + 1));
        a += 1;
    }
    let ghost rest = s@.skip(a as int);
    let mut b: usize = s.len();
    assert(rest.take((b - a) as int) =~= rest);
    while b > a && strippable(s[b - 1], quotes)
        invariant
            a <= b <= s.len(),
            rest == s@.skip(a as int),
            p == (if quotes {
                |c: char| quote_char(c)
            } else {
                |c: char| !token_char(c)
            }),
            trim_end_where(rest, p) == trim_end_where(rest.take((b - a) as int), p),
        decreases b,
    {
        assert(rest.take((b - a) as int).drop_last() =~= rest.take((b - 1 - a) as int));
        b -= 1;
    }
    let r = slice_vec(s, a, b);
    assert(r@ =~= rest.take((b - a) as int));
    r
}

/// Every reference a line of prose names (`RFC-9's` names `RFC-9`).
pub fn scan_references(line: &[char]) -> (r: Vec<Vec<char>>)
    ensures
        views(r@) == scanned(line@),
{
    let pieces = scan_pieces_exec(line);
    let ghost pv = views(pieces@);
    let mut out: Vec<Vec<char>> = Vec::new();
    let mut i: usize = 0;
    while i < pieces.len()
        invariant
            i <= pieces.len(),
            pv == views(pieces@),
            pv == scan_pieces(line@),
            views(out@) == prose_references(pv.take(i as int)),
        decreases pieces.len() - i,
    {
        assert(pv.take(i + 1).drop_last() =~= pv.take(i as int));
        assert(pv.take(i + 1).last() == pieces@[i as int]@);
        let t1 = trim_where_exec(&pieces[i], false);
        let t2 = strip_possessive_exec(&t1);
        let t3 = trim_where_exec(&t2, true);
        let ghost before = views(out@);
        if is_record_reference(&t3) {
            out.push(t3);
            assert(views(out@) =~= before + seq![out@.last()@]);
        } else {
            assert(before + Seq::<Seq<char>>::empty() =~= before);
        }
        i += 1;
    }
    assert(pv.take(pieces.len() as int) =~= pv);
    out
}
} // verus!
