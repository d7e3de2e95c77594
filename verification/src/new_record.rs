//! Rendering a new record's initial content, and the numbering it takes.
//! The caller reads any existing template, resolves identity and today's
//! date, lists the directory, and writes the file; this module only
//! computes text.
use crate::header::HeaderShape;
use crate::text::{is_digit_char, is_lower_char, is_upper_char, 
    all_digits, all_upper, chars_of, contains, contains_exec, decimal, decimal_string, decimal_value,
    ends_with, ends_with_exec, find, find_exec, is_alnum, is_alnum_char, is_digit, is_upper,
    join, join_vecs, matches_at, lemma_find_from_result, lemma_split_char_nonempty, lines, lines_exec, lower, parse_u64,
    parses_u64, slice_vec, split_char, split_char_exec, split_str, split_str_exec, starts_with,
    starts_with_exec, string_of, to_lower, trim_start, trim_start_vec, views,
};
use vstd::prelude::*;
use vstd::string::StrSliceExecFns;

verus! {

/// A run of one or more ASCII digits.
pub open spec fn digit_run(s: Seq<char>) -> bool {
    s.len() > 0 && all_digits(s)
}

/// `str::parse::<u32>` of a digit run.
pub open spec fn u32_value(s: Seq<char>) -> Option<nat> {
    if parses_u64(s) && decimal_value(s) <= u32::MAX {
        Some(decimal_value(s))
    } else {
        None
    }
}

/// The first digit-run segment.
pub open spec fn first_digit_segment(segs: Seq<Seq<char>>, i: int) -> Option<int>
    decreases segs.len() - i,
{
    if i < 0 || i >= segs.len() {
        None
    } else if digit_run(segs[i]) {
        Some(i)
    } else {
        first_digit_segment(segs, i + 1)
    }
}

/// A `YYYY-M-D-` filename: a plausible four-digit year, a month and a day.
pub open spec fn looks_dated(segs: Seq<Seq<char>>) -> bool {
    &&& segs.len() >= 3
    &&& segs[0].len() == 4
    &&& u32_value(segs[0]) matches Some(y) && 1000 <= y <= 9999
    &&& digit_run(segs[1])
    &&& digit_run(segs[2])
    &&& u32_value(segs[1]) matches Some(m) && 1 <= m <= 12
    &&& u32_value(segs[2]) matches Some(d) && 1 <= d <= 31
}

/// The number and type prefix of a record filename, in either convention:
/// `0001-slug.md` (no prefix) and `ADR-1-slug.md` / `DOC-ADR-2-slug.md`
/// (an upper-case, possibly hyphenated prefix). The number is the first
/// all-digit segment of the `.md` stem; something must follow it; a
/// leading date is not a number.
pub open spec fn record_filename(name: Seq<char>) -> Option<(Option<Seq<char>>, nat)> {
    if !ends_with(name, ".md"@) {
        None
    } else {
        let stem = name.take(name.len() - 3);
        let segs = split_char(stem, '-');
        match first_digit_segment(segs, 0) {
            None => None,
            Some(at) => if at + 1 >= segs.len() || (forall|k: int| at + 1 <= k < segs.len() ==> (
            #[trigger] segs[k]).len() == 0) {
                None
            } else if at == 0 {
                if looks_dated(segs) {
                    None
                } else {
                    match u32_value(segs[0]) {
                        Some(n) => Some((None, n)),
                        None => None,
                    }
                }
            } else if forall|k: int| 0 <= k < at ==> (#[trigger] segs[k]).len() > 0 && all_upper(segs[k]) {
                match u32_value(segs[at]) {
                    Some(n) => Some((Some(join(segs.take(at), "-"@)), n)),
                    None => None,
                }
            } else {
                None
            },
        }
    }
}

fn digit_run_exec(s: &[char]) -> (b: bool)
    ensures
        b == digit_run(s@),
{
    if s.len() == 0 {
        return false;
    }
    let mut i: usize = 0;
    while i < s.len()
        invariant
            i <= s.len(),
            forall|k: int| 0 <= k < i ==> crate::text::is_digit_char(#[trigger] s@[k]),
        decreases s.len() - i,
    {
        if !is_digit(s[i]) {
            return false;
        }
        i += 1;
    }
    true
}

fn u32_value_exec(s: &[char]) -> (r: Option<u32>)
    ensures
        match r {
            Some(n) => u32_value(s@) == Some(n as nat),
            None => u32_value(s@) is None,
        },
{
    match parse_u64(s) {
        Some(v) => if v <= 4294967295u64 {
            Some(v as u32)
        } else {
            None
        },
        None => None,
    }
}

fn all_upper_exec(s: &[char]) -> (b: bool)
    ensures
        b == all_upper(s@),
{
    let mut i: usize = 0;
    while i < s.len()
        invariant
            i <= s.len(),
            forall|k: int| 0 <= k < i ==> crate::text::is_upper_char(#[trigger] s@[k]),
        decreases s.len() - i,
    {
        if !is_upper(s[i]) {
            return false;
        }
        i += 1;
    }
    true
}

/// The type prefix (if any) and number a record filename carries; `None`
/// for anything that is not a record filename.
pub fn parse_record_filename(file_name: &str) -> (r: Option<(Option<String>, u32)>)
    ensures
        match r {
            Some((p, n)) => record_filename(file_name@) == Some(
                (
                    match p {
                        Some(s) => Some(s@),
                        None => None::<Seq<char>>,
                    },
                    n as nat,
                ),
            ),
            None => record_filename(file_name@) is None,
        },
{
    let name = chars_of(file_name);
    let md = chars_of(".md");
    proof {
        reveal_strlit(".md");
    }
    if !ends_with_exec(&name, &md) {
        return None;
    }
    let stem = slice_vec(&name, 0, name.len() - 3);
    assert(stem@ =~= name@.take(name@.len() - 3));
    let segs = split_char_exec(&stem, '-');
    let ghost sv = views(segs@);
    proof {
        lemma_split_char_nonempty(stem@, '-');
    }
    let mut at: usize = 0;
    while at < segs.len() && !digit_run_exec(&segs[at])
        invariant
            at <= segs.len(),
            sv == views(segs@),
            first_digit_segment(sv, 0) == first_digit_segment(sv, at as int),
        decreases segs.len() - at,
    {
        assert(sv[at as int] == segs@[at as int]@);
        at += 1;
    }
    if at >= segs.len() {
        return None;
    }
    assert(sv[at as int] == segs@[at as int]@);
    assert(first_digit_segment(sv, 0) == Some(at as int));
    if at + 1 >= segs.len() {
        return None;
    }
    let mut all_empty = true;
    let mut k: usize = at + 1;
    while k < segs.len()
        invariant
            at + 1 <= k <= segs.len(),
            sv == views(segs@),
            all_empty == forall|j: int| at + 1 <= j < k ==> (#[trigger] sv[j]).len() == 0,
        decreases segs.len() - k,
    {
        assert(sv[k as int] == segs@[k as int]@);
        if segs[k].len() > 0 {
            all_empty = false;
        }
        k += 1;
    }
    if all_empty {
        return None;
    }
    if at == 0 {
        assert(sv[0] == segs@[0]@);
        let dated = if segs.len() >= 3 && segs[0].len() == 4 {
            assert(sv[1] == segs@[1]@);
            assert(sv[2] == segs@[2]@);
            let year_ok = match u32_value_exec(&segs[0]) {
                Some(y) => 1000 <= y && y <= 9999,
                None => false,
            };
            let month_ok = match u32_value_exec(&segs[1]) {
                Some(m) => 1 <= m && m <= 12,
                None => false,
            };
            let day_ok = match u32_value_exec(&segs[2]) {
                Some(d) => 1 <= d && d <= 31,
                None => false,
            };
            year_ok && digit_run_exec(&segs[1]) && digit_run_exec(&segs[2]) && month_ok && day_ok
        } else {
            false
        };
        if dated {
            return None;
        }
        return match u32_value_exec(&segs[0]) {
            Some(n) => Some((None, n)),
            None => None,
        };
    }
    let mut upper = true;
    let mut j: usize = 0;
    while j < at
        invariant
            j <= at,
            at < segs.len(),
            sv == views(segs@),
            upper == forall|m: int| 0 <= m < j ==> (#[trigger] sv[m]).len() > 0 && all_upper(sv[m]),
        decreases at - j,
    {
        assert(sv[j as int] == segs@[j as int]@);
        if segs[j].len() == 0 || !all_upper_exec(&segs[j]) {
            upper = false;
        }
        j += 1;
    }
    if !upper {
        return None;
    }
    match u32_value_exec(&segs[at]) {
        Some(n) => {
            let mut head: Vec<Vec<char>> = Vec::new();
            let mut m: usize = 0;
            while m < at
                invariant
                    m <= at,
                    at < segs.len(),
                    sv == views(segs@),
                    views(head@) == sv.take(m as int),
                decreases at - m,
            {
                let ghost before = views(head@);
                assert(sv[m as int] == segs@[m as int]@);
                head.push(slice_vec(&segs[m], 0, segs[m].len()));
                assert(segs@[m as int]@.subrange(0, segs@[m as int]@.len() as int) =~= segs@[m as int]@);
                assert(views(head@) =~= before.push(sv[m as int]));
                assert(sv.take(m + 1) =~= sv.take(m as int).push(sv[m as int]));
                m += 1;
            }
            let dash = chars_of("-");
            let prefix = join_vecs(&head, &dash);
            Some((Some(string_of(&prefix)), n))
        },
        None => None,
    }
}

/// A name that is no record filename, or whose number leaves room for a
/// next one.
pub open spec fn below_max(name: Seq<char>) -> bool {
    match record_filename(name) {
        Some((_, n)) => n < u32::MAX,
        None => true,
    }
}

/// The highest number any of `names` carries as a record filename.
pub open spec fn highest_number(names: Seq<Seq<char>>) -> Option<nat>
    decreases names.len(),
{
    if names.len() == 0 {
        None
    } else {
        let h = highest_number(names.drop_last());
        match record_filename(names.last()) {
            Some((_, n)) => match h {
                Some(m) => if n > m {
                    Some(n)
                } else {
                    Some(m)
                },
                None => Some(n),
            },
            None => h,
        }
    }
}

/// One past the highest number `names` carry; 1 when none carries one.
pub open spec fn next_number(names: Seq<Seq<char>>) -> nat {
    match highest_number(names) {
        Some(m) => m + 1,
        None => 1,
    }
}

/// Every number a record filename carries is at most the highest one.
pub proof fn lemma_highest_number_bounds(names: Seq<Seq<char>>, i: int)
    requires
        0 <= i < names.len(),
        record_filename(names[i]) is Some,
    ensures
        highest_number(names) is Some,
        record_filename(names[i]).unwrap().1 <= highest_number(names).unwrap(),
    decreases names.len(),
{
    if i < names.len() - 1 {
        assert(names.drop_last()[i] == names[i]);
        lemma_highest_number_bounds(names.drop_last(), i);
    }
}

/// A new record never reuses a number: whatever number a listed filename
/// carries, in either convention, the next number is above it.
pub proof fn lemma_next_number_is_unclaimed(names: Seq<Seq<char>>, i: int)
    requires
        0 <= i < names.len(),
        record_filename(names[i]) is Some,
    ensures
        record_filename(names[i]).unwrap().1 < next_number(names),
{
    lemma_highest_number_bounds(names, i);
}

/// The highest number is one a listed record filename carries, and there is
/// none exactly when no listed filename is a record filename.
proof fn lemma_highest_number_attained(names: Seq<Seq<char>>)
    ensures
        highest_number(names) is None <==> forall|i: int| 0 <= i < names.len() ==> #[trigger] record_filename(names[i]) is None,
        highest_number(names) matches Some(m) ==> exists|i: int|
            0 <= i < names.len() && #[trigger] record_filename(names[i]) is Some && record_filename(names[i]).unwrap().1 == m,
    decreases names.len(),
{
    if names.len() > 0 {
        let t = names.drop_last();
        lemma_highest_number_attained(t);
        assert forall|i: int| 0 <= i < t.len() implies #[trigger] record_filename(t[i]) == record_filename(names[i]) by {
            assert(t[i] == names[i]);
        }
        if highest_number(names) is None {
            assert forall|i: int| 0 <= i < names.len() implies #[trigger] record_filename(names[i]) is None by {
                if i < t.len() {
                    assert(record_filename(t[i]) == record_filename(names[i]));
                }
            }
        } else {
            let m = highest_number(names).unwrap();
            if record_filename(names.last()) is Some && record_filename(names.last()).unwrap().1 == m {
                assert(record_filename(names[names.len() - 1]) == record_filename(names.last()));
            } else {
                let i = choose|i: int|
                    0 <= i < t.len() && #[trigger] record_filename(t[i]) is Some && record_filename(t[i]).unwrap().1 == m;
                assert(record_filename(t[i]) == record_filename(names[i]));
            }
        }
    }
}

/// The next display number is one past the highest number a listed record
/// filename carries, and 1 when no listed filename is a record filename,
/// whatever other files (a README, an index) the directory holds: it is
/// above every number in use, and it is 1 or one past a number in use.
pub proof fn lemma_next_number_law(names: Seq<Seq<char>>)
    ensures
        (forall|i: int| 0 <= i < names.len() ==> #[trigger] record_filename(names[i]) is None) ==> next_number(
            names,
        ) == 1,
        forall|i: int|
            0 <= i < names.len() && #[trigger] record_filename(names[i]) is Some ==> record_filename(
                names[i],
            ).unwrap().1 < next_number(names),
        next_number(names) == 1 || exists|i: int|
            0 <= i < names.len() && #[trigger] record_filename(names[i]) is Some && record_filename(
                names[i],
            ).unwrap().1 + 1 == next_number(names),
{
    lemma_highest_number_attained(names);
    assert forall|i: int|
        0 <= i < names.len() && #[trigger] record_filename(names[i]) is Some implies record_filename(
            names[i],
        ).unwrap().1 < next_number(names) by {
        lemma_next_number_is_unclaimed(names, i);
    }
}

/// The next unclaimed number: one past the highest number any filename
/// carries, in either convention; 1 for an empty directory. A number is
/// never reused, even after a deletion.
pub fn next_display_number(filenames: &[String]) -> (r: u32)
    requires
        forall|i: int| 0 <= i < filenames@.len() ==> below_max(#[trigger] filenames@[i]@),
    ensures
        r == next_number(filenames@.map_values(|s: String| s@)),
{
    let ghost names = filenames@.map_values(|s: String| s@);
    let mut best: Option<u32> = None;
    let mut i: usize = 0;
    while i < filenames.len()
        invariant
            i <= filenames.len(),
            names == filenames@.map_values(|s: String| s@),
            forall|j: int| 0 <= j < filenames@.len() ==> below_max(#[trigger] filenames@[j]@),
            match best {
                Some(b) => highest_number(names.take(i as int)) == Some(b as nat) && b < u32::MAX,
                None => highest_number(names.take(i as int)) is None,
            },
        decreases filenames.len() - i,
    {
        assert(names.take(i + 1).drop_last() =~= names.take(i as int));
        assert(names.take(i + 1).last() == filenames@[i as int]@);
        match parse_record_filename(filenames[i].as_str()) {
            Some((_, n)) => {
                assert(below_max(filenames@[i as int]@));
                best = match best {
                    Some(b) => if n > b {
                        Some(n)
                    } else {
                        Some(b)
                    },
                    None => Some(n),
                };
            },
            None => {},
        }
        i += 1;
    }
    assert(names.take(filenames.len() as int) =~= names);
    match best {
        Some(b) => b + 1,
        None => 1,
    }
}

/// One step of slugifying: an ASCII letter or digit is kept, lower-cased;
/// a run of anything else becomes one hyphen, none at the start.
pub open spec fn slug_step(st: (Seq<char>, bool), c: char) -> (Seq<char>, bool) {
    if is_alnum_char(c) {
        (st.0.push(lower(c)), false)
    } else if !st.1 {
        (st.0.push('-'), true)
    } else {
        st
    }
}

pub open spec fn slug_fold(s: Seq<char>) -> (Seq<char>, bool)
    decreases s.len(),
{
    if s.len() == 0 {
        (Seq::empty(), true)
    } else {
        slug_step(slug_fold(s.drop_last()), s.last())
    }
}

/// What a slug looks like: lower-case ASCII letters, digits and single
/// hyphens, with no hyphen at either end.
pub open spec fn slug_shaped(s: Seq<char>) -> bool {
    &&& forall|i: int| 0 <= i < s.len() ==> is_digit_char(#[trigger] s[i]) || is_lower_char(s[i]) || s[i] == '-'
    &&& forall|i: int| 0 <= i < s.len() - 1 ==> !(#[trigger] s[i] == '-' && s[i + 1] == '-')
    &&& s.len() > 0 ==> s[0] != '-' && s.last() != '-'
}

proof fn lemma_lower_of_alnum(c: char)
    requires
        is_alnum_char(c),
    ensures
        is_digit_char(lower(c)) || is_lower_char(lower(c)),
{
    if is_upper_char(c) {
        assert(is_lower_char(((c as u32) + 32) as char));
    }
}

proof fn lemma_slug_fold(s: Seq<char>)
    ensures
        slug_fold(s).1 <==> (slug_fold(s).0.len() == 0 || slug_fold(s).0.last() == '-'),
        slug_fold(s).0.len() > 0 ==> slug_fold(s).0[0] != '-',
        forall|i: int|
            0 <= i < slug_fold(s).0.len() ==> is_digit_char(#[trigger] slug_fold(s).0[i]) || is_lower_char(
                slug_fold(s).0[i],
            ) || slug_fold(s).0[i] == '-',
        forall|i: int|
            0 <= i < slug_fold(s).0.len() - 1 ==> !(#[trigger] slug_fold(s).0[i] == '-' && slug_fold(s).0[i + 1]
                == '-'),
    decreases s.len(),
{
    if s.len() > 0 {
        let c = s.last();
        lemma_slug_fold(s.drop_last());
        let st = slug_fold(s.drop_last());
        if is_alnum_char(c) {
            lemma_lower_of_alnum(c);
            assert(slug_fold(s).0 == st.0.push(lower(c)));
        } else if !st.1 {
            assert(slug_fold(s).0 == st.0.push('-'));
        }
    }
}

/// The slug of a title: lower-case, hyphen-separated, ASCII letters and
/// digits only, no hyphen at either end.
pub open spec fn slug(title: Seq<char>) -> Seq<char> {
    crate::document::trim_end_char(slug_fold(title).0, '-')
}

/// Every slug is slug-shaped: lower-case ASCII letters, digits and single
/// hyphens, never a hyphen at either end, whatever the title.
pub proof fn lemma_slug_is_slug_shaped(title: Seq<char>)
    ensures
        slug_shaped(slug(title)),
{
    lemma_slug_fold(title);
    let o = slug_fold(title).0;
    if o.len() > 0 && o.last() == '-' {
        let d = o.drop_last();
        if d.len() > 0 {
            assert(o[d.len() - 1] == d.last());
            assert(d.last() != '-');
        }
        assert(crate::document::trim_end_char(d, '-') == d);
        assert(slug(title) == d);
    } else {
        assert(slug(title) == o);
    }
}

proof fn lemma_slug_fold_of_shaped(s: Seq<char>, n: int)
    requires
        slug_shaped(s),
        0 <= n <= s.len(),
    ensures
        slug_fold(s.take(n)) == (s.take(n), n == 0 || s[n - 1] == '-'),
    decreases n,
{
    if n > 0 {
        lemma_slug_fold_of_shaped(s, n - 1);
        let q = s.take(n - 1);
        let c = s[n - 1];
        assert(s.take(n).drop_last() =~= q);
        assert(s.take(n).last() == c);
        if c == '-' {
            assert(n - 1 > 0);
            assert(!(s[n - 2] == '-' && s[n - 1] == '-'));
            assert(q.push('-') =~= s.take(n));
        } else {
            assert(is_digit_char(c) || is_lower_char(c));
            assert(lower(c) == c);
            assert(q.push(c) =~= s.take(n));
        }
    }
}

/// A slug is its own slug: slugifying is idempotent, since what it leaves
/// is already lower-case letters, digits and single inner hyphens.
pub proof fn lemma_slug_is_its_own_slug(title: Seq<char>)
    ensures
        slug(slug(title)) == slug(title),
{
    let s = slug(title);
    lemma_slug_is_slug_shaped(title);
    lemma_slug_fold_of_shaped(s, s.len() as int);
    assert(s.take(s.len() as int) =~= s);
    if s.len() > 0 {
        assert(s.last() != '-');
    }
    assert(crate::document::trim_end_char(s, '-') == s);
}

/// The slug of a title.
pub fn slugify(title: &str) -> (r: String)
    ensures
        r@ == slug(title@),
        slug_shaped(r@),
{
    proof {
        lemma_slug_is_slug_shaped(title@);
    }
    let cs = chars_of(title);
    let mut out: Vec<char> = Vec::new();
    let mut last_was_hyphen = true;
    let mut i: usize = 0;
    while i < cs.len()
        invariant
            i <= cs.len(),
            (out@, last_was_hyphen) == slug_fold(cs@.take(i as int)),
        decreases cs.len() - i,
    {
        assert(cs@.take(i + 1).drop_last() =~= cs@.take(i as int));
        let ch = cs[i];
        if is_alnum(ch) {
            out.push(to_lower(ch));
            last_was_hyphen = false;
        } else if !last_was_hyphen {
            out.push('-');
            last_was_hyphen = true;
        }
        i += 1;
    }
    assert(cs@.take(cs.len() as int) =~= cs@);
    let ghost folded = out@;
    assert(folded.take(out.len() as int) =~= folded);
    while out.len() > 0 && out[out.len() - 1] == '-'
        invariant
            out@.len() <= folded.len(),
            out@ == folded.take(out@.len() as int),
            crate::document::trim_end_char(folded, '-') == crate::document::trim_end_char(out@, '-'),
        decreases out.len(),
    {
        let ghost before = out@;
        out.pop();
        assert(out@ =~= before.drop_last());
        assert(out@ =~= folded.take(out@.len() as int));
    }
    string_of(&out)
}

/// What a new record is rendered with.
pub struct NewRecordParams<'a> {
    pub display_number: u32,
    pub title: &'a str,
    pub stable_id: &'a str,
    pub author: &'a str,
    pub today: &'a str,
}

/// `str::replacen(pat, to, 1)`: the first occurrence replaced.
pub open spec fn replace_first(s: Seq<char>, pat: Seq<char>, to: Seq<char>) -> Seq<char> {
    match find(s, pat) {
        Some(i) => s.take(i) + to + s.skip(i + pat.len()),
        None => s,
    }
}

/// `str::replace(pat, to)`: every occurrence, left to right.
pub open spec fn replace_all(s: Seq<char>, pat: Seq<char>, to: Seq<char>) -> Seq<char> {
    join(split_str(s, pat), to)
}

fn replace_first_exec(s: &[char], pat: &[char], to: &[char]) -> (r: Vec<char>)
    ensures
        r@ == replace_first(s@, pat@, to@),
{
    match find_exec(s, pat) {
        Some(i) => {
            proof {
                lemma_find_from_result(s@, pat@, 0);
            }
            assert(matches_at(s@, pat@, i as int));
            assert(i + pat.len() <= s.len());
            let mut r = slice_vec(s, 0, i);
            let mut k: usize = 0;
            let ghost head = r@;
            while k < to.len()
                invariant
                    k <= to.len(),
                    r@ == head + to@.take(k as int),
                decreases to.len() - k,
            {
                r.push(to[k]);
                assert(to@.take(k + 1) =~= to@.take(k as int).push(to@[k as int]));
                k += 1;
            }
            assert(to@.take(to.len() as int) =~= to@);
            let tail = slice_vec(s, i + pat.len(), s.len());
            let ghost mid = r@;
            let mut k: usize = 0;
            while k < tail.len()
                invariant
                    k <= tail.len(),
                    r@ == mid + tail@.take(k as int),
                decreases tail.len() - k,
            {
                r.push(tail[k]);
                assert(tail@.take(k + 1) =~= tail@.take(k as int).push(tail@[k as int]));
                k += 1;
            }
            assert(tail@.take(tail.len() as int) =~= tail@);
            assert(tail@ =~= s@.skip(i + pat@.len()));
            r
        },
        None => slice_vec(s, 0, s.len()),
    }
}

fn replace_all_exec(s: &[char], pat: &[char], to: &[char]) -> (r: Vec<char>)
    requires
        pat.len() > 0,
    ensures
        r@ == replace_all(s@, pat@, to@),
{
    let parts = split_str_exec(s, pat);
    join_vecs(&parts, to)
}

/// A line opening a blockquote or bold-list header field.
pub open spec fn header_line(line: Seq<char>) -> bool {
    starts_with(trim_start(line), seq!['>']) || starts_with(trim_start(line), "- **"@)
}

/// A template line after the Date/Author fill: a `Date:` line holding the
/// `YYYY-MM-DD` placeholder gets today's date everywhere on it; otherwise
/// a header `Author:` line gets the author in place of its first `name`.
pub open spec fn filled(line: Seq<char>, p: (Seq<char>, Seq<char>)) -> Seq<char> {
    if contains(line, "Date:"@) && contains(line, "YYYY-MM-DD"@) {
        replace_all(line, "YYYY-MM-DD"@, p.0)
    } else if contains(line, "Author:"@) && header_line(line) {
        replace_first(line, "name"@, p.1)
    } else {
        line
    }
}

/// The first header line.
pub open spec fn first_header_line(ls: Seq<Seq<char>>, i: int) -> Option<int>
    decreases ls.len() - i,
{
    if i < 0 || i >= ls.len() {
        None
    } else if header_line(ls[i]) {
        Some(i)
    } else {
        first_header_line(ls, i + 1)
    }
}

/// The lines of a template after its H1 took the number and title.
pub open spec fn titled(ls: Seq<Seq<char>>, number: Seq<char>, title: Seq<char>) -> Seq<Seq<char>> {
    if ls.len() == 0 {
        ls
    } else {
        ls.update(0, replace_first(replace_first(ls[0], "NNNN"@, number), "Title"@, title))
    }
}

/// A record rendered from a template: the H1's first `NNNN` becomes the
/// number and its first `Title` the title (nothing else named `NNNN`
/// changes); Date and Author are filled; a `Stable-Id` line is inserted
/// after the first header line, in that line's shape.
pub open spec fn rendered(
    template: Seq<char>,
    number: Seq<char>,
    title: Seq<char>,
    stable_id: Seq<char>,
    author: Seq<char>,
    today: Seq<char>,
) -> Seq<char> {
    let ls = titled(lines(template), number, title).map_values(|l: Seq<char>| filled(l, (today, author)));
    let out = match first_header_line(ls, 0) {
        Some(idx) => ls.insert(
            idx + 1,
            if starts_with(trim_start(ls[idx]), seq!['>']) {
                "> Stable-Id: "@ + stable_id
            } else {
                "- **Stable-Id:** "@ + stable_id
            },
        ),
        None => ls,
    };
    join(out, "\n"@) + "\n"@
}

fn header_line_exec(line: &[char]) -> (b: bool)
    ensures
        b == header_line(line@),
{
    let t = trim_start_vec(line);
    let gt = vec!['>'];
    assert(gt@ =~= seq!['>']);
    let bold = chars_of("- **");
    starts_with_exec(&t, &gt) || starts_with_exec(&t, &bold)
}

/// Render a record from an existing template.
pub fn render_from_template(template: &str, params: &NewRecordParams) -> (r: String)
    ensures
        r@ == rendered(
            template@,
            decimal(params.display_number as nat),
            params.title@,
            params.stable_id@,
            params.author@,
            params.today@,
        ),
{
    let number = decimal_string(params.display_number as u64);
    let tc = chars_of(template);
    let mut ls = lines_exec(&tc);
    let title = chars_of(params.title);
    let today = chars_of(params.today);
    let author = chars_of(params.author);
    let nnnn = chars_of("NNNN");
    let title_word = chars_of("Title");
    proof {
        reveal_strlit("NNNN");
        reveal_strlit("YYYY-MM-DD");
    }
    if ls.len() > 0 {
        let first = replace_first_exec(&ls[0], &nnnn, &number);
        let first = replace_first_exec(&first, &title_word, &title);
        ls.set(0, first);
    }
    let ghost tl = views(ls@);
    assert(tl =~= titled(lines(template@), decimal(params.display_number as nat), params.title@));
    let date_key = chars_of("Date:");
    let placeholder = chars_of("YYYY-MM-DD");
    let author_key = chars_of("Author:");
    let name_word = chars_of("name");
    let mut out: Vec<Vec<char>> = Vec::new();
    let mut i: usize = 0;
    while i < ls.len()
        invariant
            i <= ls.len(),
            tl == views(ls@),
            placeholder@ == "YYYY-MM-DD"@,
            placeholder@.len() > 0,
            date_key@ == "Date:"@,
            author_key@ == "Author:"@,
            name_word@ == "name"@,
            views(out@) == tl.take(i as int).map_values(|l: Seq<char>| filled(l, (today@, author@))),
        decreases ls.len() - i,
    {
        let line = &ls[i];
        assert(tl[i as int] == line@);
        let fl = if contains_exec(line, &date_key) && contains_exec(line, &placeholder) {
            replace_all_exec(line, &placeholder, &today)
        } else if contains_exec(line, &author_key) && header_line_exec(line) {
            replace_first_exec(line, &name_word, &author)
        } else {
            slice_vec(line, 0, line.len())
        };
        assert(line@.subrange(0, line@.len() as int) =~= line@);
        let ghost before = views(out@);
        out.push(fl);
        assert(views(out@) =~= before.push(filled(tl[i as int], (today@, author@))));
        assert(tl.take(i + 1).map_values(|l: Seq<char>| filled(l, (today@, author@))) =~= tl.take(i as int).map_values(
            |l: Seq<char>| filled(l, (today@, author@)),
        ).push(filled(tl[i as int], (today@, author@))));
        i += 1;
    }
    assert(tl.take(ls.len() as int) =~= tl);
    let ghost fv = views(out@);
    let mut h: usize = 0;
    while h < out.len() && !header_line_exec(&out[h])
        invariant
            h <= out.len(),
            fv == views(out@),
            first_header_line(fv, 0) == first_header_line(fv, h as int),
        decreases out.len() - h,
    {
        assert(fv[h as int] == out@[h as int]@);
        h += 1;
    }
    if h < out.len() {
        assert(fv[h as int] == out@[h as int]@);
        let gt = vec!['>'];
        assert(gt@ =~= seq!['>']);
        let lead = trim_start_vec(&out[h]);
        let mut sid = if starts_with_exec(&lead, &gt) {
            chars_of("> Stable-Id: ")
        } else {
            chars_of("- **Stable-Id:** ")
        };
        let ghost head = sid@;
        let id = chars_of(params.stable_id);
        let mut k: usize = 0;
        while k < id.len()
            invariant
                k <= id.len(),
                sid@ == head + id@.take(k as int),
            decreases id.len() - k,
        {
            sid.push(id[k]);
            assert(id@.take(k + 1) =~= id@.take(k as int).push(id@[k as int]));
            k += 1;
        }
        assert(id@.take(id.len() as int) =~= id@);
        out.insert(h + 1, sid);
        assert(views(out@) =~= fv.insert(h + 1, sid@));
    }
    let nl = vec!['\n'];
    assert(nl@ =~= "\n"@) by {
        reveal_strlit("\n");
    }
    let mut body = join_vecs(&out, &nl);
    body.push('\n');
    string_of(&body)
}

/// A template's body: everything from its first `## ` section heading on.
pub open spec fn body_of(template: Seq<char>) -> Option<Seq<char>> {
    match find(template, "\n## "@) {
        Some(i) => Some(template.skip(i + 1)),
        None => None,
    }
}

/// The frontmatter entries a synthesized record carries: `Stable-Id`, then
/// each required field in order -- `Date` and `Author` filled, any other
/// left null.
pub open spec fn synthetic_entries(
    stable_id: Seq<char>,
    author: Seq<char>,
    today: Seq<char>,
    required: Seq<Seq<char>>,
) -> Seq<(Seq<char>, Option<Seq<char>>)> {
    seq![("Stable-Id"@, Some(stable_id))] + required.map_values(
        |f: Seq<char>|
            (
                f,
                if f == "Date"@ {
                    Some(today)
                } else if f == "Author"@ {
                    Some(author)
                } else {
                    None
                },
            ),
    )
}

/// `str::trim_start_matches(p)`: every leading repetition of `p` removed.
pub open spec fn strip_leading(s: Seq<char>, p: Seq<char>) -> Seq<char>
    decreases s.len(),
{
    if p.len() > 0 && starts_with(s, p) {
        strip_leading(s.skip(p.len() as int), p)
    } else {
        s
    }
}

/// A synthesized record around serialized frontmatter text: fenced by
/// `---` lines (the serializer's own document marker dropped), then the H1.
pub open spec fn framed(yaml_body: Seq<char>, number: Seq<char>, title: Seq<char>) -> Seq<char> {
    let head = "---\n"@ + strip_leading(yaml_body, "---\n"@);
    let head = if ends_with(head, "\n"@) {
        head
    } else {
        head.push('\n')
    };
    head + "---\n# "@ + number + " — "@ + title + "\n"@
}

fn push_str(out: &mut Vec<char>, t: &str)
    ensures
        final(out)@ == old(out)@ + t@,
{
    let cs = chars_of(t);
    let ghost start = out@;
    let mut k: usize = 0;
    while k < cs.len()
        invariant
            k <= cs.len(),
            out@ == start + cs@.take(k as int),
        decreases cs.len() - k,
    {
        out.push(cs[k]);
        assert(cs@.take(k + 1) =~= cs@.take(k as int).push(cs@[k as int]));
        k += 1;
    }
    assert(cs@.take(cs.len() as int) =~= cs@);
}

/// Frame serialized frontmatter as a new record: `yaml_body` is what the
/// serializer wrote for the record's entries.
pub fn frame_synthetic_yaml(yaml_body: &str, params: &NewRecordParams) -> (r: String)
    ensures
        r@ == framed(yaml_body@, decimal(params.display_number as nat), params.title@),
{
    proof {
        reveal_strlit("---\n");
        reveal_strlit("\n");
    }
    let body = chars_of(yaml_body);
    let marker = chars_of("---\n");
    let mut rest = slice_vec(&body, 0, body.len());
    assert(rest@ =~= body@);
    while starts_with_exec(&rest, &marker)
        invariant
            marker@ == "---\n"@,
            marker@.len() == 4,
            strip_leading(rest@, marker@) == strip_leading(body@, marker@),
        decreases rest.len(),
    {
        assert(strip_leading(rest@, marker@) == strip_leading(rest@.skip(4), marker@));
        rest = slice_vec(&rest, 4, rest.len());
    }
    let mut out = chars_of("---\n");
    let ghost start = out@;
    let mut k: usize = 0;
    while k < rest.len()
        invariant
            k <= rest.len(),
            out@ == start + rest@.take(k as int),
        decreases rest.len() - k,
    {
        out.push(rest[k]);
        assert(rest@.take(k + 1) =~= rest@.take(k as int).push(rest@[k as int]));
        k += 1;
    }
    assert(rest@.take(rest.len() as int) =~= rest@);
    let nl = vec!['\n'];
    assert(nl@ =~= "\n"@);
    if !ends_with_exec(&out, &nl) {
        out.push('\n');
    }
    push_str(&mut out, "---\n# ");
    let digits = decimal_string(params.display_number as u64);
    let ghost before_digits = out@;
    let mut j: usize = 0;
    while j < digits.len()
        invariant
            j <= digits.len(),
            out@ == before_digits + digits@.take(j as int),
        decreases digits.len() - j,
    {
        out.push(digits[j]);
        assert(digits@.take(j + 1) =~= digits@.take(j as int).push(digits@[j as int]));
        j += 1;
    }
    assert(digits@.take(digits.len() as int) =~= digits@);
    push_str(&mut out, " — ");
    push_str(&mut out, params.title);
    push_str(&mut out, "\n");
    string_of(&out)
}

/// The frontmatter entries of a synthesized record.
fn synthetic_entries_exec(params: &NewRecordParams, required_fields: &[String]) -> (r: Vec<(String, Option<String>)>)
    ensures
        crate::yaml::yaml_entry_views(r@) == synthetic_entries(
            params.stable_id@,
            params.author@,
            params.today@,
            required_fields@.map_values(|s: String| s@),
        ),
{
    let ghost req = required_fields@.map_values(|s: String| s@);
    let ghost mapped = req.map_values(
        |f: Seq<char>|
            (
                f,
                if f == "Date"@ {
                    Some(params.today@)
                } else if f == "Author"@ {
                    Some(params.author@)
                } else {
                    None
                },
            ),
    );
    let mut out: Vec<(String, Option<String>)> = Vec::new();
    out.push((copy_text("Stable-Id"), Some(copy_text(params.stable_id))));
    assert(crate::yaml::yaml_entry_views(out@) =~= seq![("Stable-Id"@, Some(params.stable_id@))]);
    let mut i: usize = 0;
    while i < required_fields.len()
        invariant
            i <= required_fields.len(),
            req == required_fields@.map_values(|s: String| s@),
            mapped.len() == req.len(),
            forall|k: int| 0 <= k < req.len() ==> #[trigger] mapped[k] == (
                req[k],
                if req[k] == "Date"@ {
                    Some(params.today@)
                } else if req[k] == "Author"@ {
                    Some(params.author@)
                } else {
                    None
                },
            ),
            crate::yaml::yaml_entry_views(out@) == seq![("Stable-Id"@, Some(params.stable_id@))] + mapped.take(
                i as int,
            ),
        decreases required_fields.len() - i,
    {
        let f = required_fields[i].as_str();
        let value = if crate::text::str_eq(f, "Date") {
            Some(copy_text(params.today))
        } else if crate::text::str_eq(f, "Author") {
            Some(copy_text(params.author))
        } else {
            None
        };
        let ghost before = crate::yaml::yaml_entry_views(out@);
        out.push((copy_text(f), value));
        assert(req[i as int] == f@);
        assert(crate::yaml::yaml_entry_views(out@) =~= before.push(mapped[i as int]));
        assert(mapped.take(i + 1) =~= mapped.take(i as int).push(mapped[i as int]));
        i += 1;
    }
    assert(mapped.take(required_fields.len() as int) =~= mapped);
    out
}

fn copy_text(s: &str) -> (r: String)
    ensures
        r@ == s@,
{
    s.to_owned()
}

/// A new record for a type whose header is YAML frontmatter: `Stable-Id`
/// and each of the type's required fields (`Date` and `Author` filled, the
/// rest null), serialized by the YAML library so any value that needs
/// quoting gets it, then the H1.
pub fn render_synthetic_yaml(params: &NewRecordParams, required_fields: &[String]) -> (r: String)
    ensures
        r@ == framed(
            crate::yaml::yaml_mapping_text(
                synthetic_entries(
                    params.stable_id@,
                    params.author@,
                    params.today@,
                    required_fields@.map_values(|s: String| s@),
                ),
            ),
            decimal(params.display_number as nat),
            params.title@,
        ),
{
    let entries = synthetic_entries_exec(params, required_fields);
    let body = crate::yaml::mapping_to_yaml(&entries);
    frame_synthetic_yaml(body.as_str(), params)
}

/// A template's body, from its first `## ` section heading on; `None`
/// without one.
pub fn template_body(template: &str) -> (r: Option<&str>)
    ensures
        match r {
            Some(b) => body_of(template@) == Some(b@),
            None => body_of(template@) is None,
        },
{
    let cs = chars_of(template);
    let pat = chars_of("\n## ");
    proof {
        reveal_strlit("\n## ");
    }
    match find_exec(&cs, &pat) {
        Some(i) => {
            proof {
                lemma_find_from_result(cs@, pat@, 0);
            }
            assert(matches_at(cs@, pat@, i as int));
            assert(pat@.len() == 4);
            assert(i + 4 <= cs.len());
            let b = template.substring_char(i + 1, cs.len());
            assert(b@ =~= template@.skip(i + 1));
            Some(b)
        },
        None => None,
    }
}

/// A new record's filename: `PREFIX-N-slug.md`, the number never padded.
pub open spec fn new_filename(prefix: Seq<char>, number: nat, title: Seq<char>) -> Seq<char> {
    prefix + "-"@ + decimal(number) + "-"@ + slug(title) + ".md"@
}

/// The filename a new record takes.
pub fn new_record_filename(type_prefix: &str, display_number: u32, title: &str) -> (r: String)
    ensures
        r@ == new_filename(type_prefix@, display_number as nat, title@),
{
    let mut out: Vec<char> = Vec::new();
    push_str(&mut out, type_prefix);
    push_str(&mut out, "-");
    let digits = decimal_string(display_number as u64);
    let ghost before = out@;
    let mut j: usize = 0;
    while j < digits.len()
        invariant
            j <= digits.len(),
            out@ == before + digits@.take(j as int),
        decreases digits.len() - j,
    {
        out.push(digits[j]);
        assert(digits@.take(j + 1) =~= digits@.take(j as int).push(digits@[j as int]));
        j += 1;
    }
    assert(digits@.take(digits.len() as int) =~= digits@);
    push_str(&mut out, "-");
    let s = slugify(title);
    push_str(&mut out, s.as_str());
    push_str(&mut out, ".md");
    string_of(&out)
}

/// A new record's content. A type whose header is YAML frontmatter gets
/// synthesized frontmatter, followed by the template's body when there is
/// a template with one: the declared shape wins over the template's own
/// header. Any other type is rendered from its template, and without one
/// there is nothing to render.
pub open spec fn composed(
    shape: HeaderShape,
    synthetic: Seq<char>,
    template: Option<Seq<char>>,
    number: Seq<char>,
    title: Seq<char>,
    stable_id: Seq<char>,
    author: Seq<char>,
    today: Seq<char>,
) -> Option<Seq<char>> {
    if shape == HeaderShape::YamlFrontmatter {
        Some(
            synthetic + match template {
                Some(t) => match body_of(t) {
                    Some(b) => "\n"@ + b,
                    None => Seq::empty(),
                },
                None => Seq::empty(),
            },
        )
    } else {
        match template {
            Some(t) => Some(rendered(t, number, title, stable_id, author, today)),
            None => None,
        }
    }
}

/// Compose a new record of a type with header `shape` from its template,
/// if it has one; `None` when the type needs a template and has none.
pub fn compose_new_record(
    shape: HeaderShape,
    params: &NewRecordParams,
    required_fields: &[String],
    template: Option<&str>,
) -> (r: Option<String>)
    ensures
        match r {
            Some(c) => composed(
                shape,
                framed(
                    crate::yaml::yaml_mapping_text(
                        synthetic_entries(
                            params.stable_id@,
                            params.author@,
                            params.today@,
                            required_fields@.map_values(|s: String| s@),
                        ),
                    ),
                    decimal(params.display_number as nat),
                    params.title@,
                ),
                match template {
                    Some(t) => Some(t@),
                    None => None,
                },
                decimal(params.display_number as nat),
                params.title@,
                params.stable_id@,
                params.author@,
                params.today@,
            ) == Some(c@),
            None => composed(
                shape,
                Seq::empty(),
                match template {
                    Some(t) => Some(t@),
                    None => None,
                },
                decimal(params.display_number as nat),
                params.title@,
                params.stable_id@,
                params.author@,
                params.today@,
            ) is None,
        },
{
    if shape == HeaderShape::YamlFrontmatter {
        let synthetic = render_synthetic_yaml(params, required_fields);
        let mut out = chars_of(synthetic.as_str());
        match template {
            Some(t) => match template_body(t) {
                Some(b) => {
                    push_str(&mut out, "\n");
                    push_str(&mut out, b);
                },
                None => {},
            },
            None => {},
        }
        Some(string_of(&out))
    } else {
        match template {
            Some(t) => Some(render_from_template(t, params)),
            None => None,
        }
    }
}

} // verus!
