//! Reading a record's body: its H1 title, and the entries of its revision
//! log table.
use crate::text::{
    all_digits, chars_of, contains, contains_exec, decimal_value, is_digit, is_digit_char, lines, lines_exec,
    parse_u64, parses_u64, seq_eq, slice_vec, split_char, split_char_exec, starts_with, starts_with_exec, string_of,
    trim, trim_start, trim_start_vec, trim_vec, views, words, words_exec,
};
use vstd::prelude::*;

verus! {

/// How many times `c` repeats at the start of `s`.
pub open spec fn lead_run(s: Seq<char>, c: char) -> nat
    decreases s.len(),
{
    if s.len() > 0 && s[0] == c {
        1 + lead_run(s.drop_first(), c)
    } else {
        0
    }
}

/// A line that opens or closes a code fence: three or more backticks or
/// tildes after any indentation.
pub open spec fn fence_line(t: Seq<char>) -> bool {
    t.len() > 0 && (t[0] == '`' || t[0] == '~') && lead_run(t, t[0]) >= 3
}

/// The fence state after a fence line `t`: a fence closes only on its own
/// marker, at its own length or longer, with nothing after the run; a
/// shorter run or the other marker is content.
pub open spec fn next_fence(fence: Option<(char, nat)>, t: Seq<char>) -> Option<(char, nat)> {
    let m = t[0];
    let run = lead_run(t, m);
    match fence {
        Some((open, len)) => if m == open && run >= len && trim(t.skip(run as int)).len() == 0 {
            None
        } else {
            fence
        },
        None => Some((m, run)),
    }
}

/// The first H1 title from line `i` on: `(line number, title text)`. Lines up
/// to `skip` (a frontmatter region) are passed over, as is anything inside a
/// code fence; a bare `#` is skipped, never taken as the title.
pub open spec fn h1_from(
    ls: Seq<Seq<char>>,
    i: int,
    skip: Option<int>,
    fence: Option<(char, nat)>,
) -> Option<(int, Seq<char>)>
    decreases ls.len() - i,
{
    if i < 0 || i >= ls.len() {
        None
    } else {
        let line = ls[i];
        let t = trim_start(line);
        if skip matches Some(end) && i + 1 <= end {
            h1_from(ls, i + 1, skip, fence)
        } else if fence_line(t) {
            h1_from(ls, i + 1, skip, next_fence(fence, t))
        } else if fence is Some || !starts_with(line, seq!['#', ' ']) {
            h1_from(ls, i + 1, skip, fence)
        } else if trim(line.skip(2)).len() == 0 {
            h1_from(ls, i + 1, skip, fence)
        } else {
            Some((i + 1, trim(line.skip(2))))
        }
    }
}

/// Only a header region opening at line 1 is frontmatter to skip: other
/// header shapes sit after the title.
pub open spec fn frontmatter_end(region: Option<(usize, usize)>) -> Option<int> {
    match region {
        Some((start, end)) => if start == 1 {
            Some(end as int)
        } else {
            None
        },
        None => None,
    }
}

/// The document's first H1 title: its 1-indexed line and trimmed text.
pub open spec fn first_h1(content: Seq<char>, region: Option<(usize, usize)>) -> Option<(int, Seq<char>)> {
    h1_from(lines(content), 0, frontmatter_end(region), None)
}

/// The ASCII digits of `s`, in order.
pub open spec fn digits_of(s: Seq<char>) -> Seq<char>
    decreases s.len(),
{
    if s.len() == 0 {
        Seq::empty()
    } else {
        digits_of(s.drop_last()) + if is_digit_char(s.last()) {
            seq![s.last()]
        } else {
            Seq::empty()
        }
    }
}

/// The number an H1 title claims: the digits of its first word, when they
/// parse.
pub open spec fn title_number(text: Seq<char>) -> Option<nat> {
    let ws = words(text);
    let first = if ws.len() > 0 {
        ws[0]
    } else {
        Seq::empty()
    };
    let ds = digits_of(first);
    if parses_u64(ds) {
        Some(decimal_value(ds))
    } else {
        None
    }
}

/// A found title.
pub struct H1 {
    /// 1-indexed line number.
    pub line: usize,
    pub text: Vec<char>,
    /// The number the title claims, compared by value.
    pub number: Option<u64>,
}

fn lead_run_exec(s: &[char], c: char) -> (n: usize)
    ensures
        n == lead_run(s@, c),
        n <= s.len(),
{
    let mut n: usize = 0;
    assert(s@.skip(0) =~= s@);
    while n < s.len() && s[n] == c
        invariant
            n <= s.len(),
            lead_run(s@, c) == n + lead_run(s@.skip(n as int), c),
        decreases s.len() - n,
    {
        assert(s@.skip(n as int).drop_first() =~= s@.skip(n + 1));
        n += 1;
    }
    n
}

fn digits_exec(s: &[char]) -> (r: Vec<char>)
    ensures
        r@ == digits_of(s@),
{
    let mut r: Vec<char> = Vec::new();
    let mut i: usize = 0;
    while i < s.len()
        invariant
            i <= s.len(),
            r@ == digits_of(s@.take(i as int)),
        decreases s.len() - i,
    {
        assert(s@.take(i + 1).drop_last() =~= s@.take(i as int));
        if is_digit(s[i]) {
            r.push(s[i]);
            assert(r@ =~= digits_of(s@.take(i as int)) + seq![s@[i as int]]);
        } else {
            assert(digits_of(s@.take(i + 1)) =~= digits_of(s@.take(i as int)));
        }
        i += 1;
    }
    assert(s@.take(s.len() as int) =~= s@);
    r
}

/// The document's first H1 title, with the number its first word claims.
pub fn find_first_h1(content: &str, region: Option<(usize, usize)>) -> (r: Option<H1>)
    ensures
        match r {
            Some(h) => first_h1(content@, region) == Some((h.line as int, h.text@)) && match h.number {
                Some(n) => title_number(h.text@) == Some(n as nat),
                None => title_number(h.text@) is None,
            },
            None => first_h1(content@, region) is None,
        },
{
    let cs = chars_of(content);
    let ls = lines_exec(&cs);
    let ghost lv = views(ls@);
    let skip: Option<usize> = match region {
        Some((start, end)) => if start == 1 {
            Some(end)
        } else {
            None
        },
        None => None,
    };
    let ghost skip_spec = frontmatter_end(region);
    let mut fence: Option<(char, usize)> = None;
    let mut i: usize = 0;
    while i < ls.len()
        invariant
            i <= ls.len(),
            lv == views(ls@),
            lv == lines(content@),
            skip_spec == frontmatter_end(region),
            skip_spec == match skip {
                Some(e) => Some(e as int),
                None => None::<int>,
            },
            h1_from(lv, 0, skip_spec, None) == h1_from(
                lv,
                i as int,
                skip_spec,
                match fence {
                    Some((m, n)) => Some((m, n as nat)),
                    None => None,
                },
            ),
        decreases ls.len() - i,
    {
        let ghost f = match fence {
            Some((m, n)) => Some((m, n as nat)),
            None => None::<(char, nat)>,
        };
        let line = &ls[i];
        assert(lv[i as int] == line@);
        let skipped = match skip {
            Some(end) => i + 1 <= end,
            None => false,
        };
        if skipped {
            i += 1;
            continue;
        }
        let t = trim_start_vec(line);
        if t.len() > 0 && (t[0] == '`' || t[0] == '~') {
            let m = t[0];
            let run = lead_run_exec(&t, m);
            if run >= 3 {
                let new_fence = match fence {
                    Some((open, len)) => {
                        let rest = slice_vec(&t, run, t.len());
                        assert(rest@ =~= t@.skip(run as int));
                        let rt = trim_vec(&rest);
                        if m == open && run >= len && rt.len() == 0 {
                            None
                        } else {
                            fence
                        }
                    },
                    None => Some((m, run)),
                };
                fence = new_fence;
                i += 1;
                continue;
            }
        }
        let hash = vec!['#', ' '];
        assert(hash@ =~= seq!['#', ' ']);
        if fence.is_some() || !starts_with_exec(line, &hash) {
            i += 1;
            continue;
        }
        let after = slice_vec(line, 2, line.len());
        assert(after@ =~= line@.skip(2));
        let text = trim_vec(&after);
        if text.len() == 0 {
            i += 1;
            continue;
        }
        let ws = words_exec(&text);
        let first: Vec<char> = if ws.len() > 0 {
            assert(views(ws@)[0] == ws@[0]@);
            slice_vec(&ws[0], 0, ws[0].len())
        } else {
            Vec::new()
        };
        assert(ws@.len() > 0 ==> ws@[0]@.subrange(0, ws@[0]@.len() as int) =~= ws@[0]@);
        let ds = digits_exec(&first);
        let number = parse_u64(&ds);
        return Some(H1 { line: i + 1, text, number });
    }
    None
}

/// A title as reports quote it: at most sixty characters, then `…`.
pub open spec fn elided(text: Seq<char>) -> Seq<char> {
    if text.len() <= 60 {
        text
    } else {
        text.take(60).push('\u{2026}')
    }
}

/// `text`, elided to sixty characters.
pub fn elide(text: &[char]) -> (r: Vec<char>)
    ensures
        r@ == elided(text@),
{
    if text.len() <= 60 {
        return slice_vec(text, 0, text.len());
    }
    let mut r = slice_vec(text, 0, 60);
    r.push('\u{2026}');
    r
}


// ---------------------------------------------------------------------------
// Revision log
// ---------------------------------------------------------------------------

/// `s` with every trailing `c` removed.
pub open spec fn trim_end_char(s: Seq<char>, c: char) -> Seq<char>
    decreases s.len(),
{
    if s.len() > 0 && s.last() == c {
        trim_end_char(s.drop_last(), c)
    } else {
        s
    }
}

/// `str::trim_matches(c)`: every leading and trailing `c` removed.
pub open spec fn trim_char(s: Seq<char>, c: char) -> Seq<char> {
    trim_end_char(s.skip(lead_run(s, c) as int), c)
}

/// A table row as read: indentation, blockquote markers and surrounding
/// whitespace removed.
pub open spec fn row_text(raw: Seq<char>) -> Seq<char> {
    let t = trim_start(raw);
    trim(t.skip(lead_run(t, '>') as int))
}

/// A row's cells, each trimmed.
pub open spec fn cells_of(row: Seq<char>) -> Seq<Seq<char>> {
    split_char(trim_char(row, '|'), '|').map_values(|c: Seq<char>| trim(c))
}

/// A separator row: every cell a non-empty run of `-`.
pub open spec fn separator_row(cells: Seq<Seq<char>>) -> bool {
    forall|i: int| 0 <= i < cells.len() ==> (#[trigger] cells[i]).len() > 0 && forall|j: int|
        0 <= j < cells[i].len() ==> cells[i][j] == '-'
}

/// An entry as `(date, change class, 1-indexed line)`.
pub type EntryV = (Seq<char>, Seq<char>, int);

/// The entries of the table rows from line `i` on; `row` counts the rows
/// seen so far (the first is the header). Blank lines before the table are
/// skipped; a blank line or a non-row after it ends the table.
pub open spec fn rows_from(ls: Seq<Seq<char>>, i: int, row: nat) -> Seq<EntryV>
    decreases ls.len() - i,
{
    if i < 0 || i >= ls.len() {
        Seq::empty()
    } else {
        let st = row_text(ls[i]);
        if st.len() == 0 {
            if row == 0 {
                rows_from(ls, i + 1, 0)
            } else {
                Seq::empty()
            }
        } else if st[0] != '|' {
            Seq::empty()
        } else {
            let cells = cells_of(st);
            if row + 1 == 1 || separator_row(cells) {
                rows_from(ls, i + 1, row + 1)
            } else {
                seq![(cells[0], cells.last(), i + 1)] + rows_from(ls, i + 1, row + 1)
            }
        }
    }
}

/// The first line holding the `**Revision log**` marker.
pub open spec fn marker_from(ls: Seq<Seq<char>>, i: int) -> Option<int>
    decreases ls.len() - i,
{
    if i < 0 || i >= ls.len() {
        None
    } else if contains(ls[i], "**Revision log**"@) {
        Some(i)
    } else {
        marker_from(ls, i + 1)
    }
}

/// The entries of the table following the `**Revision log**` marker;
/// `None` when the record has no such section at all.
pub open spec fn revision_entries(content: Seq<char>) -> Option<Seq<EntryV>> {
    let ls = lines(content);
    match marker_from(ls, 0) {
        Some(m) => Some(rows_from(ls, m + 1, 0)),
        None => None,
    }
}

/// One revision-log row.
pub struct RevisionLogEntry {
    pub date: String,
    pub change_class: String,
    /// 1-indexed line.
    pub line: usize,
}

pub open spec fn entry_views(es: Seq<RevisionLogEntry>) -> Seq<EntryV> {
    es.map_values(|e: RevisionLogEntry| (e.date@, e.change_class@, e.line as int))
}

/// `str::trim_matches(c)`.
pub fn trim_char_exec(s: &[char], c: char) -> (r: Vec<char>)
    ensures
        r@ == trim_char(s@, c),
{
    let lead = lead_run_exec(s, c);
    let mut j: usize = s.len();
    let ghost rest = s@.skip(lead as int);
    assert(rest.take((j - lead) as int) =~= rest);
    while j > lead && s[j - 1] == c
        invariant
            lead <= j <= s.len(),
            rest == s@.skip(lead as int),
            trim_end_char(rest, c) == trim_end_char(rest.take((j - lead) as int), c),
        decreases j,
    {
        assert(rest.take((j - lead) as int).drop_last() =~= rest.take((j - 1 - lead) as int));
        j -= 1;
    }
    let r = slice_vec(s, lead, j);
    assert(r@ =~= rest.take((j - lead) as int));
    r
}

fn row_text_exec(raw: &[char]) -> (r: Vec<char>)
    ensures
        r@ == row_text(raw@),
{
    let t = trim_start_vec(raw);
    let n = lead_run_exec(&t, '>');
    let rest = slice_vec(&t, n, t.len());
    assert(rest@ =~= t@.skip(n as int));
    trim_vec(&rest)
}

fn cells_exec(row: &[char]) -> (r: Vec<Vec<char>>)
    ensures
        views(r@) == cells_of(row@),
{
    let inner = trim_char_exec(row, '|');
    let parts = split_char_exec(&inner, '|');
    let ghost pv = views(parts@);
    let mut r: Vec<Vec<char>> = Vec::new();
    let mut i: usize = 0;
    while i < parts.len()
        invariant
            i <= parts.len(),
            pv == views(parts@),
            views(r@) == pv.take(i as int).map_values(|c: Seq<char>| trim(c)),
        decreases parts.len() - i,
    {
        let ghost before = views(r@);
        r.push(trim_vec(&parts[i]));
        assert(views(r@) =~= before.push(trim(pv[i as int])));
        assert(pv.take(i + 1).map_values(|c: Seq<char>| trim(c)) =~= pv.take(i as int).map_values(
            |c: Seq<char>| trim(c),
        ).push(trim(pv[i as int])));
        i += 1;
    }
    assert(pv.take(parts.len() as int) =~= pv);
    r
}

fn is_separator(cells: &Vec<Vec<char>>) -> (b: bool)
    ensures
        b == separator_row(views(cells@)),
{
    let ghost cv = views(cells@);
    let mut i: usize = 0;
    while i < cells.len()
        invariant
            i <= cells.len(),
            cv == views(cells@),
            forall|k: int| 0 <= k < i ==> (#[trigger] cv[k]).len() > 0 && forall|j: int|
                0 <= j < cv[k].len() ==> cv[k][j] == '-',
        decreases cells.len() - i,
    {
        let c = &cells[i];
        assert(cv[i as int] == c@);
        if c.len() == 0 {
            return false;
        }
        let mut j: usize = 0;
        while j < c.len()
            invariant
                i < cells.len(),
                cv == views(cells@),
                c@ == cv[i as int],
                j <= c.len(),
                forall|m: int| 0 <= m < j ==> c@[m] == '-',
            decreases c.len() - j,
        {
            if c[j] != '-' {
                return false;
            }
            j += 1;
        }
        i += 1;
    }
    true
}

fn find_marker(ls: &Vec<Vec<char>>) -> (r: Option<usize>)
    ensures
        match r {
            Some(m) => m < ls@.len() && marker_from(views(ls@), 0) == Some(m as int),
            None => marker_from(views(ls@), 0) is None,
        },
{
    let ghost lv = views(ls@);
    let marker = chars_of("**Revision log**");
    let mut m: usize = 0;
    while m < ls.len()
        invariant
            m <= ls.len(),
            lv == views(ls@),
            marker@ == "**Revision log**"@,
            marker_from(lv, 0) == marker_from(lv, m as int),
        decreases ls.len() - m,
    {
        assert(lv[m as int] == ls@[m as int]@);
        if contains_exec(&ls[m], &marker) {
            return Some(m);
        }
        m += 1;
    }
    None
}

/// The entries of the revision log table, or `None` when the record has no
/// `**Revision log**` section.
pub fn find_revision_log_entries(content: &str) -> (r: Option<Vec<RevisionLogEntry>>)
    ensures
        match r {
            Some(es) => revision_entries(content@) == Some(entry_views(es@)),
            None => revision_entries(content@) is None,
        },
{
    let cs = chars_of(content);
    let ls = lines_exec(&cs);
    let ghost lv = views(ls@);
    let m = match find_marker(&ls) {
        Some(m) => m,
        None => return None,
    };
    let mut entries: Vec<RevisionLogEntry> = Vec::new();
    let mut row: usize = 0;
    assert(m < ls.len());
    let mut i: usize = m + 1;
    while i < ls.len()
        invariant
            m < ls.len(),
            m + 1 <= i <= ls.len(),
            row <= i,
            lv == views(ls@),
            lv == lines(content@),
            marker_from(lv, 0) == Some(m as int),
            rows_from(lv, (m + 1) as int, 0) == entry_views(entries@) + rows_from(lv, i as int, row as nat),
        decreases ls.len() - i,
    {
        assert(lv[i as int] == ls@[i as int]@);
        let st = row_text_exec(&ls[i]);
        if st.len() == 0 {
            if row == 0 {
                i += 1;
                continue;
            }
            assert(rows_from(lv, i as int, row as nat) =~= Seq::<EntryV>::empty());
            assert(entry_views(entries@) + Seq::<EntryV>::empty() =~= entry_views(entries@));
            return Some(entries);
        }
        if st[0] != '|' {
            assert(entry_views(entries@) + Seq::<EntryV>::empty() =~= entry_views(entries@));
            return Some(entries);
        }
        let cells = cells_exec(&st);
        let ghost cv = views(cells@);
        row += 1;
        if row == 1 || is_separator(&cells) {
            i += 1;
            continue;
        }
        proof {
            crate::text::lemma_split_char_nonempty(trim_char(st@, '|'), '|');
        }
        assert(cells@.len() >= 1);
        assert(cv[0] == cells@[0]@);
        assert(cv.last() == cells@[cells.len() - 1]@);
        let entry = RevisionLogEntry {
            date: string_of(&cells[0]),
            change_class: string_of(&cells[cells.len() - 1]),
            line: i + 1,
        };
        let ghost before = entry_views(entries@);
        entries.push(entry);
        assert(entry_views(entries@) =~= before + seq![(cv[0], cv.last(), i + 1)]);
        i += 1;
    }
    assert(rows_from(lv, i as int, row as nat) =~= Seq::<EntryV>::empty());
    assert(entry_views(entries@) + Seq::<EntryV>::empty() =~= entry_views(entries@));
    Some(entries)
}
} // verus!
