//! The record header as a closed structure: located by anchoring to the
//! metadata shape, never a positional slice, and parsed by exactly one
//! function so no check runs its own scan over raw text.
use crate::text::{
    chars_of, contains, contains_exec, eq_ignore_case, find, find_exec, lemma_find_from_result,
    lemma_split_char_nonempty, lines, lines_exec, seq_eq, seq_eq_ignore_case, slice_vec,
    split_once, split_once_exec, split_str, split_str_exec, starts_with, starts_with_exec,
    string_of, trim, lemma_trim_idempotent, trim_end, trim_end_vec, trim_start, trim_start_vec, trim_vec, views,
};
use crate::yaml::{parse_yaml_document, yaml_document, yaml_result_view, YamlDocument, YamlDocumentView, YamlValue, YamlValueView};
use vstd::prelude::*;

verus! {

/// One field as found in the header region, with its line number (1-indexed,
/// relative to the whole document) for diagnostics.
#[derive(Debug, Clone, PartialEq, Eq)]
pub struct HeaderField {
    pub key: String,
    pub value: String,
    pub line: usize,
}

/// A field as `(key, value, line)`.
pub type FieldV = (Seq<char>, Seq<char>, int);

impl View for HeaderField {
    type V = FieldV;

    open spec fn view(&self) -> FieldV {
        (self.key@, self.value@, self.line as int)
    }
}

pub open spec fn field_views(fs: Seq<HeaderField>) -> Seq<FieldV> {
    fs.map_values(|f: HeaderField| f@)
}

/// How a type's header is written. Declared per record type, never sniffed.
#[derive(Debug, Clone, Copy, PartialEq, Eq, Structural)]
pub enum HeaderShape {
    /// `> Key: Value` lines, one field per line or several pipe-delimited on
    /// one line, each optionally bold-labelled (`> **Key:** Value`).
    Blockquote,
    /// `- **Key:** Value`, anchored by a leading markdown list marker.
    BoldList,
    /// A `---`-fenced YAML mapping opening the document.
    YamlFrontmatter,
    /// No header at all, by declaration (`header_shape: none`).
    Headerless,
}

impl Default for HeaderShape {
    /// The long-standing blockquote shape.
    fn default() -> (r: Self)
        ensures
            r == HeaderShape::Blockquote,
    {
        HeaderShape::Blockquote
    }
}

/// How a blockquote header lays its fields out over lines.
#[derive(Debug, Clone, Copy, PartialEq, Eq, Structural)]
pub enum HeaderLayout {
    OnePerLine,
    PipeDelimited,
}

/// The parsed header: an ordered list of fields plus the region's own
/// boundaries.
#[derive(Debug, Clone, PartialEq, Eq)]
pub struct Header {
    pub fields: Vec<HeaderField>,
    /// 1-indexed, inclusive line range of the header region. `None` if no
    /// header-shaped region was found at all.
    pub region: Option<(usize, usize)>,
    /// The YAML parser's message when a frontmatter block did not parse.
    pub parse_error: Option<String>,
    /// The line layout a blockquote or bold-list header used; `None` when
    /// there is no such header.
    pub layout: Option<HeaderLayout>,
}

/// The result of reading a declared field.
#[derive(Debug, Clone, Copy, PartialEq, Eq)]
pub enum FieldRead<'a> {
    Present(&'a str),
    Missing,
    /// The header itself did not parse, so no field can be read.
    Unreadable,
}

/// The first field whose key is exactly `key`.
pub open spec fn first_exact(fs: Seq<FieldV>, key: Seq<char>) -> Option<int>
    decreases fs.len(),
{
    if fs.len() == 0 {
        None
    } else {
        match first_exact(fs.drop_last(), key) {
            Some(i) => Some(i),
            None => if fs.last().0 == key {
                Some(fs.len() - 1)
            } else {
                None
            },
        }
    }
}

/// The first field whose key equals `key` ignoring ASCII case.
pub open spec fn first_ignore_case(fs: Seq<FieldV>, key: Seq<char>) -> Option<int>
    decreases fs.len(),
{
    if fs.len() == 0 {
        None
    } else {
        match first_ignore_case(fs.drop_last(), key) {
            Some(i) => Some(i),
            None => if eq_ignore_case(fs.last().0, key) {
                Some(fs.len() - 1)
            } else {
                None
            },
        }
    }
}

pub proof fn lemma_first_exact(fs: Seq<FieldV>, key: Seq<char>)
    ensures
        first_exact(fs, key) matches Some(i) ==> 0 <= i < fs.len() && fs[i].0 == key && forall|
            k: int,
        | 0 <= k < i ==> fs[k].0 != key,
        first_exact(fs, key) is None ==> forall|k: int| 0 <= k < fs.len() ==> fs[k].0 != key,
    decreases fs.len(),
{
    if fs.len() > 0 {
        lemma_first_exact(fs.drop_last(), key);
        assert forall|k: int| 0 <= k < fs.len() - 1 implies fs.drop_last()[k] == fs[k] by {}
    }
}

pub proof fn lemma_first_ignore_case(fs: Seq<FieldV>, key: Seq<char>)
    ensures
        first_ignore_case(fs, key) matches Some(i) ==> 0 <= i < fs.len() && eq_ignore_case(
            fs[i].0,
            key,
        ) && forall|k: int| 0 <= k < i ==> !eq_ignore_case(fs[k].0, key),
        first_ignore_case(fs, key) is None ==> forall|k: int|
            0 <= k < fs.len() ==> !eq_ignore_case(fs[k].0, key),
    decreases fs.len(),
{
    if fs.len() > 0 {
        lemma_first_ignore_case(fs.drop_last(), key);
        assert forall|k: int| 0 <= k < fs.len() - 1 implies fs.drop_last()[k] == fs[k] by {}
    }
}

/// The value `Header::get` reads for `key`.
pub open spec fn get_spec(fs: Seq<FieldV>, key: Seq<char>) -> Option<Seq<char>> {
    match first_exact(fs, key) {
        Some(i) => Some(fs[i].1),
        None => None,
    }
}

/// The value `Header::get_reserved` reads for `key`.
pub open spec fn get_reserved_spec(fs: Seq<FieldV>, key: Seq<char>) -> Option<Seq<char>> {
    match first_ignore_case(fs, key) {
        Some(i) => Some(fs[i].1),
        None => None,
    }
}

/// The keys `Header::duplicate_keys` reports: each key (as first written)
/// whose ASCII-lowercased form an earlier field already used, listed once.
pub open spec fn duplicates(fs: Seq<FieldV>) -> Seq<Seq<char>>
    decreases fs.len(),
{
    if fs.len() == 0 {
        Seq::empty()
    } else {
        let d = duplicates(fs.drop_last());
        let key = fs.last().0;
        let seen_before = exists|j: int| 0 <= j < fs.len() - 1 && eq_ignore_case(fs[j].0, key);
        if seen_before && !d.contains(key) {
            d.push(key)
        } else {
            d
        }
    }
}

impl Header {
    pub open spec fn fields_v(&self) -> Seq<FieldV> {
        field_views(self.fields@)
    }

    /// The header region could not be located or did not parse.
    pub open spec fn unreadable_spec(&self) -> bool {
        self.region is None || self.parse_error is Some
    }

    fn find_exact(&self, key: &[char]) -> (r: Option<usize>)
        ensures
            r matches Some(i) ==> first_exact(self.fields_v(), key@) == Some(i as int),
            r is None ==> first_exact(self.fields_v(), key@) is None,
    {
        let mut i: usize = 0;
        while i < self.fields.len()
            invariant
                i <= self.fields.len(),
                forall|k: int| 0 <= k < i ==> self.fields_v()[k].0 != key@,
            decreases self.fields.len() - i,
        {
            let k = chars_of(self.fields[i].key.as_str());
            assert(self.fields_v()[i as int] == self.fields@[i as int]@);
            if seq_eq(&k, key) {
                proof {
                    lemma_first_exact(self.fields_v(), key@);
                }
                return Some(i);
            }
            i += 1;
        }
        proof {
            lemma_first_exact(self.fields_v(), key@);
        }
        None
    }

    fn find_ignore_case(&self, key: &[char]) -> (r: Option<usize>)
        ensures
            r matches Some(i) ==> first_ignore_case(self.fields_v(), key@) == Some(i as int),
            r is None ==> first_ignore_case(self.fields_v(), key@) is None,
    {
        let mut i: usize = 0;
        while i < self.fields.len()
            invariant
                i <= self.fields.len(),
                forall|k: int| 0 <= k < i ==> !eq_ignore_case(self.fields_v()[k].0, key@),
            decreases self.fields.len() - i,
        {
            let k = chars_of(self.fields[i].key.as_str());
            assert(self.fields_v()[i as int] == self.fields@[i as int]@);
            if seq_eq_ignore_case(&k, key) {
                proof {
                    lemma_first_ignore_case(self.fields_v(), key@);
                }
                return Some(i);
            }
            i += 1;
        }
        proof {
            lemma_first_ignore_case(self.fields_v(), key@);
        }
        None
    }

    /// First value for `key`, compared exactly: a field written under a
    /// different case is a different field. A repeated key is a closure
    /// violation the caller checks separately via `duplicate_keys`.
    pub fn get(&self, key: &str) -> (r: Option<&str>)
        ensures
            match r {
                Some(v) => get_spec(self.fields_v(), key@) == Some(v@),
                None => get_spec(self.fields_v(), key@) is None,
            },
    {
        let k = chars_of(key);
        proof {
            lemma_first_exact(self.fields_v(), key@);
        }
        match self.find_exact(&k) {
            Some(i) => Some(self.fields[i].value.as_str()),
            None => None,
        }
    }

    /// First value for one of the engine's own reserved keys (`Rule`,
    /// `Scope`, `Expires`), compared ignoring ASCII case: a reserved key is
    /// not adopter vocabulary, so a differently-cased spelling is a typo of
    /// it, not a second field.
    pub fn get_reserved(&self, key: &str) -> (r: Option<&str>)
        ensures
            match r {
                Some(v) => get_reserved_spec(self.fields_v(), key@) == Some(v@),
                None => get_reserved_spec(self.fields_v(), key@) is None,
            },
    {
        let k = chars_of(key);
        proof {
            lemma_first_ignore_case(self.fields_v(), key@);
        }
        match self.find_ignore_case(&k) {
            Some(i) => Some(self.fields[i].value.as_str()),
            None => None,
        }
    }

    /// Whether no field can be read: no header region, or one that did not
    /// parse.
    pub fn is_unreadable(&self) -> (r: bool)
        ensures
            r == self.unreadable_spec(),
    {
        self.region.is_none() || self.parse_error.is_some()
    }

    /// A declared field's value, or why there is none.
    pub fn read_declared(&self, key: &str) -> (r: FieldRead)
        ensures
            self.unreadable_spec() ==> r == FieldRead::Unreadable,
            !self.unreadable_spec() ==> match r {
                FieldRead::Present(v) => get_spec(self.fields_v(), key@) == Some(v@),
                FieldRead::Missing => get_spec(self.fields_v(), key@) is None,
                FieldRead::Unreadable => false,
            },
    {
        if self.is_unreadable() {
            return FieldRead::Unreadable;
        }
        match self.get(key) {
            Some(v) => FieldRead::Present(v),
            None => FieldRead::Missing,
        }
    }

    /// The header's line layout, when it has a blockquote or bold-list one.
    pub fn layout(&self) -> (r: Option<HeaderLayout>)
        ensures
            r == self.layout,
    {
        self.layout
    }

    /// Every key some earlier field already used, ignoring ASCII case --
    /// reported as written, once each.
    pub fn duplicate_keys(&self) -> (r: Vec<String>)
        ensures
            r@.map_values(|s: String| s@) == duplicates(self.fields_v()),
    {
        let mut dupes: Vec<String> = Vec::new();
        let mut i: usize = 0;
        while i < self.fields.len()
            invariant
                i <= self.fields.len(),
                dupes@.map_values(|s: String| s@) == duplicates(self.fields_v().take(i as int)),
            decreases self.fields.len() - i,
        {
            let ghost fs = self.fields_v();
            let ghost pre = fs.take(i as int);
            let ghost d = duplicates(pre);
            assert(fs.take(i + 1).drop_last() =~= pre);
            assert(fs.take(i + 1).last() == fs[i as int]);
            let key = chars_of(self.fields[i].key.as_str());
            assert(fs[i as int] == self.fields@[i as int]@);
            let mut seen = false;
            let mut j: usize = 0;
            while j < i
                invariant
                    i < self.fields.len(),
                    j <= i,
                    key@ == fs[i as int].0,
                    fs == self.fields_v(),
                    seen == exists|m: int| 0 <= m < j && eq_ignore_case(fs[m].0, key@),
                decreases i - j,
            {
                let other = chars_of(self.fields[j].key.as_str());
                assert(fs[j as int] == self.fields@[j as int]@);
                if seq_eq_ignore_case(&other, &key) {
                    seen = true;
                }
                j += 1;
            }
            assert forall|m: int| 0 <= m < i implies #[trigger] fs.take(i + 1)[m] == fs[m] by {}
            let ghost t = fs.take(i + 1);
            assert(seen == (exists|m: int|
                0 <= m < t.len() - 1 && eq_ignore_case(#[trigger] t[m].0, key@))) by {
                if seen {
                    let m = choose|m: int| 0 <= m < j && eq_ignore_case(fs[m].0, key@);
                    assert(t[m] == fs[m]);
                }
                if exists|m: int| 0 <= m < t.len() - 1 && eq_ignore_case(#[trigger] t[m].0, key@) {
                    let m = choose|m: int|
                        0 <= m < t.len() - 1 && eq_ignore_case(#[trigger] t[m].0, key@);
                    assert(t[m] == fs[m]);
                }
            }
            assert(duplicates(t) == (if seen && !d.contains(key@) {
                d.push(key@)
            } else {
                d
            }));
            if seen {
                let mut listed = false;
                let mut k: usize = 0;
                while k < dupes.len()
                    invariant
                        k <= dupes.len(),
                        dupes@.map_values(|s: String| s@) == d,
                        listed == exists|m: int| 0 <= m < k && d[m] == key@,
                    decreases dupes.len() - k,
                {
                    let existing = chars_of(dupes[k].as_str());
                    assert(d[k as int] == dupes@[k as int]@);
                    if seq_eq(&existing, &key) {
                        listed = true;
                    }
                    k += 1;
                }
                assert(listed == d.contains(key@)) by {
                    if d.contains(key@) {
                        let m = choose|m: int| 0 <= m < d.len() && d[m] == key@;
                        assert(0 <= m < k);
                    }
                }
                if !listed {
                    dupes.push(string_of(&key));
                    assert(dupes@.map_values(|s: String| s@) =~= d.push(key@));
                }
            }
            i += 1;
        }
        assert(self.fields_v().take(self.fields.len() as int) =~= self.fields_v());
        dupes
    }
}

// ---------------------------------------------------------------------------
// Line-shaped headers (blockquote, bold-list)
// ---------------------------------------------------------------------------

pub open spec fn pipe() -> Seq<char> {
    seq![' ', '|', ' ']
}

/// The body of a line in the declared shape, or `None` for a line that is
/// not shaped like a header line at all.
pub open spec fn line_body(shape: HeaderShape, line: Seq<char>) -> Option<Seq<char>> {
    let t = trim_start(line);
    match shape {
        HeaderShape::Blockquote => if starts_with(t, seq!['>']) {
            let rest = t.skip(1);
            Some(
                if starts_with(rest, seq![' ']) {
                    rest.skip(1)
                } else {
                    rest
                },
            )
        } else {
            None
        },
        HeaderShape::BoldList => if starts_with(t, seq!['-', ' ']) || starts_with(
            t,
            seq!['*', ' '],
        ) {
            Some(t.skip(2))
        } else {
            None
        },
        _ => None,
    }
}

/// Under the bold-list shape, a line whose trimmed start is a `- ` or a
/// `* ` list marker is a header line, its body the text after the marker;
/// no other line is. Under the blockquote shape, a line whose trimmed start
/// is `>` is one, its body the rest with one space after the `>` dropped.
pub proof fn lemma_line_body_markers(line: Seq<char>)
    ensures
        starts_with(trim_start(line), seq!['-', ' ']) ==> line_body(HeaderShape::BoldList, line) == Some(
            trim_start(line).skip(2),
        ),
        starts_with(trim_start(line), seq!['*', ' ']) ==> line_body(HeaderShape::BoldList, line) == Some(
            trim_start(line).skip(2),
        ),
        line_body(HeaderShape::BoldList, line) is Some ==> starts_with(trim_start(line), seq!['-', ' '])
            || starts_with(trim_start(line), seq!['*', ' ']),
        starts_with(trim_start(line), seq!['>']) <==> line_body(HeaderShape::Blockquote, line) is Some,
        starts_with(trim_start(line), seq!['>', ' ']) ==> line_body(HeaderShape::Blockquote, line) == Some(
            trim_start(line).skip(2),
        ),
        starts_with(trim_start(line), seq!['>']) && !starts_with(trim_start(line), seq!['>', ' ']) ==> line_body(
            HeaderShape::Blockquote,
            line,
        ) == Some(trim_start(line).skip(1)),
        line_body(HeaderShape::YamlFrontmatter, line) is None,
        line_body(HeaderShape::Headerless, line) is None,
{
    let t = trim_start(line);
    if starts_with(t, seq!['>', ' ']) {
        assert(t.subrange(0, 1) =~= seq!['>']);
        assert(t.skip(1).subrange(0, 1) =~= seq![' ']);
        assert(t.skip(1).skip(1) =~= t.skip(2));
    } else if starts_with(t, seq!['>']) {
        if starts_with(t.skip(1), seq![' ']) {
            assert(t[0] == '>') by {
                assert(t.subrange(0, 1)[0] == t[0]);
            }
            assert(t[1] == ' ') by {
                assert(t.skip(1).subrange(0, 1)[0] == t.skip(1)[0]);
            }
            assert(t.subrange(0, 2) =~= seq!['>', ' ']);
        }
    }
}

/// `**Key:** Value` rewritten as `Key: Value`; any other segment unchanged.
pub open spec fn unbold(seg: Seq<char>) -> Seq<char> {
    if starts_with(seg, seq!['*', '*']) {
        let rest = seg.skip(2);
        match find(rest, seq![':', '*', '*']) {
            Some(i) => rest.take(i) + seq![':'] + rest.skip(i + 3),
            None => seg,
        }
    } else {
        seg
    }
}

/// One `Key: Value` segment: the key must be non-empty once trimmed, and the
/// first colon ends it.
pub open spec fn key_value(segment: Seq<char>, line: int) -> Option<FieldV> {
    match split_once(unbold(trim(segment)), ':') {
        None => None,
        Some((k, v)) => if trim(k).len() == 0 {
            None
        } else {
            Some((trim(k), trim(v), line))
        },
    }
}

pub open spec fn segment_fields(segs: Seq<Seq<char>>, line: int) -> Seq<FieldV>
    decreases segs.len(),
{
    if segs.len() == 0 {
        Seq::empty()
    } else {
        let r = segment_fields(segs.drop_last(), line);
        match key_value(segs.last(), line) {
            Some(f) => r.push(f),
            None => r,
        }
    }
}

/// The fields one header line holds: a pipe-delimited run of segments, or
/// a single segment.
pub open spec fn metadata_line(body: Seq<char>, line: int) -> Seq<FieldV> {
    if contains(body, pipe()) {
        segment_fields(split_str(body, pipe()), line)
    } else {
        segment_fields(seq![body], line)
    }
}

/// The scanner's state after some lines: fields found, region so far,
/// whether a pipe-delimited line contributed, and whether the region ended.
pub type Scan = (Seq<FieldV>, Option<(int, int)>, bool, bool);

pub open spec fn scan_step(st: Scan, raw: Seq<char>, line_no: int, shape: HeaderShape) -> Scan {
    if st.3 {
        st
    } else {
        match line_body(shape, trim_end(raw)) {
            None => if st.1 is Some {
                (st.0, st.1, st.2, true)
            } else {
                st
            },
            Some(body) => {
                let lf = metadata_line(body, line_no);
                if lf.len() == 0 {
                    if st.1 is Some {
                        (st.0, st.1, st.2, true)
                    } else {
                        st
                    }
                } else {
                    (
                        st.0 + lf,
                        Some(
                            match st.1 {
                                Some((s, _)) => (s, line_no),
                                None => (line_no, line_no),
                            },
                        ),
                        st.2 || contains(body, pipe()),
                        false,
                    )
                }
            },
        }
    }
}

/// The maximal contiguous run of header-shaped lines, anchored at the first
/// such line.
pub open spec fn scan(ls: Seq<Seq<char>>, shape: HeaderShape) -> Scan
    decreases ls.len(),
{
    if ls.len() == 0 {
        (Seq::empty(), None, false, false)
    } else {
        scan_step(scan(ls.drop_last(), shape), ls.last(), ls.len() as int, shape)
    }
}

// ---------------------------------------------------------------------------
// YAML frontmatter
// ---------------------------------------------------------------------------

pub open spec fn fence() -> Seq<char> {
    seq!['-', '-', '-']
}

/// The closing `---` of a frontmatter block opened on the first line.
pub open spec fn closing_fence_from(ls: Seq<Seq<char>>, k: int) -> Option<int>
    decreases ls.len() - k,
{
    if k < 1 || k >= ls.len() {
        None
    } else if trim_end(ls[k]) == fence() {
        Some(k)
    } else {
        closing_fence_from(ls, k + 1)
    }
}

pub open spec fn opens_frontmatter(ls: Seq<Seq<char>>) -> bool {
    ls.len() > 0 && trim_end(ls[0]) == fence()
}

/// Lines joined back with `\n`.
pub open spec fn join_lines(ls: Seq<Seq<char>>) -> Seq<char>
    decreases ls.len(),
{
    if ls.len() == 0 {
        Seq::empty()
    } else if ls.len() == 1 {
        ls[0]
    } else {
        join_lines(ls.drop_last()) + seq!['\n'] + ls.last()
    }
}

/// The line a frontmatter key is written on: the first frontmatter line
/// starting with `key:`, or the opening fence's line when none does.
pub open spec fn yaml_key_line_from(ls: Seq<Seq<char>>, close: int, key: Seq<char>, k: int) -> int
    decreases close - k,
{
    if k < 1 || k >= close || k >= ls.len() {
        1
    } else if starts_with(ls[k], key.push(':')) {
        k + 1
    } else {
        yaml_key_line_from(ls, close, key, k + 1)
    }
}

/// A scalar's text as a header value.
pub open spec fn yaml_scalar_text(v: YamlValueView) -> Option<Seq<char>> {
    match v {
        YamlValueView::Text(s) => Some(s),
        YamlValueView::Number(s) => Some(s),
        YamlValueView::Bool(b) => Some(
            if b {
                seq!['t', 'r', 'u', 'e']
            } else {
                seq!['f', 'a', 'l', 's', 'e']
            },
        ),
        YamlValueView::Null => Some(Seq::empty()),
        YamlValueView::Nested => None,
    }
}

/// The header fields of a parsed frontmatter mapping: every entry with a
/// string key and a scalar value, in document order.
pub open spec fn yaml_fields(
    entries: Seq<(Option<Seq<char>>, YamlValueView)>,
    ls: Seq<Seq<char>>,
    close: int,
) -> Seq<FieldV>
    decreases entries.len(),
{
    if entries.len() == 0 {
        Seq::empty()
    } else {
        let r = yaml_fields(entries.drop_last(), ls, close);
        let e = entries.last();
        match (e.0, yaml_scalar_text(e.1)) {
            (Some(k), Some(v)) => r.push((k, v, yaml_key_line_from(ls, close, k, 1))),
            _ => r,
        }
    }
}

/// The message recorded when a frontmatter block is valid YAML but not a
/// mapping of fields.
pub open spec fn not_a_mapping() -> Seq<char> {
    "frontmatter is not a YAML mapping of fields"@
}

/// The header of a YAML-frontmatter document as
/// `(fields, region, parse_error)`.
pub open spec fn yaml_header(ls: Seq<Seq<char>>) -> (Seq<FieldV>, Option<(int, int)>, Option<
    Seq<char>,
>) {
    if !opens_frontmatter(ls) {
        (Seq::empty(), None, None)
    } else {
        match closing_fence_from(ls, 1) {
            None => (Seq::empty(), None, None),
            Some(close) => frontmatter_of(ls, close, yaml_document(join_lines(ls.subrange(1, close)))),
        }
    }
}

/// The header a frontmatter block closed at line index `close` gives, as
/// `(fields, region, parse_error)`, from what the YAML parser made of it:
/// the parser's message when it failed; no fields and the fenced region for
/// an empty block; the fields of a mapping with the fenced region; and
/// no region with a message when the block is YAML but not a mapping.
pub open spec fn frontmatter_of(ls: Seq<Seq<char>>, close: int, doc: Result<YamlDocumentView, Seq<char>>) -> (
    Seq<FieldV>,
    Option<(int, int)>,
    Option<Seq<char>>,
) {
    match doc {
        Err(e) => (Seq::empty(), None, Some(e)),
        Ok(YamlDocumentView::Mapping(entries)) => (yaml_fields(entries, ls, close), Some((1, close + 1)), None),
        Ok(YamlDocumentView::Null) => (Seq::empty(), Some((1, close + 1)), None),
        Ok(YamlDocumentView::Other) => (Seq::empty(), None, Some(not_a_mapping())),
    }
}

// ---------------------------------------------------------------------------
// The parser's contract
// ---------------------------------------------------------------------------

pub open spec fn layout_of(st: Scan) -> Option<HeaderLayout> {
    if st.1 is None {
        None
    } else if st.2 {
        Some(HeaderLayout::PipeDelimited)
    } else {
        Some(HeaderLayout::OnePerLine)
    }
}

pub open spec fn region_view(r: Option<(usize, usize)>) -> Option<(int, int)> {
    match r {
        Some((a, b)) => Some((a as int, b as int)),
        None => None,
    }
}

/// The header `parse_with_shape` produces for `content` under `shape`.
pub open spec fn parsed(h: Header, content: Seq<char>, shape: HeaderShape) -> bool {
    let ls = lines(content);
    match shape {
        HeaderShape::Blockquote | HeaderShape::BoldList => {
            let st = scan(ls, shape);
            &&& h.fields_v() == st.0
            &&& region_view(h.region) == st.1
            &&& h.parse_error is None
            &&& h.layout == layout_of(st)
        },
        HeaderShape::YamlFrontmatter => {
            let y = yaml_header(ls);
            &&& h.fields_v() == y.0
            &&& region_view(h.region) == y.1
            &&& match (h.parse_error, y.2) {
                (Some(e), Some(m)) => e@ == m,
                (None, None) => true,
                _ => false,
            }
            &&& h.layout is None
        },
        HeaderShape::Headerless => {
            &&& h.fields@.len() == 0
            &&& h.region is None
            &&& h.parse_error is None
            &&& h.layout is None
        },
    }
}

/// Parse the header out of a document's full text using the default
/// blockquote shape.
pub fn parse(content: &str) -> (h: Header)
    ensures
        parsed(h, content@, HeaderShape::Blockquote),
{
    parse_with_shape(content, HeaderShape::Blockquote)
}

/// Parse the header using an explicitly declared shape.
///
/// Blockquote and bold-list: the header is the maximal contiguous run of
/// header-shaped lines, anchored at the first such line; a blank line, a
/// line of another shape, or the end of the document ends it. YAML
/// frontmatter: a `---`-fenced block opening the document, read as a
/// mapping.
pub fn parse_with_shape(content: &str, shape: HeaderShape) -> (h: Header)
    ensures
        parsed(h, content@, shape),
{
    let cs = chars_of(content);
    let ls = lines_exec(&cs);
    match shape {
        HeaderShape::Blockquote | HeaderShape::BoldList => parse_lines(&ls, shape),
        HeaderShape::YamlFrontmatter => parse_frontmatter(&ls),
        HeaderShape::Headerless => Header { fields: Vec::new(), region: None, parse_error: None, layout: None },
    }
}

// ---------------------------------------------------------------------------
// What every line-shaped header holds
// ---------------------------------------------------------------------------

/// A field as the line parsers give it: a non-empty key, and a key and a
/// value with no surrounding whitespace.
pub open spec fn tidy_field(f: FieldV) -> bool {
    &&& f.0.len() > 0
    &&& trim(f.0) == f.0
    &&& trim(f.1) == f.1
}

/// Some field was found on line `l`.
pub open spec fn line_has_field(fs: Seq<FieldV>, l: int) -> bool {
    exists|i: int| 0 <= i < fs.len() && #[trigger] fs[i].2 == l
}

/// The shape of a header's fields and region: a region exactly when there
/// are fields; fields tidy and in line order; a region that starts at line 1
/// or later, holds every field, and has a field on each of its lines.
pub open spec fn well_formed_header(fs: Seq<FieldV>, region: Option<(int, int)>) -> bool {
    &&& (region is None <==> fs.len() == 0)
    &&& forall|i: int| 0 <= i < fs.len() ==> tidy_field(#[trigger] fs[i])
    &&& forall|i: int, j: int| 0 <= i <= j < fs.len() ==> fs[i].2 <= fs[j].2
    &&& match region {
        Some((s, e)) => {
            &&& 1 <= s <= e
            &&& forall|i: int| 0 <= i < fs.len() ==> s <= #[trigger] fs[i].2 <= e
            &&& forall|l: int| s <= l <= e ==> #[trigger] line_has_field(fs, l)
        },
        None => true,
    }
}

/// The scanner after `n` lines: a well-formed header so far, whose region
/// reaches the last line read unless the region has ended.
spec fn scan_holds(st: Scan, n: int) -> bool {
    &&& well_formed_header(st.0, st.1)
    &&& st.1 matches Some((s, e)) ==> e <= n && (!st.3 ==> e == n)
}

proof fn lemma_segment_fields_tidy(segs: Seq<Seq<char>>, line: int)
    ensures
        forall|i: int|
            0 <= i < segment_fields(segs, line).len() ==> tidy_field(
                #[trigger] segment_fields(segs, line)[i],
            ) && segment_fields(segs, line)[i].2 == line,
    decreases segs.len(),
{
    if segs.len() > 0 {
        lemma_segment_fields_tidy(segs.drop_last(), line);
        let r = segment_fields(segs.drop_last(), line);
        if let Some((k, v)) = split_once(unbold(trim(segs.last())), ':') {
            lemma_trim_idempotent(k);
            lemma_trim_idempotent(v);
            if trim(k).len() > 0 {
                let f = (trim(k), trim(v), line);
                assert(tidy_field(f));
                assert(segment_fields(segs, line) == r.push(f));
                assert forall|i: int| 0 <= i < r.len() + 1 implies tidy_field(#[trigger] r.push(f)[i])
                    && r.push(f)[i].2 == line by {
                    if i < r.len() {
                        assert(r.push(f)[i] == r[i]);
                    }
                }
            }
        }
    }
}

proof fn lemma_metadata_line_tidy(body: Seq<char>, line: int)
    ensures
        forall|i: int|
            0 <= i < metadata_line(body, line).len() ==> tidy_field(
                #[trigger] metadata_line(body, line)[i],
            ) && metadata_line(body, line)[i].2 == line,
{
    if contains(body, pipe()) {
        lemma_segment_fields_tidy(split_str(body, pipe()), line);
    } else {
        lemma_segment_fields_tidy(seq![body], line);
    }
}

proof fn lemma_scan_step_holds(st: Scan, raw: Seq<char>, n: int, shape: HeaderShape)
    requires
        n >= 0,
        scan_holds(st, n),
    ensures
        scan_holds(scan_step(st, raw, n + 1, shape), n + 1),
{
    if !st.3 {
        if let Some(body) = line_body(shape, trim_end(raw)) {
            let lf = metadata_line(body, n + 1);
            if lf.len() > 0 {
                lemma_metadata_line_tidy(body, n + 1);
                let fs = st.0 + lf;
                let r = scan_step(st, raw, n + 1, shape);
                assert(r.0 == fs);
                let s0: int = match st.1 {
                    Some((s, _)) => s,
                    None => n + 1,
                };
                assert(r.1 == Some((s0, n + 1)));
                assert forall|i: int| 0 <= i < fs.len() implies tidy_field(#[trigger] fs[i]) && s0
                    <= fs[i].2 <= n + 1 by {
                    if i >= st.0.len() {
                        assert(fs[i] == lf[i - st.0.len()]);
                    }
                }
                assert forall|i: int, j: int| 0 <= i <= j < fs.len() implies fs[i].2 <= fs[j].2 by {
                    if j >= st.0.len() {
                        assert(fs[j] == lf[j - st.0.len()]);
                        if i >= st.0.len() {
                            assert(fs[i] == lf[i - st.0.len()]);
                        }
                    }
                }
                assert forall|l: int| s0 <= l <= n + 1 implies #[trigger] line_has_field(fs, l) by {
                    if l == n + 1 {
                        assert(fs[st.0.len() as int] == lf[0]);
                    } else {
                        assert(line_has_field(st.0, l));
                        let i = choose|i: int| 0 <= i < st.0.len() && #[trigger] st.0[i].2 == l;
                        assert(fs[i] == st.0[i]);
                    }
                }
            }
        }
    }
}

proof fn lemma_scan_holds(ls: Seq<Seq<char>>, shape: HeaderShape)
    ensures
        scan_holds(scan(ls, shape), ls.len() as int),
    decreases ls.len(),
{
    if ls.len() > 0 {
        lemma_scan_holds(ls.drop_last(), shape);
        lemma_scan_step_holds(scan(ls.drop_last(), shape), ls.last(), ls.len() - 1, shape);
    }
}

/// Every header that is not YAML frontmatter is well formed: it has a
/// region exactly when it has fields; its region starts at line 1 or later
/// and each of its lines holds a field; every field lies inside the region,
/// the fields come in line order, and each has a non-empty key, with key and
/// value free of surrounding whitespace.
pub proof fn lemma_header_well_formed(h: Header, content: Seq<char>, shape: HeaderShape)
    requires
        shape != HeaderShape::YamlFrontmatter,
        parsed(h, content, shape),
    ensures
        well_formed_header(h.fields_v(), region_view(h.region)),
{
    if shape != HeaderShape::Headerless {
        lemma_scan_holds(lines(content), shape);
    } else {
        assert(h.fields_v().len() == 0);
    }
}

pub proof fn lemma_lines_len(s: Seq<char>)
    ensures
        lines(s).len() <= s.len() + 1,
{
    lemma_split_char_len(s, '\n');
}

pub proof fn lemma_split_char_len(s: Seq<char>, sep: char)
    ensures
        crate::text::split_char(s, sep).len() <= s.len() + 1,
    decreases s.len(),
{
    if s.len() > 0 {
        lemma_split_char_len(s.drop_last(), sep);
        lemma_split_char_nonempty(s.drop_last(), sep);
    }
}

fn line_body_exec(shape: HeaderShape, line: &[char]) -> (r: Option<Vec<char>>)
    requires
        shape == HeaderShape::Blockquote || shape == HeaderShape::BoldList,
    ensures
        match r {
            Some(b) => line_body(shape, line@) == Some(b@),
            None => line_body(shape, line@) is None,
        },
{
    let t = trim_start_vec(line);
    match shape {
        HeaderShape::Blockquote => {
            let gt = vec!['>'];
            assert(gt@ =~= seq!['>']);
            if starts_with_exec(&t, &gt) {
                let rest = slice_vec(&t, 1, t.len());
                assert(rest@ =~= t@.skip(1));
                let sp = vec![' '];
                assert(sp@ =~= seq![' ']);
                if starts_with_exec(&rest, &sp) {
                    let r = slice_vec(&rest, 1, rest.len());
                    assert(r@ =~= rest@.skip(1));
                    Some(r)
                } else {
                    Some(rest)
                }
            } else {
                None
            }
        },
        _ => {
            let dash = vec!['-', ' '];
            let star = vec!['*', ' '];
            assert(dash@ =~= seq!['-', ' ']);
            assert(star@ =~= seq!['*', ' ']);
            if starts_with_exec(&t, &dash) || starts_with_exec(&t, &star) {
                let r = slice_vec(&t, 2, t.len());
                assert(r@ =~= t@.skip(2));
                Some(r)
            } else {
                None
            }
        },
    }
}

fn unbold_exec(seg: &[char]) -> (r: Vec<char>)
    ensures
        r@ == unbold(seg@),
{
    let stars = vec!['*', '*'];
    assert(stars@ =~= seq!['*', '*']);
    if starts_with_exec(seg, &stars) {
        let rest = slice_vec(seg, 2, seg.len());
        assert(rest@ =~= seg@.skip(2));
        let close = vec![':', '*', '*'];
        assert(close@ =~= seq![':', '*', '*']);
        match find_exec(&rest, &close) {
            Some(i) => {
                proof {
                    lemma_find_from_result(rest@, close@, 0);
                }
                let mut r = slice_vec(&rest, 0, i);
                r.push(':');
                let tail = slice_vec(&rest, i + 3, rest.len());
                let ghost head = r@;
                let mut k: usize = 0;
                while k < tail.len()
                    invariant
                        k <= tail.len(),
                        r@ == head + tail@.take(k as int),
                    decreases tail.len() - k,
                {
                    r.push(tail[k]);
                    assert(tail@.take(k + 1) == tail@.take(k as int).push(tail@[k as int]));
                    k += 1;
                }
                assert(tail@.take(tail@.len() as int) == tail@);
                assert(r@ =~= rest@.take(i as int) + seq![':'] + rest@.skip(i + 3));
                r
            },
            None => slice_vec(seg, 0, seg.len()),
        }
    } else {
        slice_vec(seg, 0, seg.len())
    }
}

fn key_value_exec(segment: &[char], line: usize) -> (r: Option<HeaderField>)
    ensures
        match r {
            Some(f) => key_value(segment@, line as int) == Some(f@),
            None => key_value(segment@, line as int) is None,
        },
{
    let t = trim_vec(segment);
    let seg = unbold_exec(&t);
    match split_once_exec(&seg, ':') {
        None => None,
        Some((k, v)) => {
            let key = trim_vec(&k);
            if key.len() == 0 {
                None
            } else {
                let value = trim_vec(&v);
                Some(HeaderField { key: string_of(&key), value: string_of(&value), line })
            }
        },
    }
}

fn metadata_line_exec(body: &[char], line: usize) -> (r: Vec<HeaderField>)
    ensures
        field_views(r@) == metadata_line(body@, line as int),
{
    let p = vec![' ', '|', ' '];
    assert(p@ =~= pipe());
    let segs: Vec<Vec<char>> = if contains_exec(body, &p) {
        split_str_exec(body, &p)
    } else {
        let mut v: Vec<Vec<char>> = Vec::new();
        v.push(slice_vec(body, 0, body.len()));
        assert(body@.subrange(0, body@.len() as int) == body@);
        assert(views(v@) =~= seq![body@]);
        v
    };
    let ghost sv = views(segs@);
    let mut r: Vec<HeaderField> = Vec::new();
    let mut i: usize = 0;
    while i < segs.len()
        invariant
            sv == views(segs@),
            i <= segs.len(),
            field_views(r@) == segment_fields(sv.take(i as int), line as int),
        decreases segs.len() - i,
    {
        assert(sv.take(i + 1).drop_last() =~= sv.take(i as int));
        assert(sv.take(i + 1).last() == segs@[i as int]@);
        match key_value_exec(&segs[i], line) {
            Some(f) => {
                let ghost before = field_views(r@);
                r.push(f);
                assert(field_views(r@) =~= before.push(f@));
            },
            None => {},
        }
        i += 1;
    }
    assert(sv.take(segs.len() as int) =~= sv);
    r
}

fn copy_field(f: &HeaderField) -> (r: HeaderField)
    ensures
        r@ == f@,
{
    HeaderField { key: f.key.clone(), value: f.value.clone(), line: f.line }
}

fn parse_lines(ls: &Vec<Vec<char>>, shape: HeaderShape) -> (h: Header)
    requires
        shape == HeaderShape::Blockquote || shape == HeaderShape::BoldList,
    ensures
        ({
            let st = scan(views(ls@), shape);
            &&& h.fields_v() == st.0
            &&& region_view(h.region) == st.1
            &&& h.parse_error is None
            &&& h.layout == layout_of(st)
        }),
{
    let ghost lv = views(ls@);
    let mut fields: Vec<HeaderField> = Vec::new();
    let mut region: Option<(usize, usize)> = None;
    let mut pipe_seen = false;
    let mut stopped = false;
    let mut i: usize = 0;
    assert(lv.take(0) =~= Seq::<Seq<char>>::empty());
    while i < ls.len()
        invariant
            lv == views(ls@),
            shape == HeaderShape::Blockquote || shape == HeaderShape::BoldList,
            i <= ls.len(),
            scan(lv.take(i as int), shape) == (
                field_views(fields@),
                region_view(region),
                pipe_seen,
                stopped,
            ),
            match region {
                Some((a, b)) => a <= b <= i,
                None => true,
            },
        decreases ls.len() - i,
    {
        assert(lv.take(i + 1).drop_last() =~= lv.take(i as int));
        assert(lv.take(i + 1).last() == ls@[i as int]@);
        let line_no = i + 1;
        if !stopped {
            let line = trim_end_vec(&ls[i]);
            match line_body_exec(shape, &line) {
                None => {
                    if region.is_some() {
                        stopped = true;
                    }
                },
                Some(body) => {
                    let lf = metadata_line_exec(&body, line_no);
                    if lf.len() == 0 {
                        if region.is_some() {
                            stopped = true;
                        }
                    } else {
                        let p = vec![' ', '|', ' '];
                        assert(p@ =~= pipe());
                        let has_pipe = contains_exec(&body, &p);
                        region = match region {
                            Some((s, _)) => Some((s, line_no)),
                            None => Some((line_no, line_no)),
                        };
                        pipe_seen = pipe_seen || has_pipe;
                        let ghost before = field_views(fields@);
                        let mut k: usize = 0;
                        let mut lf = lf;
                        let ghost lfv = field_views(lf@);
                        let mut j: usize = 0;
                        while j < lf.len()
                            invariant
                                j <= lf.len(),
                                lfv == field_views(lf@),
                                field_views(fields@) == before + lfv.take(j as int),
                            decreases lf.len() - j,
                        {
                            fields.push(copy_field(&lf[j]));
                            assert(lfv.take(j + 1) =~= lfv.take(j as int).push(lfv[j as int]));
                            assert(field_views(fields@) =~= (before + lfv.take(j as int)).push(
                                lfv[j as int],
                            ));
                            j += 1;
                        }
                        assert(lfv.take(lf.len() as int) =~= lfv);
                    }
                },
            }
        }
        i += 1;
    }
    assert(lv.take(ls.len() as int) =~= lv);
    let layout = if region.is_none() {
        None
    } else if pipe_seen {
        Some(HeaderLayout::PipeDelimited)
    } else {
        Some(HeaderLayout::OnePerLine)
    };
    Header { fields, region, parse_error: None, layout }
}

fn closing_fence_exec(ls: &Vec<Vec<char>>) -> (r: Option<usize>)
    ensures
        match r {
            Some(k) => closing_fence_from(views(ls@), 1) == Some(k as int),
            None => closing_fence_from(views(ls@), 1) is None,
        },
{
    let ghost lv = views(ls@);
    let f = vec!['-', '-', '-'];
    assert(f@ =~= fence());
    let mut k: usize = 1;
    while k < ls.len()
        invariant
            lv == views(ls@),
            f@ == fence(),
            1 <= k,
            closing_fence_from(lv, 1) == closing_fence_from(lv, k as int),
        decreases ls.len() - k,
    {
        let t = trim_end_vec(&ls[k]);
        if seq_eq(&t, &f) {
            return Some(k);
        }
        k += 1;
    }
    None
}

fn join_lines_exec(ls: &Vec<Vec<char>>, a: usize, b: usize) -> (r: Vec<char>)
    requires
        1 <= a <= b <= ls.len(),
    ensures
        r@ == join_lines(views(ls@).subrange(a as int, b as int)),
{
    let ghost lv = views(ls@);
    let mut r: Vec<char> = Vec::new();
    let mut i = a;
    assert(lv.subrange(a as int, a as int) =~= Seq::<Seq<char>>::empty());
    while i < b
        invariant
            lv == views(ls@),
            a <= i <= b <= ls.len(),
            r@ == join_lines(lv.subrange(a as int, i as int)),
        decreases b - i,
    {
        let ghost prev = r@;
        if i > a {
            r.push('\n');
        }
        let line = &ls[i];
        let mut k: usize = 0;
        let ghost mid = r@;
        while k < line.len()
            invariant
                k <= line.len(),
                r@ == mid + line@.take(k as int),
            decreases line.len() - k,
        {
            r.push(line[k]);
            assert(line@.take(k + 1) == line@.take(k as int).push(line@[k as int]));
            k += 1;
        }
        assert(line@.take(line@.len() as int) == line@);
        assert(lv.subrange(a as int, i + 1).drop_last() =~= lv.subrange(a as int, i as int));
        assert(lv.subrange(a as int, i + 1).last() == line@);
        if i == a {
            assert(lv.subrange(a as int, i + 1) =~= seq![line@]);
        }
        i += 1;
    }
    r
}

fn yaml_key_line_exec(ls: &Vec<Vec<char>>, close: usize, key: &[char]) -> (r: usize)
    requires
        close < ls.len(),
    ensures
        r as int == yaml_key_line_from(views(ls@), close as int, key@, 1),
{
    let ghost lv = views(ls@);
    let mut p = slice_vec(key, 0, key.len());
    p.push(':');
    let mut k: usize = 1;
    while k < close
        invariant
            lv == views(ls@),
            close < ls.len(),
            p@ == key@.push(':'),
            1 <= k,
            yaml_key_line_from(lv, close as int, key@, 1) == yaml_key_line_from(
                lv,
                close as int,
                key@,
                k as int,
            ),
        decreases close - k,
    {
        if starts_with_exec(&ls[k], &p) {
            return k + 1;
        }
        k += 1;
    }
    1
}

fn parse_frontmatter(ls: &Vec<Vec<char>>) -> (h: Header)
    ensures
        ({
            let y = yaml_header(views(ls@));
            &&& h.fields_v() == y.0
            &&& region_view(h.region) == y.1
            &&& match (h.parse_error, y.2) {
                (Some(e), Some(m)) => e@ == m,
                (None, None) => true,
                _ => false,
            }
            &&& h.layout is None
        }),
{
    let ghost lv = views(ls@);
    let empty = Header { fields: Vec::new(), region: None, parse_error: None, layout: None };
    if ls.len() == 0 {
        return empty;
    }
    let first = trim_end_vec(&ls[0]);
    let f = vec!['-', '-', '-'];
    assert(f@ =~= fence());
    if !seq_eq(&first, &f) {
        return empty;
    }
    let close = match closing_fence_exec(ls) {
        Some(c) => c,
        None => return empty,
    };
    proof {
        lemma_closing_fence(lv, 1);
    }
    let body = join_lines_exec(ls, 1, close);
    let text = string_of(&body);
    header_from_frontmatter(ls, close, parse_yaml_document(text.as_str()))
}

/// The header of a document whose lines are `ls` and whose frontmatter
/// block closes at line index `close`, from what the YAML parser made of
/// the block: see `frontmatter_of`. Each field's line is the first line of
/// the block that starts with its key and a colon.
pub fn header_from_frontmatter(ls: &Vec<Vec<char>>, close: usize, parsed: Result<YamlDocument, String>) -> (h: Header)
    requires
        1 <= close < ls.len(),
    ensures
        ({
            let y = frontmatter_of(views(ls@), close as int, yaml_result_view(parsed));
            &&& h.fields_v() == y.0
            &&& region_view(h.region) == y.1
            &&& match (h.parse_error, y.2) {
                (Some(e), Some(m)) => e@ == m,
                (None, None) => true,
                _ => false,
            }
            &&& h.layout is None
        }),
{
    let ghost lv = views(ls@);
    match parsed {
        Err(e) => Header { fields: Vec::new(), region: None, parse_error: Some(e), layout: None },
        Ok(YamlDocument::Null) => Header {
            fields: Vec::new(),
            region: Some((1, close + 1)),
            parse_error: None,
            layout: None,
        },
        Ok(YamlDocument::Other) => Header {
            fields: Vec::new(),
            region: None,
            parse_error: Some(string_of(&chars_of("frontmatter is not a YAML mapping of fields"))),
            layout: None,
        },
        Ok(YamlDocument::Mapping(entries)) => {
            let ghost ev = entries@.map_values(|e| crate::yaml::yaml_entry_view(e));
            let mut fields: Vec<HeaderField> = Vec::new();
            let mut i: usize = 0;
            while i < entries.len()
                invariant
                    lv == views(ls@),
                    close < ls.len(),
                    ev == entries@.map_values(|e| crate::yaml::yaml_entry_view(e)),
                    i <= entries.len(),
                    field_views(fields@) == yaml_fields(ev.take(i as int), lv, close as int),
                decreases entries.len() - i,
            {
                assert(ev.take(i + 1).drop_last() =~= ev.take(i as int));
                assert(ev.take(i + 1).last() == crate::yaml::yaml_entry_view(entries@[i as int]));
                let (key, value) = (&entries[i].0, &entries[i].1);
                let text: Option<String> = match value {
                    YamlValue::Text(s) => Some(s.clone()),
                    YamlValue::Number(s) => Some(s.clone()),
                    YamlValue::Bool(b) => Some(
                        if *b {
                            string_of(&vec!['t', 'r', 'u', 'e'])
                        } else {
                            string_of(&vec!['f', 'a', 'l', 's', 'e'])
                        },
                    ),
                    YamlValue::Null => Some(String::new()),
                    YamlValue::Nested => None,
                };
                match (key, text) {
                    (Some(k), Some(v)) => {
                        let kc = chars_of(k.as_str());
                        let line = yaml_key_line_exec(ls, close, &kc);
                        let ghost before = field_views(fields@);
                        fields.push(HeaderField { key: k.clone(), value: v, line });
                        assert(field_views(fields@) =~= before.push(
                            (k@, v@, yaml_key_line_from(lv, close as int, k@, 1)),
                        ));
                    },
                    _ => {},
                }
                i += 1;
            }
            assert(ev.take(entries.len() as int) =~= ev);
            Header { fields, region: Some((1, close + 1)), parse_error: None, layout: None }
        },
    }
}

pub proof fn lemma_closing_fence(ls: Seq<Seq<char>>, k: int)
    ensures
        closing_fence_from(ls, k) matches Some(c) ==> 1 <= c < ls.len(),
    decreases ls.len() - k,
{
    if k >= 1 && k < ls.len() && trim_end(ls[k]) != fence() {
        lemma_closing_fence(ls, k + 1);
    }
}

} // verus!
