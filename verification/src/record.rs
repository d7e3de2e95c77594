//! A parsed record: its declared type, path, and header. Pure -- built from
//! content handed in by a caller, never read from a path itself.
//!
//! Paths are the `/`-separated, repository-relative paths git lists: no
//! trailing separator and no `..` component.
use crate::header::{self, parsed, Header, HeaderShape};
use crate::text::{
    all_digits, chars_of, ends_with, ends_with_exec, lower, slice_vec, split_once, split_once_exec,
    starts_with, starts_with_exec, string_of,
};
use crate::values::{rfind_char, rfind_char_exec, lemma_rfind_char};
use vstd::prelude::*;

verus! {

/// ASCII upper-casing of one character (`char::to_ascii_uppercase`).
pub open spec fn upper(c: char) -> char {
    if 'a' <= c && c <= 'z' {
        ((c as u32) - 32) as char
    } else {
        c
    }
}

pub open spec fn upper_seq(s: Seq<char>) -> Seq<char> {
    s.map_values(|c: char| upper(c))
}

pub fn upper_vec(s: &[char]) -> (r: Vec<char>)
    ensures
        r@ == upper_seq(s@),
{
    let mut r: Vec<char> = Vec::new();
    let mut i: usize = 0;
    while i < s.len()
        invariant
            i <= s.len(),
            r@ == upper_seq(s@.take(i as int)),
        decreases s.len() - i,
    {
        let c = s[i];
        let u = if 'a' <= c && c <= 'z' {
            ((c as u8) - 32) as char
        } else {
            c
        };
        r.push(u);
        assert(upper_seq(s@.take(i + 1)) =~= upper_seq(s@.take(i as int)).push(upper(s@[i as int])));
        i += 1;
    }
    assert(s@.take(s@.len() as int) == s@);
    r
}

/// A tracked, non-template markdown file below a declared `dir`: governed by
/// that type whether or not its filename carries a number.
pub open spec fn governed_filename(name: Seq<char>) -> bool {
    !starts_with(name, seq!['_']) && ends_with(name, seq!['.', 'm', 'd'])
}

pub fn is_governed_record_filename(file_name: &str) -> (r: bool)
    ensures
        r == governed_filename(file_name@),
{
    let cs = chars_of(file_name);
    let us = vec!['_'];
    let md = vec!['.', 'm', 'd'];
    assert(us@ =~= seq!['_']);
    assert(md@ =~= seq!['.', 'm', 'd']);
    !starts_with_exec(&cs, &us) && ends_with_exec(&cs, &md)
}

/// The last component of a path (`Path::file_name`): `None` for an empty
/// final component or `..`.
pub open spec fn file_name(path: Seq<char>) -> Option<Seq<char>> {
    let name = match rfind_char(path, '/') {
        Some(i) => path.skip(i + 1),
        None => path,
    };
    if name.len() == 0 || name == seq!['.', '.'] {
        None
    } else {
        Some(name)
    }
}

/// A file name without its last extension (`Path::file_stem`): a name whose
/// only dot leads it is all stem.
pub open spec fn stem_of(name: Seq<char>) -> Seq<char> {
    match rfind_char(name, '.') {
        Some(i) => if i == 0 {
            name
        } else {
            name.take(i)
        },
        None => name,
    }
}

pub fn file_name_exec(path: &[char]) -> (r: Option<Vec<char>>)
    ensures
        match r {
            Some(n) => file_name(path@) == Some(n@),
            None => file_name(path@) is None,
        },
{
    let name = match rfind_char_exec(path, '/') {
        Some(i) => {
            proof {
                lemma_rfind_char(path@, '/');
                assert(i < path@.len());
                assert(path@.len() == path.len());
            }
            let n = slice_vec(path, i + 1, path.len());
            assert(n@ =~= path@.skip(i + 1));
            n
        },
        None => {
            let n = slice_vec(path, 0, path.len());
            assert(n@ =~= path@);
            n
        },
    };
    if name.len() == 0 || (name.len() == 2 && name[0] == '.' && name[1] == '.') {
        proof {
            if name@.len() == 2 && name@[0] == '.' && name@[1] == '.' {
                assert(name@ =~= seq!['.', '.']);
            }
        }
        None
    } else {
        assert(name@ != seq!['.', '.']);
        Some(name)
    }
}

pub fn stem_exec(name: &[char]) -> (r: Vec<char>)
    ensures
        r@ == stem_of(name@),
{
    match rfind_char_exec(name, '.') {
        Some(i) => {
            proof {
                lemma_rfind_char(name@, '.');
            }
            if i == 0 {
                slice_vec(name, 0, name.len())
            } else {
                slice_vec(name, 0, i)
            }
        },
        None => slice_vec(name, 0, name.len()),
    }
}

/// The number a filename of the shape `TYPE-NNNN-slug.md` carries for the
/// record's type prefix: the digits between `TYPE-` and the next hyphen (or
/// the end of the stem).
pub open spec fn filename_number_spec(path: Seq<char>, prefix: Seq<char>) -> Option<Seq<char>> {
    match file_name(path) {
        None => None,
        Some(name) => {
            let stem = stem_of(name);
            let head = prefix.push('-');
            if !starts_with(stem, head) {
                None
            } else {
                let rest = stem.skip(head.len() as int);
                let number = match split_once(rest, '-') {
                    Some((n, _)) => n,
                    None => rest,
                };
                if number.len() > 0 && all_digits(number) {
                    Some(number)
                } else {
                    None
                }
            }
        },
    }
}

/// A record's own identifier, derived from its filename: `TYPE-NNNN` for a
/// `TYPE-NNNN-slug.md` file.
pub open spec fn record_id_spec(path: Seq<char>, prefix: Seq<char>) -> Option<Seq<char>> {
    match filename_number_spec(path, prefix) {
        Some(n) => Some(prefix.push('-') + n),
        None => None,
    }
}

#[derive(Debug, Clone)]
pub struct Record {
    pub path: String,
    /// The record type as configured (e.g. "adr", "rfc", "spec").
    pub record_type: String,
    /// The filename/ID prefix this record's type resolves to (e.g. "ADR").
    pub type_prefix: String,
    pub header: Header,
}

impl Record {
    /// Parse using the default (blockquote) header shape.
    pub fn parse(path: String, record_type: String, content: &str) -> (r: Record)
        ensures
            r.path == path,
            r.record_type == record_type,
            r.type_prefix@ == upper_seq(record_type@),
            parsed(r.header, content@, HeaderShape::Blockquote),
    {
        Self::parse_with_shape(path, record_type, content, HeaderShape::Blockquote)
    }

    /// Parse with a declared header shape; the prefix is the type name
    /// upper-cased.
    pub fn parse_with_shape(path: String, record_type: String, content: &str, shape: HeaderShape) -> (r: Record)
        ensures
            r.path == path,
            r.record_type == record_type,
            r.type_prefix@ == upper_seq(record_type@),
            parsed(r.header, content@, shape),
    {
        let t = chars_of(record_type.as_str());
        let u = upper_vec(&t);
        let type_prefix = string_of(&u);
        Self::parse_with_shape_and_prefix(path, record_type, content, shape, type_prefix)
    }

    /// Like `parse_with_shape`, with an explicit filename/ID prefix.
    pub fn parse_with_shape_and_prefix(
        path: String,
        record_type: String,
        content: &str,
        shape: HeaderShape,
        type_prefix: String,
    ) -> (r: Record)
        ensures
            r.path == path,
            r.record_type == record_type,
            r.type_prefix == type_prefix,
            parsed(r.header, content@, shape),
    {
        Record { path, record_type, type_prefix, header: header::parse_with_shape(content, shape) }
    }

    pub open spec fn id_spec(&self) -> Option<Seq<char>> {
        record_id_spec(self.path@, self.type_prefix@)
    }

    /// The digits of this record's filename number.
    pub fn filename_number(&self) -> (r: Option<Vec<char>>)
        ensures
            match r {
                Some(n) => filename_number_spec(self.path@, self.type_prefix@) == Some(n@),
                None => filename_number_spec(self.path@, self.type_prefix@) is None,
            },
    {
        let path = chars_of(self.path.as_str());
        let name = match file_name_exec(&path) {
            Some(n) => n,
            None => return None,
        };
        let stem = stem_exec(&name);
        let mut head = chars_of(self.type_prefix.as_str());
        head.push('-');
        if !starts_with_exec(&stem, &head) {
            return None;
        }
        let rest = slice_vec(&stem, head.len(), stem.len());
        assert(rest@ =~= stem@.skip(head@.len() as int));
        let number = match split_once_exec(&rest, '-') {
            Some((n, _)) => n,
            None => rest,
        };
        if number.len() == 0 {
            return None;
        }
        let ghost expected = filename_number_spec(self.path@, self.type_prefix@);
        assert(expected == (if number@.len() > 0 && all_digits(number@) {
            Some(number@)
        } else {
            None
        }));
        let mut k: usize = 0;
        while k < number.len()
            invariant
                k <= number.len(),
                expected == filename_number_spec(self.path@, self.type_prefix@),
                expected == (if number@.len() > 0 && all_digits(number@) {
                    Some(number@)
                } else {
                    None
                }),
                forall|m: int| 0 <= m < k ==> crate::text::is_digit_char(#[trigger] number@[m]),
            decreases number.len() - k,
        {
            if !crate::text::is_digit(number[k]) {
                assert(!all_digits(number@)) by {
                    assert(!crate::text::is_digit_char(number@[k as int]));
                }
                return None;
            }
            k += 1;
        }
        Some(number)
    }

    /// This record's identifier, `TYPE-NNNN`, from its filename.
    pub fn id(&self) -> (r: Option<String>)
        ensures
            match r {
                Some(s) => self.id_spec() == Some(s@),
                None => self.id_spec() is None,
            },
    {
        match self.filename_number() {
            Some(n) => {
                let mut s = chars_of(self.type_prefix.as_str());
                s.push('-');
                let ghost head = s@;
                let mut k: usize = 0;
                while k < n.len()
                    invariant
                        k <= n.len(),
                        s@ == head + n@.take(k as int),
                    decreases n.len() - k,
                {
                    s.push(n[k]);
                    assert(n@.take(k + 1) == n@.take(k as int).push(n@[k as int]));
                    k += 1;
                }
                assert(n@.take(n@.len() as int) == n@);
                Some(string_of(&s))
            },
            None => None,
        }
    }
}

} // verus!
