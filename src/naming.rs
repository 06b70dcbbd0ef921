//! Names derived from a source file's path: its stem, its extension, and the
//! capitalized name of the unit scanned from it.
use vstd::prelude::*;
use vstd::string::*;

use crate::error::ParserError;
use crate::text::{chars_of, last_index, last_index_exec, strip_end, strip_end_exec};

verus! {

/// The last `/`-separated component of a path, trailing slashes aside.
pub open spec fn file_name(path: Seq<char>) -> Seq<char> {
    let p = strip_end(path, '/');
    match last_index(p, '/', p.len() as int) {
        Some(k) => p.subrange(k + 1, p.len() as int),
        None => p,
    }
}

/// The position of the `.` that starts a file name's extension: its last `.`,
/// unless that is its first character.
pub open spec fn extension_dot(name: Seq<char>) -> Option<int> {
    match last_index(name, '.', name.len() as int) {
        Some(k) => if k > 0 {
            Some(k)
        } else {
            None
        },
        None => None,
    }
}

/// A path's file name without its extension.
pub open spec fn file_stem(path: Seq<char>) -> Seq<char> {
    let name = file_name(path);
    match extension_dot(name) {
        Some(k) => name.subrange(0, k),
        None => name,
    }
}

/// A path's extension, after the dot; `None` where it has none.
pub open spec fn file_extension(path: Seq<char>) -> Option<Seq<char>> {
    let name = file_name(path);
    match extension_dot(name) {
        Some(k) => Some(name.subrange(k + 1, name.len() as int)),
        None => None,
    }
}

/// What `char::to_uppercase` makes of a character.
pub uninterp spec fn upper_of(c: char) -> Seq<char>;

/// `s` with its first character upper-cased; empty where `s` is.
pub open spec fn capitalized(s: Seq<char>) -> Seq<char> {
    if s.len() == 0 {
        s
    } else {
        upper_of(s[0]) + s.drop_first()
    }
}

/// The name of the unit scanned from a file: its stem, capitalized.
pub open spec fn unit_name(path: Seq<char>) -> Seq<char> {
    capitalized(file_stem(path))
}

/// Relies on `char::to_uppercase`: the upper-case form of one character,
/// which depends on the character alone and, as its documentation states,
/// holds one or more characters.
#[verifier::external_body]
fn uppercase_char(c: char) -> (r: String)
    ensures
        r@ == upper_of(c),
        r@.len() >= 1,
{
    c.to_uppercase().collect::<String>()
}

fn file_name_exec(path: &str) -> (r: &str)
    ensures
        r@ == file_name(path@),
{
    let p = strip_end_exec(path, '/');
    let v = chars_of(p);
    let n = v.len();
    match last_index_exec(&v, '/') {
        Some(k) => p.substring_char(k + 1, n),
        None => p,
    }
}

fn extension_dot_exec(name: &str) -> (r: Option<usize>)
    ensures
        match r {
            Some(k) => extension_dot(name@) == Some(k as int) && k < name@.len(),
            None => extension_dot(name@) is None,
        },
{
    let v = chars_of(name);
    match last_index_exec(&v, '.') {
        Some(k) => if k > 0 {
            Some(k)
        } else {
            None
        },
        None => None,
    }
}

/// The file name of a path without its extension.
pub fn stem_of(path: &str) -> (r: String)
    ensures
        r@ == file_stem(path@),
{
    let name = file_name_exec(path);
    match extension_dot_exec(name) {
        Some(k) => name.substring_char(0, k).to_owned(),
        None => name.to_owned(),
    }
}

/// Whether a path names a source file: its extension is `cairo`.
pub fn is_cairo_file(path: &str) -> (r: Result<bool, ParserError>)
    ensures
        r is Ok <==> file_extension(path@) == Some("cairo"@),
        r is Ok ==> r == Ok::<bool, ParserError>(true),
        r is Err ==> r == Err::<bool, ParserError>(ParserError::InvalidFileExtension),
{
    let name = file_name_exec(path);
    match extension_dot_exec(name) {
        Some(k) => {
            let n = name.unicode_len();
            let ext = name.substring_char(k + 1, n);
            let v = chars_of(ext);
            let w = chars_of("cairo");
            if v.len() != w.len() {
                return Err(ParserError::InvalidFileExtension);
            }
            assert(ext@.subrange(0, w@.len() as int) =~= ext@);
            if crate::text::matches_at_exec(&v, 0, &w) {
                Ok(true)
            } else {
                Err(ParserError::InvalidFileExtension)
            }
        },
        None => Err(ParserError::InvalidFileExtension),
    }
}

/// `s` with its first character replaced by `first_upper`, the upper-case
/// form of that character.
pub fn capitalized_from(first_upper: &str, s: &str) -> (r: String)
    requires
        s@.len() > 0,
    ensures
        r@ == first_upper@ + s@.drop_first(),
{
    let mut r = first_upper.to_owned();
    r.append(s.substring_char(1, s.unicode_len()));
    assert(s@.subrange(1, s@.len() as int) =~= s@.drop_first());
    r
}

/// `s` with its first character upper-cased.
pub fn capitalize(s: &str) -> (r: String)
    ensures
        r@ == capitalized(s@),
        r@.len() == 0 <==> s@.len() == 0,
{
    if s.unicode_len() == 0 {
        return String::new();
    }
    let first = uppercase_char(s.get_char(0));
    capitalized_from(first.as_str(), s)
}

/// The name of the unit scanned from the file at `path`: its stem, capitalized.
pub fn unit_name_of(path: &str) -> (r: String)
    ensures
        r@ == unit_name(path@),
        r@.len() == 0 <==> file_stem(path@).len() == 0,
{
    let stem = stem_of(path);
    capitalize(stem.as_str())
}

} // verus!
