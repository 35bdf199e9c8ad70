//! File-system paths held as UTF-8 strings, with the std `Path` operations
//! the library relies on.

use vstd::prelude::*;
use crate::text::{chars_of, has_prefix, last_char_position, last_elem_pos, slice_chars, string_of};

verus! {

/// What std `Path::parent` returns for a path.
pub uninterp spec fn parent_of(p: Seq<char>) -> Option<Seq<char>>;

/// std `Path::parent`: the path without its final component, if there is
/// one.  The contract names the result; it depends on `p` alone.
#[verifier::external_body]
pub(crate) fn std_path_parent(p: &str) -> (r: Option<String>)
    ensures
        r matches Some(q) ==> parent_of(p@) == Some(q@),
        r is None ==> parent_of(p@) is None,
{
    match std::path::Path::new(p).parent() {
        Some(q) => Some(q.to_string_lossy().into_owned()),
        None => None,
    }
}

/// What std `Path::join` returns for a base path and a pushed part.
pub uninterp spec fn joined(base: Seq<char>, part: Seq<char>) -> Seq<char>;

/// std `Path::join` (`PathBuf::push` on a copy of the base).  The contract
/// names the result and states how `push` extends a path on Unix: an
/// absolute part replaces the base; a relative part is appended, after a
/// `/` unless the base is empty or already ends in one.
#[verifier::external_body]
pub(crate) fn std_path_join(base: &str, part: &str) -> (r: String)
    ensures
        r@ == joined(base@, part@),
        has_prefix(part@, seq!['/']) ==> r@ == part@,
        !has_prefix(part@, seq!['/']) && base@.len() == 0 ==> r@ == part@,
        !has_prefix(part@, seq!['/']) && base@.len() > 0 && base@.last() == '/' ==> r@ == base@
            + part@,
        !has_prefix(part@, seq!['/']) && base@.len() > 0 && base@.last() != '/' ==> r@ == base@
            + seq!['/'] + part@,
{
    std::path::Path::new(base).join(part).to_string_lossy().into_owned()
}

/// What std `Path::file_name` returns for a path.
pub uninterp spec fn file_name_of(p: Seq<char>) -> Option<Seq<char>>;

/// std `Path::file_name`: the final component, unless the path ends in
/// `..` or is a root.  The contract names the result; it depends on `p` alone.
#[verifier::external_body]
pub(crate) fn std_path_file_name(p: &str) -> (r: Option<String>)
    ensures
        r matches Some(q) ==> file_name_of(p@) == Some(q@),
        r is None ==> file_name_of(p@) is None,
{
    match std::path::Path::new(p).file_name() {
        Some(q) => Some(q.to_string_lossy().into_owned()),
        None => None,
    }
}

/// What std `Path::with_file_name` returns.
pub uninterp spec fn with_file_name_of(p: Seq<char>, name: Seq<char>) -> Seq<char>;

/// std `Path::with_file_name`: `p` with its final component replaced.  The
/// contract names the result and states what the documentation of
/// `PathBuf::set_file_name` says: with a file name present, the path is
/// truncated to its parent (`pop`) and the name pushed; without one, the
/// name is pushed onto the whole path.
#[verifier::external_body]
pub(crate) fn std_path_with_file_name(p: &str, name: &str) -> (r: String)
    ensures
        r@ == with_file_name_of(p@, name@),
        file_name_of(p@) is Some && parent_of(p@) is Some ==> r@ == joined(
            parent_of(p@)->0,
            name@,
        ),
        file_name_of(p@) is None ==> r@ == joined(p@, name@),
{
    std::path::Path::new(p).with_file_name(name).to_string_lossy().into_owned()
}

/// The stem of a file name, as std `Path::file_stem` documents it: the
/// whole name when it holds no `.` or only a leading one, else the part
/// before the final `.`.
pub open spec fn stem_of_name(name: Seq<char>) -> Seq<char> {
    match last_elem_pos(name, '.') {
        Some(i) => if i == 0 {
            name
        } else {
            name.take(i)
        },
        None => name,
    }
}

/// The extension of a file name, as std `Path::extension` documents it:
/// none when the name holds no `.` or only a leading one, else the part
/// after the final `.`.
pub open spec fn extension_of_name(name: Seq<char>) -> Option<Seq<char>> {
    match last_elem_pos(name, '.') {
        Some(i) => if i == 0 {
            None
        } else {
            Some(name.skip(i + 1))
        },
        None => None,
    }
}

/// std `Path::file_stem` on a path.
pub open spec fn file_stem_of(p: Seq<char>) -> Option<Seq<char>> {
    match file_name_of(p) {
        Some(n) => Some(stem_of_name(n)),
        None => None,
    }
}

/// std `Path::extension` on a path.
pub open spec fn extension_of(p: Seq<char>) -> Option<Seq<char>> {
    match file_name_of(p) {
        Some(n) => extension_of_name(n),
        None => None,
    }
}

/// The parent directory of a path.
pub fn path_parent(p: &str) -> (r: Option<String>)
    ensures
        r matches Some(q) ==> parent_of(p@) == Some(q@),
        r is None ==> parent_of(p@) is None,
{
    std_path_parent(p)
}

/// `base` joined with `part`.
pub fn path_join(base: &str, part: &str) -> (r: String)
    ensures
        r@ == joined(base@, part@),
{
    std_path_join(base, part)
}

/// The final component of a path.
pub fn path_file_name(p: &str) -> (r: Option<String>)
    ensures
        r matches Some(q) ==> file_name_of(p@) == Some(q@),
        r is None ==> file_name_of(p@) is None,
{
    std_path_file_name(p)
}

/// Stem and extension of a file name.
pub fn split_file_name(name: &Vec<char>) -> (r: (Vec<char>, Option<Vec<char>>))
    ensures
        r.0@ == stem_of_name(name@),
        r.1 matches Some(e) ==> extension_of_name(name@) == Some(e@),
        r.1 is None ==> extension_of_name(name@) is None,
{
    match last_char_position(name, '.') {
        Some(i) => {
            if i == 0 {
                let all = slice_chars(name, 0, name.len());
                assert(all@ =~= name@);
                (all, None)
            } else {
                let stem = slice_chars(name, 0, i);
                let ext = slice_chars(name, i + 1, name.len());
                assert(stem@ =~= name@.take(i as int));
                assert(ext@ =~= name@.skip(i + 1));
                (stem, Some(ext))
            }
        },
        None => {
            let all = slice_chars(name, 0, name.len());
            assert(all@ =~= name@);
            (all, None)
        },
    }
}

/// std `Path::file_stem`.
pub fn path_file_stem(p: &str) -> (r: Option<String>)
    ensures
        r matches Some(q) ==> file_stem_of(p@) == Some(q@),
        r is None ==> file_stem_of(p@) is None,
{
    match std_path_file_name(p) {
        Some(n) => {
            let (stem, _) = split_file_name(&chars_of(n.as_str()));
            Some(string_of(&stem))
        },
        None => None,
    }
}

/// std `Path::extension`.
pub fn path_extension(p: &str) -> (r: Option<String>)
    ensures
        r matches Some(q) ==> extension_of(p@) == Some(q@),
        r is None ==> extension_of(p@) is None,
{
    match std_path_file_name(p) {
        Some(n) => {
            let (_, ext) = split_file_name(&chars_of(n.as_str()));
            match ext {
                Some(e) => Some(string_of(&e)),
                None => None,
            }
        },
        None => None,
    }
}

} // verus!
