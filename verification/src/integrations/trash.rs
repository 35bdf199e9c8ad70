//! The XDG trash layout as the `trash` crate uses it.

use vstd::prelude::*;
use crate::paths::{joined, path_join};
use crate::text::{chars_of, has_prefix, lines, lines_of, slice_chars, starts_with, string_of, views};

verus! {

/// The XDG trash directories under a data home: `Trash/files` and
/// `Trash/info`.
pub fn trash_dirs(data_home: &str) -> (r: (String, String))
    ensures
        r.0@ == joined(joined(data_home@, "Trash"@), "files"@),
        r.1@ == joined(joined(data_home@, "Trash"@), "info"@),
{
    let files = path_join(path_join(data_home, "Trash").as_str(), "files");
    let info = path_join(path_join(data_home, "Trash").as_str(), "info");
    (files, info)
}

/// A trash directory that the XDG layout needs is missing.
#[derive(Debug)]
pub enum TrashLayoutError {
    MissingFilesDir(String),
    MissingInfoDir(String),
}

/// Check the trash layout: the files directory must exist, then the info
/// directory.
pub fn validate_trash_xdg_compliance(
    dirs: &(String, String),
    files_exists: bool,
    info_exists: bool,
) -> (r: Result<(), TrashLayoutError>)
    ensures
        r is Ok <==> files_exists && info_exists,
        r matches Err(TrashLayoutError::MissingFilesDir(p)) ==> !files_exists && p@ == dirs.0@,
        r matches Err(TrashLayoutError::MissingInfoDir(p)) ==> files_exists && !info_exists && p@
            == dirs.1@,
{
    if !files_exists {
        return Err(TrashLayoutError::MissingFilesDir(string_of(&chars_of(dirs.0.as_str()))));
    }
    if !info_exists {
        return Err(TrashLayoutError::MissingInfoDir(string_of(&chars_of(dirs.1.as_str()))));
    }
    Ok(())
}

/// The original path a `.trashinfo` text records: the text after `Path=`
/// on its first such line, not decoded.
pub open spec fn info_path_spec(ls: Seq<Seq<char>>) -> Option<Seq<char>>
    decreases ls.len(),
{
    if ls.len() == 0 {
        None
    } else if has_prefix(ls[0], "Path="@) {
        Some(ls[0].skip(5))
    } else {
        info_path_spec(ls.drop_first())
    }
}

/// Read the original path from the text of a `.trashinfo` file.
pub fn parse_trashinfo(content: &str) -> (r: Option<String>)
    ensures
        r matches Some(p) ==> info_path_spec(lines(content@)) == Some(p@),
        r is None ==> info_path_spec(lines(content@)) is None,
{
    let ls = lines_of(&chars_of(content));
    let prefix = chars_of("Path=");
    proof {
        reveal_strlit("Path=");
    }
    let mut k: usize = 0;
    assert(views(ls@).skip(0) =~= views(ls@));
    while k < ls.len()
        invariant
            k <= ls.len(),
            views(ls@) == lines(content@),
            prefix@ == "Path="@,
            prefix@.len() == 5,
            info_path_spec(lines(content@)) == info_path_spec(views(ls@).skip(k as int)),
        decreases ls.len() - k,
    {
        assert(views(ls@).skip(k as int).drop_first() =~= views(ls@).skip(k + 1));
        assert(views(ls@).skip(k as int)[0] == ls@[k as int]@);
        if starts_with(&ls[k], &prefix) {
            let rest = slice_chars(&ls[k], 5, ls[k].len());
            assert(rest@ =~= ls@[k as int]@.skip(5));
            return Some(string_of(&rest));
        }
        k += 1;
    }
    assert(views(ls@).skip(k as int) =~= Seq::<Seq<char>>::empty());
    None
}

/// The original path of a trashed item: what its `.trashinfo` text records,
/// else the item's own path.
pub fn original_path_of(path: &str, info: Option<&str>) -> (r: String)
    ensures
        r@ == match info {
            Some(t) => match info_path_spec(lines(t@)) {
                Some(p) => p,
                None => path@,
            },
            None => path@,
        },
{
    match info {
        Some(t) => match parse_trashinfo(t) {
            Some(p) => p,
            None => string_of(&chars_of(path)),
        },
        None => string_of(&chars_of(path)),
    }
}

/// An item found in the trash's files directory; `trashed_at` is its
/// modification time in nanoseconds since the Unix epoch.
#[derive(Clone, Debug)]
pub struct TrashedItem {
    pub path: String,
    pub original_path: String,
    pub trashed_at: u64,
}

/// The trash item at `path`, given the text of its `.trashinfo` file when
/// there is one and its modification time.
pub fn trashed_item(path: &str, info: Option<&str>, modified: u64) -> (r: TrashedItem)
    ensures
        r.path@ == path@,
        r.original_path@ == match info {
            Some(t) => match info_path_spec(lines(t@)) {
                Some(p) => p,
                None => path@,
            },
            None => path@,
        },
        r.trashed_at == modified,
{
    TrashedItem { path: path.to_string(), original_path: original_path_of(path, info), trashed_at: modified }
}

/// How the trash integration behaves.
pub fn trash_behavior_docs() -> (r: &'static str)
    ensures
        r@ == "Trash Integration Behavior:
- Uses the `trash` crate which follows the freedesktop Trash specification.
- Trash root: `$XDG_DATA_HOME/Trash` (usually `~/.local/share/Trash`).
- `files/`: holds the actual trashed items.
- `info/`: holds `.trashinfo` XML-ish metadata files with original path and deletion time.
- Cross-device trash (e.g. external drives): the crate may copy data instead of renaming.
"@,
{
    "Trash Integration Behavior:
- Uses the `trash` crate which follows the freedesktop Trash specification.
- Trash root: `$XDG_DATA_HOME/Trash` (usually `~/.local/share/Trash`).
- `files/`: holds the actual trashed items.
- `info/`: holds `.trashinfo` XML-ish metadata files with original path and deletion time.
- Cross-device trash (e.g. external drives): the crate may copy data instead of renaming.
"
}

} // verus!
