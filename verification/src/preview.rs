//! Preview decisions: what to read for a path, and whether text read from
//! a file is shown as text or as binary.

use vstd::prelude::*;
use crate::mime::{guess_mime_parts, mime_guess_of};
use crate::paths::{extension_of, path_extension};
use crate::text::{chars_eq, chars_of, lowercase_chars, lowercase_of, string_of};

verus! {

/// Supported preview types.
#[derive(Clone, Debug)]
pub enum PreviewContent {
    Text(String),
    Image { mime: String, bytes: Vec<u8> },
    Directory(Vec<String>),
    Binary { mime: String, size: u64 },
    Unsupported { reason: String },
}

/// Request to preview a file.
#[derive(Clone, Debug)]
pub struct PreviewRequest {
    pub path: String,
    pub max_bytes: usize,
}

/// What a preview does next for a path.
#[derive(Clone, Debug)]
pub enum PreviewStep {
    /// The preview is known without reading the file.
    Done(PreviewContent),
    /// List the directory's entry names.
    ListDirectory,
    /// Read the whole file as an image of the given media type.
    ReadImage { mime: String },
    /// Read at most `max_bytes` of the file as text, then classify it.
    ReadText { max_bytes: usize },
}

/// At most this many names are shown for a directory.
pub const DIRECTORY_PREVIEW_LIMIT: usize = 100;

/// ASCII case-insensitive equality (the comparison `mime::Name` uses).
pub open spec fn eq_ignore_ascii_case(a: Seq<char>, b: Seq<char>) -> bool {
    a.len() == b.len() && forall|i: int| 0 <= i < a.len() ==> ascii_lower(a[i]) == ascii_lower(b[i])
}

pub open spec fn ascii_lower(c: char) -> char {
    if 'A' <= c <= 'Z' {
        ((c as u32) + 32) as char
    } else {
        c
    }
}

fn ascii_lower_exec(c: char) -> (r: u32)
    ensures
        r == ascii_lower(c) as u32,
{
    if 'A' <= c && c <= 'Z' {
        (c as u32) + 32
    } else {
        c as u32
    }
}

fn eq_ignore_ascii_case_exec(a: &Vec<char>, b: &str) -> (r: bool)
    ensures
        r == eq_ignore_ascii_case(a@, b@),
{
    let bc = chars_of(b);
    if a.len() != bc.len() {
        return false;
    }
    let mut i: usize = 0;
    while i < a.len()
        invariant
            a.len() == bc.len(),
            bc@ == b@,
            i <= a.len(),
            forall|k: int| 0 <= k < i ==> ascii_lower(a@[k]) == ascii_lower(bc@[k]),
        decreases a.len() - i,
    {
        let x = ascii_lower_exec(a[i]);
        let y = ascii_lower_exec(bc[i]);
        if x != y {
            proof {
                vstd::utf8::char_u32_cast(ascii_lower(a@[i as int]), x);
                vstd::utf8::char_u32_cast(ascii_lower(bc@[i as int]), y);
            }
            return false;
        }
        proof {
            vstd::utf8::char_u32_cast(ascii_lower(a@[i as int]), x);
            vstd::utf8::char_u32_cast(ascii_lower(bc@[i as int]), y);
        }
        i += 1;
    }
    true
}

/// `char::is_ascii_graphic` or `char::is_ascii_whitespace`.
pub open spec fn is_printable(c: char) -> bool {
    ('!' <= c <= '~') || c == ' ' || c == '\t' || c == '\n' || c == '\u{c}' || c == '\r'
}

/// How many characters of `s` are printable.
pub open spec fn printable_count(s: Seq<char>) -> int
    decreases s.len(),
{
    if s.len() == 0 {
        0
    } else {
        printable_count(s.drop_last()) + if is_printable(s.last()) {
            1int
        } else {
            0
        }
    }
}

/// The first `n` characters of `s`, or all of them when it is shorter.
pub open spec fn first_chars(s: Seq<char>, n: int) -> Seq<char> {
    if s.len() <= n {
        s
    } else {
        s.take(n)
    }
}

/// Extensions whose files are shown as text.
pub open spec fn source_exts() -> Seq<Seq<char>> {
    seq![
        "rs"@, "py"@, "js"@, "ts"@, "go"@, "c"@, "cpp"@, "h"@, "hpp"@, "java"@, "kt"@, "swift"@,
        "rb"@, "sh"@, "bash"@, "zsh"@, "fish"@, "toml"@, "yaml"@, "yml"@, "json"@, "xml"@,
        "html"@, "css"@, "scss"@, "sql"@, "md"@, "lua"@,
    ]
}

/// Text read from a file is shown as text: the media type is text,
/// JavaScript or JSON, or the extension is a known source extension, or
/// more than 95% of its first 1024 characters (all of them when there are
/// fewer) are printable.
pub open spec fn shows_as_text(path: Seq<char>, content: Seq<char>) -> bool {
    let m = mime_guess_of(path);
    ||| eq_ignore_ascii_case(m.1, "text"@)
    ||| eq_ignore_ascii_case(m.2, "javascript"@)
    ||| eq_ignore_ascii_case(m.2, "json"@)
    ||| (extension_of(path) matches Some(e) && source_exts().contains(lowercase_of(e)))
    ||| printable_count(first_chars(content, 1024)) * 100 / (if first_chars(content, 1024).len() == 0 {
        1
    } else {
        first_chars(content, 1024).len() as int
    }) > 95
}

fn is_source_ext(e: &Vec<char>) -> (r: bool)
    ensures
        r == source_exts().contains(e@),
{
    let list = vec![
        "rs", "py", "js", "ts", "go", "c", "cpp", "h", "hpp", "java", "kt", "swift", "rb", "sh",
        "bash", "zsh", "fish", "toml", "yaml", "yml", "json", "xml", "html", "css", "scss", "sql",
        "md", "lua",
    ];
    let ghost exts = source_exts();
    assert(list@.map_values(|s: &str| s@) =~= exts);
    let mut i: usize = 0;
    while i < list.len()
        invariant
            i <= list.len(),
            list@.map_values(|s: &str| s@) == exts,
            exts == source_exts(),
            forall|k: int| 0 <= k < i ==> exts[k] != e@,
        decreases list.len() - i,
    {
        assert(exts[i as int] == list@[i as int]@);
        if chars_eq(e, &chars_of(list[i])) {
            assert(exts[i as int] == e@);
            return true;
        }
        i += 1;
    }
    assert(!exts.contains(e@));
    false
}

fn printable_prefix_count(c: &Vec<char>) -> (r: usize)
    ensures
        r as int == printable_count(first_chars(c@, 1024)),
        r <= 1024,
{
    let n = if c.len() < 1024 {
        c.len()
    } else {
        1024
    };
    let mut count: usize = 0;
    let mut i: usize = 0;
    assert(c@.take(0) =~= Seq::<char>::empty());
    while i < n
        invariant
            n <= c.len(),
            n <= 1024,
            i <= n,
            count <= i,
            count as int == printable_count(c@.take(i as int)),
        decreases n - i,
    {
        let ch = c[i];
        assert(c@.take(i + 1).drop_last() =~= c@.take(i as int));
        if ('!' <= ch && ch <= '~') || ch == ' ' || ch == '\t' || ch == '\n' || ch == '\u{c}' || ch
            == '\r' {
            count += 1;
        }
        i += 1;
    }
    if c.len() <= 1024 {
        assert(c@ =~= c@.take(n as int));
    }
    count
}

/// Decide how text read from a file is shown: as text, or as a binary of
/// the guessed media type and the file's size.  `content` is `None` when
/// reading failed.
pub fn classify_text(path: &str, content: Option<String>, size: u64) -> (r: PreviewContent)
    ensures
        match content {
            Some(c) => if shows_as_text(path@, c@) {
                (r matches PreviewContent::Text(t) && t@ == c@)
            } else {
                (r matches PreviewContent::Binary { mime, size: s } && mime@ == mime_guess_of(path@).0
                    && s == size)
            },
            None => (r matches PreviewContent::Binary { mime, size: s } && mime@
                == mime_guess_of(path@).0 && s == size),
        },
{
    let (mime, top, sub) = guess_mime_parts(path);
    match content {
        None => PreviewContent::Binary { mime, size },
        Some(c) => {
            let topc = chars_of(top.as_str());
            let subc = chars_of(sub.as_str());
            if eq_ignore_ascii_case_exec(&topc, "text") || eq_ignore_ascii_case_exec(
                &subc,
                "javascript",
            ) || eq_ignore_ascii_case_exec(&subc, "json") {
                return PreviewContent::Text(c);
            }
            match path_extension(path) {
                Some(e) => {
                    if is_source_ext(&lowercase_chars(&chars_of(e.as_str()))) {
                        return PreviewContent::Text(c);
                    }
                },
                None => {},
            }
            let cs = chars_of(c.as_str());
            let printable = printable_prefix_count(&cs);
            let counted = if cs.len() < 1024 {
                cs.len()
            } else {
                1024
            };
            let total = if counted == 0 {
                1
            } else {
                counted
            };
            if printable * 100 / total > 95 {
                PreviewContent::Text(c)
            } else {
                PreviewContent::Binary { mime, size }
            }
        },
    }
}

/// The next step of a preview, given whether the path exists, whether it
/// is a directory and its size in bytes.
pub fn preview_plan(req: &PreviewRequest, exists: bool, is_dir: bool, size: u64) -> (r: PreviewStep)
    ensures
        !exists ==> (r matches PreviewStep::Done(PreviewContent::Unsupported { reason }) && reason@
            == "path does not exist: "@ + req.path@),
        exists && is_dir ==> r is ListDirectory,
        exists && !is_dir && eq_ignore_ascii_case(mime_guess_of(req.path@).1, "image"@) ==> (r matches PreviewStep::ReadImage { mime } && mime@ == mime_guess_of(req.path@).0),
        exists && !is_dir && !eq_ignore_ascii_case(mime_guess_of(req.path@).1, "image"@) && size == 0 ==> (r matches PreviewStep::Done(PreviewContent::Text(t)) && t@ == Seq::<char>::empty()),
        exists && !is_dir && !eq_ignore_ascii_case(mime_guess_of(req.path@).1, "image"@) && size != 0 ==> (r matches PreviewStep::ReadText { max_bytes } && max_bytes == req.max_bytes),
{
    if !exists {
        let mut reason = string_of(&chars_of("path does not exist: "));
        reason.append(req.path.as_str());
        return PreviewStep::Done(PreviewContent::Unsupported { reason });
    }
    if is_dir {
        return PreviewStep::ListDirectory;
    }
    let (mime, top, _) = guess_mime_parts(req.path.as_str());
    if eq_ignore_ascii_case_exec(&chars_of(top.as_str()), "image") {
        return PreviewStep::ReadImage { mime };
    }
    if size == 0 {
        return PreviewStep::Done(PreviewContent::Text(String::new()));
    }
    PreviewStep::ReadText { max_bytes: req.max_bytes }
}

/// The preview of a directory: the first names read, at most
/// [`DIRECTORY_PREVIEW_LIMIT`] of them.
pub fn directory_preview(names: Vec<String>) -> (r: PreviewContent)
    ensures
        r matches PreviewContent::Directory(v) && v@ == names@.take(
            if names.len() <= DIRECTORY_PREVIEW_LIMIT {
                names.len() as int
            } else {
                DIRECTORY_PREVIEW_LIMIT as int
            },
        ),
{
    let mut names = names;
    if names.len() > DIRECTORY_PREVIEW_LIMIT {
        names.truncate(DIRECTORY_PREVIEW_LIMIT);
    }
    PreviewContent::Directory(names)
}

} // verus!
