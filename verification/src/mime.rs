//! MIME information, `.desktop` basics and clipboard helpers.

use vstd::prelude::*;
use crate::paths::{file_name_of, path_file_name};
use crate::trash::{std_from_utf8_lossy, utf8_lossy};
use crate::text::{
    chars_eq, chars_of, has_prefix, lines, lines_of, split_once, split_once_chars, string_of,
    trim, trim_chars, views,
};

verus! {

/// What `mime_guess` guesses for a path: the media type text, its type and
/// its subtype.
pub uninterp spec fn mime_guess_of(p: Seq<char>) -> (Seq<char>, Seq<char>, Seq<char>);

/// `mime_guess::from_path(p).first_or_octet_stream()`: the media type that
/// the path's extension suggests (`application/octet-stream` when none
/// does), as text, with its `type_()` and `subtype()`.  No disk access.  The
/// contract names the result; it depends on the path alone.
#[verifier::external_body]
pub(crate) fn guess_mime_parts(p: &str) -> (r: (String, String, String))
    ensures
        (r.0@, r.1@, r.2@) == mime_guess_of(p@),
{
    let m = mime_guess::from_path(p).first_or_octet_stream();
    (m.to_string(), m.type_().as_str().to_string(), m.subtype().as_str().to_string())
}

/// MIME type and associated applications.
#[derive(Clone, Debug)]
pub struct MimeInfo {
    pub mime_type: String,
    pub description: String,
    pub default_app: Option<String>,
    pub apps: Vec<String>,
}

/// Desktop entry parsed from a `.desktop` file.
#[derive(Clone, Debug)]
pub struct DesktopEntry {
    pub name: String,
    pub exec_line: String,
    pub icon: Option<String>,
}

/// The plain contents of a [`DesktopEntry`].
pub struct BasicEntryModel {
    pub name: Seq<char>,
    pub exec_line: Seq<char>,
    pub icon: Option<Seq<char>>,
}

impl View for DesktopEntry {
    type V = BasicEntryModel;

    open spec fn view(&self) -> BasicEntryModel {
        BasicEntryModel {
            name: self.name@,
            exec_line: self.exec_line@,
            icon: match self.icon {
                Some(i) => Some(i@),
                None => None,
            },
        }
    }
}

impl Default for DesktopEntry {
    fn default() -> (r: Self)
        ensures
            r@ == (BasicEntryModel { name: seq![], exec_line: seq![], icon: None }),
    {
        DesktopEntry { name: String::new(), exec_line: String::new(), icon: None }
    }
}

/// One line of a `.desktop` file applied to the basic parse state.
pub open spec fn basic_step(e: BasicEntryModel, inside: bool, line: Seq<char>) -> (BasicEntryModel, bool) {
    if trim(line) == "[Desktop Entry]"@ {
        (e, true)
    } else if has_prefix(line, seq!['[']) {
        (e, false)
    } else if !inside {
        (e, inside)
    } else {
        match split_once(line, '=') {
            Some((k, v)) => {
                let key = trim(k);
                if key == "Name"@ {
                    (BasicEntryModel { name: trim(v), ..e }, inside)
                } else if key == "Exec"@ {
                    (BasicEntryModel { exec_line: trim(v), ..e }, inside)
                } else if key == "Icon"@ {
                    (BasicEntryModel { icon: Some(trim(v)), ..e }, inside)
                } else {
                    (e, inside)
                }
            },
            None => (e, inside),
        }
    }
}

pub open spec fn basic_fold(ls: Seq<Seq<char>>, e: BasicEntryModel, inside: bool) -> (BasicEntryModel, bool)
    decreases ls.len(),
{
    if ls.len() == 0 {
        (e, inside)
    } else {
        let (e2, in2) = basic_step(e, inside, ls[0]);
        basic_fold(ls.drop_first(), e2, in2)
    }
}

/// The basic fields a `.desktop` text sets in its `[Desktop Entry]` group.
pub open spec fn basic_parse_spec(content: Seq<char>) -> BasicEntryModel {
    basic_fold(lines(content), BasicEntryModel { name: seq![], exec_line: seq![], icon: None }, false).0
}

fn basic_step_exec(e: &mut DesktopEntry, inside: &mut bool, line: &Vec<char>, header: &Vec<char>)
    requires
        header@ == "[Desktop Entry]"@,
    ensures
        (final(e)@, *final(inside)) == basic_step(old(e)@, *old(inside), line@),
{
    if line.len() > 0 {
        assert(has_prefix(line@, seq!['[']) == (line@[0] == '[')) by {
            assert(line@.take(1)[0] == line@[0]);
            assert(seq!['['][0] == '[');
            if line@[0] == '[' {
                assert(line@.take(1) =~= seq!['[']);
            }
        }
    } else {
        assert(!has_prefix(line@, seq!['[']));
    }
    if chars_eq(&trim_chars(line), header) {
        *inside = true;
    } else if line.len() > 0 && line[0] == '[' {
        *inside = false;
    } else if *inside {
        match split_once_chars(line, '=') {
            Some((kk, v)) => {
                let key = trim_chars(&kk);
                if chars_eq(&key, &chars_of("Name")) {
                    e.name = string_of(&trim_chars(&v));
                } else if chars_eq(&key, &chars_of("Exec")) {
                    e.exec_line = string_of(&trim_chars(&v));
                } else if chars_eq(&key, &chars_of("Icon")) {
                    e.icon = Some(string_of(&trim_chars(&v)));
                }
            },
            None => {},
        }
    }
}

/// Default MIME resolver.
pub struct DefaultMimeResolver;

impl DefaultMimeResolver {
    pub fn new() -> (r: Self) {
        DefaultMimeResolver
    }

    /// Parse the text of a `.desktop` file, returning its `Name`, `Exec`
    /// and `Icon` from the `[Desktop Entry]` group.
    pub fn parse_desktop_entry(content: &str) -> (r: DesktopEntry)
        ensures
            r@ == basic_parse_spec(content@),
    {
        let mut entry = DesktopEntry::default();
        let mut inside = false;
        let ls = lines_of(&chars_of(content));
        let header = chars_of("[Desktop Entry]");
        let mut k: usize = 0;
        assert(views(ls@).skip(0) =~= views(ls@));
        while k < ls.len()
            invariant
                k <= ls.len(),
                views(ls@) == lines(content@),
                header@ == "[Desktop Entry]"@,
                basic_parse_spec(content@) == basic_fold(views(ls@).skip(k as int), entry@, inside).0,
            decreases ls.len() - k,
        {
            let line = &ls[k];
            assert(views(ls@).skip(k as int).drop_first() =~= views(ls@).skip(k + 1));
            assert(views(ls@).skip(k as int)[0] == line@);
            basic_step_exec(&mut entry, &mut inside, line, &header);
            k += 1;
        }
        assert(views(ls@).skip(k as int) =~= Seq::<Seq<char>>::empty());
        entry
    }

    /// The MIME type guessed from a path's extension
    /// (`application/octet-stream` when unknown).
    pub fn resolve_mime(&self, path: &str) -> (r: String)
        ensures
            r@ == mime_guess_of(path@).0,
    {
        let (m, _, _) = guess_mime_parts(path);
        m
    }

    /// The MIME information of a path, given the default application that
    /// `xdg-mime query default` reported for its type.
    pub fn mime_info(&self, path: &str, default_app: Option<String>) -> (r: MimeInfo)
        ensures
            r.mime_type@ == mime_guess_of(path@).0,
            r.description@ == Seq::<char>::empty(),
            r.default_app == default_app,
            r.apps@.len() == 0,
    {
        MimeInfo {
            mime_type: self.resolve_mime(path),
            description: String::new(),
            default_app,
            apps: Vec::new(),
        }
    }

    /// The default application that an `xdg-mime query default` run
    /// reports: its output, trimmed, when the run succeeded and the output
    /// is not blank.
    pub fn default_app_from_query(success: bool, stdout: &[u8]) -> (r: Option<String>)
        ensures
            r matches Some(a) ==> success && a@ == trim(utf8_lossy(stdout@)) && a@.len() > 0,
            r is None ==> !success || trim(utf8_lossy(stdout@)).len() == 0,
    {
        if !success {
            return None;
        }
        let text = std_from_utf8_lossy(stdout);
        let t = trim_chars(&chars_of(text.as_str()));
        if t.len() == 0 {
            None
        } else {
            Some(string_of(&t))
        }
    }

    /// The path as text.
    pub fn copy_path(&self, path: &str) -> (r: String)
        ensures
            r@ == path@,
    {
        string_of(&chars_of(path))
    }

    /// The final component of the path, or the empty string.
    pub fn copy_name(&self, path: &str) -> (r: String)
        ensures
            r@ == match file_name_of(path@) {
                Some(n) => n,
                None => Seq::<char>::empty(),
            },
    {
        match path_file_name(path) {
            Some(n) => n,
            None => String::new(),
        }
    }

    /// The `file://` URI of the path.
    pub fn copy_uri(&self, path: &str) -> (r: String)
        ensures
            r@ == "file://"@ + path@,
    {
        let mut s = string_of(&chars_of("file://"));
        s.append(path);
        s
    }
}

impl Default for DefaultMimeResolver {
    /// The resolver.
    fn default() -> (r: Self) {
        DefaultMimeResolver::new()
    }
}

} // verus!
