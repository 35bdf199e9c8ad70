//! Freedesktop `.desktop` entries: parsing, MIME association and the
//! command line that opens a file with an application.

use vstd::prelude::*;
use crate::paths::{extension_of, file_stem_of, path_extension, path_file_stem};
use crate::text::{
    chars_eq, chars_of, lemma_elem_pos_is, lines, lines_of, trim_end, trim_start, lowercase_chars, lowercase_of,
    split_chars, split_on, split_once, split_once_chars, string_of,
    string_views, trim, trim_chars, views,
};

verus! {

/// A parsed `.desktop` entry.
#[derive(Clone, Debug)]
pub struct DesktopEntry {
    pub id: String,
    pub name: String,
    pub exec_line: String,
    pub icon: Option<String>,
    pub mime_types: Vec<String>,
    pub terminal: bool,
    pub no_display: bool,
    pub hidden: bool,
    pub path: Option<String>,
}

/// The contents of a [`DesktopEntry`] as plain values.
pub struct DesktopEntryModel {
    pub id: Seq<char>,
    pub name: Seq<char>,
    pub exec_line: Seq<char>,
    pub icon: Option<Seq<char>>,
    pub mime_types: Seq<Seq<char>>,
    pub terminal: bool,
    pub no_display: bool,
    pub hidden: bool,
    pub path: Option<Seq<char>>,
}

pub open spec fn opt_view(o: Option<String>) -> Option<Seq<char>> {
    match o {
        Some(s) => Some(s@),
        None => None,
    }
}

impl View for DesktopEntry {
    type V = DesktopEntryModel;

    open spec fn view(&self) -> DesktopEntryModel {
        DesktopEntryModel {
            id: self.id@,
            name: self.name@,
            exec_line: self.exec_line@,
            icon: opt_view(self.icon),
            mime_types: string_views(self.mime_types@),
            terminal: self.terminal,
            no_display: self.no_display,
            hidden: self.hidden,
            path: opt_view(self.path),
        }
    }
}

/// The entry with every field empty or false.
pub open spec fn empty_entry() -> DesktopEntryModel {
    DesktopEntryModel {
        id: seq![],
        name: seq![],
        exec_line: seq![],
        icon: None,
        mime_types: seq![],
        terminal: false,
        no_display: false,
        hidden: false,
        path: None,
    }
}

impl Default for DesktopEntry {
    fn default() -> (r: Self)
        ensures
            r@ == empty_entry(),
    {
        let r = DesktopEntry {
            id: String::new(),
            name: String::new(),
            exec_line: String::new(),
            icon: None,
            mime_types: Vec::new(),
            terminal: false,
            no_display: false,
            hidden: false,
            path: None,
        };
        assert(string_views(r.mime_types@) =~= seq![]);
        r
    }
}

/// Why a `.desktop` file yields no entry.
#[derive(Debug)]
pub enum DesktopEntryError {
    /// The `[Desktop Entry]` group set no `Name`, and no id was given.
    MissingNameAndId,
    /// No MIME type could be determined for a file.
    UnknownMimeType(String),
}

/// One `key=value` line of the `[Desktop Entry]` group applied to an entry.
pub open spec fn apply_key(e: DesktopEntryModel, key: Seq<char>, value: Seq<char>) -> DesktopEntryModel {
    if key == "Name"@ {
        DesktopEntryModel { name: value, ..e }
    } else if key == "Exec"@ {
        DesktopEntryModel { exec_line: value, ..e }
    } else if key == "Icon"@ {
        DesktopEntryModel { icon: Some(value), ..e }
    } else if key == "MimeType"@ {
        DesktopEntryModel { mime_types: split_on(value, ';').map_values(|m: Seq<char>| trim(m)), ..e }
    } else if key == "Terminal"@ {
        DesktopEntryModel { terminal: value == "true"@, ..e }
    } else if key == "NoDisplay"@ {
        DesktopEntryModel { no_display: value == "true"@, ..e }
    } else if key == "Hidden"@ {
        DesktopEntryModel { hidden: value == "true"@, ..e }
    } else {
        e
    }
}

/// One line of a `.desktop` file applied to the parse state: the entry so
/// far and whether the current group is `[Desktop Entry]`.
pub open spec fn desktop_step(e: DesktopEntryModel, inside: bool, raw: Seq<char>) -> (DesktopEntryModel, bool) {
    let line = trim(raw);
    if line.len() == 0 || line[0] == '#' {
        (e, inside)
    } else if line == "[Desktop Entry]"@ {
        (e, true)
    } else if line[0] == '[' && line.last() == ']' {
        (e, false)
    } else if !inside {
        (e, inside)
    } else {
        match split_once(line, '=') {
            Some((k, v)) => (apply_key(e, trim(k), trim(v)), inside),
            None => (e, inside),
        }
    }
}

/// The parse state after a sequence of lines.
pub open spec fn desktop_fold(ls: Seq<Seq<char>>, e: DesktopEntryModel, inside: bool) -> (DesktopEntryModel, bool)
    decreases ls.len(),
{
    if ls.len() == 0 {
        (e, inside)
    } else {
        let (e2, in2) = desktop_step(e, inside, ls[0]);
        desktop_fold(ls.drop_first(), e2, in2)
    }
}

/// The entry that `.desktop` text describes, if it names itself.
pub open spec fn parse_desktop_spec(content: Seq<char>, id: Option<Seq<char>>) -> Option<DesktopEntryModel> {
    let init = DesktopEntryModel {
        id: match id {
            Some(i) => i,
            None => seq![],
        },
        ..empty_entry()
    };
    let e = desktop_fold(lines(content), init, false).0;
    if e.name.len() == 0 && e.id.len() == 0 {
        None
    } else {
        Some(e)
    }
}

proof fn lemma_desktop_fold_step(ls: Seq<Seq<char>>, i: int, e: DesktopEntryModel, inside: bool)
    requires
        0 <= i < ls.len(),
    ensures
        desktop_fold(ls.skip(i), e, inside) == desktop_fold(
            ls.skip(i + 1),
            desktop_step(e, inside, ls[i]).0,
            desktop_step(e, inside, ls[i]).1,
        ),
{
    assert(ls.skip(i).drop_first() =~= ls.skip(i + 1));
}

fn trimmed_strings(pieces: &Vec<Vec<char>>) -> (r: Vec<String>)
    ensures
        string_views(r@) == views(pieces@).map_values(|m: Seq<char>| trim(m)),
{
    let mut r: Vec<String> = Vec::new();
    let mut i: usize = 0;
    while i < pieces.len()
        invariant
            i <= pieces.len(),
            string_views(r@) == views(pieces@).take(i as int).map_values(|m: Seq<char>| trim(m)),
        decreases pieces.len() - i,
    {
        let t = trim_chars(&pieces[i]);
        r.push(string_of(&t));
        assert(views(pieces@).take(i + 1).map_values(|m: Seq<char>| trim(m)) =~= views(pieces@).take(
            i as int,
        ).map_values(|m: Seq<char>| trim(m)).push(trim(pieces@[i as int]@)));
        assert(string_views(r@) =~= string_views(r@.drop_last()).push(r@.last()@));
        i += 1;
    }
    assert(views(pieces@).take(i as int) =~= views(pieces@));
    r
}

fn is_true_value(v: &Vec<char>) -> (r: bool)
    ensures
        r == (v@ == "true"@),
{
    chars_eq(v, &chars_of("true"))
}

fn apply_key_exec(e: &mut DesktopEntry, key: &Vec<char>, value: &Vec<char>)
    ensures
        final(e)@ == apply_key(old(e)@, key@, value@),
{
    if chars_eq(key, &chars_of("Name")) {
        e.name = string_of(value);
    } else if chars_eq(key, &chars_of("Exec")) {
        e.exec_line = string_of(value);
    } else if chars_eq(key, &chars_of("Icon")) {
        e.icon = Some(string_of(value));
    } else if chars_eq(key, &chars_of("MimeType")) {
        let pieces = split_chars(value, ';');
        e.mime_types = trimmed_strings(&pieces);
    } else if chars_eq(key, &chars_of("Terminal")) {
        e.terminal = is_true_value(value);
    } else if chars_eq(key, &chars_of("NoDisplay")) {
        e.no_display = is_true_value(value);
    } else if chars_eq(key, &chars_of("Hidden")) {
        e.hidden = is_true_value(value);
    }
}

fn desktop_step_exec(e: &mut DesktopEntry, inside: &mut bool, raw: &Vec<char>)
    ensures
        (final(e)@, *final(inside)) == desktop_step(old(e)@, *old(inside), raw@),
{
    let line = trim_chars(raw);
    if line.len() == 0 || line[0] == '#' {
    } else if chars_eq(&line, &chars_of("[Desktop Entry]")) {
        *inside = true;
    } else if line[0] == '[' && line[line.len() - 1] == ']' {
        *inside = false;
    } else if !*inside {
    } else {
        match split_once_chars(&line, '=') {
            Some((k, v)) => {
                let key = trim_chars(&k);
                let value = trim_chars(&v);
                apply_key_exec(e, &key, &value);
            },
            None => {},
        }
    }
}

/// Parse the text of a `.desktop` file into an entry.  The keys of the
/// `[Desktop Entry]` group are read; other groups, blank lines and
/// comments are skipped.  An entry with neither a `Name` nor an id is an
/// error.
pub fn parse_desktop_entry(content: &str, id: Option<&str>) -> (r: Result<DesktopEntry, DesktopEntryError>)
    ensures
        r matches Ok(e) ==> parse_desktop_spec(content@, match id { Some(i) => Some(i@), None => None }) == Some(e@),
        r is Err ==> parse_desktop_spec(content@, match id { Some(i) => Some(i@), None => None }) is None,
        r matches Err(err) ==> err is MissingNameAndId,
{
    let mut entry = DesktopEntry::default();
    match id {
        Some(i) => {
            entry.id = string_of(&chars_of(i));
        },
        None => {},
    }
    let ghost init = entry@;
    let text = chars_of(content);
    let ls = lines_of(&text);
    let mut inside = false;
    let mut k: usize = 0;
    assert(views(ls@).skip(0) =~= views(ls@));
    while k < ls.len()
        invariant
            k <= ls.len(),
            desktop_fold(lines(content@), init, false) == desktop_fold(
                views(ls@).skip(k as int),
                entry@,
                inside,
            ),
            views(ls@) == lines(content@),
        decreases ls.len() - k,
    {
        proof {
            lemma_desktop_fold_step(views(ls@), k as int, entry@, inside);
        }
        desktop_step_exec(&mut entry, &mut inside, &ls[k]);
        k += 1;
    }
    assert(views(ls@).skip(k as int) =~= Seq::<Seq<char>>::empty());
    if entry.name.as_str().is_empty() && entry.id.as_str().is_empty() {
        Err(DesktopEntryError::MissingNameAndId)
    } else {
        Ok(entry)
    }
}

} // verus!

verus! {

/// One character of an `Exec` value applied to the splitting state:
/// the finished arguments, the current one, and whether inside quotes.
pub open spec fn exec_split_step(st: (Seq<Seq<char>>, Seq<char>, bool), ch: char) -> (Seq<Seq<char>>, Seq<char>, bool) {
    let (args, cur, quoted) = st;
    if ch == '"' {
        (args, cur, !quoted)
    } else if ch == ' ' && !quoted {
        if cur.len() > 0 {
            (args.push(cur), seq![], quoted)
        } else {
            st
        }
    } else {
        (args, cur.push(ch), quoted)
    }
}

/// The arguments of an `Exec` value: split at spaces outside double
/// quotes, quotes dropped, empty arguments skipped.
pub open spec fn split_exec_spec(exec: Seq<char>) -> Seq<Seq<char>> {
    let st = exec.fold_left(
        (Seq::<Seq<char>>::empty(), Seq::<char>::empty(), false),
        |st: (Seq<Seq<char>>, Seq<char>, bool), ch: char| exec_split_step(st, ch),
    );
    if st.1.len() > 0 {
        st.0.push(st.1)
    } else {
        st.0
    }
}

/// A field code letter that stands for the target file (`%f`, `%F`,
/// `%u`, `%U`).
pub open spec fn is_target_code(c: char) -> bool {
    c == 'f' || c == 'F' || c == 'u' || c == 'U'
}

/// A field code letter whose code is removed (`%i`, `%c`, `%k`, `%v`,
/// `%m`, `%d`, `%D`, `%n`, `%N`).
pub open spec fn is_dropped_code(c: char) -> bool {
    c == 'i' || c == 'c' || c == 'k' || c == 'v' || c == 'm' || c == 'd' || c == 'D' || c == 'n'
        || c == 'N'
}

/// One argument of the `Exec` text with its field codes expanded, read
/// from left to right: a target code becomes the target, verbatim; another
/// known code is removed; every other character is kept.
pub open spec fn substitute_arg(arg: Seq<char>, target: Seq<char>) -> Seq<char>
    decreases arg.len(),
{
    if arg.len() == 0 {
        seq![]
    } else if arg.len() >= 2 && arg[0] == '%' && is_target_code(arg[1]) {
        target + substitute_arg(arg.skip(2), target)
    } else if arg.len() >= 2 && arg[0] == '%' && is_dropped_code(arg[1]) {
        substitute_arg(arg.skip(2), target)
    } else {
        seq![arg[0]] + substitute_arg(arg.drop_first(), target)
    }
}

/// The command line that opens `target` with an `Exec` value.
pub open spec fn exec_command_spec(exec: Seq<char>, target: Seq<char>) -> Seq<Seq<char>> {
    split_exec_spec(exec).map_values(|a: Seq<char>| substitute_arg(a, target)).filter(
        |a: Seq<char>| a.len() > 0,
    )
}

/// Split an `Exec` value into arguments, as characters.
fn split_exec_chars(exec: &Vec<char>) -> (r: Vec<Vec<char>>)
    ensures
        views(r@) == split_exec_spec(exec@),
{
    let ghost f = |st: (Seq<Seq<char>>, Seq<char>, bool), ch: char| exec_split_step(st, ch);
    let ghost init = (Seq::<Seq<char>>::empty(), Seq::<char>::empty(), false);
    let mut args: Vec<Vec<char>> = Vec::new();
    let mut current: Vec<char> = Vec::new();
    let mut quoted = false;
    let mut i: usize = 0;
    assert(exec@.take(0) =~= Seq::<char>::empty());
    assert(views(args@) =~= Seq::<Seq<char>>::empty());
    while i < exec.len()
        invariant
            i <= exec.len(),
            f == (|st: (Seq<Seq<char>>, Seq<char>, bool), ch: char| exec_split_step(st, ch)),
            init == (Seq::<Seq<char>>::empty(), Seq::<char>::empty(), false),
            (views(args@), current@, quoted) == exec@.take(i as int).fold_left(init, f),
        decreases exec.len() - i,
    {
        let ch = exec[i];
        assert(exec@.take(i + 1).drop_last() =~= exec@.take(i as int));
        if ch == '"' {
            quoted = !quoted;
        } else if ch == ' ' && !quoted {
            if current.len() > 0 {
                let ghost before = views(args@);
                args.push(current);
                assert(views(args@) =~= before.push(args@.last()@));
                current = Vec::new();
                assert(current@ =~= Seq::<char>::empty());
            }
        } else {
            current.push(ch);
        }
        i += 1;
    }
    assert(exec@.take(i as int) =~= exec@);
    if current.len() > 0 {
        let ghost before = views(args@);
        args.push(current);
        assert(views(args@) =~= before.push(args@.last()@));
    }
    args
}

/// Split an `Exec` value into arguments: at spaces outside double quotes,
/// with the quotes dropped and no empty argument.
pub fn split_exec(exec: &str) -> (r: Vec<String>)
    ensures
        string_views(r@) == split_exec_spec(exec@),
{
    let parts = split_exec_chars(&chars_of(exec));
    let mut out: Vec<String> = Vec::new();
    let mut i: usize = 0;
    while i < parts.len()
        invariant
            i <= parts.len(),
            string_views(out@) == views(parts@).take(i as int),
        decreases parts.len() - i,
    {
        let ghost before = string_views(out@);
        out.push(string_of(&parts[i]));
        assert(string_views(out@) =~= before.push(parts@[i as int]@));
        assert(views(parts@).take(i + 1) =~= views(parts@).take(i as int).push(parts@[i as int]@));
        i += 1;
    }
    assert(views(parts@).take(i as int) =~= views(parts@));
    out
}

/// Expand the field codes of one argument.
fn substitute_arg_exec(arg: &Vec<char>, target: &Vec<char>) -> (r: Vec<char>)
    ensures
        r@ == substitute_arg(arg@, target@),
{
    let mut out: Vec<char> = Vec::new();
    let mut i: usize = 0;
    assert(arg@.skip(0) =~= arg@);
    while i < arg.len()
        invariant
            i <= arg.len(),
            out@ + substitute_arg(arg@.skip(i as int), target@) == substitute_arg(arg@, target@),
        decreases arg.len() - i,
    {
        let ghost rest = arg@.skip(i as int);
        let c = arg[i];
        if c == '%' && i + 1 < arg.len() {
            let d = arg[i + 1];
            if d == 'f' || d == 'F' || d == 'u' || d == 'U' {
                let ghost before = out@;
                let mut k: usize = 0;
                while k < target.len()
                    invariant
                        k <= target.len(),
                        out@ == before + target@.take(k as int),
                    decreases target.len() - k,
                {
                    out.push(target[k]);
                    assert(target@.take(k + 1) =~= target@.take(k as int).push(target@[k as int]));
                    k += 1;
                }
                assert(target@.take(k as int) =~= target@);
                assert(rest.skip(2) =~= arg@.skip(i + 2));
                assert(out@ + substitute_arg(arg@.skip(i + 2), target@) =~= before + (target@
                    + substitute_arg(rest.skip(2), target@)));
                i += 2;
                continue;
            }
            if d == 'i' || d == 'c' || d == 'k' || d == 'v' || d == 'm' || d == 'd' || d == 'D'
                || d == 'n' || d == 'N' {
                assert(rest.skip(2) =~= arg@.skip(i + 2));
                i += 2;
                continue;
            }
        }
        let ghost before = out@;
        out.push(c);
        assert(rest.drop_first() =~= arg@.skip(i + 1));
        assert(out@ + substitute_arg(arg@.skip(i + 1), target@) =~= before + (seq![c]
            + substitute_arg(rest.drop_first(), target@)));
        i += 1;
    }
    assert(arg@.skip(i as int) =~= Seq::<char>::empty());
    assert(out@ + Seq::<char>::empty() =~= out@);
    out
}

/// Build the command line that opens `target` with an entry: its `Exec`
/// value split into arguments, `%f`, `%F`, `%u` and `%U` replaced by the
/// target (verbatim), other field codes removed, and empty arguments dropped.
pub fn build_exec_command(entry: &DesktopEntry, target: &str) -> (r: Vec<String>)
    ensures
        string_views(r@) == exec_command_spec(entry.exec_line@, target@),
{
    let target_chars = chars_of(target);
    let args = split_exec_chars(&chars_of(entry.exec_line.as_str()));
    let ghost mapped = views(args@).map_values(|a: Seq<char>| substitute_arg(a, target@));
    let ghost keep = |a: Seq<char>| a.len() > 0;
    let mut out: Vec<String> = Vec::new();
    let mut i: usize = 0;
    assert(mapped.take(0) =~= Seq::<Seq<char>>::empty());
    proof {
        reveal_with_fuel(Seq::filter, 1);
    }
    while i < args.len()
        invariant
            i <= args.len(),
            mapped == views(args@).map_values(|a: Seq<char>| substitute_arg(a, target@)),
            keep == (|a: Seq<char>| a.len() > 0),
            target_chars@ == target@,
            string_views(out@) == mapped.take(i as int).filter(keep),
        decreases args.len() - i,
    {
        let a2 = substitute_arg_exec(&args[i], &target_chars);
        assert(a2@ == mapped[i as int]);
        proof {
            reveal(Seq::filter);
            assert(mapped.take(i + 1).drop_last() =~= mapped.take(i as int));
        }
        if a2.len() > 0 {
            let ghost before = string_views(out@);
            out.push(string_of(&a2));
            assert(string_views(out@) =~= before.push(a2@));
        }
        i += 1;
    }
    assert(mapped.take(i as int) =~= mapped);
    out
}

} // verus!

verus! {

/// What the `mime` crate's `Mime` parser yields for a string, displayed.
pub uninterp spec fn parsed_mime(s: Seq<char>) -> Option<Seq<char>>;

/// A lower-case `type/subtype` without parameters: letters, digits, `+`,
/// `-` and `.` around one `/`, the subtype starting with a letter or digit.
pub open spec fn is_plain_media_type(s: Seq<char>) -> bool {
    exists|i: int|
        0 < i < s.len() - 1 && s[i] == '/' && (('a' <= #[trigger] s[i + 1] <= 'z') || ('0' <= s[i
            + 1] <= '9')) && forall|k: int|
            0 <= k < s.len() && k != i ==> is_media_char(#[trigger] s[k])
}

/// A character of a plain media type other than its `/`.
pub open spec fn is_media_char(c: char) -> bool {
    ('a' <= c <= 'z') || ('0' <= c <= '9') || c == '+' || c == '-' || c == '.'
}

/// `mime::Mime::from_str` followed by `Display`: the media type text as the
/// `mime` crate normalises it, or `None` when it does not parse.  The
/// contract names the result; it depends on `s` alone.  The crate's parser
/// lower-cases its input and keeps it as the displayed text, so a plain
/// lower-case `type/subtype` is given back as it is.
#[verifier::external_body]
fn mime_parse(s: &str) -> (r: Option<String>)
    ensures
        r matches Some(m) ==> parsed_mime(s@) == Some(m@),
        r is None ==> parsed_mime(s@) is None,
        is_plain_media_type(s@) ==> r is Some,
        r matches Some(m) ==> (is_plain_media_type(s@) ==> m@ == s@),
{
    match s.parse::<mime::Mime>() {
        Ok(m) => Some(m.to_string()),
        Err(_) => None,
    }
}

/// The MIME type this library associates with a lower-case extension.
pub open spec fn ext_mime(ext: Seq<char>) -> Option<Seq<char>> {
    if ext == "txt"@ {
        Some("text/plain"@)
    } else if ext == "md"@ {
        Some("text/markdown"@)
    } else if ext == "html"@ || ext == "htm"@ {
        Some("text/html"@)
    } else if ext == "css"@ {
        Some("text/css"@)
    } else if ext == "js"@ {
        Some("application/javascript"@)
    } else if ext == "json"@ {
        Some("application/json"@)
    } else if ext == "png"@ {
        Some("image/png"@)
    } else if ext == "jpg"@ || ext == "jpeg"@ {
        Some("image/jpeg"@)
    } else if ext == "gif"@ {
        Some("image/gif"@)
    } else if ext == "svg"@ {
        Some("image/svg+xml"@)
    } else if ext == "pdf"@ {
        Some("application/pdf"@)
    } else if ext == "zip"@ {
        Some("application/zip"@)
    } else if ext == "tar"@ {
        Some("application/x-tar"@)
    } else if ext == "gz"@ {
        Some("application/gzip"@)
    } else if ext == "mp3"@ {
        Some("audio/mpeg"@)
    } else if ext == "mp4"@ {
        Some("video/mp4"@)
    } else if ext == "webm"@ {
        Some("video/webm"@)
    } else if ext == "rs"@ {
        Some("text/rust"@)
    } else if ext == "toml"@ {
        Some("application/toml"@)
    } else if ext == "desktop"@ {
        Some("application/x-desktop"@)
    } else {
        None
    }
}

fn ext_mime_exec(ext: &Vec<char>) -> (r: Option<&'static str>)
    ensures
        r matches Some(m) ==> ext_mime(ext@) == Some(m@),
        r is None ==> ext_mime(ext@) is None,
{
    let is = |lit: &str| -> (b: bool)
        ensures
            b == (ext@ == lit@),
        { chars_eq(ext, &chars_of(lit)) };
    if is("txt") {
        Some("text/plain")
    } else if is("md") {
        Some("text/markdown")
    } else if is("html") || is("htm") {
        Some("text/html")
    } else if is("css") {
        Some("text/css")
    } else if is("js") {
        Some("application/javascript")
    } else if is("json") {
        Some("application/json")
    } else if is("png") {
        Some("image/png")
    } else if is("jpg") || is("jpeg") {
        Some("image/jpeg")
    } else if is("gif") {
        Some("image/gif")
    } else if is("svg") {
        Some("image/svg+xml")
    } else if is("pdf") {
        Some("application/pdf")
    } else if is("zip") {
        Some("application/zip")
    } else if is("tar") {
        Some("application/x-tar")
    } else if is("gz") {
        Some("application/gzip")
    } else if is("mp3") {
        Some("audio/mpeg")
    } else if is("mp4") {
        Some("video/mp4")
    } else if is("webm") {
        Some("video/webm")
    } else if is("rs") {
        Some("text/rust")
    } else if is("toml") {
        Some("application/toml")
    } else if is("desktop") {
        Some("application/x-desktop")
    } else {
        None
    }
}

/// The MIME type guessed from a path's extension (case-insensitive), if
/// the extension is known.
pub open spec fn from_path_spec(p: Seq<char>) -> Option<Seq<char>> {
    match extension_of(p) {
        Some(e) => match ext_mime(lowercase_of(e)) {
            Some(m) => parsed_mime(m),
            None => None,
        },
        None => None,
    }
}

/// Guess the MIME type of a path from its extension.  No disk access.
pub fn from_path(path: &str) -> (r: Option<String>)
    ensures
        r matches Some(m) ==> from_path_spec(path@) == Some(m@),
        r is None ==> from_path_spec(path@) is None,
{
    match path_extension(path) {
        Some(e) => {
            let low = lowercase_chars(&chars_of(e.as_str()));
            match ext_mime_exec(&low) {
                Some(m) => mime_parse(m),
                None => None,
            }
        },
        None => None,
    }
}

/// The MIME type of a file: the guess from its extension, else the
/// trimmed answer of `xdg-mime query filetype` when that command succeeded.
pub open spec fn guess_mime_spec(path: Seq<char>, xdg_answer: Option<Seq<char>>) -> Option<Seq<char>> {
    match from_path_spec(path) {
        Some(m) => Some(m),
        None => match xdg_answer {
            Some(a) => Some(trim(a)),
            None => None,
        },
    }
}

/// Guess the MIME type of a file.  `xdg_answer` is the output of
/// `xdg-mime query filetype` for the path when that command succeeded.
pub fn guess_mime_type(path: &str, xdg_answer: Option<&str>) -> (r: Result<String, DesktopEntryError>)
    ensures
        r matches Ok(m) ==> guess_mime_spec(path@, match xdg_answer { Some(a) => Some(a@), None => None })
            == Some(m@),
        r is Err ==> guess_mime_spec(path@, match xdg_answer { Some(a) => Some(a@), None => None })
            is None,
        r matches Err(e) ==> (e matches DesktopEntryError::UnknownMimeType(p) && p@ == path@),
{
    match from_path(path) {
        Some(m) => Ok(m),
        None => match xdg_answer {
            Some(a) => Ok(string_of(&trim_chars(&chars_of(a)))),
            None => Err(DesktopEntryError::UnknownMimeType(string_of(&chars_of(path)))),
        },
    }
}

/// An entry declares `mime` among its types, ignoring case.
pub open spec fn supports_mime(e: DesktopEntryModel, mime: Seq<char>) -> bool {
    exists|i: int|
        0 <= i < e.mime_types.len() && lowercase_of(#[trigger] e.mime_types[i]) == lowercase_of(
            mime,
        )
}

fn supports_mime_exec(e: &DesktopEntry, mime_low: &Vec<char>, Ghost(mime): Ghost<Seq<char>>) -> (r: bool)
    requires
        mime_low@ == lowercase_of(mime),
    ensures
        r == supports_mime(e@, mime),
{
    let mut i: usize = 0;
    while i < e.mime_types.len()
        invariant
            i <= e.mime_types.len(),
            mime_low@ == lowercase_of(mime),
            forall|k: int|
                0 <= k < i ==> lowercase_of(#[trigger] e@.mime_types[k]) != lowercase_of(mime),
        decreases e.mime_types.len() - i,
    {
        let m = lowercase_chars(&chars_of(e.mime_types[i].as_str()));
        if chars_eq(&m, mime_low) {
            assert(e@.mime_types[i as int] == e.mime_types@[i as int]@);
            return true;
        }
        i += 1;
    }
    false
}

/// The applications among `entries` that declare support for a MIME type.
pub fn entries_for_mime(entries: Vec<DesktopEntry>, mime_type: &str) -> (r: Vec<DesktopEntry>)
    ensures
        r@ == entries@.filter(|e: DesktopEntry| supports_mime(e@, mime_type@)),
{
    let ghost inp = entries@;
    let ghost pred = |e: DesktopEntry| supports_mime(e@, mime_type@);
    let low = lowercase_chars(&chars_of(mime_type));
    let mut rest = entries;
    let mut out: Vec<DesktopEntry> = Vec::new();
    let mut i: usize = 0;
    assert(inp.len() == rest.len());
    assert(inp.skip(0) =~= inp);
    assert(inp.take(0) =~= Seq::<DesktopEntry>::empty());
    proof {
        reveal_with_fuel(Seq::filter, 1);
    }
    while rest.len() > 0
        invariant
            i + rest.len() == inp.len(),
            inp.len() <= usize::MAX,
            rest@ == inp.skip(i as int),
            low@ == lowercase_of(mime_type@),
            pred == (|e: DesktopEntry| supports_mime(e@, mime_type@)),
            out@ == inp.take(i as int).filter(pred),
        decreases rest.len(),
    {
        let e = rest.remove(0);
        assert(e == inp[i as int]);
        assert(rest@ =~= inp.skip(i + 1));
        let keep = supports_mime_exec(&e, &low, Ghost(mime_type@));
        proof {
            reveal(Seq::filter);
            assert(inp.take(i + 1).drop_last() =~= inp.take(i as int));
            assert(inp.take(i + 1).filter(pred) == (if pred(e) {
                inp.take(i as int).filter(pred).push(e)
            } else {
                inp.take(i as int).filter(pred)
            }));
        }
        if keep {
            out.push(e);
        }
        i += 1;
    }
    assert(inp.take(i as int) =~= inp);
    out
}

/// The applications among `entries` for the MIME type of a file.
pub fn entries_for_file(entries: Vec<DesktopEntry>, path: &str, xdg_answer: Option<&str>) -> (r: Result<Vec<DesktopEntry>, DesktopEntryError>)
    ensures
        r matches Ok(v) ==> exists|m: Seq<char>|
            guess_mime_spec(path@, match xdg_answer { Some(a) => Some(a@), None => None }) == Some(m)
                && v@ == entries@.filter(|e: DesktopEntry| supports_mime(e@, m)),
        r is Err <==> guess_mime_spec(path@, match xdg_answer { Some(a) => Some(a@), None => None })
            is None,
{
    match guess_mime_type(path, xdg_answer) {
        Ok(m) => Ok(entries_for_mime(entries, m.as_str())),
        Err(e) => Err(e),
    }
}

/// A path names a `.desktop` file (its extension is exactly `desktop`).
pub fn is_desktop_file(path: &str) -> (r: bool)
    ensures
        r == (extension_of(path@) == Some("desktop"@)),
{
    match path_extension(path) {
        Some(e) => chars_eq(&chars_of(e.as_str()), &chars_of("desktop")),
        None => false,
    }
}

/// The entry listed for a `.desktop` file read from `path`: parsed with the
/// file stem as id (`unknown` when there is none), its path recorded, and
/// dropped when it is hidden, marked `NoDisplay`, or unparsable.
pub open spec fn listed_entry_spec(path: Seq<char>, content: Seq<char>) -> Option<DesktopEntryModel> {
    let id = match file_stem_of(path) {
        Some(s) => s,
        None => "unknown"@,
    };
    match parse_desktop_spec(content, Some(id)) {
        Some(e) => if e.no_display || e.hidden {
            None
        } else {
            Some(DesktopEntryModel { path: Some(path), ..e })
        },
        None => None,
    }
}

/// The entry a scan of the application directories lists for one file.
pub fn listed_entry(path: &str, content: &str) -> (r: Option<DesktopEntry>)
    ensures
        r matches Some(e) ==> listed_entry_spec(path@, content@) == Some(e@),
        r is None ==> listed_entry_spec(path@, content@) is None,
{
    let id = match path_file_stem(path) {
        Some(s) => s,
        None => string_of(&chars_of("unknown")),
    };
    match parse_desktop_entry(content, Some(id.as_str())) {
        Ok(mut e) => {
            e.path = Some(string_of(&chars_of(path)));
            if e.no_display || e.hidden {
                None
            } else {
                Some(e)
            }
        },
        Err(_) => None,
    }
}

/// An entry listed from the application directories is never hidden nor
/// marked `NoDisplay`, and records the file it was read from.
pub proof fn law_listed_entries_are_displayed(path: Seq<char>, content: Seq<char>)
    ensures
        listed_entry_spec(path, content) matches Some(e) ==> !e.no_display && !e.hidden && e.path
            == Some(path),
{
}

/// The command line built from an `Exec` value holds no empty argument,
/// and no more arguments than the value splits into.
pub proof fn law_exec_command_arguments_nonempty(exec: Seq<char>, target: Seq<char>, i: int)
    requires
        0 <= i < exec_command_spec(exec, target).len(),
    ensures
        exec_command_spec(exec, target)[i].len() > 0,
        exec_command_spec(exec, target).len() <= split_exec_spec(exec).len(),
{
    broadcast use vstd::seq_lib::group_filter_ensures;

    let mapped = split_exec_spec(exec).map_values(|a: Seq<char>| substitute_arg(a, target));
    assert(exec_command_spec(exec, target) == mapped.filter(|a: Seq<char>| a.len() > 0));
}

proof fn lemma_desktop_fold_push(ls: Seq<Seq<char>>, l: Seq<char>, e: DesktopEntryModel, inside: bool)
    ensures
        desktop_fold(ls.push(l), e, inside) == desktop_step(
            desktop_fold(ls, e, inside).0,
            desktop_fold(ls, e, inside).1,
            l,
        ),
    decreases ls.len(),
{
    if ls.len() > 0 {
        let (e2, in2) = desktop_step(e, inside, ls[0]);
        assert(ls.push(l)[0] == ls[0]);
        assert(ls.push(l).drop_first() =~= ls.drop_first().push(l));
        lemma_desktop_fold_push(ls.drop_first(), l, e2, in2);
    } else {
        let (e2, in2) = desktop_step(e, inside, l);
        assert(ls.push(l)[0] == l);
        assert(ls.push(l).drop_first() =~= Seq::<Seq<char>>::empty());
        assert(desktop_fold(Seq::<Seq<char>>::empty(), e2, in2) == (e2, in2));
        assert(desktop_fold(ls, e, inside) == (e, inside));
    }
}

proof fn lemma_desktop_fold_keeps_id(ls: Seq<Seq<char>>, e: DesktopEntryModel, inside: bool)
    ensures
        desktop_fold(ls, e, inside).0.id == e.id,
        desktop_fold(ls, e, inside).0.path == e.path,
    decreases ls.len(),
{
    if ls.len() > 0 {
        let (e2, in2) = desktop_step(e, inside, ls[0]);
        lemma_desktop_fold_keeps_id(ls.drop_first(), e2, in2);
    }
}

/// A `.desktop` text is refused exactly when its `[Desktop Entry]` group
/// sets no name and no id is given; an entry keeps the id it was given and
/// records no path.
pub proof fn law_desktop_entry_named_or_refused(content: Seq<char>, id: Option<Seq<char>>)
    ensures
        ({
            let given = match id {
                Some(i) => i,
                None => seq![],
            };
            let init = DesktopEntryModel { id: given, ..empty_entry() };
            let named = desktop_fold(lines(content), init, false).0.name;
            &&& parse_desktop_spec(content, id) is None <==> (named.len() == 0 && given.len() == 0)
            &&& parse_desktop_spec(content, id) matches Some(e) ==> e.id == given && e.path is None
                && e.name == named
        }),
{
    let given = match id {
        Some(i) => i,
        None => seq![],
    };
    let init = DesktopEntryModel { id: given, ..empty_entry() };
    lemma_desktop_fold_keeps_id(lines(content), init, false);
}

/// The last `Name=` line of the `[Desktop Entry]` group sets the name: a
/// line that reads `Name=v` (around white space), met inside the group,
/// makes the name the trimmed `v`.
pub proof fn law_desktop_last_name_wins(
    ls: Seq<Seq<char>>,
    line: Seq<char>,
    v: Seq<char>,
    e: DesktopEntryModel,
    inside: bool,
)
    requires
        desktop_fold(ls, e, inside).1,
        trim(line) == "Name="@ + v,
    ensures
        desktop_fold(ls.push(line), e, inside).0.name == trim(v),
        desktop_fold(ls.push(line), e, inside).1,
{
    reveal_strlit("Name=");
    reveal_strlit("Name");
    reveal_strlit("[Desktop Entry]");
    lemma_desktop_fold_push(ls, line, e, inside);
    let t = trim(line);
    assert(t[0] == 'N');
    assert(t[4] == '=');
    assert(t != "[Desktop Entry]"@) by {
        assert("[Desktop Entry]"@[0] == '[');
    }
    lemma_elem_pos_is(t, '=', 4);
    assert(t.take(4) =~= "Name"@);
    assert(t.skip(5) =~= v);
    assert(trim_start("Name"@) == "Name"@);
    assert(trim_end("Name"@) == "Name"@);
}

/// Each key of the `[Desktop Entry]` group sets its own field and nothing
/// else: `Name`, `Exec` and `Icon` take the value, `Terminal`,
/// `NoDisplay` and `Hidden` become whether the value is `true`, `MimeType`
/// alone changes the MIME types; any other key (a localised `Name[de]`
/// among them) leaves the entry as it was.
pub proof fn law_desktop_keys_set_their_field(e: DesktopEntryModel, key: Seq<char>, value: Seq<char>)
    ensures
        apply_key(e, key, value).name == (if key == "Name"@ { value } else { e.name }),
        apply_key(e, key, value).exec_line == (if key == "Exec"@ { value } else { e.exec_line }),
        apply_key(e, key, value).icon == (if key == "Icon"@ { Some(value) } else { e.icon }),
        key != "MimeType"@ ==> apply_key(e, key, value).mime_types == e.mime_types,
        apply_key(e, key, value).terminal == (if key == "Terminal"@ { value == "true"@ } else { e.terminal }),
        apply_key(e, key, value).no_display == (if key == "NoDisplay"@ {
            value == "true"@
        } else {
            e.no_display
        }),
        apply_key(e, key, value).hidden == (if key == "Hidden"@ { value == "true"@ } else { e.hidden }),
        apply_key(e, key, value).id == e.id,
        apply_key(e, key, value).path == e.path,
        key != "Name"@ && key != "Exec"@ && key != "Icon"@ && key != "MimeType"@ && key != "Terminal"@
            && key != "NoDisplay"@ && key != "Hidden"@ ==> apply_key(e, key, value) == e,
{
    reveal_strlit("Name");
    reveal_strlit("Exec");
    reveal_strlit("Icon");
    reveal_strlit("MimeType");
    reveal_strlit("Terminal");
    reveal_strlit("NoDisplay");
    reveal_strlit("Hidden");
    assert("Name"@[0] == 'N' && "Exec"@[0] == 'E' && "Icon"@[0] == 'I' && "MimeType"@[0] == 'M'
        && "Terminal"@[0] == 'T' && "NoDisplay"@[0] == 'N' && "Hidden"@[0] == 'H');
    assert("Name"@.len() != "NoDisplay"@.len());
}

/// Only a line of the `[Desktop Entry]` group whose key, trimmed, is
/// exactly `Name` changes the name, and it sets it to the trimmed value;
/// every other line leaves the name as it was.
pub proof fn law_only_name_lines_rename(e: DesktopEntryModel, inside: bool, raw: Seq<char>)
    ensures
        desktop_step(e, inside, raw).0.name == e.name || (inside && match split_once(trim(raw), '=') {
            Some((k, v)) => trim(k) == "Name"@ && desktop_step(e, inside, raw).0.name == trim(v),
            None => false,
        }),
{
    let line = trim(raw);
    match split_once(line, '=') {
        Some((k, v)) => {
            law_desktop_keys_set_their_field(e, trim(k), trim(v));
        },
        None => {},
    }
}

/// Each of `%f`, `%F`, `%u` and `%U` stands for the target: an argument
/// that is one of them becomes the target, and one at the front of an
/// argument is replaced by the target, verbatim.
pub proof fn law_target_codes_become_target(c: char, rest: Seq<char>, target: Seq<char>)
    requires
        c == 'f' || c == 'F' || c == 'u' || c == 'U',
    ensures
        substitute_arg(seq!['%', c], target) == target,
        substitute_arg(seq!['%', c] + rest, target) == target + substitute_arg(rest, target),
{
    let a = seq!['%', c] + rest;
    assert(a.skip(2) =~= rest);
    assert(seq!['%', c].skip(2) =~= Seq::<char>::empty());
    assert(substitute_arg(Seq::<char>::empty(), target) == Seq::<char>::empty());
    assert(target + Seq::<char>::empty() =~= target);
}

/// The other field codes (`%i`, `%c`, `%k`, `%v`, `%m`, `%d`, `%D`, `%n`,
/// `%N`) are removed from an argument.
pub proof fn law_other_codes_removed(c: char, rest: Seq<char>, target: Seq<char>)
    requires
        c == 'i' || c == 'c' || c == 'k' || c == 'v' || c == 'm' || c == 'd' || c == 'D' || c == 'n'
            || c == 'N',
    ensures
        substitute_arg(seq!['%', c] + rest, target) == substitute_arg(rest, target),
{
    let a = seq!['%', c] + rest;
    assert(a.skip(2) =~= rest);
}

/// An argument without `%` is passed as it is.
pub proof fn law_plain_argument_kept(arg: Seq<char>, target: Seq<char>)
    requires
        forall|k: int| 0 <= k < arg.len() ==> arg[k] != '%',
    ensures
        substitute_arg(arg, target) == arg,
    decreases arg.len(),
{
    if arg.len() > 0 {
        law_plain_argument_kept(arg.drop_first(), target);
        assert(seq![arg[0]] + arg.drop_first() =~= arg);
    }
}

/// An `Exec` argument that is one of `%f`, `%F`, `%u`, `%U` puts the
/// target on the command line, as an argument of its own.
pub proof fn law_code_argument_opens_target(exec: Seq<char>, target: Seq<char>, i: int, c: char)
    requires
        0 <= i < split_exec_spec(exec).len(),
        split_exec_spec(exec)[i] == seq!['%', c],
        c == 'f' || c == 'F' || c == 'u' || c == 'U',
        target.len() > 0,
    ensures
        exec_command_spec(exec, target).contains(target),
{
    broadcast use vstd::seq_lib::group_filter_ensures;

    law_target_codes_become_target(c, Seq::<char>::empty(), target);
    let mapped = split_exec_spec(exec).map_values(|a: Seq<char>| substitute_arg(a, target));
    assert(mapped[i] == target);
    assert(exec_command_spec(exec, target) == mapped.filter(|a: Seq<char>| a.len() > 0));
}

/// The extension table: a path whose extension, lower-cased, is listed
/// gets that extension's type (as the MIME parser reads it back), whatever
/// the case of the extension; any other extension gets no guess.
pub proof fn law_extension_table(p: Seq<char>, e: Seq<char>)
    requires
        extension_of(p) == Some(e),
    ensures
        ({
            let x = lowercase_of(e);
            &&& x == "txt"@ ==> from_path_spec(p) == parsed_mime("text/plain"@)
            &&& x == "md"@ ==> from_path_spec(p) == parsed_mime("text/markdown"@)
            &&& (x == "html"@ || x == "htm"@) ==> from_path_spec(p) == parsed_mime("text/html"@)
            &&& x == "css"@ ==> from_path_spec(p) == parsed_mime("text/css"@)
            &&& x == "js"@ ==> from_path_spec(p) == parsed_mime("application/javascript"@)
            &&& x == "json"@ ==> from_path_spec(p) == parsed_mime("application/json"@)
            &&& x == "png"@ ==> from_path_spec(p) == parsed_mime("image/png"@)
            &&& (x == "jpg"@ || x == "jpeg"@) ==> from_path_spec(p) == parsed_mime("image/jpeg"@)
            &&& x == "gif"@ ==> from_path_spec(p) == parsed_mime("image/gif"@)
            &&& x == "svg"@ ==> from_path_spec(p) == parsed_mime("image/svg+xml"@)
            &&& x == "pdf"@ ==> from_path_spec(p) == parsed_mime("application/pdf"@)
            &&& x == "zip"@ ==> from_path_spec(p) == parsed_mime("application/zip"@)
            &&& x == "tar"@ ==> from_path_spec(p) == parsed_mime("application/x-tar"@)
            &&& x == "gz"@ ==> from_path_spec(p) == parsed_mime("application/gzip"@)
            &&& x == "mp3"@ ==> from_path_spec(p) == parsed_mime("audio/mpeg"@)
            &&& x == "mp4"@ ==> from_path_spec(p) == parsed_mime("video/mp4"@)
            &&& x == "webm"@ ==> from_path_spec(p) == parsed_mime("video/webm"@)
            &&& x == "rs"@ ==> from_path_spec(p) == parsed_mime("text/rust"@)
            &&& x == "toml"@ ==> from_path_spec(p) == parsed_mime("application/toml"@)
            &&& x == "desktop"@ ==> from_path_spec(p) == parsed_mime("application/x-desktop"@)
        }),
{
    let x = lowercase_of(e);
    if x == "txt"@ {
        reveal_strlit("txt");
    }
    if x == "md"@ {
        reveal_strlit("txt");
        reveal_strlit("md");
        assert("md"@.len() != "txt"@.len());
    }
    if x == "html"@ {
        reveal_strlit("txt");
        reveal_strlit("md");
        reveal_strlit("html");
        assert("html"@.len() != "txt"@.len());
        assert("html"@.len() != "md"@.len());
    }
    if x == "htm"@ {
        reveal_strlit("txt");
        reveal_strlit("md");
        reveal_strlit("html");
        reveal_strlit("htm");
        assert("htm"@[0] != "txt"@[0]);
        assert("htm"@.len() != "md"@.len());
        assert("htm"@.len() != "html"@.len());
    }
    if x == "css"@ {
        reveal_strlit("txt");
        reveal_strlit("md");
        reveal_strlit("html");
        reveal_strlit("htm");
        reveal_strlit("css");
        assert("css"@[0] != "txt"@[0]);
        assert("css"@.len() != "md"@.len());
        assert("css"@.len() != "html"@.len());
        assert("css"@[0] != "htm"@[0]);
    }
    if x == "js"@ {
        reveal_strlit("txt");
        reveal_strlit("md");
        reveal_strlit("html");
        reveal_strlit("htm");
        reveal_strlit("css");
        reveal_strlit("js");
        assert("js"@.len() != "txt"@.len());
        assert("js"@[0] != "md"@[0]);
        assert("js"@.len() != "html"@.len());
        assert("js"@.len() != "htm"@.len());
        assert("js"@.len() != "css"@.len());
    }
    if x == "json"@ {
        reveal_strlit("txt");
        reveal_strlit("md");
        reveal_strlit("html");
        reveal_strlit("htm");
        reveal_strlit("css");
        reveal_strlit("js");
        reveal_strlit("json");
        assert("json"@.len() != "txt"@.len());
        assert("json"@.len() != "md"@.len());
        assert("json"@[0] != "html"@[0]);
        assert("json"@.len() != "htm"@.len());
        assert("json"@.len() != "css"@.len());
        assert("json"@.len() != "js"@.len());
    }
    if x == "png"@ {
        reveal_strlit("txt");
        reveal_strlit("md");
        reveal_strlit("html");
        reveal_strlit("htm");
        reveal_strlit("css");
        reveal_strlit("js");
        reveal_strlit("json");
        reveal_strlit("png");
        assert("png"@[0] != "txt"@[0]);
        assert("png"@.len() != "md"@.len());
        assert("png"@.len() != "html"@.len());
        assert("png"@[0] != "htm"@[0]);
        assert("png"@[0] != "css"@[0]);
        assert("png"@.len() != "js"@.len());
        assert("png"@.len() != "json"@.len());
    }
    if x == "jpg"@ {
        reveal_strlit("txt");
        reveal_strlit("md");
        reveal_strlit("html");
        reveal_strlit("htm");
        reveal_strlit("css");
        reveal_strlit("js");
        reveal_strlit("json");
        reveal_strlit("png");
        reveal_strlit("jpg");
        assert("jpg"@[0] != "txt"@[0]);
        assert("jpg"@.len() != "md"@.len());
        assert("jpg"@.len() != "html"@.len());
        assert("jpg"@[0] != "htm"@[0]);
        assert("jpg"@[0] != "css"@[0]);
        assert("jpg"@.len() != "js"@.len());
        assert("jpg"@.len() != "json"@.len());
        assert("jpg"@[0] != "png"@[0]);
    }
    if x == "jpeg"@ {
        reveal_strlit("txt");
        reveal_strlit("md");
        reveal_strlit("html");
        reveal_strlit("htm");
        reveal_strlit("css");
        reveal_strlit("js");
        reveal_strlit("json");
        reveal_strlit("png");
        reveal_strlit("jpg");
        reveal_strlit("jpeg");
        assert("jpeg"@.len() != "txt"@.len());
        assert("jpeg"@.len() != "md"@.len());
        assert("jpeg"@[0] != "html"@[0]);
        assert("jpeg"@.len() != "htm"@.len());
        assert("jpeg"@.len() != "css"@.len());
        assert("jpeg"@.len() != "js"@.len());
        assert("jpeg"@[1] != "json"@[1]);
        assert("jpeg"@.len() != "png"@.len());
        assert("jpeg"@.len() != "jpg"@.len());
    }
    if x == "gif"@ {
        reveal_strlit("txt");
        reveal_strlit("md");
        reveal_strlit("html");
        reveal_strlit("htm");
        reveal_strlit("css");
        reveal_strlit("js");
        reveal_strlit("json");
        reveal_strlit("png");
        reveal_strlit("jpg");
        reveal_strlit("jpeg");
        reveal_strlit("gif");
        assert("gif"@[0] != "txt"@[0]);
        assert("gif"@.len() != "md"@.len());
        assert("gif"@.len() != "html"@.len());
        assert("gif"@[0] != "htm"@[0]);
        assert("gif"@[0] != "css"@[0]);
        assert("gif"@.len() != "js"@.len());
        assert("gif"@.len() != "json"@.len());
        assert("gif"@[0] != "png"@[0]);
        assert("gif"@[0] != "jpg"@[0]);
        assert("gif"@.len() != "jpeg"@.len());
    }
    if x == "svg"@ {
        reveal_strlit("txt");
        reveal_strlit("md");
        reveal_strlit("html");
        reveal_strlit("htm");
        reveal_strlit("css");
        reveal_strlit("js");
        reveal_strlit("json");
        reveal_strlit("png");
        reveal_strlit("jpg");
        reveal_strlit("jpeg");
        reveal_strlit("gif");
        reveal_strlit("svg");
        assert("svg"@[0] != "txt"@[0]);
        assert("svg"@.len() != "md"@.len());
        assert("svg"@.len() != "html"@.len());
        assert("svg"@[0] != "htm"@[0]);
        assert("svg"@[0] != "css"@[0]);
        assert("svg"@.len() != "js"@.len());
        assert("svg"@.len() != "json"@.len());
        assert("svg"@[0] != "png"@[0]);
        assert("svg"@[0] != "jpg"@[0]);
        assert("svg"@.len() != "jpeg"@.len());
        assert("svg"@[0] != "gif"@[0]);
    }
    if x == "pdf"@ {
        reveal_strlit("txt");
        reveal_strlit("md");
        reveal_strlit("html");
        reveal_strlit("htm");
        reveal_strlit("css");
        reveal_strlit("js");
        reveal_strlit("json");
        reveal_strlit("png");
        reveal_strlit("jpg");
        reveal_strlit("jpeg");
        reveal_strlit("gif");
        reveal_strlit("svg");
        reveal_strlit("pdf");
        assert("pdf"@[0] != "txt"@[0]);
        assert("pdf"@.len() != "md"@.len());
        assert("pdf"@.len() != "html"@.len());
        assert("pdf"@[0] != "htm"@[0]);
        assert("pdf"@[0] != "css"@[0]);
        assert("pdf"@.len() != "js"@.len());
        assert("pdf"@.len() != "json"@.len());
        assert("pdf"@[1] != "png"@[1]);
        assert("pdf"@[0] != "jpg"@[0]);
        assert("pdf"@.len() != "jpeg"@.len());
        assert("pdf"@[0] != "gif"@[0]);
        assert("pdf"@[0] != "svg"@[0]);
    }
    if x == "zip"@ {
        reveal_strlit("txt");
        reveal_strlit("md");
        reveal_strlit("html");
        reveal_strlit("htm");
        reveal_strlit("css");
        reveal_strlit("js");
        reveal_strlit("json");
        reveal_strlit("png");
        reveal_strlit("jpg");
        reveal_strlit("jpeg");
        reveal_strlit("gif");
        reveal_strlit("svg");
        reveal_strlit("pdf");
        reveal_strlit("zip");
        assert("zip"@[0] != "txt"@[0]);
        assert("zip"@.len() != "md"@.len());
        assert("zip"@.len() != "html"@.len());
        assert("zip"@[0] != "htm"@[0]);
        assert("zip"@[0] != "css"@[0]);
        assert("zip"@.len() != "js"@.len());
        assert("zip"@.len() != "json"@.len());
        assert("zip"@[0] != "png"@[0]);
        assert("zip"@[0] != "jpg"@[0]);
        assert("zip"@.len() != "jpeg"@.len());
        assert("zip"@[0] != "gif"@[0]);
        assert("zip"@[0] != "svg"@[0]);
        assert("zip"@[0] != "pdf"@[0]);
    }
    if x == "tar"@ {
        reveal_strlit("txt");
        reveal_strlit("md");
        reveal_strlit("html");
        reveal_strlit("htm");
        reveal_strlit("css");
        reveal_strlit("js");
        reveal_strlit("json");
        reveal_strlit("png");
        reveal_strlit("jpg");
        reveal_strlit("jpeg");
        reveal_strlit("gif");
        reveal_strlit("svg");
        reveal_strlit("pdf");
        reveal_strlit("zip");
        reveal_strlit("tar");
        assert("tar"@[1] != "txt"@[1]);
        assert("tar"@.len() != "md"@.len());
        assert("tar"@.len() != "html"@.len());
        assert("tar"@[0] != "htm"@[0]);
        assert("tar"@[0] != "css"@[0]);
        assert("tar"@.len() != "js"@.len());
        assert("tar"@.len() != "json"@.len());
        assert("tar"@[0] != "png"@[0]);
        assert("tar"@[0] != "jpg"@[0]);
        assert("tar"@.len() != "jpeg"@.len());
        assert("tar"@[0] != "gif"@[0]);
        assert("tar"@[0] != "svg"@[0]);
        assert("tar"@[0] != "pdf"@[0]);
        assert("tar"@[0] != "zip"@[0]);
    }
    if x == "gz"@ {
        reveal_strlit("txt");
        reveal_strlit("md");
        reveal_strlit("html");
        reveal_strlit("htm");
        reveal_strlit("css");
        reveal_strlit("js");
        reveal_strlit("json");
        reveal_strlit("png");
        reveal_strlit("jpg");
        reveal_strlit("jpeg");
        reveal_strlit("gif");
        reveal_strlit("svg");
        reveal_strlit("pdf");
        reveal_strlit("zip");
        reveal_strlit("tar");
        reveal_strlit("gz");
        assert("gz"@.len() != "txt"@.len());
        assert("gz"@[0] != "md"@[0]);
        assert("gz"@.len() != "html"@.len());
        assert("gz"@.len() != "htm"@.len());
        assert("gz"@.len() != "css"@.len());
        assert("gz"@[0] != "js"@[0]);
        assert("gz"@.len() != "json"@.len());
        assert("gz"@.len() != "png"@.len());
        assert("gz"@.len() != "jpg"@.len());
        assert("gz"@.len() != "jpeg"@.len());
        assert("gz"@.len() != "gif"@.len());
        assert("gz"@.len() != "svg"@.len());
        assert("gz"@.len() != "pdf"@.len());
        assert("gz"@.len() != "zip"@.len());
        assert("gz"@.len() != "tar"@.len());
    }
    if x == "mp3"@ {
        reveal_strlit("txt");
        reveal_strlit("md");
        reveal_strlit("html");
        reveal_strlit("htm");
        reveal_strlit("css");
        reveal_strlit("js");
        reveal_strlit("json");
        reveal_strlit("png");
        reveal_strlit("jpg");
        reveal_strlit("jpeg");
        reveal_strlit("gif");
        reveal_strlit("svg");
        reveal_strlit("pdf");
        reveal_strlit("zip");
        reveal_strlit("tar");
        reveal_strlit("gz");
        reveal_strlit("mp3");
        assert("mp3"@[0] != "txt"@[0]);
        assert("mp3"@.len() != "md"@.len());
        assert("mp3"@.len() != "html"@.len());
        assert("mp3"@[0] != "htm"@[0]);
        assert("mp3"@[0] != "css"@[0]);
        assert("mp3"@.len() != "js"@.len());
        assert("mp3"@.len() != "json"@.len());
        assert("mp3"@[0] != "png"@[0]);
        assert("mp3"@[0] != "jpg"@[0]);
        assert("mp3"@.len() != "jpeg"@.len());
        assert("mp3"@[0] != "gif"@[0]);
        assert("mp3"@[0] != "svg"@[0]);
        assert("mp3"@[0] != "pdf"@[0]);
        assert("mp3"@[0] != "zip"@[0]);
        assert("mp3"@[0] != "tar"@[0]);
        assert("mp3"@.len() != "gz"@.len());
    }
    if x == "mp4"@ {
        reveal_strlit("txt");
        reveal_strlit("md");
        reveal_strlit("html");
        reveal_strlit("htm");
        reveal_strlit("css");
        reveal_strlit("js");
        reveal_strlit("json");
        reveal_strlit("png");
        reveal_strlit("jpg");
        reveal_strlit("jpeg");
        reveal_strlit("gif");
        reveal_strlit("svg");
        reveal_strlit("pdf");
        reveal_strlit("zip");
        reveal_strlit("tar");
        reveal_strlit("gz");
        reveal_strlit("mp3");
        reveal_strlit("mp4");
        assert("mp4"@[0] != "txt"@[0]);
        assert("mp4"@.len() != "md"@.len());
        assert("mp4"@.len() != "html"@.len());
        assert("mp4"@[0] != "htm"@[0]);
        assert("mp4"@[0] != "css"@[0]);
        assert("mp4"@.len() != "js"@.len());
        assert("mp4"@.len() != "json"@.len());
        assert("mp4"@[0] != "png"@[0]);
        assert("mp4"@[0] != "jpg"@[0]);
        assert("mp4"@.len() != "jpeg"@.len());
        assert("mp4"@[0] != "gif"@[0]);
        assert("mp4"@[0] != "svg"@[0]);
        assert("mp4"@[0] != "pdf"@[0]);
        assert("mp4"@[0] != "zip"@[0]);
        assert("mp4"@[0] != "tar"@[0]);
        assert("mp4"@.len() != "gz"@.len());
        assert("mp4"@[2] != "mp3"@[2]);
    }
    if x == "webm"@ {
        reveal_strlit("txt");
        reveal_strlit("md");
        reveal_strlit("html");
        reveal_strlit("htm");
        reveal_strlit("css");
        reveal_strlit("js");
        reveal_strlit("json");
        reveal_strlit("png");
        reveal_strlit("jpg");
        reveal_strlit("jpeg");
        reveal_strlit("gif");
        reveal_strlit("svg");
        reveal_strlit("pdf");
        reveal_strlit("zip");
        reveal_strlit("tar");
        reveal_strlit("gz");
        reveal_strlit("mp3");
        reveal_strlit("mp4");
        reveal_strlit("webm");
        assert("webm"@.len() != "txt"@.len());
        assert("webm"@.len() != "md"@.len());
        assert("webm"@[0] != "html"@[0]);
        assert("webm"@.len() != "htm"@.len());
        assert("webm"@.len() != "css"@.len());
        assert("webm"@.len() != "js"@.len());
        assert("webm"@[0] != "json"@[0]);
        assert("webm"@.len() != "png"@.len());
        assert("webm"@.len() != "jpg"@.len());
        assert("webm"@[0] != "jpeg"@[0]);
        assert("webm"@.len() != "gif"@.len());
        assert("webm"@.len() != "svg"@.len());
        assert("webm"@.len() != "pdf"@.len());
        assert("webm"@.len() != "zip"@.len());
        assert("webm"@.len() != "tar"@.len());
        assert("webm"@.len() != "gz"@.len());
        assert("webm"@.len() != "mp3"@.len());
        assert("webm"@.len() != "mp4"@.len());
    }
    if x == "rs"@ {
        reveal_strlit("txt");
        reveal_strlit("md");
        reveal_strlit("html");
        reveal_strlit("htm");
        reveal_strlit("css");
        reveal_strlit("js");
        reveal_strlit("json");
        reveal_strlit("png");
        reveal_strlit("jpg");
        reveal_strlit("jpeg");
        reveal_strlit("gif");
        reveal_strlit("svg");
        reveal_strlit("pdf");
        reveal_strlit("zip");
        reveal_strlit("tar");
        reveal_strlit("gz");
        reveal_strlit("mp3");
        reveal_strlit("mp4");
        reveal_strlit("webm");
        reveal_strlit("rs");
        assert("rs"@.len() != "txt"@.len());
        assert("rs"@[0] != "md"@[0]);
        assert("rs"@.len() != "html"@.len());
        assert("rs"@.len() != "htm"@.len());
        assert("rs"@.len() != "css"@.len());
        assert("rs"@[0] != "js"@[0]);
        assert("rs"@.len() != "json"@.len());
        assert("rs"@.len() != "png"@.len());
        assert("rs"@.len() != "jpg"@.len());
        assert("rs"@.len() != "jpeg"@.len());
        assert("rs"@.len() != "gif"@.len());
        assert("rs"@.len() != "svg"@.len());
        assert("rs"@.len() != "pdf"@.len());
        assert("rs"@.len() != "zip"@.len());
        assert("rs"@.len() != "tar"@.len());
        assert("rs"@[0] != "gz"@[0]);
        assert("rs"@.len() != "mp3"@.len());
        assert("rs"@.len() != "mp4"@.len());
        assert("rs"@.len() != "webm"@.len());
    }
    if x == "toml"@ {
        reveal_strlit("txt");
        reveal_strlit("md");
        reveal_strlit("html");
        reveal_strlit("htm");
        reveal_strlit("css");
        reveal_strlit("js");
        reveal_strlit("json");
        reveal_strlit("png");
        reveal_strlit("jpg");
        reveal_strlit("jpeg");
        reveal_strlit("gif");
        reveal_strlit("svg");
        reveal_strlit("pdf");
        reveal_strlit("zip");
        reveal_strlit("tar");
        reveal_strlit("gz");
        reveal_strlit("mp3");
        reveal_strlit("mp4");
        reveal_strlit("webm");
        reveal_strlit("rs");
        reveal_strlit("toml");
        assert("toml"@.len() != "txt"@.len());
        assert("toml"@.len() != "md"@.len());
        assert("toml"@[0] != "html"@[0]);
        assert("toml"@.len() != "htm"@.len());
        assert("toml"@.len() != "css"@.len());
        assert("toml"@.len() != "js"@.len());
        assert("toml"@[0] != "json"@[0]);
        assert("toml"@.len() != "png"@.len());
        assert("toml"@.len() != "jpg"@.len());
        assert("toml"@[0] != "jpeg"@[0]);
        assert("toml"@.len() != "gif"@.len());
        assert("toml"@.len() != "svg"@.len());
        assert("toml"@.len() != "pdf"@.len());
        assert("toml"@.len() != "zip"@.len());
        assert("toml"@.len() != "tar"@.len());
        assert("toml"@.len() != "gz"@.len());
        assert("toml"@.len() != "mp3"@.len());
        assert("toml"@.len() != "mp4"@.len());
        assert("toml"@[0] != "webm"@[0]);
        assert("toml"@.len() != "rs"@.len());
    }
    if x == "desktop"@ {
        reveal_strlit("txt");
        reveal_strlit("md");
        reveal_strlit("html");
        reveal_strlit("htm");
        reveal_strlit("css");
        reveal_strlit("js");
        reveal_strlit("json");
        reveal_strlit("png");
        reveal_strlit("jpg");
        reveal_strlit("jpeg");
        reveal_strlit("gif");
        reveal_strlit("svg");
        reveal_strlit("pdf");
        reveal_strlit("zip");
        reveal_strlit("tar");
        reveal_strlit("gz");
        reveal_strlit("mp3");
        reveal_strlit("mp4");
        reveal_strlit("webm");
        reveal_strlit("rs");
        reveal_strlit("toml");
        reveal_strlit("desktop");
        assert("desktop"@.len() != "txt"@.len());
        assert("desktop"@.len() != "md"@.len());
        assert("desktop"@.len() != "html"@.len());
        assert("desktop"@.len() != "htm"@.len());
        assert("desktop"@.len() != "css"@.len());
        assert("desktop"@.len() != "js"@.len());
        assert("desktop"@.len() != "json"@.len());
        assert("desktop"@.len() != "png"@.len());
        assert("desktop"@.len() != "jpg"@.len());
        assert("desktop"@.len() != "jpeg"@.len());
        assert("desktop"@.len() != "gif"@.len());
        assert("desktop"@.len() != "svg"@.len());
        assert("desktop"@.len() != "pdf"@.len());
        assert("desktop"@.len() != "zip"@.len());
        assert("desktop"@.len() != "tar"@.len());
        assert("desktop"@.len() != "gz"@.len());
        assert("desktop"@.len() != "mp3"@.len());
        assert("desktop"@.len() != "mp4"@.len());
        assert("desktop"@.len() != "webm"@.len());
        assert("desktop"@.len() != "rs"@.len());
        assert("desktop"@.len() != "toml"@.len());
    }
}

/// Words joined by single spaces.
pub open spec fn spaced(ws: Seq<Seq<char>>) -> Seq<char>
    decreases ws.len(),
{
    if ws.len() == 0 {
        seq![]
    } else if ws.len() == 1 {
        ws[0]
    } else {
        spaced(ws.drop_last()) + seq![' '] + ws.last()
    }
}

/// A word of an `Exec` value: not empty, with no space and no quote.
pub open spec fn is_plain_word(w: Seq<char>) -> bool {
    w.len() > 0 && forall|k: int| 0 <= k < w.len() ==> w[k] != ' ' && w[k] != '"'
}

proof fn lemma_split_fold_concat(
    x: Seq<char>,
    y: Seq<char>,
    b: (Seq<Seq<char>>, Seq<char>, bool),
    f: spec_fn((Seq<Seq<char>>, Seq<char>, bool), char) -> (Seq<Seq<char>>, Seq<char>, bool),
)
    ensures
        (x + y).fold_left(b, f) == y.fold_left(x.fold_left(b, f), f),
{
    let s = x + y;
    s.lemma_fold_left_split(b, f, x.len() as int);
    assert(s.subrange(0, x.len() as int) =~= x);
    assert(s.subrange(x.len() as int, s.len() as int) =~= y);
}

proof fn lemma_split_word(
    w: Seq<char>,
    args: Seq<Seq<char>>,
    cur: Seq<char>,
    f: spec_fn((Seq<Seq<char>>, Seq<char>, bool), char) -> (Seq<Seq<char>>, Seq<char>, bool),
)
    requires
        forall|k: int| 0 <= k < w.len() ==> w[k] != ' ' && w[k] != '"',
        f == (|st: (Seq<Seq<char>>, Seq<char>, bool), ch: char| exec_split_step(st, ch)),
    ensures
        w.fold_left((args, cur, false), f) == (args, cur + w, false),
    decreases w.len(),
{
    if w.len() == 0 {
        assert(cur + w =~= cur);
    } else {
        lemma_split_word(w.drop_last(), args, cur, f);
        assert(cur + w.drop_last() + seq![w.last()] =~= cur + w);
        assert((cur + w.drop_last()).push(w.last()) =~= cur + w);
    }
}

proof fn lemma_split_spaced(
    ws: Seq<Seq<char>>,
    f: spec_fn((Seq<Seq<char>>, Seq<char>, bool), char) -> (Seq<Seq<char>>, Seq<char>, bool),
)
    requires
        ws.len() > 0,
        forall|i: int| 0 <= i < ws.len() ==> is_plain_word(#[trigger] ws[i]),
        f == (|st: (Seq<Seq<char>>, Seq<char>, bool), ch: char| exec_split_step(st, ch)),
    ensures
        spaced(ws).fold_left((Seq::<Seq<char>>::empty(), Seq::<char>::empty(), false), f) == (
            ws.drop_last(),
            ws.last(),
            false,
        ),
    decreases ws.len(),
{
    let init = (Seq::<Seq<char>>::empty(), Seq::<char>::empty(), false);
    if ws.len() == 1 {
        assert(is_plain_word(ws[0]));
        lemma_split_word(ws[0], Seq::<Seq<char>>::empty(), Seq::<char>::empty(), f);
        assert(Seq::<char>::empty() + ws[0] =~= ws[0]);
        assert(ws.drop_last() =~= Seq::<Seq<char>>::empty());
    } else {
        let rest = ws.drop_last();
        assert forall|i: int| 0 <= i < rest.len() implies is_plain_word(#[trigger] rest[i]) by {
            assert(rest[i] == ws[i]);
        }
        lemma_split_spaced(rest, f);
        let w = ws.last();
        assert(is_plain_word(ws[ws.len() - 1]));
        lemma_split_fold_concat(spaced(rest) + seq![' '], w, init, f);
        lemma_split_fold_concat(spaced(rest), seq![' '], init, f);
        let st1 = spaced(rest).fold_left(init, f);
        assert(st1 == (rest.drop_last(), rest.last(), false));
        assert(rest.last().len() > 0) by {
            assert(is_plain_word(rest[rest.len() - 1]));
        }
        assert(seq![' '].drop_last() =~= Seq::<char>::empty());
        let st2 = seq![' '].fold_left(st1, f);
        assert(st2 == exec_split_step(st1, ' ')) by {
            reveal_with_fuel(Seq::fold_left, 2);
            assert(seq![' '].drop_last().fold_left(st1, f) == st1);
            assert(seq![' '].last() == ' ');
        }
        assert(rest.drop_last().push(rest.last()) =~= rest);
        assert(st2 == (rest, Seq::<char>::empty(), false));
        lemma_split_word(w, rest, Seq::<char>::empty(), f);
        assert(Seq::<char>::empty() + w =~= w);
    }
}

/// Words joined by single spaces split back into those words: an `Exec`
/// value such as `code %F` gives the program and its field code as two
/// arguments.
pub proof fn law_split_spaced_words(ws: Seq<Seq<char>>)
    requires
        forall|i: int| 0 <= i < ws.len() ==> is_plain_word(#[trigger] ws[i]),
    ensures
        split_exec_spec(spaced(ws)) == ws,
{
    let f = |st: (Seq<Seq<char>>, Seq<char>, bool), ch: char| exec_split_step(st, ch);
    if ws.len() == 0 {
        assert(spaced(ws) =~= Seq::<char>::empty());
    } else {
        lemma_split_spaced(ws, f);
        assert(ws.last().len() > 0) by {
            assert(is_plain_word(ws[ws.len() - 1]));
        }
        assert(ws.drop_last().push(ws.last()) =~= ws);
    }
}

/// A word of an `Exec` value that is a plain argument (no `%`) or one of
/// the target field codes `%f`, `%F`, `%u`, `%U`.
pub open spec fn is_simple_exec_word(w: Seq<char>) -> bool {
    ||| (w.len() > 0 && forall|k: int| 0 <= k < w.len() ==> w[k] != ' ' && w[k] != '"' && w[k] != '%')
    ||| (w.len() == 2 && w[0] == '%' && (w[1] == 'f' || w[1] == 'F' || w[1] == 'u' || w[1] == 'U'))
}

proof fn lemma_filter_all(s: Seq<Seq<char>>, pred: spec_fn(Seq<char>) -> bool)
    requires
        forall|i: int| 0 <= i < s.len() ==> pred(#[trigger] s[i]),
    ensures
        s.filter(pred) == s,
    decreases s.len(),
{
    reveal(Seq::filter);
    if s.len() > 0 {
        lemma_filter_all(s.drop_last(), pred);
        assert(pred(s[s.len() - 1]));
        assert(s.drop_last().push(s.last()) =~= s);
    }
}

/// The command line for an `Exec` value made of plain words and target
/// field codes separated by single spaces: one argument per word, each
/// plain word as it is and each field code replaced by the (non-empty)
/// target.  So `code %F` opens `/tmp/notes.txt` as `code /tmp/notes.txt`.
pub proof fn law_exec_words_command(ws: Seq<Seq<char>>, target: Seq<char>)
    requires
        forall|i: int| 0 <= i < ws.len() ==> is_simple_exec_word(#[trigger] ws[i]),
        target.len() > 0,
    ensures
        exec_command_spec(spaced(ws), target).len() == ws.len(),
        forall|i: int|
            0 <= i < ws.len() ==> #[trigger] exec_command_spec(spaced(ws), target)[i] == (if ws[i][0]
                == '%' {
                target
            } else {
                ws[i]
            }),
{
    assert forall|i: int| 0 <= i < ws.len() implies is_plain_word(#[trigger] ws[i]) by {
        assert(is_simple_exec_word(ws[i]));
    }
    law_split_spaced_words(ws);
    let mapped = ws.map_values(|a: Seq<char>| substitute_arg(a, target));
    assert forall|i: int| 0 <= i < ws.len() implies #[trigger] mapped[i] == (if ws[i][0] == '%' {
        target
    } else {
        ws[i]
    }) by {
        assert(is_simple_exec_word(ws[i]));
        if ws[i][0] == '%' {
            law_target_codes_become_target(ws[i][1], Seq::<char>::empty(), target);
            assert(ws[i] =~= seq!['%', ws[i][1]]);
        } else {
            law_plain_argument_kept(ws[i], target);
        }
    }
    lemma_filter_all(mapped, |a: Seq<char>| a.len() > 0);
}

/// Only the `[Desktop Entry]` group is read: a line met outside it
/// changes nothing in the entry, and a group header decides whether the
/// lines after it are inside.
pub proof fn law_only_desktop_entry_group_read(e: DesktopEntryModel, inside: bool, raw: Seq<char>)
    ensures
        desktop_step(e, inside, raw).0 != e ==> inside && desktop_step(e, inside, raw).1,
        trim(raw) == "[Desktop Entry]"@ ==> desktop_step(e, inside, raw) == (e, true),
        trim(raw).len() > 0 && trim(raw)[0] == '[' && trim(raw).last() == ']' && trim(raw)
            != "[Desktop Entry]"@ ==> desktop_step(e, inside, raw) == (e, false),
{
    reveal_strlit("[Desktop Entry]");
    assert("[Desktop Entry]"@[0] == '[');
}

} // verus!
