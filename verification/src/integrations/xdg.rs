//! XDG base directories, application directories and the MIME database.

use vstd::prelude::*;
use crate::paths::{joined, path_join};
use crate::text::{
    chars_eq, chars_of, elem_pos, find_from, has_prefix, infix_pos, lines, lines_of,
    occurs_at, slice_chars, starts_with, string_of, string_views, trim, trim_chars, views,
    char_position, lemma_infix_pos_from_bounds, lex_compare, lex_order,
    lemma_lex_order_props, lemma_lex_order_trans,
};

verus! {

/// An XDG base directory: the environment variable when set, else the
/// platform directory, else `rel` under the home directory (or under `/`).
pub open spec fn xdg_dir_spec(
    env_value: Option<Seq<char>>,
    platform_dir: Option<Seq<char>>,
    home: Option<Seq<char>>,
    rel: Seq<char>,
) -> Seq<char> {
    match env_value {
        Some(v) => v,
        None => match platform_dir {
            Some(d) => d,
            None => joined(
                match home {
                    Some(h) => h,
                    None => "/"@,
                },
                rel,
            ),
        },
    }
}

pub open spec fn opt_str_view(o: Option<&str>) -> Option<Seq<char>> {
    match o {
        Some(s) => Some(s@),
        None => None,
    }
}

/// Resolve an XDG base directory from what the environment offers:
/// `env_value` is the variable (`XDG_CONFIG_HOME`, ...), `platform_dir` the
/// platform's default, `home` the home directory, `rel` the directory
/// under home (`.config`, `.cache`, `.local/share`).
pub fn xdg_dir_from(
    env_value: Option<&str>,
    platform_dir: Option<&str>,
    home: Option<&str>,
    rel: &str,
) -> (r: String)
    ensures
        r@ == xdg_dir_spec(opt_str_view(env_value), opt_str_view(platform_dir), opt_str_view(home), rel@),
{
    match env_value {
        Some(v) => string_of(&chars_of(v)),
        None => match platform_dir {
            Some(d) => string_of(&chars_of(d)),
            None => match home {
                Some(h) => path_join(h, rel),
                None => path_join("/", rel),
            },
        },
    }
}

/// Application-specific config directory: `<config home>/hyprfiles`.
pub fn app_config_dir(config_home: &str) -> (r: String)
    ensures
        r@ == joined(config_home@, "hyprfiles"@),
{
    path_join(config_home, "hyprfiles")
}

/// Application-specific cache directory: `<cache home>/hyprfiles`.
pub fn app_cache_dir(cache_home: &str) -> (r: String)
    ensures
        r@ == joined(cache_home@, "hyprfiles"@),
{
    path_join(cache_home, "hyprfiles")
}

/// Application-specific data directory: `<data home>/hyprfiles`.
pub fn app_data_dir(data_home: &str) -> (r: String)
    ensures
        r@ == joined(data_home@, "hyprfiles"@),
{
    path_join(data_home, "hyprfiles")
}

/// Each directory of `dirs` joined with `part`.
pub fn join_each(dirs: &Vec<String>, part: &str) -> (r: Vec<String>)
    ensures
        string_views(r@) == string_views(dirs@).map_values(|d: Seq<char>| joined(d, part@)),
{
    let mut r: Vec<String> = Vec::new();
    let mut i: usize = 0;
    while i < dirs.len()
        invariant
            i <= dirs.len(),
            string_views(r@) == string_views(dirs@).take(i as int).map_values(
                |d: Seq<char>| joined(d, part@),
            ),
        decreases dirs.len() - i,
    {
        let ghost before = string_views(r@);
        r.push(path_join(dirs[i].as_str(), part));
        assert(string_views(r@) =~= before.push(r@.last()@));
        assert(string_views(dirs@).take(i + 1).map_values(|d: Seq<char>| joined(d, part@))
            =~= string_views(dirs@).take(i as int).map_values(|d: Seq<char>| joined(d, part@)).push(
            joined(dirs@[i as int]@, part@),
        ));
        i += 1;
    }
    assert(string_views(dirs@).take(i as int) =~= string_views(dirs@));
    r
}

fn append_strings(a: &mut Vec<String>, b: Vec<String>)
    ensures
        string_views(final(a)@) == string_views(old(a)@) + string_views(b@),
{
    let mut b = b;
    let ghost a0 = string_views(a@);
    let ghost b0 = string_views(b@);
    a.append(&mut b);
    assert(string_views(a@) =~= a0 + b0);
}

/// Candidate MIME database directories, before keeping those that exist:
/// `/usr/share/mime`, `mime` under each `XDG_DATA_DIRS` entry, then under
/// the data home.
pub fn mime_dir_candidates(data_dirs: &Vec<String>, data_home: &str) -> (r: Vec<String>)
    ensures
        string_views(r@) == seq!["/usr/share/mime"@] + string_views(data_dirs@).map_values(
            |d: Seq<char>| joined(d, "mime"@),
        ) + seq![joined(data_home@, "mime"@)],
{
    let mut r: Vec<String> = Vec::new();
    r.push(string_of(&chars_of("/usr/share/mime")));
    append_strings(&mut r, join_each(data_dirs, "mime"));
    let ghost before = string_views(r@);
    r.push(path_join(data_home, "mime"));
    assert(string_views(r@) =~= before.push(r@.last()@));
    r
}

/// Candidate icon theme directories, before keeping those that exist:
/// `/usr/share/icons`, `/usr/local/share/icons`, `icons` under the data
/// home, then under each `XDG_DATA_DIRS` entry.
pub fn icon_theme_dir_candidates(data_home: &str, data_dirs: &Vec<String>) -> (r: Vec<String>)
    ensures
        string_views(r@) == seq!["/usr/share/icons"@, "/usr/local/share/icons"@, joined(data_home@, "icons"@)]
            + string_views(data_dirs@).map_values(|d: Seq<char>| joined(d, "icons"@)),
{
    let mut r: Vec<String> = Vec::new();
    r.push(string_of(&chars_of("/usr/share/icons")));
    r.push(string_of(&chars_of("/usr/local/share/icons")));
    r.push(path_join(data_home, "icons"));
    let ghost first = string_views(r@);
    assert(first =~= seq!["/usr/share/icons"@, "/usr/local/share/icons"@, joined(data_home@, "icons"@)]);
    append_strings(&mut r, join_each(data_dirs, "icons"));
    r
}

/// Candidate application directories, before keeping those that exist:
/// `/usr/share/applications`, `/usr/local/share/applications`,
/// `applications` under each `XDG_DATA_DIRS` entry, then under the data home.
pub fn application_dir_candidates(data_dirs: &Vec<String>, data_home: &str) -> (r: Vec<String>)
    ensures
        string_views(r@) == seq!["/usr/share/applications"@, "/usr/local/share/applications"@]
            + string_views(data_dirs@).map_values(|d: Seq<char>| joined(d, "applications"@))
            + seq![joined(data_home@, "applications"@)],
{
    let mut r: Vec<String> = Vec::new();
    r.push(string_of(&chars_of("/usr/share/applications")));
    r.push(string_of(&chars_of("/usr/local/share/applications")));
    let ghost first = string_views(r@);
    assert(first =~= seq!["/usr/share/applications"@, "/usr/local/share/applications"@]);
    append_strings(&mut r, join_each(data_dirs, "applications"));
    let ghost before = string_views(r@);
    r.push(path_join(data_home, "applications"));
    assert(string_views(r@) =~= before.push(r@.last()@));
    r
}

/// `s` is in strictly increasing order (so holds no repeats).
pub open spec fn strictly_sorted(s: Seq<Seq<char>>) -> bool {
    forall|i: int, j: int| 0 <= i < j < s.len() ==> lex_order(#[trigger] s[i], #[trigger] s[j]) < 0
}

/// `out` is `inp` sorted with repeats removed: strictly increasing, and
/// holding exactly the names `inp` holds.
pub open spec fn sorted_unique_of(out: Seq<Seq<char>>, inp: Seq<Seq<char>>) -> bool {
    &&& strictly_sorted(out)
    &&& forall|x: Seq<char>| out.contains(x) <==> inp.contains(x)
}

/// The names sorted, each once, as a sort followed by a dedup leaves
/// them (icon theme names are listed so).
pub fn sorted_unique(names: &Vec<String>) -> (r: Vec<String>)
    ensures
        sorted_unique_of(string_views(r@), string_views(names@)),
{
    let mut out: Vec<String> = Vec::new();
    let mut i: usize = 0;
    while i < names.len()
        invariant
            i <= names.len(),
            strictly_sorted(string_views(out@)),
            forall|x: Seq<char>| string_views(out@).contains(x) <==> string_views(names@.take(i as int)).contains(x),
        decreases names.len() - i,
    {
        let ghost prev = string_views(out@);
        let name = names[i].clone();
        let nc = chars_of(name.as_str());
        let mut p: usize = 0;
        let mut stop = false;
        while p < out.len() && !stop
            invariant
                p <= out.len(),
                string_views(out@) == prev,
                nc@ == name@,
                forall|k: int| 0 <= k < p ==> lex_order(#[trigger] prev[k], name@) < 0,
                stop ==> p < out.len() && lex_order(name@, prev[p as int]) <= 0,
            decreases out.len() - p + (if stop { 0int } else { 1int }),
        {
            let c = lex_compare(&nc, &chars_of(out[p].as_str()));
            if c <= 0 {
                stop = true;
            } else {
                proof {
                    lemma_lex_order_props(name@, prev[p as int]);
                }
                p += 1;
            }
        }
        let dup = stop && lex_compare(&nc, &chars_of(out[p].as_str())) == 0;
        proof {
            assert(names@.take(i + 1) =~= names@.take(i as int).push(names@[i as int]));
            assert(string_views(names@.take(i + 1)) =~= string_views(names@.take(i as int)).push(name@));
        }
        if dup {
            proof {
                lemma_lex_order_props(name@, prev[p as int]);
                assert forall|x: Seq<char>| string_views(out@).contains(x) <==> string_views(
                    names@.take(i + 1),
                ).contains(x) by {
                    let t = string_views(names@.take(i as int));
                    if x == name@ {
                        assert(prev[p as int] == x);
                        assert(t.push(name@)[t.len() as int] == x);
                    } else {
                        if t.push(name@).contains(x) {
                            let j = choose|j: int| 0 <= j < t.push(name@).len() && t.push(name@)[j] == x;
                            assert(t[j] == x);
                        }
                        if t.contains(x) {
                            let j = choose|j: int| 0 <= j < t.len() && t[j] == x;
                            assert(t.push(name@)[j] == x);
                        }
                    }
                }
            }
        } else {
            out.insert(p, name);
            proof {
                let now = string_views(out@);
                assert(now =~= prev.insert(p as int, name@));
                assert forall|a: int, b: int| 0 <= a < b < now.len() implies lex_order(
                    #[trigger] now[a],
                    #[trigger] now[b],
                ) < 0 by {
                    if b < p {
                        assert(now[a] == prev[a] && now[b] == prev[b]);
                    } else if b == p {
                        assert(now[a] == prev[a] && now[b] == name@);
                    } else if a < p {
                        assert(now[a] == prev[a] && now[b] == prev[b - 1]);
                        lemma_lex_order_props(name@, prev[p as int]);
                        assert(lex_order(name@, prev[p as int]) < 0);
                        if p < b - 1 {
                            lemma_lex_order_trans(name@, prev[p as int], prev[b - 1]);
                        }
                        lemma_lex_order_trans(prev[a], name@, prev[b - 1]);
                    } else if a == p {
                        assert(now[a] == name@ && now[b] == prev[b - 1]);
                        lemma_lex_order_props(name@, prev[p as int]);
                        if p < b - 1 {
                            lemma_lex_order_trans(name@, prev[p as int], prev[b - 1]);
                        }
                    } else {
                        assert(now[a] == prev[a - 1] && now[b] == prev[b - 1]);
                    }
                }
                assert forall|x: Seq<char>| now.contains(x) <==> string_views(
                    names@.take(i + 1),
                ).contains(x) by {
                    let t = string_views(names@.take(i as int));
                    if x == name@ {
                        assert(now[p as int] == x);
                        assert(t.push(name@)[t.len() as int] == x);
                    } else {
                        if now.contains(x) {
                            let j = choose|j: int| 0 <= j < now.len() && now[j] == x;
                            if j < p {
                                assert(prev[j] == x);
                            } else {
                                assert(prev[j - 1] == x);
                            }
                        }
                        if prev.contains(x) {
                            let j = choose|j: int| 0 <= j < prev.len() && prev[j] == x;
                            if j < p {
                                assert(now[j] == x);
                            } else {
                                assert(now[j + 1] == x);
                            }
                        }
                        if t.push(name@).contains(x) {
                            let j = choose|j: int| 0 <= j < t.push(name@).len() && t.push(name@)[j] == x;
                            assert(t[j] == x);
                        }
                        if t.contains(x) {
                            let j = choose|j: int| 0 <= j < t.len() && t[j] == x;
                            assert(t.push(name@)[j] == x);
                        }
                    }
                }
            }
        }
        i += 1;
    }
    assert(names@.take(names.len() as int) =~= names@);
    out
}

/// The icon themes searched for an icon: the requested one, then
/// `hicolor`; only `hicolor` when none is requested.
pub fn icon_themes_to_check(theme: Option<&str>) -> (r: Vec<String>)
    ensures
        string_views(r@) == match theme {
            Some(t) => seq![t@, "hicolor"@],
            None => seq!["hicolor"@],
        },
{
    let mut r: Vec<String> = Vec::new();
    match theme {
        Some(t) => {
            r.push(t.to_string());
        },
        None => {},
    }
    r.push("hicolor".to_string());
    proof {
        match theme {
            Some(t) => {
                assert(string_views(r@) =~= seq![t@, "hicolor"@]);
            },
            None => {
                assert(string_views(r@) =~= seq!["hicolor"@]);
            },
        }
    }
    r
}

/// The files an icon may be in inside an `apps` directory of a theme, in
/// the order they are tried: `name.svg`, `name.png`, `name.xpm`.
pub fn icon_candidates(apps_dir: &str, name: &str) -> (r: Vec<String>)
    ensures
        string_views(r@) == seq![
            joined(apps_dir@, name@ + ".svg"@),
            joined(apps_dir@, name@ + ".png"@),
            joined(apps_dir@, name@ + ".xpm"@),
        ],
{
    let mut r: Vec<String> = Vec::new();
    let mut svg = name.to_string();
    svg.append(".svg");
    r.push(path_join(apps_dir, svg.as_str()));
    let mut png = name.to_string();
    png.append(".png");
    r.push(path_join(apps_dir, png.as_str()));
    let mut xpm = name.to_string();
    xpm.append(".xpm");
    r.push(path_join(apps_dir, xpm.as_str()));
    assert(string_views(r@) =~= seq![
        joined(apps_dir@, name@ + ".svg"@),
        joined(apps_dir@, name@ + ".png"@),
        joined(apps_dir@, name@ + ".xpm"@),
    ]);
    r
}

} // verus!

verus! {

/// MIME type descriptions: a map from MIME type to description.
pub struct MimeDescriptions {
    entries: Vec<(String, String)>,
    model: Ghost<Map<Seq<char>, Seq<char>>>,
}

impl View for MimeDescriptions {
    type V = Map<Seq<char>, Seq<char>>;

    closed spec fn view(&self) -> Map<Seq<char>, Seq<char>> {
        self.model@
    }
}

/// The pairs hold distinct keys and list exactly the map `model`.
pub open spec fn pairs_list_map(entries: Seq<(String, String)>, model: Map<Seq<char>, Seq<char>>) -> bool {
    &&& forall|i: int, j: int|
        0 <= i < entries.len() && 0 <= j < entries.len() && i != j ==> entries[i].0@ != entries[j].0@
    &&& forall|i: int|
        0 <= i < entries.len() ==> model.contains_key((#[trigger] entries[i]).0@)
            && model[entries[i].0@] == entries[i].1@
    &&& forall|k: Seq<char>|
        #[trigger] model.contains_key(k) ==> exists|i: int|
            0 <= i < entries.len() && (#[trigger] entries[i]).0@ == k
}

proof fn lemma_pairs_update(
    entries: Seq<(String, String)>,
    model: Map<Seq<char>, Seq<char>>,
    i: int,
    key: String,
    value: String,
)
    requires
        pairs_list_map(entries, model),
        0 <= i < entries.len(),
        entries[i].0@ == key@,
    ensures
        pairs_list_map(entries.update(i, (key, value)), model.insert(key@, value@)),
{
    let e2 = entries.update(i, (key, value));
    let m2 = model.insert(key@, value@);
    assert forall|kk: Seq<char>| #[trigger] m2.contains_key(kk) implies exists|j: int|
        0 <= j < e2.len() && (#[trigger] e2[j]).0@ == kk by {
        if kk == key@ {
            assert(e2[i].0@ == kk);
        } else {
            let j = choose|j: int| 0 <= j < entries.len() && (#[trigger] entries[j]).0@ == kk;
            assert(e2[j].0@ == kk);
        }
    }
}

proof fn lemma_pairs_push(
    entries: Seq<(String, String)>,
    model: Map<Seq<char>, Seq<char>>,
    key: String,
    value: String,
)
    requires
        pairs_list_map(entries, model),
        !model.contains_key(key@),
    ensures
        pairs_list_map(entries.push((key, value)), model.insert(key@, value@)),
{
    let e2 = entries.push((key, value));
    let m2 = model.insert(key@, value@);
    assert forall|kk: Seq<char>| #[trigger] m2.contains_key(kk) implies exists|j: int|
        0 <= j < e2.len() && (#[trigger] e2[j]).0@ == kk by {
        if kk == key@ {
            assert(e2[entries.len() as int].0@ == kk);
        } else {
            let j = choose|j: int| 0 <= j < entries.len() && (#[trigger] entries[j]).0@ == kk;
            assert(e2[j].0@ == kk);
        }
    }
}

impl MimeDescriptions {
    #[verifier::type_invariant]
    spec fn keys_match_model(self) -> bool {
        pairs_list_map(self.entries@, self.model@)
    }

    /// An empty map.
    pub fn new() -> (r: Self)
        ensures
            r@ == Map::<Seq<char>, Seq<char>>::empty(),
    {
        MimeDescriptions { entries: Vec::new(), model: Ghost(Map::empty()) }
    }

    fn position(&self, key: &Vec<char>) -> (r: Option<usize>)
        ensures
            r matches Some(i) ==> i < self.entries.len() && self.entries@[i as int].0@ == key@
                && self@.contains_key(key@),
            r is None ==> !self@.contains_key(key@),
    {
        proof {
            use_type_invariant(self);
        }
        let mut i: usize = 0;
        while i < self.entries.len()
            invariant
                i <= self.entries.len(),
                pairs_list_map(self.entries@, self.model@),
                forall|k: int| 0 <= k < i ==> (#[trigger] self.entries@[k]).0@ != key@,
            decreases self.entries.len() - i,
        {
            if chars_eq(&chars_of(self.entries[i].0.as_str()), key) {
                return Some(i);
            }
            i += 1;
        }
        None
    }

    /// The descriptions as (type, description) pairs, each type once.
    pub fn into_pairs(self) -> (r: Vec<(String, String)>)
        ensures
            pairs_list_map(r@, self@),
    {
        proof {
            use_type_invariant(&self);
        }
        self.entries
    }

    /// The description recorded for a MIME type.
    pub fn get(&self, key: &str) -> (r: Option<String>)
        ensures
            r matches Some(v) ==> self@.contains_key(key@) && self@[key@] == v@,
            r is None ==> !self@.contains_key(key@),
    {
        proof {
            use_type_invariant(self);
        }
        match self.position(&chars_of(key)) {
            Some(i) => Some(self.entries[i].1.clone()),
            None => None,
        }
    }

    /// Record `value` for `key`, replacing what was there.
    pub fn insert(&mut self, key: String, value: String)
        ensures
            final(self)@ == old(self)@.insert(key@, value@),
    {
        proof {
            use_type_invariant(&*self);
        }
        let ghost k = key@;
        let ghost v = value@;
        let pos = self.position(&chars_of(key.as_str()));
        let mut taken = MimeDescriptions::new();
        std::mem::swap(self, &mut taken);
        proof {
            use_type_invariant(&taken);
        }
        let ghost m = taken.model@;
        let MimeDescriptions { mut entries, model: _ } = taken;
        match pos {
            Some(i) => {
                proof {
                    lemma_pairs_update(entries@, m, i as int, key, value);
                }
                entries.set(i, (key, value));
            },
            None => {
                proof {
                    lemma_pairs_push(entries@, m, key, value);
                }
                entries.push((key, value));
            },
        }
        *self = MimeDescriptions { entries, model: Ghost(m.insert(k, v)) };
    }

    /// Record `value` for `key` unless `key` is already present.
    pub fn insert_if_absent(&mut self, key: String, value: String)
        ensures
            final(self)@ == if old(self)@.contains_key(key@) {
                old(self)@
            } else {
                old(self)@.insert(key@, value@)
            },
    {
        if self.position(&chars_of(key.as_str())).is_none() {
            self.insert(key, value);
        }
    }
}

} // verus!

verus! {

/// The characters held by an optional vector.
pub open spec fn opt_chars_view(o: Option<Vec<char>>) -> Option<Seq<char>> {
    match o {
        Some(c) => Some(c@),
        None => None,
    }
}

/// One trimmed line of a shared-mime-info package file applied to the scan
/// state: the map so far and the MIME type whose `<comment>` is awaited.
pub open spec fn xml_step(
    m: Map<Seq<char>, Seq<char>>,
    cur: Option<Seq<char>>,
    raw: Seq<char>,
) -> (Map<Seq<char>, Seq<char>>, Option<Seq<char>>) {
    let line = trim(raw);
    if has_prefix(line, "<mime-type type=\""@) {
        match infix_pos(line, "type=\""@) {
            Some(s) => {
                let rest = line.skip(s + 6);
                let end = elem_pos(rest, '"');
                if end < rest.len() {
                    (m, Some(rest.take(end)))
                } else {
                    (m, cur)
                }
            },
            None => (m, cur),
        }
    } else if has_prefix(line, "<comment>"@) && cur is Some {
        let end = match infix_pos(line, "</comment>"@) {
            Some(e) => e,
            None => line.len() as int,
        };
        (m.insert(cur->0, trim(line.subrange(9, end))), None)
    } else {
        (m, cur)
    }
}

/// The scan state after a sequence of lines.
pub open spec fn xml_fold(
    ls: Seq<Seq<char>>,
    m: Map<Seq<char>, Seq<char>>,
    cur: Option<Seq<char>>,
) -> (Map<Seq<char>, Seq<char>>, Option<Seq<char>>)
    decreases ls.len(),
{
    if ls.len() == 0 {
        (m, cur)
    } else {
        let (m2, c2) = xml_step(m, cur, ls[0]);
        xml_fold(ls.drop_first(), m2, c2)
    }
}

/// The MIME type descriptions found in the text of a package file.
pub open spec fn scan_spec(text: Seq<char>) -> Map<Seq<char>, Seq<char>> {
    xml_fold(lines(text), Map::empty(), None).0
}

proof fn lemma_comment_close_after_open(line: Seq<char>)
    requires
        has_prefix(line, "<comment>"@),
    ensures
        infix_pos(line, "</comment>"@) matches Some(e) ==> 9 <= e <= line.len(),
{
    reveal_strlit("<comment>");
    reveal_strlit("</comment>");
    lemma_infix_pos_from_bounds(line, "</comment>"@, 0);
    if let Some(e) = infix_pos(line, "</comment>"@) {
        assert(occurs_at(line, "</comment>"@, e));
        if e < 9 {
            let close = "</comment>"@;
            let open = "<comment>"@;
            assert(close.len() == 10);
            assert(line.subrange(e, e + 10) == close);
            assert(line.subrange(e, e + 10)[0] == line[e]);
            assert(line.subrange(e, e + 10)[1] == line[e + 1]);
            assert(close[0] == '<');
            assert(close[1] == '/');
            assert(line.take(9) == open);
            assert(line.take(9)[e] == line[e]);
            if e + 1 < 9 {
                assert(line.take(9)[e + 1] == line[e + 1]);
            }
        }
    }
}

fn xml_step_exec(m: &mut MimeDescriptions, cur: &mut Option<Vec<char>>, raw: &Vec<char>)
    ensures
        (final(m)@, opt_chars_view(*final(cur))) == xml_step(old(m)@, opt_chars_view(*old(cur)), raw@),
{
    proof {
        reveal_strlit("type=\"");
        reveal_strlit("<comment>");
    }
    let line = trim_chars(raw);
    if starts_with(&line, &chars_of("<mime-type type=\"")) {
        let marker = chars_of("type=\"");
        match find_from(&line, &marker, 0) {
            Some(s) => {
                proof {
                    lemma_infix_pos_from_bounds(line@, marker@, 0);
                    assert(marker@.len() == 6);
                    assert(s + 6 <= line@.len());
                }
                let start = s + 6;
                let end = char_position(&line, '"', start);
                if end < line.len() {
                    let ghost rest = line@.skip(start as int);
                    let name = slice_chars(&line, start, end);
                    assert(name@ =~= rest.take(end - start));
                    *cur = Some(name);
                }
            },
            None => {},
        }
    } else if starts_with(&line, &chars_of("<comment>")) && cur.is_some() {
        proof {
            lemma_comment_close_after_open(line@);
            lemma_infix_pos_from_bounds(line@, "</comment>"@, 0);
        }
        let end = match find_from(&line, &chars_of("</comment>"), 0) {
            Some(e) => e,
            None => line.len(),
        };
        let comment = trim_chars(&slice_chars(&line, 9, end));
        let key = match cur.take() {
            Some(c) => c,
            None => Vec::new(),
        };
        m.insert(string_of(&key), string_of(&comment));
    }
}

proof fn lemma_xml_fold_step(
    ls: Seq<Seq<char>>,
    i: int,
    m: Map<Seq<char>, Seq<char>>,
    cur: Option<Seq<char>>,
)
    requires
        0 <= i < ls.len(),
    ensures
        xml_fold(ls.skip(i), m, cur) == xml_fold(
            ls.skip(i + 1),
            xml_step(m, cur, ls[i]).0,
            xml_step(m, cur, ls[i]).1,
        ),
{
    assert(ls.skip(i).drop_first() =~= ls.skip(i + 1));
}

/// Scan the text of a shared-mime-info package file for MIME types and
/// their `<comment>` descriptions, line by line.
pub fn scan_mime_types_from_xml(text: &str) -> (r: MimeDescriptions)
    ensures
        r@ == scan_spec(text@),
{
    let mut m = MimeDescriptions::new();
    let mut cur: Option<Vec<char>> = None;
    let ls = lines_of(&chars_of(text));
    let mut k: usize = 0;
    assert(views(ls@).skip(0) =~= views(ls@));
    while k < ls.len()
        invariant
            k <= ls.len(),
            views(ls@) == lines(text@),
            scan_spec(text@) == xml_fold(
                views(ls@).skip(k as int),
                m@,
                opt_chars_view(cur),
            ).0,
        decreases ls.len() - k,
    {
        proof {
            lemma_xml_fold_step(
                views(ls@),
                k as int,
                m@,
                opt_chars_view(cur),
            );
        }
        xml_step_exec(&mut m, &mut cur, &ls[k]);
        k += 1;
    }
    assert(views(ls@).skip(k as int) =~= Seq::<Seq<char>>::empty());
    m
}

} // verus!

verus! {

/// The MIME type a `globs2` line (`weight:type:glob`) names: the text
/// between its first and second `:`, if it has two.
pub open spec fn globs2_type(line: Seq<char>) -> Option<Seq<char>> {
    let i = elem_pos(line, ':');
    if i < line.len() {
        let rest = line.skip(i + 1);
        let j = elem_pos(rest, ':');
        if j < rest.len() {
            Some(rest.take(j))
        } else {
            None
        }
    } else {
        None
    }
}

/// The map after recording, with an empty description, each type that the
/// lines name and that is not yet present.
pub open spec fn globs_fold(ls: Seq<Seq<char>>, m: Map<Seq<char>, Seq<char>>) -> Map<Seq<char>, Seq<char>>
    decreases ls.len(),
{
    if ls.len() == 0 {
        m
    } else {
        let m2 = match globs2_type(ls[0]) {
            Some(t) => if m.contains_key(t) {
                m
            } else {
                m.insert(t, seq![])
            },
            None => m,
        };
        globs_fold(ls.drop_first(), m2)
    }
}

impl MimeDescriptions {
    /// Record the MIME types named by the text of a `globs2` file, each
    /// with an empty description unless already present.
    pub fn add_globs2(&mut self, contents: &str)
        ensures
            final(self)@ == globs_fold(lines(contents@), old(self)@),
    {
        let ls = lines_of(&chars_of(contents));
        let mut k: usize = 0;
        assert(views(ls@).skip(0) =~= views(ls@));
        while k < ls.len()
            invariant
                k <= ls.len(),
                views(ls@) == lines(contents@),
                globs_fold(lines(contents@), old(self)@) == globs_fold(
                    views(ls@).skip(k as int),
                    self@,
                ),
            decreases ls.len() - k,
        {
            let line = &ls[k];
            assert(views(ls@).skip(k as int).drop_first() =~= views(ls@).skip(k + 1));
            assert(views(ls@).skip(k as int)[0] == line@);
            let i = char_position(line, ':', 0);
            assert(line@.skip(0) =~= line@);
            if i < line.len() {
                let j = char_position(line, ':', i + 1);
                if j < line.len() {
                    let t = slice_chars(line, i + 1, j);
                    assert(line@.skip(i + 1).take(j - i - 1) =~= t@);
                    self.insert_if_absent(string_of(&t), String::new());
                }
            }
            k += 1;
        }
        assert(views(ls@).skip(k as int) =~= Seq::<Seq<char>>::empty());
    }

    /// Record every description of `other`, replacing what was there.
    pub fn extend(&mut self, other: MimeDescriptions)
        ensures
            final(self)@ == old(self)@.union_prefer_right(other@),
    {
        proof {
            use_type_invariant(&other);
        }
        let ghost om = other@;
        let ghost start = self@;
        let MimeDescriptions { entries, model: _ } = other;
        let mut rest = entries;
        let ghost all = rest@;
        let mut i: usize = 0;
        assert(all.skip(0) =~= all);
        assert(all.len() == rest.len());
        while rest.len() > 0
            invariant
                i + rest.len() == all.len(),
                all.len() <= usize::MAX,
                rest@ == all.skip(i as int),
                pairs_list_map(all, om),
                forall|k: Seq<char>|
                    #[trigger] self@.contains_key(k) <==> (start.contains_key(k) || exists|j: int|
                        0 <= j < i && (#[trigger] all[j]).0@ == k),
                forall|j: int| 0 <= j < i ==> self@[(#[trigger] all[j]).0@] == all[j].1@,
                forall|k: Seq<char>|
                    #[trigger] self@.contains_key(k) && !(exists|j: int|
                        0 <= j < i && (#[trigger] all[j]).0@ == k) ==> self@[k] == start[k],
            decreases rest.len(),
        {
            let (key, value) = rest.remove(0);
            assert(rest@ =~= all.skip(i + 1));
            assert(all[i as int] == (key, value));
            let ghost before = self@;
            self.insert(key, value);
            assert forall|j: int| 0 <= j < i + 1 implies self@[(#[trigger] all[j]).0@] == all[j].1@ by {
                if j < i {
                    assert(all[j].0@ != all[i as int].0@);
                }
            }
            assert forall|k: Seq<char>|
                #[trigger] self@.contains_key(k) && !(exists|j: int|
                    0 <= j < i + 1 && (#[trigger] all[j]).0@ == k) implies self@[k] == start[k] by {
                assert(k != all[i as int].0@);
            }
            assert forall|k: Seq<char>|
                #[trigger] self@.contains_key(k) <==> (start.contains_key(k) || exists|j: int|
                    0 <= j < i + 1 && (#[trigger] all[j]).0@ == k) by {
                assert(before.contains_key(k) <==> (start.contains_key(k) || exists|j: int|
                    0 <= j < i && (#[trigger] all[j]).0@ == k));
                if k == all[i as int].0@ {
                    assert(0 <= i < i + 1 && all[i as int].0@ == k);
                }
                if exists|j: int| 0 <= j < i + 1 && (#[trigger] all[j]).0@ == k {
                    let j = choose|j: int| 0 <= j < i + 1 && (#[trigger] all[j]).0@ == k;
                    if j < i {
                        assert(0 <= j < i && all[j].0@ == k);
                    }
                }
            }
            i += 1;
        }
        assert forall|k: Seq<char>| #[trigger] om.contains_key(k) implies self@.contains_key(k)
            && self@[k] == om[k] by {
            let j = choose|j: int| 0 <= j < all.len() && (#[trigger] all[j]).0@ == k;
            assert(0 <= j < i && all[j].0@ == k);
            assert(self@.contains_key(k));
            assert(self@[all[j].0@] == all[j].1@);
        }
        assert(self@ =~= start.union_prefer_right(om));
    }

    /// Record the descriptions found in the text of a package file.
    pub fn add_package_xml(&mut self, text: &str)
        ensures
            final(self)@ == old(self)@.union_prefer_right(scan_spec(text@)),
    {
        let found = scan_mime_types_from_xml(text);
        self.extend(found);
    }
}

/// Reading a description back gives the one last recorded for the type,
/// and recording one leaves the other types as they were.
pub proof fn law_description_reads_back(
    m: Map<Seq<char>, Seq<char>>,
    key: Seq<char>,
    value: Seq<char>,
    other: Seq<char>,
)
    requires
        other != key,
    ensures
        m.insert(key, value).contains_key(key) && m.insert(key, value)[key] == value,
        m.insert(key, value).contains_key(other) == m.contains_key(other),
        m.contains_key(other) ==> m.insert(key, value)[other] == m[other],
{
}

} // verus!
