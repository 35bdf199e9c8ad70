//! File name search: which names a query matches, and the fuzzy matcher.

use vstd::prelude::*;
use vstd::utf8::encode_utf8;
use crate::text::{
    char_lower_head, chars_eq, chars_of, contains_chars, ends_with, has_infix, has_prefix,
    has_suffix, lowercase_chars, lowercase_of, slice_chars, starts_with, std_char_lower_head,
    string_views,
};

verus! {

/// Search criteria.
#[derive(Clone, Debug)]
pub struct SearchQuery {
    pub root: String,
    pub pattern: String,
    pub case_sensitive: bool,
    pub fuzzy: bool,
    pub content_search: bool,
}

/// What the fuzzy matcher observed when every pattern character was found,
/// in order, in the text; the score is computed from these.
#[derive(Clone, Copy, Debug, PartialEq, Eq, Structural)]
pub struct FuzzyStats {
    /// Length of the run of matches that ends the scan.
    pub consecutive: usize,
    /// The first pattern character matched the first text character.
    pub starts_at_zero: bool,
    /// Byte length of the pattern.
    pub pattern_bytes: usize,
    /// Byte length of the text.
    pub text_bytes: usize,
}

/// The scan of `text` from position `t` with `p` pattern characters
/// matched: characters are compared by the first character of their lower
/// case; a mismatch resets the run of consecutive matches.  Returns the
/// number matched, the final run length, and the first matched position.
pub open spec fn fuzzy_scan(
    pat: Seq<char>,
    text: Seq<char>,
    p: int,
    t: int,
    run: int,
    first: Option<int>,
) -> (int, int, Option<int>)
    decreases text.len() - t,
{
    if 0 <= p < pat.len() && 0 <= t < text.len() {
        if char_lower_head(pat[p]) == char_lower_head(text[t]) {
            fuzzy_scan(
                pat,
                text,
                p + 1,
                t + 1,
                run + 1,
                if first is None {
                    Some(t)
                } else {
                    first
                },
            )
        } else {
            fuzzy_scan(pat, text, p, t + 1, 0, first)
        }
    } else {
        (p, run, first)
    }
}

/// The fuzzy match of a pattern in a text, if every pattern character is
/// found in order.
pub open spec fn fuzzy_spec(pat: Seq<char>, text: Seq<char>) -> Option<FuzzyStats> {
    let (p, run, first) = fuzzy_scan(pat, text, 0, 0, 0, None);
    if p < pat.len() {
        None
    } else {
        Some(
            FuzzyStats {
                consecutive: run as usize,
                starts_at_zero: first == Some(0int),
                pattern_bytes: encode_utf8(pat).len() as usize,
                text_bytes: encode_utf8(text).len() as usize,
            },
        )
    }
}

proof fn lemma_fuzzy_scan_bounds(pat: Seq<char>, text: Seq<char>, p: int, t: int, run: int, first: Option<int>)
    requires
        0 <= p <= t <= text.len(),
    ensures
        fuzzy_scan(pat, text, p, t, run, first).0 <= text.len(),
    decreases text.len() - t,
{
    if p < pat.len() && t < text.len() {
        if char_lower_head(pat[p]) == char_lower_head(text[t]) {
            lemma_fuzzy_scan_bounds(pat, text, p + 1, t + 1, run + 1, if first is None { Some(t) } else { first });
        } else {
            lemma_fuzzy_scan_bounds(pat, text, p, t + 1, 0, first);
        }
    }
}

proof fn lemma_fuzzy_scan_self(text: Seq<char>, p: int, run: int, first: Option<int>)
    requires
        0 <= p <= text.len(),
    ensures
        fuzzy_scan(text, text, p, p, run, first).0 == text.len(),
    decreases text.len() - p,
{
    if p < text.len() {
        lemma_fuzzy_scan_self(text, p + 1, run + 1, if first is None { Some(p) } else { first });
    }
}

/// Every text matches itself fuzzily.
pub proof fn law_fuzzy_matches_itself(text: Seq<char>)
    ensures
        fuzzy_spec(text, text) is Some,
{
    lemma_fuzzy_scan_self(text, 0, 0, None);
}

/// The empty pattern matches every text fuzzily.
pub proof fn law_fuzzy_empty_pattern(text: Seq<char>)
    ensures
        fuzzy_spec(Seq::<char>::empty(), text) is Some,
{
}

/// A pattern with more characters than the text never matches it.
pub proof fn law_fuzzy_longer_pattern(pat: Seq<char>, text: Seq<char>)
    requires
        pat.len() > text.len(),
    ensures
        fuzzy_spec(pat, text) is None,
{
    lemma_fuzzy_scan_bounds(pat, text, 0, 0, 0, None);
}

/// The characters of `pat` from `p` on appear, in order and comparing
/// the first character of their lower case, among those of `text` from
/// `t` on.
pub open spec fn folded_subsequence(pat: Seq<char>, text: Seq<char>, p: int, t: int) -> bool
    decreases text.len() - t,
{
    if p >= pat.len() {
        true
    } else if t < 0 || t >= text.len() {
        false
    } else {
        (char_lower_head(pat[p]) == char_lower_head(text[t]) && folded_subsequence(
            pat,
            text,
            p + 1,
            t + 1,
        )) || folded_subsequence(pat, text, p, t + 1)
    }
}

proof fn lemma_subsequence_drop_pattern(pat: Seq<char>, text: Seq<char>, p: int, t: int)
    requires
        0 <= p < pat.len(),
        folded_subsequence(pat, text, p, t),
    ensures
        folded_subsequence(pat, text, p + 1, t),
    decreases text.len() - t,
{
    if p + 1 < pat.len() && 0 <= t < text.len() {
        if char_lower_head(pat[p]) == char_lower_head(text[t]) && folded_subsequence(
            pat,
            text,
            p + 1,
            t + 1,
        ) {
            lemma_subsequence_drop_pattern(pat, text, p + 1, t + 1);
        } else {
            lemma_subsequence_drop_pattern(pat, text, p, t + 1);
        }
    }
}

proof fn lemma_fuzzy_scan_greedy(
    pat: Seq<char>,
    text: Seq<char>,
    p: int,
    t: int,
    run: int,
    first: Option<int>,
)
    requires
        0 <= p <= pat.len(),
        0 <= t <= text.len(),
    ensures
        (fuzzy_scan(pat, text, p, t, run, first).0 >= pat.len()) == folded_subsequence(
            pat,
            text,
            p,
            t,
        ),
        fuzzy_scan(pat, text, p, t, run, first).0 <= pat.len(),
    decreases text.len() - t,
{
    if p < pat.len() && t < text.len() {
        if char_lower_head(pat[p]) == char_lower_head(text[t]) {
            lemma_fuzzy_scan_greedy(pat, text, p + 1, t + 1, run + 1, if first is None { Some(t) } else { first });
            if folded_subsequence(pat, text, p, t + 1) {
                lemma_subsequence_drop_pattern(pat, text, p, t + 1);
            }
        } else {
            lemma_fuzzy_scan_greedy(pat, text, p, t + 1, 0, first);
        }
    }
}

/// A pattern matches a text fuzzily exactly when its characters appear in
/// the text in order, ignoring case.
pub proof fn law_fuzzy_is_subsequence(pat: Seq<char>, text: Seq<char>)
    ensures
        fuzzy_spec(pat, text) is Some <==> folded_subsequence(pat, text, 0, 0),
{
    lemma_fuzzy_scan_greedy(pat, text, 0, 0, 0, None);
}

/// Match a pattern against a text the way the fuzzy search does: each
/// pattern character must be found, in order, ignoring case.
pub fn fuzzy_match(pattern: &str, text: &str) -> (r: Option<FuzzyStats>)
    ensures
        r == fuzzy_spec(pattern@, text@),
{
    let pc = chars_of(pattern);
    let tc = chars_of(text);
    let mut p: usize = 0;
    let mut t: usize = 0;
    let mut run: usize = 0;
    let mut first: Option<usize> = None;
    while p < pc.len() && t < tc.len()
        invariant
            0 <= p <= t <= tc.len(),
            p <= pc.len(),
            run <= t,
            first matches Some(f) ==> f < t,
            fuzzy_scan(pattern@, text@, 0, 0, 0, None) == fuzzy_scan(
                pattern@,
                text@,
                p as int,
                t as int,
                run as int,
                match first {
                    Some(f) => Some(f as int),
                    None => None,
                },
            ),
            pc@ == pattern@,
            tc@ == text@,
        decreases tc.len() - t,
    {
        if std_char_lower_head(pc[p]) == std_char_lower_head(tc[t]) {
            if first.is_none() {
                first = Some(t);
            }
            p += 1;
            run += 1;
        } else {
            run = 0;
        }
        t += 1;
    }
    if p < pc.len() {
        None
    } else {
        let pb = pattern.len();
        let tb = text.len();
        Some(
            FuzzyStats {
                consecutive: run,
                starts_at_zero: match first {
                    Some(f) => f == 0,
                    None => false,
                },
                pattern_bytes: pb,
                text_bytes: tb,
            },
        )
    }
}

/// `s` without its leading `c`s.
pub open spec fn strip_start_char(s: Seq<char>, c: char) -> Seq<char>
    decreases s.len(),
{
    if s.len() > 0 && s[0] == c {
        strip_start_char(s.drop_first(), c)
    } else {
        s
    }
}

/// `s` without its trailing `c`s.
pub open spec fn strip_end_char(s: Seq<char>, c: char) -> Seq<char>
    decreases s.len(),
{
    if s.len() > 0 && s.last() == c {
        strip_end_char(s.drop_last(), c)
    } else {
        s
    }
}

/// std `str::trim_matches` with a character.
pub open spec fn trim_char(s: Seq<char>, c: char) -> Seq<char> {
    strip_end_char(strip_start_char(s, c), c)
}

proof fn lemma_strip_start_is(s: Seq<char>, c: char, i: int)
    requires
        0 <= i <= s.len(),
        forall|k: int| 0 <= k < i ==> s[k] == c,
        i == s.len() || s[i] != c,
    ensures
        strip_start_char(s, c) == s.skip(i),
    decreases i,
{
    if i > 0 {
        lemma_strip_start_is(s.drop_first(), c, i - 1);
        assert(s.drop_first().skip(i - 1) =~= s.skip(i));
    } else {
        assert(s.skip(0) =~= s);
    }
}

proof fn lemma_strip_end_is(s: Seq<char>, c: char, j: int)
    requires
        0 <= j <= s.len(),
        forall|k: int| j <= k < s.len() ==> s[k] == c,
        j == 0 || s[j - 1] != c,
    ensures
        strip_end_char(s, c) == s.take(j),
    decreases s.len() - j,
{
    if j < s.len() {
        lemma_strip_end_is(s.drop_last(), c, j);
        assert(s.drop_last().take(j) =~= s.take(j));
    } else {
        assert(s.take(j) =~= s);
    }
}

fn trim_char_exec(s: &Vec<char>, c: char) -> (r: Vec<char>)
    ensures
        r@ == trim_char(s@, c),
{
    let mut i: usize = 0;
    while i < s.len() && s[i] == c
        invariant
            i <= s.len(),
            forall|k: int| 0 <= k < i ==> s@[k] == c,
        decreases s.len() - i,
    {
        i += 1;
    }
    let mut j: usize = s.len();
    while j > i && s[j - 1] == c
        invariant
            i <= j <= s.len(),
            forall|k: int| j <= k < s.len() ==> s@[k] == c,
        decreases j,
    {
        j -= 1;
    }
    proof {
        lemma_strip_start_is(s@, c, i as int);
        let t = s@.skip(i as int);
        lemma_strip_end_is(t, c, j - i);
        assert(t.take(j - i) =~= s@.subrange(i as int, j as int));
    }
    slice_chars(s, i, j)
}

/// Whether a (case-adjusted) name matches a (case-adjusted) pattern:
/// fuzzily; or as `*text*`, `*suffix`, `prefix*`; or else exactly when the
/// search is case-sensitive and by containment when it is not.
pub open spec fn pattern_matches(pat: Seq<char>, name: Seq<char>, case_sensitive: bool, fuzzy: bool) -> bool {
    if fuzzy {
        fuzzy_spec(pat, name) is Some
    } else if has_prefix(pat, seq!['*']) && has_suffix(pat, seq!['*']) {
        has_infix(name, trim_char(pat, '*'))
    } else if has_prefix(pat, seq!['*']) {
        has_suffix(name, pat.skip(1))
    } else if has_suffix(pat, seq!['*']) {
        has_prefix(name, pat.take(pat.len() - 1))
    } else if case_sensitive {
        name == pat
    } else {
        has_infix(name, pat)
    }
}

/// Whether a file name matches a search query.
pub open spec fn query_matches_spec(q: SearchQuery, name: Seq<char>) -> bool {
    if q.case_sensitive {
        pattern_matches(q.pattern@, name, true, q.fuzzy)
    } else {
        pattern_matches(lowercase_of(q.pattern@), lowercase_of(name), false, q.fuzzy)
    }
}

/// The pattern and the name as a query compares them: unchanged when the
/// search is case-sensitive, lower-cased when it is not.
pub open spec fn adjusted(q: SearchQuery, text: Seq<char>) -> Seq<char> {
    if q.case_sensitive {
        text
    } else {
        lowercase_of(text)
    }
}

/// How a non-fuzzy query matches a name, after case adjustment:
/// `prefix*` matches names that start with `prefix`; `*suffix` names that
/// end with `suffix`; `*text*` (no other `*`) names that contain `text`;
/// `*` every name; a pattern with no `*` at either end matches the name
/// equal to it when the search is case-sensitive and the names containing
/// it when it is not.
pub proof fn law_query_pattern_forms(q: SearchQuery, name: Seq<char>)
    requires
        !q.fuzzy,
    ensures
        ({
            let p = adjusted(q, q.pattern@);
            let n = adjusted(q, name);
            &&& p.len() > 0 && p[0] != '*' && p.last() == '*' ==> (query_matches_spec(q, name) <==> (
            p.len() - 1 <= n.len() && forall|k: int| 0 <= k < p.len() - 1 ==> n[k] == p[k]))
            &&& p.len() > 0 && p[0] == '*' && p.last() != '*' ==> (query_matches_spec(q, name) <==> (
            p.len() - 1 <= n.len() && forall|k: int|
                1 <= k < p.len() ==> #[trigger] n[n.len() - p.len() + k] == p[k]))
            &&& p.len() >= 2 && p[0] == '*' && p.last() == '*' && (forall|k: int|
                1 <= k < p.len() - 1 ==> p[k] != '*') ==> (query_matches_spec(q, name) <==> exists|i: int|
                0 <= i && i + p.len() - 2 <= n.len() && #[trigger] n.subrange(i, i + p.len() - 2)
                    == p.subrange(1, p.len() - 1))
            &&& p == seq!['*'] ==> query_matches_spec(q, name)
            &&& (p.len() == 0 || (p[0] != '*' && p.last() != '*')) && q.case_sensitive ==> (
            query_matches_spec(q, name) <==> n == p)
            &&& (p.len() == 0 || (p[0] != '*' && p.last() != '*')) && !q.case_sensitive ==> (
            query_matches_spec(q, name) <==> exists|i: int|
                0 <= i && i + p.len() <= n.len() && #[trigger] n.subrange(i, i + p.len()) == p)
        }),
{
    let p = adjusted(q, q.pattern@);
    let n = adjusted(q, name);
    assert(query_matches_spec(q, name) == pattern_matches(p, n, q.case_sensitive, false));
    if p.len() > 0 {
        assert(p.take(1) =~= seq![p[0]]);
        assert(p.skip(p.len() - 1) =~= seq![p.last()]);
        if p[0] == '*' {
            assert(p.take(1) =~= seq!['*']);
        }
        if p.take(1) == seq!['*'] {
            assert(p.take(1)[0] == '*');
        }
        if p.last() == '*' {
            assert(p.skip(p.len() - 1) =~= seq!['*']);
        }
        if p.skip(p.len() - 1) == seq!['*'] {
            assert(p.skip(p.len() - 1)[0] == '*');
        }
    }
    assert(has_prefix(p, seq!['*']) <==> p.len() > 0 && p[0] == '*');
    assert(has_suffix(p, seq!['*']) <==> p.len() > 0 && p.last() == '*');
    if p.len() > 0 && p[0] != '*' && p.last() == '*' {
        let h = p.take(p.len() - 1);
        if p.len() - 1 <= n.len() {
            let m = h.len() as int;
            if n.take(m) == h {
                assert forall|k: int| 0 <= k < p.len() - 1 implies n[k] == p[k] by {
                    assert(n.take(m)[k] == h[k]);
                }
            }
            if forall|k: int| 0 <= k < p.len() - 1 ==> n[k] == p[k] {
                assert(n.take(m) =~= h);
            }
        }
    }
    if p.len() > 0 && p[0] == '*' && p.last() != '*' {
        let t = p.skip(1);
        if p.len() - 1 <= n.len() {
            let tail = n.skip(n.len() - t.len());
            if tail == t {
                assert forall|k: int| 1 <= k < p.len() implies #[trigger] n[n.len() - p.len() + k] == p[k] by {
                    assert(tail[k - 1] == t[k - 1]);
                }
            }
            if forall|k: int| 1 <= k < p.len() ==> #[trigger] n[n.len() - p.len() + k] == p[k] {
                assert forall|k: int| 0 <= k < t.len() implies tail[k] == t[k] by {
                    assert(n[n.len() - p.len() + (k + 1)] == p[k + 1]);
                }
                assert(tail =~= t);
            }
        }
    }
    if p.len() >= 2 && p[0] == '*' && p.last() == '*' && (forall|k: int| 1 <= k < p.len() - 1 ==> p[k] != '*') {
        let core = p.subrange(1, p.len() - 1);
        if p.len() == 2 {
            lemma_strip_start_is(p, '*', 2);
            assert(p.skip(2) =~= core);
            assert(strip_end_char(core, '*') == core);
        } else {
            lemma_strip_start_is(p, '*', 1);
            let t = p.skip(1);
            lemma_strip_end_is(t, '*', p.len() - 2);
            assert(t.take(p.len() - 2) =~= core);
        }
        assert(trim_char(p, '*') == core);
        if has_infix(n, core) {
            let i = choose|i: int| crate::text::occurs_at(n, core, i);
            assert(n.subrange(i, i + p.len() - 2) == p.subrange(1, p.len() - 1));
        }
        if exists|i: int|
            0 <= i && i + p.len() - 2 <= n.len() && #[trigger] n.subrange(i, i + p.len() - 2) == p.subrange(
                1,
                p.len() - 1,
            ) {
            let i = choose|i: int|
                0 <= i && i + p.len() - 2 <= n.len() && #[trigger] n.subrange(i, i + p.len() - 2)
                    == p.subrange(1, p.len() - 1);
            assert(crate::text::occurs_at(n, core, i));
        }
    }
    if p == seq!['*'] {
        lemma_strip_start_is(p, '*', 1);
        assert(p.skip(1) =~= Seq::<char>::empty());
        assert(trim_char(p, '*') =~= Seq::<char>::empty());
        assert(n.subrange(0, 0) =~= Seq::<char>::empty());
        assert(crate::text::occurs_at(n, Seq::<char>::empty(), 0));
    }
    if (p.len() == 0 || (p[0] != '*' && p.last() != '*')) && !q.case_sensitive {
        if has_infix(n, p) {
            let i = choose|i: int| crate::text::occurs_at(n, p, i);
            assert(n.subrange(i, i + p.len()) == p);
        }
        if exists|i: int| 0 <= i && i + p.len() <= n.len() && #[trigger] n.subrange(i, i + p.len()) == p {
            let i = choose|i: int| 0 <= i && i + p.len() <= n.len() && #[trigger] n.subrange(i, i + p.len()) == p;
            assert(crate::text::occurs_at(n, p, i));
        }
    }
}

fn pattern_matches_exec(pat: &Vec<char>, name: &Vec<char>, case_sensitive: bool, fuzzy: bool) -> (r: bool)
    ensures
        r == pattern_matches(pat@, name@, case_sensitive, fuzzy),
{
    let star = vec!['*'];
    assert(star@ =~= seq!['*']);
    if fuzzy {
        let ps = crate::text::string_of(pat);
        let ns = crate::text::string_of(name);
        fuzzy_match(ps.as_str(), ns.as_str()).is_some()
    } else if starts_with(pat, &star) && ends_with(pat, &star) {
        contains_chars(name, &trim_char_exec(pat, '*'))
    } else if starts_with(pat, &star) {
        let tail = slice_chars(pat, 1, pat.len());
        assert(tail@ =~= pat@.skip(1));
        ends_with(name, &tail)
    } else if ends_with(pat, &star) {
        let head = slice_chars(pat, 0, pat.len() - 1);
        assert(head@ =~= pat@.take(pat.len() - 1));
        starts_with(name, &head)
    } else if case_sensitive {
        chars_eq(name, pat)
    } else {
        contains_chars(name, pat)
    }
}

/// Whether a file name matches a search query.
pub fn matches_query(query: &SearchQuery, name: &str) -> (r: bool)
    ensures
        r == query_matches_spec(*query, name@),
{
    if query.case_sensitive {
        pattern_matches_exec(&chars_of(query.pattern.as_str()), &chars_of(name), true, query.fuzzy)
    } else {
        let pat = lowercase_chars(&chars_of(query.pattern.as_str()));
        let low = lowercase_chars(&chars_of(name));
        pattern_matches_exec(&pat, &low, false, query.fuzzy)
    }
}


/// A recursive name search in progress: the directories still to read,
/// the last one found read first, and the paths matched so far, in the
/// order they were visited.
pub struct SearchWalk {
    pending: Vec<String>,
    found: Vec<String>,
}

impl SearchWalk {
    /// The directories still to read; the last is read next.
    pub closed spec fn pending(&self) -> Seq<Seq<char>> {
        string_views(self.pending@)
    }

    /// The paths matched so far.
    pub closed spec fn found(&self) -> Seq<Seq<char>> {
        string_views(self.found@)
    }

    /// A search that starts by reading `root`.
    pub fn new(root: String) -> (r: Self)
        ensures
            r.pending() == seq![root@],
            r.found() == Seq::<Seq<char>>::empty(),
    {
        let mut pending: Vec<String> = Vec::new();
        pending.push(root);
        let r = SearchWalk { pending, found: Vec::new() };
        assert(r.pending() =~= seq![root@]);
        assert(r.found() =~= Seq::<Seq<char>>::empty());
        r
    }

    /// The next directory to read, taken off the pending list; `None` when
    /// the search is done.
    pub fn next_dir(&mut self) -> (r: Option<String>)
        ensures
            final(self).found() == old(self).found(),
            old(self).pending().len() == 0 ==> r is None && final(self).pending() == old(self).pending(),
            old(self).pending().len() > 0 ==> (r matches Some(d) && d@ == old(self).pending().last()
                && final(self).pending() == old(self).pending().drop_last()),
    {
        let r = self.pending.pop();
        assert(self.pending() =~= old(self).pending().take(self.pending@.len() as int));
        proof {
            if old(self).pending().len() > 0 {
                assert(self.pending() =~= old(self).pending().drop_last());
            }
        }
        r
    }

    /// Visit one entry of the directory being read: its path is a match
    /// when its name matches the query, and a directory is read later.
    pub fn visit(&mut self, query: &SearchQuery, name: &str, path: String, is_dir: bool)
        ensures
            final(self).found() == (if query_matches_spec(*query, name@) {
                old(self).found().push(path@)
            } else {
                old(self).found()
            }),
            final(self).pending() == (if is_dir {
                old(self).pending().push(path@)
            } else {
                old(self).pending()
            }),
    {
        if matches_query(query, name) {
            self.found.push(path.clone());
        }
        if is_dir {
            self.pending.push(path);
        }
        assert(self.found() =~= (if query_matches_spec(*query, name@) {
            old(self).found().push(path@)
        } else {
            old(self).found()
        }));
        assert(self.pending() =~= (if is_dir {
            old(self).pending().push(path@)
        } else {
            old(self).pending()
        }));
    }

    /// The paths matched, in the order they were visited.
    pub fn into_found(self) -> (r: Vec<String>)
        ensures
            string_views(r@) == self.found(),
    {
        self.found
    }
}

} // verus!
