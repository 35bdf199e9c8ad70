//! Character-level string operations with exact specifications.

use vstd::prelude::*;

verus! {

/// Appends one character to a `String` (std `String::push`).
#[verifier::external_body]
pub(crate) fn push_char(s: &mut String, c: char)
    ensures
        final(s)@ == old(s)@.push(c),
{
    s.push(c);
}

/// The characters of a string slice, in order.
pub fn chars_of(s: &str) -> (v: Vec<char>)
    ensures
        v@ == s@,
{
    let mut v: Vec<char> = Vec::new();
    for c in it: s.chars()
        invariant
            v@ == it.seq().take(it.index()),
    {
        v.push(c);
    }
    v
}

/// A `String` holding exactly the given characters.
pub fn string_of(v: &Vec<char>) -> (s: String)
    ensures
        s@ == v@,
{
    let mut s = String::new();
    let mut i: usize = 0;
    while i < v.len()
        invariant
            i <= v.len(),
            s@ == v@.take(i as int),
        decreases v.len() - i,
    {
        push_char(&mut s, v[i]);
        assert(v@.take(i as int).push(v@[i as int]) =~= v@.take(i + 1));
        i += 1;
    }
    assert(v@.take(v.len() as int) =~= v@);
    s
}

} // verus!

verus! {

// ---------------------------------------------------------------------
// Specifications
// ---------------------------------------------------------------------

/// `p` is a prefix of `s`.
pub open spec fn has_prefix<A>(s: Seq<A>, p: Seq<A>) -> bool {
    p.len() <= s.len() && s.take(p.len() as int) == p
}

/// `p` is a suffix of `s`.
pub open spec fn has_suffix<A>(s: Seq<A>, p: Seq<A>) -> bool {
    p.len() <= s.len() && s.skip(s.len() - p.len()) == p
}

/// `p` occurs in `s` starting at position `i`.
pub open spec fn occurs_at<A>(s: Seq<A>, p: Seq<A>, i: int) -> bool {
    0 <= i && i + p.len() <= s.len() && s.subrange(i, i + p.len()) == p
}

/// `p` occurs somewhere in `s`.
pub open spec fn has_infix<A>(s: Seq<A>, p: Seq<A>) -> bool {
    exists|i: int| occurs_at(s, p, i)
}

/// Position of the first `c` in `s`, or `s.len()` when there is none.
pub open spec fn elem_pos<A>(s: Seq<A>, c: A) -> int
    decreases s.len(),
{
    if s.len() == 0 {
        0
    } else if s[0] == c {
        0
    } else {
        1 + elem_pos(s.drop_first(), c)
    }
}

/// Position of the last `c` in `s`, if any.
pub open spec fn last_elem_pos<A>(s: Seq<A>, c: A) -> Option<int>
    decreases s.len(),
{
    if s.len() == 0 {
        None
    } else if s.last() == c {
        Some(s.len() - 1)
    } else {
        last_elem_pos(s.drop_last(), c)
    }
}

/// First position at or after `k` where `p` occurs in `s`.
pub open spec fn infix_pos_from<A>(s: Seq<A>, p: Seq<A>, k: int) -> Option<int>
    decreases s.len() + 1 - k,
{
    if k < 0 || k + p.len() > s.len() {
        None
    } else if s.subrange(k, k + p.len()) == p {
        Some(k)
    } else {
        infix_pos_from(s, p, k + 1)
    }
}

/// First position where `p` occurs in `s` (std `str::find`).
pub open spec fn infix_pos<A>(s: Seq<A>, p: Seq<A>) -> Option<int> {
    infix_pos_from(s, p, 0)
}

/// Unicode `White_Space` (the set `char::is_whitespace` accepts).
pub open spec fn is_white(c: char) -> bool {
    ||| '\u{9}' <= c <= '\u{d}'
    ||| c == ' '
    ||| c == '\u{85}'
    ||| c == '\u{a0}'
    ||| c == '\u{1680}'
    ||| '\u{2000}' <= c <= '\u{200a}'
    ||| c == '\u{2028}'
    ||| c == '\u{2029}'
    ||| c == '\u{202f}'
    ||| c == '\u{205f}'
    ||| c == '\u{3000}'
}

/// `s` without its leading white space.
pub open spec fn trim_start(s: Seq<char>) -> Seq<char>
    decreases s.len(),
{
    if s.len() > 0 && is_white(s[0]) {
        trim_start(s.drop_first())
    } else {
        s
    }
}

/// `s` without its trailing white space.
pub open spec fn trim_end(s: Seq<char>) -> Seq<char>
    decreases s.len(),
{
    if s.len() > 0 && is_white(s.last()) {
        trim_end(s.drop_last())
    } else {
        s
    }
}

/// `s` without leading and trailing white space (std `str::trim`).
pub open spec fn trim(s: Seq<char>) -> Seq<char> {
    trim_end(trim_start(s))
}

/// One line as `str::lines` yields it: a `\r` before the `\n` is dropped.
pub open spec fn strip_cr(l: Seq<char>) -> Seq<char> {
    if l.len() > 0 && l.last() == '\r' {
        l.drop_last()
    } else {
        l
    }
}

/// The lines of `s` as std `str::lines` yields them.
pub open spec fn lines(s: Seq<char>) -> Seq<Seq<char>>
    decreases s.len(),
{
    if s.len() == 0 {
        seq![]
    } else {
        let i = elem_pos(s, '\n');
        proof {
            lemma_elem_pos_bounds(s, '\n');
        }
        if i >= s.len() {
            seq![s]
        } else {
            seq![strip_cr(s.take(i))] + lines(s.skip(i + 1))
        }
    }
}

/// The pieces of `s` between occurrences of `c` (std `str::split` on a char).
pub open spec fn split_on(s: Seq<char>, c: char) -> Seq<Seq<char>>
    decreases s.len(),
{
    let i = elem_pos(s, c);
    proof {
        lemma_elem_pos_bounds(s, c);
    }
    if i >= s.len() {
        seq![s]
    } else {
        seq![s.take(i)] + split_on(s.skip(i + 1), c)
    }
}

/// `s` cut at its first `c` (std `str::split_once` on a char).
pub open spec fn split_once(s: Seq<char>, c: char) -> Option<(Seq<char>, Seq<char>)> {
    let i = elem_pos(s, c);
    if i < s.len() {
        Some((s.take(i), s.skip(i + 1)))
    } else {
        None
    }
}

/// Every occurrence of the non-empty `p` in `s`, scanning left to right,
/// replaced by `r` (std `str::replace`).
pub open spec fn replace_all(s: Seq<char>, p: Seq<char>, r: Seq<char>) -> Seq<char>
    decreases s.len(),
{
    if p.len() == 0 {
        s
    } else {
        match infix_pos(s, p) {
            Some(i) => {
                proof {
                    lemma_infix_pos_from_bounds(s, p, 0);
                }
                s.take(i) + r + replace_all(s.skip(i + p.len()), p, r)
            },
            None => s,
        }
    }
}

/// Lexicographic comparison by code point: negative, zero or positive.
pub open spec fn lex_order(a: Seq<char>, b: Seq<char>) -> int
    decreases a.len(),
{
    if a.len() == 0 {
        if b.len() == 0 {
            0
        } else {
            -1
        }
    } else if b.len() == 0 {
        1
    } else if a[0] < b[0] {
        -1
    } else if a[0] > b[0] {
        1
    } else {
        lex_order(a.drop_first(), b.drop_first())
    }
}

/// The views of a sequence of character vectors.
pub open spec fn views(v: Seq<Vec<char>>) -> Seq<Seq<char>> {
    v.map_values(|l: Vec<char>| l@)
}

/// The views of a sequence of strings.
pub open spec fn string_views(v: Seq<String>) -> Seq<Seq<char>> {
    v.map_values(|l: String| l@)
}

// ---------------------------------------------------------------------
// Lemmas
// ---------------------------------------------------------------------

pub proof fn lemma_elem_pos_bounds<A>(s: Seq<A>, c: A)
    ensures
        0 <= elem_pos(s, c) <= s.len(),
        elem_pos(s, c) < s.len() ==> s[elem_pos(s, c)] == c,
        forall|j: int| 0 <= j < elem_pos(s, c) ==> s[j] != c,
    decreases s.len(),
{
    if s.len() > 0 && s[0] != c {
        lemma_elem_pos_bounds(s.drop_first(), c);
        assert forall|j: int| 0 <= j < elem_pos(s, c) implies s[j] != c by {
            if j > 0 {
                assert(s[j] == s.drop_first()[j - 1]);
            }
        }
    }
}

pub proof fn lemma_elem_pos_is<A>(s: Seq<A>, c: A, i: int)
    requires
        0 <= i <= s.len(),
        forall|j: int| 0 <= j < i ==> s[j] != c,
        i == s.len() || s[i] == c,
    ensures
        elem_pos(s, c) == i,
    decreases i,
{
    if i > 0 {
        lemma_elem_pos_is(s.drop_first(), c, i - 1);
    }
}

pub proof fn lemma_last_elem_pos_is<A>(s: Seq<A>, c: A, i: int)
    requires
        -1 <= i < s.len(),
        forall|j: int| i < j < s.len() ==> s[j] != c,
        i == -1 || s[i] == c,
    ensures
        last_elem_pos(s, c) == (if i == -1 { None } else { Some(i) }),
    decreases s.len(),
{
    if s.len() > 0 && i < s.len() - 1 {
        lemma_last_elem_pos_is(s.drop_last(), c, i);
    }
}

pub proof fn lemma_infix_pos_from_bounds<A>(s: Seq<A>, p: Seq<A>, k: int)
    ensures
        infix_pos_from(s, p, k) matches Some(i) ==> k <= i && i + p.len() <= s.len()
            && occurs_at(s, p, i),
    decreases s.len() + 1 - k,
{
    if !(k < 0 || k + p.len() > s.len()) && s.subrange(k, k + p.len()) != p {
        lemma_infix_pos_from_bounds(s, p, k + 1);
    }
}

/// Searching from `k` in a suffix equals searching further on in the whole.
pub proof fn lemma_infix_pos_from_skip<A>(s: Seq<A>, p: Seq<A>, a: int, k: int)
    requires
        0 <= a <= s.len(),
        0 <= k,
    ensures
        infix_pos_from(s.skip(a), p, k) == (match infix_pos_from(s, p, k + a) {
            Some(i) => Some(i - a),
            None => None,
        }),
    decreases s.len() + 1 - (k + a),
{
    let t = s.skip(a);
    if k + p.len() > t.len() {
    } else {
        assert(t.subrange(k, k + p.len()) =~= s.subrange(k + a, k + a + p.len()));
        if t.subrange(k, k + p.len()) != p {
            lemma_infix_pos_from_skip(s, p, a, k + 1);
        }
    }
}

/// A search that found `i` after seeing no earlier match.
pub proof fn lemma_infix_pos_from_is<A>(s: Seq<A>, p: Seq<A>, k: int, i: Option<int>)
    requires
        0 <= k,
        forall|j: int| k <= j && (i matches Some(m) ==> j < m) ==> !occurs_at(s, p, j),
        i matches Some(m) ==> k <= m && occurs_at(s, p, m),
    ensures
        infix_pos_from(s, p, k) == i,
    decreases s.len() + 1 - k,
{
    if k + p.len() > s.len() {
        if let Some(m) = i {
            assert(false);
        }
    } else if s.subrange(k, k + p.len()) == p {
        assert(occurs_at(s, p, k));
        if let Some(m) = i {
            if k < m {
                assert(false);
            }
        }
    } else {
        if let Some(m) = i {
            assert(m != k);
        }
        lemma_infix_pos_from_is(s, p, k + 1, i);
    }
}

pub proof fn lemma_trim_start_is(s: Seq<char>, i: int)
    requires
        0 <= i <= s.len(),
        forall|k: int| 0 <= k < i ==> is_white(s[k]),
        i == s.len() || !is_white(s[i]),
    ensures
        trim_start(s) == s.skip(i),
    decreases i,
{
    if i > 0 {
        lemma_trim_start_is(s.drop_first(), i - 1);
        assert(s.drop_first().skip(i - 1) =~= s.skip(i));
    } else {
        assert(s.skip(0) =~= s);
    }
}

pub proof fn lemma_trim_end_is(s: Seq<char>, j: int)
    requires
        0 <= j <= s.len(),
        forall|k: int| j <= k < s.len() ==> is_white(s[k]),
        j == 0 || !is_white(s[j - 1]),
    ensures
        trim_end(s) == s.take(j),
    decreases s.len() - j,
{
    if j < s.len() {
        lemma_trim_end_is(s.drop_last(), j);
        assert(s.drop_last().take(j) =~= s.take(j));
    } else {
        assert(s.take(j) =~= s);
    }
}

} // verus!

verus! {

// ---------------------------------------------------------------------
// Executable operations
// ---------------------------------------------------------------------

/// What std `str::to_lowercase` returns for a string (Unicode lower case).
pub uninterp spec fn lowercase_of(s: Seq<char>) -> Seq<char>;

/// std `str::to_lowercase`: the Unicode lower case of `s`.  The contract
/// names the result and claims only that it depends on `s` alone.
#[verifier::external_body]
pub(crate) fn std_to_lowercase(s: &str) -> (r: String)
    ensures
        r@ == lowercase_of(s@),
{
    s.to_lowercase()
}

/// What std `char::to_lowercase` yields first for a character.
pub uninterp spec fn char_lower_head(c: char) -> Option<char>;

/// std `char::to_lowercase`, first character of the mapping.  The contract
/// names the result and claims only that it depends on `c` alone.
#[verifier::external_body]
pub(crate) fn std_char_lower_head(c: char) -> (r: Option<char>)
    ensures
        r == char_lower_head(c),
{
    c.to_lowercase().next()
}

/// Lower case of a character vector, as characters.
pub fn lowercase_chars(s: &Vec<char>) -> (r: Vec<char>)
    ensures
        r@ == lowercase_of(s@),
{
    let st = string_of(s);
    let low = std_to_lowercase(st.as_str());
    chars_of(low.as_str())
}

/// A copy of `s[a..b]`.
pub fn slice_chars(s: &Vec<char>, a: usize, b: usize) -> (r: Vec<char>)
    requires
        a <= b <= s.len(),
    ensures
        r@ == s@.subrange(a as int, b as int),
{
    let mut r: Vec<char> = Vec::new();
    let mut i = a;
    while i < b
        invariant
            a <= i <= b <= s.len(),
            r@ == s@.subrange(a as int, i as int),
        decreases b - i,
    {
        r.push(s[i]);
        assert(s@.subrange(a as int, i as int).push(s@[i as int]) =~= s@.subrange(
            a as int,
            i + 1,
        ));
        i += 1;
    }
    r
}

/// `a` and `b` hold the same characters.
pub fn chars_eq(a: &Vec<char>, b: &Vec<char>) -> (r: bool)
    ensures
        r == (a@ == b@),
{
    if a.len() != b.len() {
        return false;
    }
    let mut i: usize = 0;
    while i < a.len()
        invariant
            a.len() == b.len(),
            i <= a.len(),
            forall|k: int| 0 <= k < i ==> a@[k] == b@[k],
        decreases a.len() - i,
    {
        if a[i] != b[i] {
            return false;
        }
        i += 1;
    }
    assert(a@ =~= b@);
    true
}

/// `p` occurs in `s` at position `at`.
pub fn occurs_at_exec(s: &Vec<char>, p: &Vec<char>, at: usize) -> (r: bool)
    ensures
        r == occurs_at(s@, p@, at as int),
{
    if at > s.len() || p.len() > s.len() - at {
        return false;
    }
    let mut i: usize = 0;
    while i < p.len()
        invariant
            at + p.len() <= s.len(),
            i <= p.len(),
            forall|k: int| 0 <= k < i ==> s@[at + k] == p@[k],
        decreases p.len() - i,
    {
        if s[at + i] != p[i] {
            assert(s@.subrange(at as int, at + p.len())[i as int] != p@[i as int]);
            return false;
        }
        i += 1;
    }
    assert(s@.subrange(at as int, at + p.len()) =~= p@);
    true
}

/// std `str::starts_with`.
pub fn starts_with(s: &Vec<char>, p: &Vec<char>) -> (r: bool)
    ensures
        r == has_prefix(s@, p@),
{
    let r = occurs_at_exec(s, p, 0);
    assert(s@.subrange(0, p@.len() as int) =~= s@.take(p@.len() as int));
    r
}

/// std `str::ends_with`.
pub fn ends_with(s: &Vec<char>, p: &Vec<char>) -> (r: bool)
    ensures
        r == has_suffix(s@, p@),
{
    if p.len() > s.len() {
        return false;
    }
    let r = occurs_at_exec(s, p, s.len() - p.len());
    assert(s@.subrange(s.len() - p.len(), s.len() as int) =~= s@.skip(s.len() - p.len()));
    r
}

/// Position of the first `c` at or after `from`, or `s.len()`.
pub fn char_position(s: &Vec<char>, c: char, from: usize) -> (r: usize)
    requires
        from <= s.len(),
    ensures
        r == from + elem_pos(s@.skip(from as int), c),
        from <= r <= s.len(),
        r < s.len() ==> s@[r as int] == c,
{
    let mut i = from;
    while i < s.len() && s[i] != c
        invariant
            from <= i <= s.len(),
            forall|k: int| from <= k < i ==> s@[k] != c,
        decreases s.len() - i,
    {
        i += 1;
    }
    proof {
        lemma_elem_pos_is(s@.skip(from as int), c, i - from);
    }
    i
}

/// Position of the last `c` in `s` (std `str::rfind` on a char).
pub fn last_char_position(s: &Vec<char>, c: char) -> (r: Option<usize>)
    ensures
        r matches Some(i) ==> last_elem_pos(s@, c) == Some(i as int) && i < s.len() && s@[i as int]
            == c,
        r is None ==> last_elem_pos(s@, c) is None,
{
    let mut i = s.len();
    while i > 0
        invariant
            i <= s.len(),
            forall|k: int| i <= k < s.len() ==> s@[k] != c,
        decreases i,
    {
        if s[i - 1] == c {
            proof {
                lemma_last_elem_pos_is(s@, c, i - 1);
            }
            return Some(i - 1);
        }
        i -= 1;
    }
    proof {
        lemma_last_elem_pos_is(s@, c, -1);
    }
    None
}

/// First position at or after `from` where `p` occurs in `s`.
pub fn find_from(s: &Vec<char>, p: &Vec<char>, from: usize) -> (r: Option<usize>)
    ensures
        r matches Some(i) ==> infix_pos_from(s@, p@, from as int) == Some(i as int),
        r is None ==> infix_pos_from(s@, p@, from as int) is None,
{
    let mut i = from;
    while i < s.len()
        invariant
            from <= i,
            forall|j: int| from <= j < i ==> !occurs_at(s@, p@, j),
        decreases s.len() - i,
    {
        if occurs_at_exec(s, p, i) {
            proof {
                lemma_infix_pos_from_is(s@, p@, from as int, Some(i as int));
            }
            return Some(i);
        }
        i += 1;
    }
    if i == s.len() && occurs_at_exec(s, p, i) {
        proof {
            lemma_infix_pos_from_is(s@, p@, from as int, Some(i as int));
        }
        return Some(i);
    }
    proof {
        lemma_infix_pos_from_is(s@, p@, from as int, None);
    }
    None
}

/// std `str::contains` for a pattern string.
pub fn contains_chars(s: &Vec<char>, p: &Vec<char>) -> (r: bool)
    ensures
        r == has_infix(s@, p@),
{
    let r = find_from(s, p, 0);
    proof {
        lemma_infix_pos_from_bounds(s@, p@, 0);
        if r is None {
            assert forall|j: int| !occurs_at(s@, p@, j) by {
                if occurs_at(s@, p@, j) {
                    lemma_infix_pos_none(s@, p@, 0, j);
                }
            }
        }
    }
    r.is_some()
}

proof fn lemma_infix_pos_none<A>(s: Seq<A>, p: Seq<A>, k: int, j: int)
    requires
        0 <= k <= j,
        occurs_at(s, p, j),
    ensures
        infix_pos_from(s, p, k) is Some,
    decreases j - k,
{
    if s.subrange(k, k + p.len()) != p {
        lemma_infix_pos_none(s, p, k + 1, j);
    }
}

/// std `str::trim`.
pub fn trim_chars(s: &Vec<char>) -> (r: Vec<char>)
    ensures
        r@ == trim(s@),
{
    let mut i: usize = 0;
    while i < s.len() && is_white_exec(s[i])
        invariant
            i <= s.len(),
            forall|k: int| 0 <= k < i ==> is_white(s@[k]),
        decreases s.len() - i,
    {
        i += 1;
    }
    let mut j: usize = s.len();
    while j > i && is_white_exec(s[j - 1])
        invariant
            i <= j <= s.len(),
            forall|k: int| j <= k < s.len() ==> is_white(s@[k]),
        decreases j,
    {
        j -= 1;
    }
    proof {
        lemma_trim_start_is(s@, i as int);
        let t = s@.skip(i as int);
        lemma_trim_end_is(t, j - i);
        assert(t.take(j - i) =~= s@.subrange(i as int, j as int));
    }
    slice_chars(s, i, j)
}

/// `char::is_whitespace`.
pub fn is_white_exec(c: char) -> (r: bool)
    ensures
        r == is_white(c),
{
    ('\u{9}' <= c && c <= '\u{d}') || c == ' ' || c == '\u{85}' || c == '\u{a0}' || c
        == '\u{1680}' || ('\u{2000}' <= c && c <= '\u{200a}') || c == '\u{2028}' || c
        == '\u{2029}' || c == '\u{202f}' || c == '\u{205f}' || c == '\u{3000}'
}

/// The line that starts at `start`: its text and where the next line starts.
fn next_line(s: &Vec<char>, start: usize) -> (r: (Vec<char>, usize))
    requires
        start < s.len(),
    ensures
        start < r.1 <= s.len(),
        lines(s@.skip(start as int)) == seq![r.0@] + lines(s@.skip(r.1 as int)),
{
    let t = Ghost(s@.skip(start as int));
    let pos = char_position(s, '\n', start);
    if pos == s.len() {
        assert(lines(s@.skip(s.len() as int)) =~= seq![]);
        assert(s@.skip(s.len() as int) =~= Seq::<char>::empty());
        let line = slice_chars(s, start, s.len());
        assert(line@ =~= t@);
        assert(seq![line@] + Seq::<Seq<char>>::empty() =~= seq![line@]);
        (line, pos)
    } else {
        let mut end = pos;
        if end > start && s[end - 1] == '\r' {
            end = end - 1;
        }
        let line = slice_chars(s, start, end);
        assert(t@.take(pos - start) =~= s@.subrange(start as int, pos as int));
        assert(line@ =~= strip_cr(t@.take(pos - start)));
        assert(t@.skip(pos - start + 1) =~= s@.skip(pos + 1));
        (line, pos + 1)
    }
}

/// std `str::lines`.
pub fn lines_of(s: &Vec<char>) -> (r: Vec<Vec<char>>)
    ensures
        views(r@) == lines(s@),
{
    let mut out: Vec<Vec<char>> = Vec::new();
    let mut start: usize = 0;
    assert(s@.skip(0) =~= s@);
    while start < s.len()
        invariant
            start <= s.len(),
            lines(s@) == views(out@) + lines(s@.skip(start as int)),
        decreases s.len() - start,
    {
        let (line, next) = next_line(s, start);
        let ghost before = out@;
        out.push(line);
        assert(views(out@) =~= views(before) + seq![line@]);
        start = next;
    }
    assert(s@.skip(start as int) =~= Seq::<char>::empty());
    assert(views(out@) + Seq::<Seq<char>>::empty() =~= views(out@));
    out
}

/// std `str::split` on a character.
pub fn split_chars(s: &Vec<char>, c: char) -> (r: Vec<Vec<char>>)
    ensures
        views(r@) == split_on(s@, c),
{
    let mut out: Vec<Vec<char>> = Vec::new();
    let mut start: usize = 0;
    assert(s@.skip(0) =~= s@);
    loop
        invariant
            start <= s.len(),
            split_on(s@, c) == views(out@) + split_on(s@.skip(start as int), c),
        decreases s.len() - start,
    {
        let t = Ghost(s@.skip(start as int));
        let pos = char_position(s, c, start);
        let piece = slice_chars(s, start, pos);
        let ghost before = out@;
        out.push(piece);
        assert(views(out@) =~= views(before) + seq![piece@]);
        if pos == s.len() {
            assert(piece@ =~= t@);
            assert(views(before) + seq![piece@] =~= views(before) + split_on(t@, c));
            return out;
        }
        assert(t@.take(pos - start) =~= piece@);
        assert(t@.skip(pos - start + 1) =~= s@.skip(pos + 1));
        start = pos + 1;
    }
}

/// std `str::split_once` on a character.
pub fn split_once_chars(s: &Vec<char>, c: char) -> (r: Option<(Vec<char>, Vec<char>)>)
    ensures
        r matches Some(p) ==> split_once(s@, c) == Some((p.0@, p.1@)),
        r is None ==> split_once(s@, c) is None,
{
    assert(s@.skip(0) =~= s@);
    let pos = char_position(s, c, 0);
    if pos < s.len() {
        let a = slice_chars(s, 0, pos);
        let b = slice_chars(s, pos + 1, s.len());
        assert(a@ =~= s@.take(pos as int));
        assert(b@ =~= s@.skip(pos + 1));
        Some((a, b))
    } else {
        None
    }
}

/// std `str::replace` with a non-empty pattern.
pub fn replace_chars(s: &Vec<char>, p: &Vec<char>, r: &Vec<char>) -> (out: Vec<char>)
    requires
        p.len() > 0,
    ensures
        out@ == replace_all(s@, p@, r@),
{
    let mut out: Vec<char> = Vec::new();
    let mut start: usize = 0;
    assert(s@.skip(0) =~= s@);
    loop
        invariant
            p.len() > 0,
            start <= s.len(),
            replace_all(s@, p@, r@) == out@ + replace_all(s@.skip(start as int), p@, r@),
        decreases s.len() - start,
    {
        let t = Ghost(s@.skip(start as int));
        let found = find_from(s, p, start);
        proof {
            lemma_infix_pos_from_skip(s@, p@, start as int, 0);
            lemma_infix_pos_from_bounds(s@, p@, start as int);
        }
        match found {
            Some(i) => {
                let ghost before = out@;
                let mut k = start;
                while k < i
                    invariant
                        start <= k <= i <= s.len(),
                        out@ == before + s@.subrange(start as int, k as int),
                    decreases i - k,
                {
                    out.push(s[k]);
                    assert(before + s@.subrange(start as int, k + 1) =~= before + s@.subrange(
                        start as int,
                        k as int,
                    ).push(s@[k as int]));
                    k += 1;
                }
                let mut m: usize = 0;
                while m < r.len()
                    invariant
                        m <= r.len(),
                        out@ == before + s@.subrange(start as int, i as int) + r@.take(m as int),
                    decreases r.len() - m,
                {
                    out.push(r[m]);
                    assert(r@.take(m + 1) =~= r@.take(m as int).push(r@[m as int]));
                    m += 1;
                }
                assert(r@.take(r.len() as int) =~= r@);
                assert(t@.take(i - start) =~= s@.subrange(start as int, i as int));
                assert(t@.skip(i - start + p.len()) =~= s@.skip(i + p.len()));
                assert(out@ + replace_all(s@.skip(i + p.len()), p@, r@) =~= before + (t@.take(
                    i - start,
                ) + r@ + replace_all(t@.skip(i - start + p.len()), p@, r@)));
                start = i + p.len();
            },
            None => {
                let ghost before = out@;
                let mut k = start;
                while k < s.len()
                    invariant
                        start <= k <= s.len(),
                        out@ == before + s@.subrange(start as int, k as int),
                    decreases s.len() - k,
                {
                    out.push(s[k]);
                    assert(before + s@.subrange(start as int, k + 1) =~= before + s@.subrange(
                        start as int,
                        k as int,
                    ).push(s@[k as int]));
                    k += 1;
                }
                assert(s@.subrange(start as int, s.len() as int) =~= t@);
                return out;
            },
        }
    }
}

/// Lexicographic comparison by code point (std `Ord` for `str`).
pub fn lex_compare(a: &Vec<char>, b: &Vec<char>) -> (r: i8)
    ensures
        r as int == lex_order(a@, b@),
{
    let mut i: usize = 0;
    assert(a@.skip(0) =~= a@);
    assert(b@.skip(0) =~= b@);
    while i < a.len() && i < b.len()
        invariant
            i <= a.len(),
            i <= b.len(),
            lex_order(a@, b@) == lex_order(a@.skip(i as int), b@.skip(i as int)),
        decreases a.len() - i,
    {
        let ghost sa = a@.skip(i as int);
        let ghost sb = b@.skip(i as int);
        if a[i] < b[i] {
            return -1;
        }
        if a[i] > b[i] {
            return 1;
        }
        assert(sa.drop_first() =~= a@.skip(i + 1));
        assert(sb.drop_first() =~= b@.skip(i + 1));
        i += 1;
    }
    if a.len() == i && b.len() == i {
        0
    } else if a.len() == i {
        -1
    } else {
        1
    }
}

} // verus!

verus! {

/// `lex_order` is a total order: antisymmetric, transitive, and zero only on equal inputs.
pub proof fn lemma_lex_order_props(a: Seq<char>, b: Seq<char>)
    ensures
        -1 <= lex_order(a, b) <= 1,
        lex_order(a, b) == -lex_order(b, a),
        lex_order(a, b) == 0 <==> a == b,
    decreases a.len(),
{
    if a.len() > 0 && b.len() > 0 && a[0] == b[0] {
        lemma_lex_order_props(a.drop_first(), b.drop_first());
        if a.drop_first() == b.drop_first() {
            assert(a =~= seq![a[0]] + a.drop_first());
            assert(b =~= seq![b[0]] + b.drop_first());
        }
    }
    if a == b && a.len() > 0 {
        lemma_lex_order_props(a.drop_first(), b.drop_first());
    }
    if a.len() == 0 && b.len() == 0 {
        assert(a =~= b);
    }
}

pub proof fn lemma_lex_order_trans(a: Seq<char>, b: Seq<char>, c: Seq<char>)
    requires
        lex_order(a, b) <= 0,
        lex_order(b, c) <= 0,
    ensures
        lex_order(a, c) <= 0,
        lex_order(a, b) < 0 || lex_order(b, c) < 0 ==> lex_order(a, c) < 0,
    decreases a.len(),
{
    lemma_lex_order_props(a, b);
    lemma_lex_order_props(b, c);
    lemma_lex_order_props(a, c);
    if a.len() > 0 && b.len() > 0 && c.len() > 0 && a[0] == b[0] && b[0] == c[0] {
        lemma_lex_order_trans(a.drop_first(), b.drop_first(), c.drop_first());
    }
}

} // verus!
