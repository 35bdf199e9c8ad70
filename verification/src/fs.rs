//! Local file system provider: hidden-name rule, extension, sorting,
//! filtering and the assembly of a directory listing.

use vstd::prelude::*;
use crate::entry::{Entry, EntryType, ListDirRequest, ListDirResult, SortBy, SortDir};
use crate::paths::{file_name_of, parent_of, path_file_name, path_parent};
use crate::text::{
    chars_of, contains_chars, has_infix, last_char_position, last_elem_pos, lemma_lex_order_props,
    lemma_lex_order_trans, lex_compare, lex_order, lowercase_chars, lowercase_of, slice_chars,
    string_of,
};

verus! {

/// Errors that can occur during filesystem operations.
#[derive(Debug)]
pub enum FsError {
    PermissionDenied(String),
    NotFound(String),
    NotADirectory(String),
    Io(String),
    InvalidPath(String),
}

/// Local filesystem provider.
#[derive(Clone, Debug)]
pub struct LocalFsProvider {
    pub follow_symlinks: bool,
}

/// A name is hidden when it starts with `.`.
pub open spec fn is_hidden_spec(name: Seq<char>) -> bool {
    name.len() > 0 && name[0] == '.'
}

/// The lower-cased text after the last `.` of a name, or empty.
pub open spec fn ext_spec(name: Seq<char>) -> Seq<char> {
    match last_elem_pos(name, '.') {
        Some(i) => lowercase_of(name.skip(i + 1)),
        None => seq![],
    }
}

/// Rank of an entry type when sorting by type: directories first.
pub open spec fn type_rank(t: EntryType) -> int {
    match t {
        EntryType::Directory => 0,
        EntryType::Symlink => 1,
        EntryType::File => 2,
        EntryType::Unknown => 3,
    }
}

/// The primary sort key of an entry: a number, then a text.
pub open spec fn sort_key(e: Entry, by: SortBy) -> (int, Seq<char>) {
    match by {
        SortBy::Name => (0, e.name@),
        SortBy::NameInsensitive => (0, lowercase_of(e.name@)),
        SortBy::Size => (e.size as int, seq![]),
        SortBy::Modified => (
            match e.modified {
                Some(m) => m as int,
                None => 0,
            },
            seq![],
        ),
        SortBy::Extension => (0, ext_spec(e.name@)),
        SortBy::Type => (type_rank(e.entry_type), seq![]),
    }
}

/// Comparison of two primary keys.
pub open spec fn key_order(a: (int, Seq<char>), b: (int, Seq<char>)) -> int {
    if a.0 < b.0 {
        -1
    } else if a.0 > b.0 {
        1
    } else {
        lex_order(a.1, b.1)
    }
}

/// Ascending order of entries: by primary key, ties broken by name.
pub open spec fn entry_order(a: Entry, b: Entry, by: SortBy) -> int {
    let k = key_order(sort_key(a, by), sort_key(b, by));
    if k != 0 {
        k
    } else {
        lex_order(a.name@, b.name@)
    }
}

/// Order of a listing in the requested direction.
pub open spec fn listing_order(a: Entry, b: Entry, by: SortBy, dir: SortDir) -> int {
    match dir {
        SortDir::Ascending => entry_order(a, b, by),
        SortDir::Descending => -entry_order(a, b, by),
    }
}

/// `p` maps `0..n` one-to-one onto `0..n`.
pub open spec fn is_permutation(p: Seq<int>, n: int) -> bool {
    &&& p.len() == n
    &&& forall|i: int| 0 <= i < n ==> 0 <= #[trigger] p[i] < n
    &&& forall|i: int, j: int| 0 <= i < n && 0 <= j < n && i != j ==> p[i] != p[j]
}

/// `out` is `inp` rearranged into listing order, with entries that compare
/// equal kept in their original relative order (a stable sort).
pub open spec fn is_stable_sort_of(out: Seq<Entry>, inp: Seq<Entry>, by: SortBy, dir: SortDir) -> bool {
    exists|p: Seq<int>|
        {
            &&& is_permutation(p, inp.len() as int)
            &&& out.len() == inp.len()
            &&& forall|i: int| 0 <= i < out.len() ==> out[i] == inp[#[trigger] p[i]]
            &&& forall|i: int, j: int|
                0 <= i < j < out.len() ==> listing_order(out[i], out[j], by, dir) <= 0
            &&& forall|i: int, j: int|
                0 <= i < j < out.len() && listing_order(out[i], out[j], by, dir) == 0 ==> p[i]
                    < p[j]
        }
}

/// The entries whose lower-cased name contains the lower-cased filter.
pub open spec fn name_matches_filter(e: Entry, filter: Seq<char>) -> bool {
    has_infix(lowercase_of(e.name@), lowercase_of(filter))
}

/// `entry_order` is antisymmetric and its `<= 0` relation is transitive.
pub proof fn lemma_entry_order(a: Entry, b: Entry, c: Entry, by: SortBy)
    ensures
        -1 <= entry_order(a, b, by) <= 1,
        entry_order(a, b, by) == -entry_order(b, a, by),
        entry_order(a, b, by) <= 0 && entry_order(b, c, by) <= 0 ==> entry_order(a, c, by) <= 0,
{
    let (ka, kb, kc) = (sort_key(a, by), sort_key(b, by), sort_key(c, by));
    lemma_lex_order_props(ka.1, kb.1);
    lemma_lex_order_props(kb.1, kc.1);
    lemma_lex_order_props(ka.1, kc.1);
    lemma_lex_order_props(a.name@, b.name@);
    lemma_lex_order_props(b.name@, c.name@);
    lemma_lex_order_props(a.name@, c.name@);
    if entry_order(a, b, by) <= 0 && entry_order(b, c, by) <= 0 {
        if ka.0 == kb.0 && kb.0 == kc.0 {
            if lex_order(ka.1, kb.1) <= 0 && lex_order(kb.1, kc.1) <= 0 {
                lemma_lex_order_trans(ka.1, kb.1, kc.1);
                if lex_order(ka.1, kb.1) == 0 && lex_order(kb.1, kc.1) == 0 {
                    lemma_lex_order_trans(a.name@, b.name@, c.name@);
                }
            }
        }
    }
}

/// `listing_order` is antisymmetric and its `<= 0` relation is transitive.
pub proof fn lemma_listing_order(a: Entry, b: Entry, c: Entry, by: SortBy, dir: SortDir)
    ensures
        listing_order(a, b, by, dir) == -listing_order(b, a, by, dir),
        listing_order(a, b, by, dir) <= 0 && listing_order(b, c, by, dir) <= 0 ==> listing_order(
            a,
            c,
            by,
            dir,
        ) <= 0,
{
    lemma_entry_order(a, b, c, by);
    lemma_entry_order(c, b, a, by);
    lemma_entry_order(a, c, b, by);
    lemma_entry_order(b, a, c, by);
    lemma_entry_order(b, c, a, by);
    lemma_entry_order(c, a, b, by);
}

proof fn lemma_increasing_lower(p: Seq<int>, n: int, i: int)
    requires
        p.len() == n,
        forall|k: int| 0 <= k < n ==> 0 <= #[trigger] p[k] < n,
        forall|a: int, b: int| 0 <= a < b < n ==> p[a] < p[b],
        0 <= i < n,
    ensures
        p[i] >= i,
    decreases i,
{
    if i > 0 {
        lemma_increasing_lower(p, n, i - 1);
        assert(p[i - 1] < p[i]);
    } else {
        assert(0 <= p[0]);
    }
}

proof fn lemma_increasing_upper(p: Seq<int>, n: int, i: int)
    requires
        p.len() == n,
        forall|k: int| 0 <= k < n ==> 0 <= #[trigger] p[k] < n,
        forall|a: int, b: int| 0 <= a < b < n ==> p[a] < p[b],
        0 <= i < n,
    ensures
        p[i] <= i,
    decreases n - i,
{
    if i < n - 1 {
        lemma_increasing_upper(p, n, i + 1);
        assert(p[i] < p[i + 1]);
    } else {
        assert(p[i] < n);
    }
}

/// Sorting a listing that is already in listing order leaves it as it is.
pub proof fn law_sorted_listing_is_unchanged(out: Seq<Entry>, inp: Seq<Entry>, by: SortBy, dir: SortDir)
    requires
        is_stable_sort_of(out, inp, by, dir),
        forall|i: int, j: int| 0 <= i < j < inp.len() ==> listing_order(inp[i], inp[j], by, dir) <= 0,
    ensures
        out == inp,
{
    let p = choose|p: Seq<int>|
        {
            &&& is_permutation(p, inp.len() as int)
            &&& out.len() == inp.len()
            &&& forall|i: int| 0 <= i < out.len() ==> out[i] == inp[#[trigger] p[i]]
            &&& forall|i: int, j: int|
                0 <= i < j < out.len() ==> listing_order(out[i], out[j], by, dir) <= 0
            &&& forall|i: int, j: int|
                0 <= i < j < out.len() && listing_order(out[i], out[j], by, dir) == 0 ==> p[i]
                    < p[j]
        };
    let n = inp.len() as int;
    assert forall|a: int, b: int| 0 <= a < b < n implies p[a] < p[b] by {
        assert(0 <= p[a] < n && 0 <= p[b] < n);
        assert(p[a] != p[b]);
        if p[a] > p[b] {
            assert(out[a] == inp[p[a]]);
            assert(out[b] == inp[p[b]]);
            assert(listing_order(inp[p[b]], inp[p[a]], by, dir) <= 0);
            assert(listing_order(out[a], out[b], by, dir) <= 0);
            lemma_listing_order(out[a], out[b], out[a], by, dir);
            assert(listing_order(out[a], out[b], by, dir) == 0);
        }
    }
    assert forall|i: int| 0 <= i < n implies out[i] == inp[i] by {
        lemma_increasing_lower(p, n, i);
        lemma_increasing_upper(p, n, i);
        assert(out[i] == inp[p[i]]);
    }
    assert(out =~= inp);
}

/// Sorting is idempotent: sorting a sorted listing again, by the same
/// key and direction, gives it back unchanged.
pub proof fn law_sort_idempotent(inp: Seq<Entry>, once: Seq<Entry>, twice: Seq<Entry>, by: SortBy, dir: SortDir)
    requires
        is_stable_sort_of(once, inp, by, dir),
        is_stable_sort_of(twice, once, by, dir),
    ensures
        twice == once,
{
    law_sorted_listing_is_unchanged(twice, once, by, dir);
}

/// Position `x` of `inp` comes before position `y` in a stable listing:
/// its entry sorts first, or the two tie and `x` is earlier.
pub open spec fn stable_before(inp: Seq<Entry>, x: int, y: int, by: SortBy, dir: SortDir) -> bool {
    listing_order(inp[x], inp[y], by, dir) < 0 || (listing_order(inp[x], inp[y], by, dir) == 0
        && x < y)
}

/// A permutation of `0..n` takes every value in `0..n`.
proof fn lemma_permutation_onto(p: Seq<int>, n: int, x: int)
    requires
        is_permutation(p, n),
        0 <= x < n,
    ensures
        exists|k: int| 0 <= k < n && p[k] == x,
{
    broadcast use vstd::set::group_set_axioms, vstd::seq_lib::seq_to_set_is_finite;

    assert(p.no_duplicates()) by {
        assert forall|i: int, j: int| 0 <= i < p.len() && 0 <= j < p.len() && i != j implies p[i]
            != p[j] by {}
    }
    p.unique_seq_to_set();
    vstd::set_lib::lemma_int_range(0, n);
    let r = vstd::set_lib::set_int_range(0, n);
    assert(p.to_set().subset_of(r)) by {
        assert forall|v: int| p.to_set().contains(v) implies r.contains(v) by {
            let k = choose|k: int| 0 <= k < p.len() && p[k] == v;
            assert(0 <= p[k] < n);
        }
    }
    vstd::set_lib::lemma_subset_equality(p.to_set(), r);
    assert(r.contains(x));
    assert(p.to_set().contains(x));
}

/// The permutation of a stable sort lists positions in `stable_before`
/// order.
proof fn lemma_stable_sort_increasing(out: Seq<Entry>, inp: Seq<Entry>, p: Seq<int>, by: SortBy, dir: SortDir)
    requires
        is_permutation(p, inp.len() as int),
        out.len() == inp.len(),
        forall|i: int| 0 <= i < out.len() ==> out[i] == inp[#[trigger] p[i]],
        forall|i: int, j: int| 0 <= i < j < out.len() ==> listing_order(out[i], out[j], by, dir) <= 0,
        forall|i: int, j: int|
            0 <= i < j < out.len() && listing_order(out[i], out[j], by, dir) == 0 ==> p[i] < p[j],
    ensures
        forall|i: int, j: int| 0 <= i < j < out.len() ==> stable_before(inp, p[i], p[j], by, dir),
{
    assert forall|i: int, j: int| 0 <= i < j < out.len() implies stable_before(inp, p[i], p[j], by, dir) by {
        assert(out[i] == inp[p[i]] && out[j] == inp[p[j]]);
    }
}

proof fn lemma_stable_before_asymmetric(inp: Seq<Entry>, x: int, y: int, by: SortBy, dir: SortDir)
    requires
        0 <= x < inp.len(),
        0 <= y < inp.len(),
        stable_before(inp, x, y, by, dir),
    ensures
        !stable_before(inp, y, x, by, dir),
{
    lemma_listing_order(inp[x], inp[y], inp[x], by, dir);
}

proof fn lemma_stable_sorts_agree_below(
    inp: Seq<Entry>,
    p: Seq<int>,
    q: Seq<int>,
    i: int,
    by: SortBy,
    dir: SortDir,
)
    requires
        is_permutation(p, inp.len() as int),
        is_permutation(q, inp.len() as int),
        forall|a: int, b: int| 0 <= a < b < inp.len() ==> stable_before(inp, p[a], p[b], by, dir),
        forall|a: int, b: int| 0 <= a < b < inp.len() ==> stable_before(inp, q[a], q[b], by, dir),
        0 <= i <= inp.len(),
    ensures
        forall|k: int| 0 <= k < i ==> p[k] == q[k],
    decreases i,
{
    let n = inp.len() as int;
    if i > 0 {
        lemma_stable_sorts_agree_below(inp, p, q, i - 1, by, dir);
        let c = i - 1;
        let x = p[c];
        let y = q[c];
        if x != y {
            lemma_permutation_onto(q, n, x);
            lemma_permutation_onto(p, n, y);
            let m = choose|k: int| 0 <= k < n && q[k] == x;
            let l = choose|k: int| 0 <= k < n && p[k] == y;
            if m < c {
                assert(p[m] == q[m]);
            }
            if l < c {
                assert(p[l] == q[l]);
            }
            assert(m > c);
            assert(l > c);
            assert(stable_before(inp, q[c], q[m], by, dir));
            assert(stable_before(inp, p[c], p[l], by, dir));
            lemma_stable_before_asymmetric(inp, x, y, by, dir);
        }
    }
}

/// A stable sort is determined by its input, key and direction: two
/// stable sorts of the same entries are the same listing.
pub proof fn law_stable_sort_unique(inp: Seq<Entry>, a: Seq<Entry>, b: Seq<Entry>, by: SortBy, dir: SortDir)
    requires
        is_stable_sort_of(a, inp, by, dir),
        is_stable_sort_of(b, inp, by, dir),
    ensures
        a == b,
{
    let p = choose|p: Seq<int>|
        {
            &&& is_permutation(p, inp.len() as int)
            &&& a.len() == inp.len()
            &&& forall|i: int| 0 <= i < a.len() ==> a[i] == inp[#[trigger] p[i]]
            &&& forall|i: int, j: int|
                0 <= i < j < a.len() ==> listing_order(a[i], a[j], by, dir) <= 0
            &&& forall|i: int, j: int|
                0 <= i < j < a.len() && listing_order(a[i], a[j], by, dir) == 0 ==> p[i] < p[j]
        };
    let q = choose|q: Seq<int>|
        {
            &&& is_permutation(q, inp.len() as int)
            &&& b.len() == inp.len()
            &&& forall|i: int| 0 <= i < b.len() ==> b[i] == inp[#[trigger] q[i]]
            &&& forall|i: int, j: int|
                0 <= i < j < b.len() ==> listing_order(b[i], b[j], by, dir) <= 0
            &&& forall|i: int, j: int|
                0 <= i < j < b.len() && listing_order(b[i], b[j], by, dir) == 0 ==> q[i] < q[j]
        };
    lemma_stable_sort_increasing(a, inp, p, by, dir);
    lemma_stable_sort_increasing(b, inp, q, by, dir);
    lemma_stable_sorts_agree_below(inp, p, q, inp.len() as int, by, dir);
    assert forall|i: int| 0 <= i < a.len() implies a[i] == b[i] by {
        assert(a[i] == inp[p[i]]);
        assert(b[i] == inp[q[i]]);
    }
    assert(a =~= b);
}

/// With names all different, sorting descending gives the ascending
/// listing reversed.
pub proof fn law_descending_reverses_ascending(
    inp: Seq<Entry>,
    asc: Seq<Entry>,
    desc: Seq<Entry>,
    by: SortBy,
)
    requires
        forall|i: int, j: int| 0 <= i < inp.len() && 0 <= j < inp.len() && i != j ==> inp[i].name@
            != inp[j].name@,
        is_stable_sort_of(asc, inp, by, SortDir::Ascending),
        is_stable_sort_of(desc, inp, by, SortDir::Descending),
    ensures
        desc == asc.reverse(),
{
    let p = choose|p: Seq<int>|
        {
            &&& is_permutation(p, inp.len() as int)
            &&& asc.len() == inp.len()
            &&& forall|i: int| 0 <= i < asc.len() ==> asc[i] == inp[#[trigger] p[i]]
            &&& forall|i: int, j: int|
                0 <= i < j < asc.len() ==> listing_order(asc[i], asc[j], by, SortDir::Ascending) <= 0
            &&& forall|i: int, j: int|
                0 <= i < j < asc.len() && listing_order(asc[i], asc[j], by, SortDir::Ascending) == 0
                    ==> p[i] < p[j]
        };
    let n = inp.len() as int;
    let rev = asc.reverse();
    let q = p.reverse();
    assert(is_permutation(q, n)) by {
        assert forall|i: int| 0 <= i < n implies 0 <= #[trigger] q[i] < n by {
            assert(q[i] == p[n - 1 - i]);
        }
        assert forall|i: int, j: int| 0 <= i < n && 0 <= j < n && i != j implies q[i] != q[j] by {
            assert(q[i] == p[n - 1 - i] && q[j] == p[n - 1 - j]);
        }
    }
    assert forall|i: int| 0 <= i < rev.len() implies rev[i] == inp[#[trigger] q[i]] by {
        assert(rev[i] == asc[n - 1 - i]);
        assert(q[i] == p[n - 1 - i]);
    }
    assert forall|i: int, j: int| 0 <= i < j < rev.len() implies listing_order(
        rev[i],
        rev[j],
        by,
        SortDir::Descending,
    ) <= 0 by {
        assert(rev[i] == asc[n - 1 - i] && rev[j] == asc[n - 1 - j]);
        assert(listing_order(asc[n - 1 - j], asc[n - 1 - i], by, SortDir::Ascending) <= 0);
        lemma_entry_order(asc[n - 1 - j], asc[n - 1 - i], asc[n - 1 - j], by);
    }
    assert forall|i: int, j: int|
        0 <= i < j < rev.len() && listing_order(rev[i], rev[j], by, SortDir::Descending) == 0 implies q[i]
            < q[j] by {
        let a = rev[i];
        let b = rev[j];
        assert(a == inp[q[i]] && b == inp[q[j]]);
        assert(entry_order(a, b, by) == 0);
        lemma_lex_order_props(a.name@, b.name@);
        lemma_lex_order_props(sort_key(a, by).1, sort_key(b, by).1);
        assert(a.name@ == b.name@);
        assert(q[i] != q[j]);
        assert(0 <= q[i] < n && 0 <= q[j] < n);
    }
    assert(is_stable_sort_of(rev, inp, by, SortDir::Descending));
    law_stable_sort_unique(inp, rev, desc, by, SortDir::Descending);
}

impl LocalFsProvider {
    /// Create a new provider with the given symlink behavior.
    pub fn new(follow_symlinks: bool) -> (r: Self)
        ensures
            r.follow_symlinks == follow_symlinks,
    {
        LocalFsProvider { follow_symlinks }
    }

    /// Whether a file name is hidden (starts with `.`).
    pub fn is_hidden_name(name: &str) -> (r: bool)
        ensures
            r == is_hidden_spec(name@),
    {
        let cs = chars_of(name);
        cs.len() > 0 && cs[0] == '.'
    }

    /// The extension of a file name, lower-cased, or the empty string.
    pub fn ext_of(name: &str) -> (r: String)
        ensures
            r@ == ext_spec(name@),
    {
        let cs = chars_of(name);
        match last_char_position(&cs, '.') {
            Some(i) => {
                let tail = slice_chars(&cs, i + 1, cs.len());
                assert(tail@ =~= name@.skip(i + 1));
                string_of(&lowercase_chars(&tail))
            },
            None => String::new(),
        }
    }
}

} // verus!

verus! {

/// Precomputed sort key of one entry.
struct SortKey {
    num: u64,
    text: Vec<char>,
    name: Vec<char>,
}

spec fn key_of_entry(k: SortKey, e: Entry, by: SortBy) -> bool {
    &&& k.num as int == sort_key(e, by).0
    &&& k.text@ == sort_key(e, by).1
    &&& k.name@ == e.name@
}

fn compute_key(e: &Entry, by: SortBy) -> (k: SortKey)
    ensures
        key_of_entry(k, *e, by),
{
    let name = chars_of(e.name.as_str());
    match by {
        SortBy::Name => SortKey { num: 0, text: chars_of(e.name.as_str()), name },
        SortBy::NameInsensitive => SortKey { num: 0, text: lowercase_chars(&name), name },
        SortBy::Size => SortKey { num: e.size, text: Vec::new(), name },
        SortBy::Modified => {
            let m = match e.modified {
                Some(m) => m,
                None => 0,
            };
            SortKey { num: m, text: Vec::new(), name }
        },
        SortBy::Extension => {
            let ext = LocalFsProvider::ext_of(e.name.as_str());
            SortKey { num: 0, text: chars_of(ext.as_str()), name }
        },
        SortBy::Type => {
            let rank: u64 = match e.entry_type {
                EntryType::Directory => 0,
                EntryType::Symlink => 1,
                EntryType::File => 2,
                EntryType::Unknown => 3,
            };
            SortKey { num: rank, text: Vec::new(), name }
        },
    }
}

fn compare_keys(
    a: &SortKey,
    b: &SortKey,
    Ghost(ea): Ghost<Entry>,
    Ghost(eb): Ghost<Entry>,
    by: SortBy,
    dir: SortDir,
) -> (r: i8)
    requires
        key_of_entry(*a, ea, by),
        key_of_entry(*b, eb, by),
    ensures
        r as int == listing_order(ea, eb, by, dir),
{
    let k: i8 = if a.num < b.num {
        -1
    } else if a.num > b.num {
        1
    } else {
        lex_compare(&a.text, &b.text)
    };
    let o: i8 = if k != 0 {
        k
    } else {
        lex_compare(&a.name, &b.name)
    };
    proof {
        lemma_lex_order_props(a.text@, b.text@);
        lemma_lex_order_props(a.name@, b.name@);
    }
    match dir {
        SortDir::Ascending => o,
        SortDir::Descending => -o,
    }
}

impl LocalFsProvider {
    /// Sort entries by the requested key and direction; ties are broken by
    /// name, and entries that still compare equal keep their order.
    pub fn apply_sort(entries: &mut Vec<Entry>, sort_by: SortBy, sort_dir: SortDir)
        ensures
            is_stable_sort_of(final(entries)@, old(entries)@, sort_by, sort_dir),
    {
        let ghost inp = entries@;
        let n = entries.len();
        let mut keys: Vec<SortKey> = Vec::new();
        let mut out: Vec<Entry> = Vec::new();
        let ghost mut p: Seq<int> = seq![];
        let mut count: usize = 0;
        assert(inp.skip(0) =~= inp);
        while entries.len() > 0
            invariant
                inp.len() == n,
                count + entries.len() == n,
                entries@ == inp.skip(count as int),
                out.len() == count,
                keys.len() == count,
                p.len() == count,
                forall|i: int| 0 <= i < count ==> 0 <= #[trigger] p[i] < count,
                forall|i: int| 0 <= i < count ==> out@[i] == inp[#[trigger] p[i]],
                forall|i: int|
                    0 <= i < count ==> key_of_entry(#[trigger] keys@[i], out@[i], sort_by),
                forall|i: int, j: int| 0 <= i < count && 0 <= j < count && i != j ==> p[i] != p[j],
                forall|i: int, j: int|
                    0 <= i < j < count ==> listing_order(out@[i], out@[j], sort_by, sort_dir)
                        <= 0,
                forall|i: int, j: int|
                    0 <= i < j < count && listing_order(out@[i], out@[j], sort_by, sort_dir) == 0
                        ==> p[i] < p[j],
            decreases entries.len(),
        {
            let e = entries.remove(0);
            assert(e == inp[count as int]);
            assert(entries@ =~= inp.skip(count + 1));
            let k = compute_key(&e, sort_by);
            let mut pos = out.len();
            while pos > 0 && compare_keys(
                &keys[pos - 1],
                &k,
                Ghost(out@[pos - 1]),
                Ghost(e),
                sort_by,
                sort_dir,
            ) > 0
                invariant
                    pos <= count,
                    out.len() == count,
                    keys.len() == count,
                    key_of_entry(k, e, sort_by),
                    forall|i: int|
                        0 <= i < count ==> key_of_entry(#[trigger] keys@[i], out@[i], sort_by),
                    forall|j: int|
                        pos <= j < count ==> listing_order(#[trigger] out@[j], e, sort_by, sort_dir)
                            > 0,
                decreases pos,
            {
                pos -= 1;
            }
            proof {
                assert forall|i: int| 0 <= i < pos implies listing_order(
                    #[trigger] out@[i],
                    e,
                    sort_by,
                    sort_dir,
                ) <= 0 by {
                    if i < pos - 1 {
                        lemma_listing_order(out@[i], out@[pos - 1], e, sort_by, sort_dir);
                    }
                }
                assert forall|j: int| pos <= j < count implies listing_order(
                    e,
                    #[trigger] out@[j],
                    sort_by,
                    sort_dir,
                ) < 0 by {
                    lemma_listing_order(out@[j], e, e, sort_by, sort_dir);
                }
            }
            let ghost old_out = out@;
            let ghost old_keys = keys@;
            let ghost old_p = p;
            keys.insert(pos, k);
            out.insert(pos, e);
            proof {
                p = p.insert(pos as int, count as int);
                assert forall|i: int, j: int|
                    0 <= i < j < count + 1 implies listing_order(
                    out@[i],
                    out@[j],
                    sort_by,
                    sort_dir,
                ) <= 0 by {
                    if i < pos && j > pos {
                        lemma_listing_order(old_out[i], e, old_out[j - 1], sort_by, sort_dir);
                    }
                }
                assert forall|i: int, j: int|
                    0 <= i < j < count + 1 && listing_order(out@[i], out@[j], sort_by, sort_dir)
                        == 0 implies p[i] < p[j] by {
                    if i < pos && j > pos {
                        lemma_listing_order(old_out[i], e, old_out[j - 1], sort_by, sort_dir);
                        lemma_listing_order(e, old_out[j - 1], old_out[i], sort_by, sort_dir);
                    }
                }
                assert forall|i: int| 0 <= i < count + 1 implies key_of_entry(
                    #[trigger] keys@[i],
                    out@[i],
                    sort_by,
                ) by {}
            }
            count += 1;
        }
        proof {
            assert(is_permutation(p, n as int));
            assert(forall|i: int| 0 <= i < out@.len() ==> out@[i] == inp[#[trigger] p[i]]);
        }
        *entries = out;
    }
}

} // verus!

verus! {

/// The entries a listing shows before sorting: all of them, or only the
/// ones whose name is not hidden.
pub open spec fn visible_entries(raw: Seq<Entry>, show_hidden: bool) -> Seq<Entry> {
    raw.filter(|e: Entry| show_hidden || !is_hidden_spec(e.name@))
}

/// The entries of `sorted` that a filter keeps.
pub open spec fn filtered_entries(sorted: Seq<Entry>, filter: Option<Seq<char>>) -> Seq<Entry> {
    match filter {
        Some(f) => sorted.filter(|e: Entry| name_matches_filter(e, f)),
        None => sorted,
    }
}

/// A listing that does not show hidden files holds no hidden name.
pub proof fn law_hidden_names_not_listed(raw: Seq<Entry>, i: int)
    requires
        0 <= i < visible_entries(raw, false).len(),
    ensures
        !is_hidden_spec(visible_entries(raw, false)[i].name@),
{
    broadcast use vstd::seq_lib::group_filter_ensures;

    assert(!is_hidden_spec(visible_entries(raw, false)[i].name@));
}

/// A listing holds exactly the entries read that are shown: all of them
/// when hidden files are shown, else those whose name is not hidden.
pub proof fn law_listing_keeps_shown_entries(raw: Seq<Entry>, show_hidden: bool, e: Entry)
    ensures
        visible_entries(raw, show_hidden).contains(e) <==> raw.contains(e) && (show_hidden
            || !is_hidden_spec(e.name@)),
{
    broadcast use vstd::seq_lib::group_filter_ensures;

    let v = visible_entries(raw, show_hidden);
    if raw.contains(e) && (show_hidden || !is_hidden_spec(e.name@)) {
        let i = choose|i: int| 0 <= i < raw.len() && raw[i] == e;
        assert(v.contains(raw[i]));
    }
    if v.contains(e) {
        let j = choose|j: int| 0 <= j < v.len() && v[j] == e;
        assert(show_hidden || !is_hidden_spec(v[j].name@));
        raw.lemma_filter_contains_rev(|x: Entry| show_hidden || !is_hidden_spec(x.name@), e);
    }
}

/// `x` comes before `y` in code-point order: at the first position where
/// they differ `x` has the smaller character, or `x` is a proper prefix of
/// `y`.
pub open spec fn text_before(x: Seq<char>, y: Seq<char>) -> bool {
    exists|i: int|
        #![trigger x.take(i), y.take(i)]
        0 <= i <= x.len() && i < y.len() && x.take(i) == y.take(i) && (i == x.len() || x[i] < y[i])
}

/// The modification time an entry is sorted by: the epoch when unknown.
pub open spec fn modified_or_epoch(e: Entry) -> int {
    match e.modified {
        Some(m) => m as int,
        None => 0,
    }
}

/// Directories, then symbolic links, then files, then the rest.
pub open spec fn type_before(a: EntryType, b: EntryType) -> bool {
    ||| (a is Directory && !(b is Directory))
    ||| (a is Symlink && (b is File || b is Unknown))
    ||| (a is File && b is Unknown)
}

proof fn lemma_text_before_at(x: Seq<char>, y: Seq<char>, i: int)
    requires
        0 <= i <= x.len(),
        i < y.len(),
        x.take(i) == y.take(i),
        i == x.len() || x[i] < y[i],
    ensures
        lex_order(x, y) == -1,
    decreases i,
{
    if i > 0 {
        assert(x.take(i)[0] == x[0]);
        assert(y.take(i)[0] == y[0]);
        assert(x.take(i)[0] == y.take(i)[0]);
        assert(x.drop_first().take(i - 1) =~= x.take(i).drop_first());
        assert(y.drop_first().take(i - 1) =~= y.take(i).drop_first());
        lemma_text_before_at(x.drop_first(), y.drop_first(), i - 1);
        assert(x[0] == y[0]);
        assert(lex_order(x, y) == lex_order(x.drop_first(), y.drop_first()));
    } else if x.len() > 0 {
        assert(x[0] < y[0]);
    }
}

proof fn lemma_text_before(x: Seq<char>, y: Seq<char>)
    requires
        text_before(x, y),
    ensures
        lex_order(x, y) == -1,
{
    let i = choose|i: int|
        #![trigger x.take(i), y.take(i)]
        0 <= i <= x.len() && i < y.len() && x.take(i) == y.take(i) && (i == x.len() || x[i] < y[i]);
    lemma_text_before_at(x, y, i);
}

/// How each sort compares two entries: an entry whose key is smaller comes
/// first in an ascending listing and last in a descending one.  Names and
/// extensions compare in code-point order (names ignoring case for the
/// case-insensitive sort), sizes and modification times (the epoch when
/// unknown) as numbers, types as directories, links, files, others; and
/// entries whose keys are equal are ordered by name.
pub proof fn law_sort_keys(a: Entry, b: Entry)
    ensures
        text_before(a.name@, b.name@) ==> listing_order(a, b, SortBy::Name, SortDir::Ascending) < 0
            && listing_order(a, b, SortBy::Name, SortDir::Descending) > 0,
        text_before(lowercase_of(a.name@), lowercase_of(b.name@)) ==> listing_order(
            a,
            b,
            SortBy::NameInsensitive,
            SortDir::Ascending,
        ) < 0 && listing_order(a, b, SortBy::NameInsensitive, SortDir::Descending) > 0,
        a.size < b.size ==> listing_order(a, b, SortBy::Size, SortDir::Ascending) < 0
            && listing_order(a, b, SortBy::Size, SortDir::Descending) > 0,
        modified_or_epoch(a) < modified_or_epoch(b) ==> listing_order(
            a,
            b,
            SortBy::Modified,
            SortDir::Ascending,
        ) < 0 && listing_order(a, b, SortBy::Modified, SortDir::Descending) > 0,
        text_before(ext_spec(a.name@), ext_spec(b.name@)) ==> listing_order(
            a,
            b,
            SortBy::Extension,
            SortDir::Ascending,
        ) < 0 && listing_order(a, b, SortBy::Extension, SortDir::Descending) > 0,
        type_before(a.entry_type, b.entry_type) ==> listing_order(a, b, SortBy::Type, SortDir::Ascending)
            < 0 && listing_order(a, b, SortBy::Type, SortDir::Descending) > 0,
        text_before(a.name@, b.name@) ==> {
            &&& a.size == b.size ==> listing_order(a, b, SortBy::Size, SortDir::Ascending) < 0
            &&& modified_or_epoch(a) == modified_or_epoch(b) ==> listing_order(
                a,
                b,
                SortBy::Modified,
                SortDir::Ascending,
            ) < 0
            &&& a.entry_type == b.entry_type ==> listing_order(a, b, SortBy::Type, SortDir::Ascending)
                < 0
            &&& ext_spec(a.name@) == ext_spec(b.name@) ==> listing_order(
                a,
                b,
                SortBy::Extension,
                SortDir::Ascending,
            ) < 0
            &&& lowercase_of(a.name@) == lowercase_of(b.name@) ==> listing_order(
                a,
                b,
                SortBy::NameInsensitive,
                SortDir::Ascending,
            ) < 0
        },
{
    assert(lex_order(seq![], seq![]) == 0);
    lemma_lex_order_props(a.name@, b.name@);
    lemma_lex_order_props(lowercase_of(a.name@), lowercase_of(b.name@));
    lemma_lex_order_props(ext_spec(a.name@), ext_spec(b.name@));
    if text_before(a.name@, b.name@) {
        lemma_text_before(a.name@, b.name@);
    }
    if text_before(lowercase_of(a.name@), lowercase_of(b.name@)) {
        lemma_text_before(lowercase_of(a.name@), lowercase_of(b.name@));
    }
    if text_before(ext_spec(a.name@), ext_spec(b.name@)) {
        lemma_text_before(ext_spec(a.name@), ext_spec(b.name@));
    }
}

/// A listing sorted by size or by modification time (the epoch when
/// unknown) holds its entries in that order: smallest or oldest first when
/// ascending, largest or newest first when descending.
pub proof fn law_listing_sorted_by_size_and_time(raw: Seq<Entry>, req: ListDirRequest, listed: Seq<Entry>)
    requires
        is_listing_of(listed, raw, req),
    ensures
        req.sort_by == SortBy::Size && req.sort_dir == SortDir::Ascending ==> forall|i: int, j: int|
            0 <= i < j < listed.len() ==> listed[i].size <= listed[j].size,
        req.sort_by == SortBy::Size && req.sort_dir == SortDir::Descending ==> forall|i: int, j: int|
            0 <= i < j < listed.len() ==> listed[i].size >= listed[j].size,
        req.sort_by == SortBy::Modified && req.sort_dir == SortDir::Ascending ==> forall|i: int, j: int|
            0 <= i < j < listed.len() ==> modified_or_epoch(listed[i]) <= modified_or_epoch(listed[j]),
        req.sort_by == SortBy::Modified && req.sort_dir == SortDir::Descending ==> forall|i: int, j: int|
            0 <= i < j < listed.len() ==> modified_or_epoch(listed[i]) >= modified_or_epoch(listed[j]),
{
    law_listing_contents(raw, req, listed);
    assert forall|i: int, j: int| 0 <= i < j < listed.len() implies {
        &&& req.sort_by == SortBy::Size && req.sort_dir == SortDir::Ascending ==> listed[i].size
            <= listed[j].size
        &&& req.sort_by == SortBy::Size && req.sort_dir == SortDir::Descending ==> listed[i].size
            >= listed[j].size
        &&& req.sort_by == SortBy::Modified && req.sort_dir == SortDir::Ascending ==> modified_or_epoch(
            listed[i],
        ) <= modified_or_epoch(listed[j])
        &&& req.sort_by == SortBy::Modified && req.sort_dir == SortDir::Descending ==> modified_or_epoch(
            listed[i],
        ) >= modified_or_epoch(listed[j])
    } by {
        law_sort_keys(listed[i], listed[j]);
        law_sort_keys(listed[j], listed[i]);
        lemma_listing_order(listed[i], listed[j], listed[i], req.sort_by, req.sort_dir);
        assert(listing_order(listed[i], listed[j], req.sort_by, req.sort_dir) <= 0);
    }
}

proof fn lemma_last_dot(name: Seq<char>, j: int)
    requires
        0 <= j < name.len(),
        name[j] == '.',
        forall|k: int| j < k < name.len() ==> name[k] != '.',
    ensures
        last_elem_pos(name, '.') == Some(j),
    decreases name.len() - j,
{
    if j < name.len() - 1 {
        lemma_last_dot(name.drop_last(), j);
    }
}

proof fn lemma_no_dot(name: Seq<char>)
    requires
        forall|k: int| 0 <= k < name.len() ==> name[k] != '.',
    ensures
        last_elem_pos(name, '.') is None,
    decreases name.len(),
{
    if name.len() > 0 {
        lemma_no_dot(name.drop_last());
    }
}

/// The rules a listing applies to a name: it is hidden exactly when it
/// starts with a dot; a filter keeps it exactly when its lower-cased form
/// contains the lower-cased filter; its extension is the lower-cased text
/// after its last dot, and empty when it has no dot.
pub proof fn law_name_rules(e: Entry, filter: Seq<char>, stem: Seq<char>, x: Seq<char>)
    ensures
        is_hidden_spec(e.name@) <==> (e.name@.len() > 0 && e.name@[0] == '.'),
        name_matches_filter(e, filter) <==> exists|i: int|
            0 <= i && i + lowercase_of(filter).len() <= lowercase_of(e.name@).len()
                && #[trigger] lowercase_of(e.name@).subrange(i, i + lowercase_of(filter).len())
                == lowercase_of(filter),
        (forall|k: int| 0 <= k < x.len() ==> x[k] != '.') ==> ext_spec(stem + seq!['.'] + x)
            == lowercase_of(x),
        (forall|k: int| 0 <= k < e.name@.len() ==> e.name@[k] != '.') ==> ext_spec(e.name@)
            == Seq::<char>::empty(),
{
    let ln = lowercase_of(e.name@);
    let lf = lowercase_of(filter);
    if has_infix(ln, lf) {
        let i = choose|i: int| crate::text::occurs_at(ln, lf, i);
        assert(ln.subrange(i, i + lf.len()) == lf);
    }
    if exists|i: int| 0 <= i && i + lf.len() <= ln.len() && #[trigger] ln.subrange(i, i + lf.len()) == lf {
        let i = choose|i: int| 0 <= i && i + lf.len() <= ln.len() && #[trigger] ln.subrange(i, i + lf.len()) == lf;
        assert(crate::text::occurs_at(ln, lf, i));
    }
    if forall|k: int| 0 <= k < x.len() ==> x[k] != '.' {
        let name = stem + seq!['.'] + x;
        assert forall|k: int| stem.len() < k < name.len() implies name[k] != '.' by {
            assert(name[k] == x[k - stem.len() - 1]);
        }
        lemma_last_dot(name, stem.len() as int);
        assert(name.skip(stem.len() + 1int) =~= x);
    }
    if forall|k: int| 0 <= k < e.name@.len() ==> e.name@[k] != '.' {
        lemma_no_dot(e.name@);
    }
}

/// The filter of a request, as characters.
pub open spec fn request_filter(req: ListDirRequest) -> Option<Seq<char>> {
    match req.filter {
        Some(f) => Some(f@),
        None => None,
    }
}

/// `listed` is a listing of the entries `raw` read for `req`: the shown
/// entries, stably sorted as requested, then filtered by name.
pub open spec fn is_listing_of(listed: Seq<Entry>, raw: Seq<Entry>, req: ListDirRequest) -> bool {
    exists|sorted: Seq<Entry>|
        is_stable_sort_of(sorted, visible_entries(raw, req.show_hidden), req.sort_by, req.sort_dir)
            && listed == filtered_entries(sorted, request_filter(req))
}

/// Filtering keeps a sequence free of duplicates.
proof fn lemma_filter_no_duplicates(s: Seq<Entry>, pred: spec_fn(Entry) -> bool)
    requires
        s.no_duplicates(),
    ensures
        s.filter(pred).no_duplicates(),
    decreases s.len(),
{
    reveal(Seq::filter);
    if s.len() > 0 {
        let rest = s.drop_last();
        assert(rest.no_duplicates());
        lemma_filter_no_duplicates(rest, pred);
        let sub = rest.filter(pred);
        if pred(s.last()) {
            if sub.contains(s.last()) {
                rest.lemma_filter_contains_rev(pred, s.last());
                let k = choose|k: int| 0 <= k < rest.len() && rest[k] == s.last();
                assert(s[k] == s[s.len() - 1]);
            }
            let out = sub.push(s.last());
            assert forall|i: int, j: int| 0 <= i < out.len() && 0 <= j < out.len() && i != j implies out[i]
                != out[j] by {
                if i < sub.len() && j < sub.len() {
                    assert(out[i] == sub[i] && out[j] == sub[j]);
                } else if i < sub.len() {
                    assert(sub.contains(out[i]));
                } else {
                    assert(sub.contains(out[j]));
                }
            }
        }
    }
}

/// Filtering keeps a sequence in listing order.
proof fn lemma_filter_keeps_order(s: Seq<Entry>, pred: spec_fn(Entry) -> bool, by: SortBy, dir: SortDir)
    requires
        forall|i: int, j: int| 0 <= i < j < s.len() ==> listing_order(s[i], s[j], by, dir) <= 0,
    ensures
        forall|i: int, j: int|
            0 <= i < j < s.filter(pred).len() ==> listing_order(
                s.filter(pred)[i],
                s.filter(pred)[j],
                by,
                dir,
            ) <= 0,
    decreases s.len(),
{
    reveal(Seq::filter);
    if s.len() > 0 {
        let rest = s.drop_last();
        lemma_filter_keeps_order(rest, pred, by, dir);
        let sub = rest.filter(pred);
        if pred(s.last()) {
            let out = sub.push(s.last());
            assert forall|i: int, j: int| 0 <= i < j < out.len() implies listing_order(
                out[i],
                out[j],
                by,
                dir,
            ) <= 0 by {
                if j == sub.len() {
                    assert(out[i] == sub[i]);
                    assert(sub.contains(sub[i]));
                    rest.lemma_filter_contains_rev(pred, sub[i]);
                    let k = choose|k: int| 0 <= k < rest.len() && rest[k] == sub[i];
                    assert(s[k] == sub[i]);
                    assert(out[j] == s[s.len() - 1]);
                } else {
                    assert(out[i] == sub[i] && out[j] == sub[j]);
                }
            }
        }
    }
}

/// What a listing holds: an entry is listed exactly when it was read, is
/// shown (hidden names only on request) and matches the filter; the
/// listing is in the requested order; no entry is listed twice when none
/// was read twice; and where every entry read carries the hidden flag of
/// its name (a leading dot), so does every entry listed.
pub proof fn law_listing_contents(raw: Seq<Entry>, req: ListDirRequest, listed: Seq<Entry>)
    requires
        is_listing_of(listed, raw, req),
    ensures
        forall|e: Entry|
            #[trigger] listed.contains(e) <==> (raw.contains(e) && (req.show_hidden
                || !is_hidden_spec(e.name@)) && (request_filter(req) matches Some(f)
                ==> name_matches_filter(e, f))),
        forall|i: int, j: int|
            0 <= i < j < listed.len() ==> listing_order(listed[i], listed[j], req.sort_by, req.sort_dir)
                <= 0,
        raw.no_duplicates() ==> listed.no_duplicates(),
        (forall|k: int| #![trigger raw[k]] 0 <= k < raw.len() ==> raw[k].is_hidden == is_hidden_spec(raw[k].name@))
            ==> (forall|k: int| #![trigger listed[k]] 0 <= k < listed.len() ==> listed[k].is_hidden
            == is_hidden_spec(listed[k].name@)),
{
    broadcast use vstd::seq_lib::group_filter_ensures;

    let vis = visible_entries(raw, req.show_hidden);
    let sorted = choose|sorted: Seq<Entry>|
        is_stable_sort_of(sorted, vis, req.sort_by, req.sort_dir) && listed == filtered_entries(
            sorted,
            request_filter(req),
        );
    let p = choose|p: Seq<int>|
        {
            &&& is_permutation(p, vis.len() as int)
            &&& sorted.len() == vis.len()
            &&& forall|i: int| 0 <= i < sorted.len() ==> sorted[i] == vis[#[trigger] p[i]]
            &&& forall|i: int, j: int|
                0 <= i < j < sorted.len() ==> listing_order(sorted[i], sorted[j], req.sort_by, req.sort_dir)
                    <= 0
            &&& forall|i: int, j: int|
                0 <= i < j < sorted.len() && listing_order(sorted[i], sorted[j], req.sort_by, req.sort_dir)
                    == 0 ==> p[i] < p[j]
        };
    let fpred = |e: Entry| match request_filter(req) {
        Some(f) => name_matches_filter(e, f),
        None => true,
    };
    // The sorted entries are the shown ones, rearranged.
    assert forall|e: Entry| sorted.contains(e) <==> vis.contains(e) by {
        if sorted.contains(e) {
            let i = choose|i: int| 0 <= i < sorted.len() && sorted[i] == e;
            assert(vis[p[i]] == e);
        }
        if vis.contains(e) {
            let x = choose|x: int| 0 <= x < vis.len() && vis[x] == e;
            lemma_permutation_onto(p, vis.len() as int, x);
            let k = choose|k: int| 0 <= k < vis.len() && p[k] == x;
            assert(sorted[k] == e);
        }
    }
    // The listing keeps the sorted entries the filter accepts.
    assert forall|e: Entry| listed.contains(e) <==> (sorted.contains(e) && fpred(e)) by {
        match request_filter(req) {
            Some(f) => {
                let q = |x: Entry| name_matches_filter(x, f);
                assert(listed == sorted.filter(q));
                if listed.contains(e) {
                    sorted.lemma_filter_contains_rev(q, e);
                    let j = choose|j: int| 0 <= j < listed.len() && listed[j] == e;
                    assert(q(listed[j]));
                }
                if sorted.contains(e) && fpred(e) {
                    let i = choose|i: int| 0 <= i < sorted.len() && sorted[i] == e;
                    assert(sorted.filter(q).contains(sorted[i]));
                }
            },
            None => {},
        }
    }
    assert forall|e: Entry|
        #[trigger] listed.contains(e) <==> (raw.contains(e) && (req.show_hidden || !is_hidden_spec(
            e.name@,
        )) && (request_filter(req) matches Some(f) ==> name_matches_filter(e, f))) by {
        law_listing_keeps_shown_entries(raw, req.show_hidden, e);
        assert(listed.contains(e) <==> (sorted.contains(e) && fpred(e)));
    }
    // Order.
    match request_filter(req) {
        Some(f) => {
            lemma_filter_keeps_order(sorted, |x: Entry| name_matches_filter(x, f), req.sort_by, req.sort_dir);
        },
        None => {},
    }
    // No duplicates.
    if raw.no_duplicates() {
        lemma_filter_no_duplicates(raw, |e: Entry| req.show_hidden || !is_hidden_spec(e.name@));
        assert(vis.no_duplicates());
        assert forall|i: int, j: int| 0 <= i < sorted.len() && 0 <= j < sorted.len() && i != j implies sorted[i]
            != sorted[j] by {
            assert(sorted[i] == vis[p[i]] && sorted[j] == vis[p[j]]);
        }
        assert(sorted.no_duplicates());
        match request_filter(req) {
            Some(f) => {
                lemma_filter_no_duplicates(sorted, |x: Entry| name_matches_filter(x, f));
            },
            None => {},
        }
    }
    // Hidden flags.
    if forall|k: int| #![trigger raw[k]] 0 <= k < raw.len() ==> raw[k].is_hidden == is_hidden_spec(raw[k].name@) {
        assert forall|k: int| #![trigger listed[k]] 0 <= k < listed.len() implies listed[k].is_hidden
            == is_hidden_spec(listed[k].name@) by {
            assert(listed.contains(listed[k]));
            let m = choose|m: int| 0 <= m < raw.len() && raw[m] == listed[k];
            assert(raw[m].is_hidden == is_hidden_spec(raw[m].name@));
        }
    }
}

impl LocalFsProvider {
    /// Keep the entries whose name contains the filter, ignoring case.
    pub fn apply_filter(entries: Vec<Entry>, filter: &str) -> (r: Vec<Entry>)
        ensures
            r@ == entries@.filter(|e: Entry| name_matches_filter(e, filter@)),
    {
        let ghost inp = entries@;
        let ghost pred = |e: Entry| name_matches_filter(e, filter@);
        let lower = lowercase_chars(&chars_of(filter));
        let mut rest = entries;
        let mut out: Vec<Entry> = Vec::new();
        let mut i: usize = 0;
        assert(inp.len() == rest.len());
        assert(inp.skip(0) =~= inp);
        assert(inp.take(0) =~= Seq::<Entry>::empty());
        proof {
            reveal_with_fuel(Seq::filter, 1);
        }
        while rest.len() > 0
            invariant
                i + rest.len() == inp.len(),
                inp.len() <= usize::MAX,
                rest@ == inp.skip(i as int),
                lower@ == lowercase_of(filter@),
                pred == (|e: Entry| name_matches_filter(e, filter@)),
                out@ == inp.take(i as int).filter(pred),
            decreases rest.len(),
        {
            let e = rest.remove(0);
            assert(e == inp[i as int]);
            assert(rest@ =~= inp.skip(i + 1));
            let name_low = lowercase_chars(&chars_of(e.name.as_str()));
            let keep = contains_chars(&name_low, &lower);
            proof {
                reveal(Seq::filter);
                assert(inp.take(i + 1).drop_last() =~= inp.take(i as int));
                assert(keep == name_matches_filter(e, filter@));
                assert(pred(e) == name_matches_filter(e, filter@));
                assert(inp.take(i + 1).filter(pred) == (if pred(e) {
                    inp.take(i as int).filter(pred).push(e)
                } else {
                    inp.take(i as int).filter(pred)
                }));
            }
            if keep {
                out.push(e);
            }
            i += 1;
        }
        assert(inp.take(i as int) =~= inp);
        out
    }

    /// Assemble a listing from the entries read from `req.path`: hidden
    /// names are dropped unless requested, the rest is sorted, then filtered.
    pub fn list_entries(&self, req: ListDirRequest, raw: Vec<Entry>) -> (r: ListDirResult)
        ensures
            r.path@ == req.path@,
            r.parent matches Some(q) ==> parent_of(req.path@) == Some(q@),
            r.parent is None ==> parent_of(req.path@) is None,
            is_listing_of(r.entries@, raw@, req),
    {
        let ghost inp = raw@;
        let ghost req0 = req;
        let ghost pred = |e: Entry| req.show_hidden || !is_hidden_spec(e.name@);
        let mut rest = raw;
        let mut visible: Vec<Entry> = Vec::new();
        let mut i: usize = 0;
        assert(inp.len() == rest.len());
        assert(inp.skip(0) =~= inp);
        assert(inp.take(0) =~= Seq::<Entry>::empty());
        proof {
            reveal_with_fuel(Seq::filter, 1);
        }
        while rest.len() > 0
            invariant
                i + rest.len() == inp.len(),
                inp.len() <= usize::MAX,
                rest@ == inp.skip(i as int),
                visible@ == inp.take(i as int).filter(pred),
                pred == (|e: Entry| req.show_hidden || !is_hidden_spec(e.name@)),
            decreases rest.len(),
        {
            let e = rest.remove(0);
            assert(e == inp[i as int]);
            assert(rest@ =~= inp.skip(i + 1));
            let keep = req.show_hidden || !Self::is_hidden_name(e.name.as_str());
            proof {
                reveal(Seq::filter);
                assert(inp.take(i + 1).drop_last() =~= inp.take(i as int));
                assert(keep == pred(e));
                assert(inp.take(i + 1).filter(pred) == (if pred(e) {
                    inp.take(i as int).filter(pred).push(e)
                } else {
                    inp.take(i as int).filter(pred)
                }));
            }
            if keep {
                visible.push(e);
            }
            i += 1;
        }
        assert(inp.take(i as int) =~= inp);
        let ghost vis = visible@;
        Self::apply_sort(&mut visible, req.sort_by, req.sort_dir);
        let ghost sorted = visible@;
        let entries = match &req.filter {
            Some(f) => Self::apply_filter(visible, f.as_str()),
            None => visible,
        };
        let parent = path_parent(req.path.as_str());
        let r = ListDirResult { path: req.path, entries, parent };
        assert(is_stable_sort_of(
            sorted,
            visible_entries(raw@, req.show_hidden),
            req.sort_by,
            req.sort_dir,
        ));
        assert(r.entries@ == filtered_entries(sorted, request_filter(req0)));
        r
    }
}


impl Default for LocalFsProvider {
    /// A provider that does not follow symbolic links.
    fn default() -> (r: Self)
        ensures
            !r.follow_symlinks,
    {
        LocalFsProvider { follow_symlinks: false }
    }
}

/// The type of a file as its metadata reports it.
#[derive(Clone, Copy, Debug, PartialEq, Eq, Structural)]
pub enum FileKind {
    Symlink,
    Directory,
    File,
    Other,
}

/// What was read from the file system about one entry.
#[derive(Clone, Debug)]
pub struct EntryFacts {
    /// The type in the metadata the entry is built from.
    pub kind: FileKind,
    /// A separate look at the link itself (without following it) found a
    /// symbolic link.
    pub link_seen: bool,
    /// Length in bytes.
    pub size: u64,
    /// Modification time, in nanoseconds since the Unix epoch, when known.
    pub modified: Option<u64>,
    /// Unix permission bits.
    pub mode: u32,
    /// Where the link points, when it is a link and its target was read.
    pub symlink_target: Option<String>,
}

/// How reading a path's metadata failed.
#[derive(Clone, Copy, Debug, PartialEq, Eq, Structural)]
pub enum IoFailure {
    NotFound,
    PermissionDenied,
    Other,
}

/// The entry type shown for a file type.
pub open spec fn entry_type_of(kind: FileKind) -> EntryType {
    match kind {
        FileKind::Symlink => EntryType::Symlink,
        FileKind::Directory => EntryType::Directory,
        FileKind::File => EntryType::File,
        FileKind::Other => EntryType::Unknown,
    }
}

/// The name shown for a path: its final component, or the whole path
/// when it has none.
pub open spec fn display_name(file_name: Option<Seq<char>>, path: Seq<char>) -> Seq<char> {
    match file_name {
        Some(n) => n,
        None => path,
    }
}

impl LocalFsProvider {
    /// The name of an entry: the file name when it could be read as text,
    /// else the whole path.
    pub fn entry_name(file_name: Option<String>, path: &str) -> (r: String)
        ensures
            r@ == display_name(
                match file_name {
                    Some(n) => Some(n@),
                    None => None,
                },
                path@,
            ),
    {
        match file_name {
            Some(n) => n,
            None => path.to_string(),
        }
    }

    /// The name of the entry for an arbitrary path: its final component,
    /// or the whole path when it has none.
    pub fn entry_name_for_path(path: &str) -> (r: String)
        ensures
            r@ == display_name(file_name_of(path@), path@),
    {
        Self::entry_name(path_file_name(path), path)
    }

    /// Build an entry from what was read about it.  A link is recognised
    /// either in the metadata or by the separate look at the link; the
    /// hidden flag follows the name.
    pub fn entry_from_facts(path: String, name: String, facts: EntryFacts) -> (r: Entry)
        ensures
            r.path@ == path@,
            r.name@ == name@,
            r.entry_type == entry_type_of(facts.kind),
            r.size == facts.size,
            r.modified == facts.modified,
            r.permissions == Some(facts.mode),
            r.is_hidden == is_hidden_spec(name@),
            r.is_symlink == (facts.link_seen || facts.kind == FileKind::Symlink),
            r.symlink_target == facts.symlink_target,
    {
        let entry_type = match facts.kind {
            FileKind::Symlink => EntryType::Symlink,
            FileKind::Directory => EntryType::Directory,
            FileKind::File => EntryType::File,
            FileKind::Other => EntryType::Unknown,
        };
        let is_hidden = Self::is_hidden_name(name.as_str());
        let is_symlink = facts.link_seen || facts.kind == FileKind::Symlink;
        Entry {
            path,
            name,
            entry_type,
            size: facts.size,
            modified: facts.modified,
            permissions: Some(facts.mode),
            is_hidden,
            is_symlink,
            symlink_target: facts.symlink_target,
        }
    }

    /// The error for a failed metadata read of `path`.  A missing path is
    /// reported as not found only where the read can tell (when `can_miss`).
    pub fn metadata_error(failure: IoFailure, can_miss: bool, path: String, message: String) -> (r: FsError)
        ensures
            failure == IoFailure::NotFound && can_miss ==> (r matches FsError::NotFound(p) && p@
                == path@),
            failure == IoFailure::PermissionDenied ==> (r matches FsError::PermissionDenied(p)
                && p@ == path@),
            (failure == IoFailure::Other || (failure == IoFailure::NotFound && !can_miss)) ==> (
            r matches FsError::Io(m) && m@ == message@),
    {
        match failure {
            IoFailure::NotFound => if can_miss {
                FsError::NotFound(path)
            } else {
                FsError::Io(message)
            },
            IoFailure::PermissionDenied => FsError::PermissionDenied(path),
            IoFailure::Other => FsError::Io(message),
        }
    }
}

} // verus!
