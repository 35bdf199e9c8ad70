//! Freedesktop trash: layout of the trash directory, `.trashinfo`
//! metadata, and the rule that permanent deletion needs the force flag.

use vstd::prelude::*;
use vstd::utf8::{decode_utf8, encode_scalar, encode_utf8, has_width_1_encoding, valid_utf8};
use crate::paths::{joined, path_join};
use crate::text::{chars_of, has_prefix, lines, lines_of, slice_chars, starts_with, string_of, views};

verus! {

/// Errors specific to trash operations.
#[derive(Debug)]
pub enum TrashError {
    NotAvailable(String),
    NotTrashed(String),
    PermanentDeleteRefused,
    Io(String),
}

/// An item currently in the trash; `trashed_at` counts seconds since the
/// Unix epoch.
#[derive(Clone, Debug)]
pub struct TrashedItem {
    pub path: String,
    pub original_path: String,
    pub trashed_at: u64,
}

/// Implementation of the freedesktop trash spec.
pub struct FreedesktopTrashManager {
    /// When `true`, allows permanent deletion without extra UI confirmation.
    pub force: bool,
}

/// The value of a hexadecimal digit byte.
pub open spec fn hex_digit(b: u8) -> Option<u8> {
    if 48 <= b <= 57 {
        Some((b - 48) as u8)
    } else if 65 <= b <= 70 {
        Some((b - 55) as u8)
    } else if 97 <= b <= 102 {
        Some((b - 87) as u8)
    } else {
        None
    }
}

/// Bytes with each `%XY` (two hex digits, not at the very end) replaced by
/// the byte it encodes; other bytes are kept.
pub open spec fn percent_decode_bytes(s: Seq<u8>) -> Seq<u8>
    decreases s.len(),
{
    if s.len() == 0 {
        seq![]
    } else if s[0] == 37 && 2 < s.len() && hex_digit(s[1]) is Some && hex_digit(s[2]) is Some {
        seq![(hex_digit(s[1])->0 * 16 + hex_digit(s[2])->0) as u8] + percent_decode_bytes(s.skip(3))
    } else {
        seq![s[0]] + percent_decode_bytes(s.drop_first())
    }
}

/// What std `String::from_utf8_lossy` returns for bytes.
pub uninterp spec fn utf8_lossy(b: Seq<u8>) -> Seq<char>;

/// std `String::from_utf8_lossy`: the text of the bytes, with invalid
/// sequences replaced by U+FFFD.  The contract names the result and states
/// what the documentation says: valid UTF-8 is decoded as is, and a lone
/// byte that starts no character becomes one U+FFFD.  How longer invalid
/// sequences are split into replacements is left unsaid.
#[verifier::external_body]
pub(crate) fn std_from_utf8_lossy(b: &[u8]) -> (r: String)
    ensures
        r@ == utf8_lossy(b@),
        valid_utf8(b@) ==> r@ == decode_utf8(b@),
        b@.len() == 1 && b@[0] >= 0x80 ==> r@ == seq!['\u{FFFD}'],
{
    String::from_utf8_lossy(b).into_owned()
}

/// The text a percent-encoded string decodes to.
pub open spec fn percent_decoded(s: Seq<char>) -> Seq<char> {
    utf8_lossy(percent_decode_bytes(encode_utf8(s)))
}

/// The value of a hexadecimal digit (`0-9`, `A-F`, `a-f`).
pub fn hex_val(b: u8) -> (r: Option<u8>)
    ensures
        r == hex_digit(b),
{
    if b >= 48 && b <= 57 {
        Some(b - 48)
    } else if b >= 65 && b <= 70 {
        Some(b - 55)
    } else if b >= 97 && b <= 102 {
        Some(b - 87)
    } else {
        None
    }
}

/// A percent-encoded string awaiting decoding.
pub struct PercentDecode<'a>(pub &'a str);

/// Start decoding a percent-encoded string.
pub fn percent_decode_str<'a>(input: &'a str) -> (r: PercentDecode<'a>)
    ensures
        r.0@ == input@,
{
    PercentDecode(input)
}

/// Percent-decode bytes.
pub fn percent_decode_exec(bytes: &[u8]) -> (r: Vec<u8>)
    ensures
        r@ == percent_decode_bytes(bytes@),
{
    let mut out: Vec<u8> = Vec::new();
    let mut i: usize = 0;
    assert(bytes@.skip(0) =~= bytes@);
    while i < bytes.len()
        invariant
            i <= bytes.len(),
            percent_decode_bytes(bytes@) == out@ + percent_decode_bytes(bytes@.skip(i as int)),
        decreases bytes.len() - i,
    {
        let ghost t = bytes@.skip(i as int);
        if bytes[i] == 37 && bytes.len() - i > 2 {
            let h = hex_val(bytes[i + 1]);
            let l = hex_val(bytes[i + 2]);
            if h.is_some() && l.is_some() {
                let hv = h.unwrap();
                let lv = l.unwrap();
                let ghost before = out@;
                out.push(hv * 16 + lv);
                assert(t.skip(3) =~= bytes@.skip(i + 3));
                assert(out@ =~= before + seq![(hv * 16 + lv) as u8]);
                i += 3;
                continue;
            }
        }
        let ghost before = out@;
        out.push(bytes[i]);
        assert(t.drop_first() =~= bytes@.skip(i + 1));
        assert(out@ =~= before + seq![bytes@[i as int]]);
        i += 1;
    }
    assert(bytes@.skip(i as int) =~= Seq::<u8>::empty());
    assert(out@ + Seq::<u8>::empty() =~= out@);
    out
}

/// Bytes without `%` are left as they are by percent-decoding.
proof fn lemma_percent_free_bytes(b: Seq<u8>)
    requires
        !b.contains(37u8),
    ensures
        percent_decode_bytes(b) == b,
    decreases b.len(),
{
    if b.len() > 0 {
        assert(b[0] != 37u8);
        if b.drop_first().contains(37u8) {
            let j = choose|j: int| 0 <= j < b.drop_first().len() && b.drop_first()[j] == 37u8;
            assert(b[j + 1] == 37u8);
        }
        lemma_percent_free_bytes(b.drop_first());
        assert(seq![b[0]] + b.drop_first() =~= b);
    }
}

/// The UTF-8 encoding of a character other than `%` holds no `%` byte:
/// the bytes of a multi-byte encoding all have their high bit set.
proof fn lemma_encode_scalar_no_percent(c: char)
    requires
        c != '%',
    ensures
        !encode_scalar(c as u32).contains(37u8),
{
    let v = c as u32;
    vstd::utf8::char_is_scalar(c);
    assert(('%' as u32) == 37);
    let e = encode_scalar(v);
    if has_width_1_encoding(v) {
        assert((v & 0x7F) as u8 == v) by (bit_vector)
            requires
                v <= 0x7F,
        ;
        assert(e =~= seq![v as u8]);
        if e.contains(37u8) {
            let j = choose|j: int| 0 <= j < e.len() && e[j] == 37u8;
            assert(e[0] == 37u8);
        }
    } else {
        let y1 = ((v >> 6) & 0x1F) as u8;
        let y2 = ((v >> 12) & 0x0F) as u8;
        let y3 = ((v >> 18) & 0x7) as u8;
        let z1 = (v & 0x3F) as u8;
        let z2 = ((v >> 6) & 0x3F) as u8;
        let z3 = ((v >> 12) & 0x3F) as u8;
        assert((0xC0u8 | y1) >= 0x80u8) by (bit_vector);
        assert((0xE0u8 | y2) >= 0x80u8) by (bit_vector);
        assert((0xF0u8 | y3) >= 0x80u8) by (bit_vector);
        assert((0x80u8 | z1) >= 0x80u8) by (bit_vector);
        assert((0x80u8 | z2) >= 0x80u8) by (bit_vector);
        assert((0x80u8 | z3) >= 0x80u8) by (bit_vector);
        assert(forall|j: int| 0 <= j < e.len() ==> e[j] >= 0x80u8);
    }
}

/// Text without `%` encodes to bytes without `%`.
proof fn lemma_encode_no_percent(s: Seq<char>)
    requires
        !s.contains('%'),
    ensures
        !encode_utf8(s).contains(37u8),
    decreases s.len(),
{
    if s.len() > 0 {
        assert(s[0] != '%');
        if s.drop_first().contains('%') {
            let j = choose|j: int| 0 <= j < s.drop_first().len() && s.drop_first()[j] == '%';
            assert(s[j + 1] == '%');
        }
        lemma_encode_scalar_no_percent(s[0]);
        lemma_encode_no_percent(s.drop_first());
        let a = encode_scalar(s[0] as u32);
        let b = encode_utf8(s.drop_first());
        assert(encode_utf8(s) == a + b);
        if (a + b).contains(37u8) {
            let j = choose|j: int| 0 <= j < (a + b).len() && (a + b)[j] == 37u8;
            if j < a.len() {
                assert(a[j] == 37u8);
            } else {
                assert(b[j - a.len()] == 37u8);
            }
        }
    }
}

impl<'a> PercentDecode<'a> {
    /// The decoded text; bytes that are not valid UTF-8 become U+FFFD.
    /// Text without `%` decodes to itself.
    pub fn decode_utf8_lossy(self) -> (r: String)
        ensures
            r@ == percent_decoded(self.0@),
            valid_utf8(percent_decode_bytes(encode_utf8(self.0@))) ==> r@ == decode_utf8(
                percent_decode_bytes(encode_utf8(self.0@)),
            ),
            percent_decode_bytes(encode_utf8(self.0@)).len() == 1 && percent_decode_bytes(
                encode_utf8(self.0@),
            )[0] >= 0x80 ==> r@ == seq!['\u{FFFD}'],
            !self.0@.contains('%') ==> r@ == self.0@,
    {
        let bytes = percent_decode_exec(self.0.as_bytes());
        proof {
            if !self.0@.contains('%') {
                lemma_encode_no_percent(self.0@);
                lemma_percent_free_bytes(encode_utf8(self.0@));
                vstd::utf8::encode_utf8_valid_utf8(self.0@);
                vstd::utf8::encode_utf8_decode_utf8(self.0@);
            }
        }
        std_from_utf8_lossy(bytes.as_slice())
    }
}

/// A date and time of day, as parsed from `YYYY-MM-DDTHH:MM:SS`.
#[derive(Clone, Copy, Debug, PartialEq, Eq, Structural)]
pub struct NaiveDateTime {
    pub year: u32,
    pub month: u32,
    pub day: u32,
    pub hour: u32,
    pub minute: u32,
    pub second: u32,
}

/// An ASCII decimal digit.
pub open spec fn is_digit_byte(c: u8) -> bool {
    48 <= c <= 57
}

/// The number written by the two digit bytes at `i`.
pub open spec fn two_digits(b: Seq<u8>, i: int) -> int {
    10 * (b[i] - 48) + (b[i + 1] - 48)
}

/// The shape `YYYY-MM-DDTHH:MM:SS`: nineteen bytes, digits where the
/// numbers go and `-`, `T` and `:` between them.
pub open spec fn datetime_shape(b: Seq<u8>) -> bool {
    &&& b.len() == 19
    &&& b[4] == 45
    &&& b[7] == 45
    &&& b[10] == 84
    &&& b[13] == 58
    &&& b[16] == 58
    &&& forall|k: int|
        0 <= k < 19 && k != 4 && k != 7 && k != 10 && k != 13 && k != 16 ==> is_digit_byte(
            #[trigger] b[k],
        )
}

/// Gregorian leap years.
pub open spec fn is_leap_year(y: int) -> bool {
    (y % 4 == 0 && y % 100 != 0) || y % 400 == 0
}

/// The number of days of month `m` of year `y`.
pub open spec fn days_in_month(y: int, m: int) -> int {
    if m == 2 {
        if is_leap_year(y) {
            29
        } else {
            28
        }
    } else if m == 4 || m == 6 || m == 9 || m == 11 {
        30
    } else {
        31
    }
}

/// The date-time written in text of the right shape.
pub open spec fn datetime_of(b: Seq<u8>) -> NaiveDateTime {
    NaiveDateTime {
        year: (100 * two_digits(b, 0) + two_digits(b, 2)) as u32,
        month: two_digits(b, 5) as u32,
        day: two_digits(b, 8) as u32,
        hour: two_digits(b, 11) as u32,
        minute: two_digits(b, 14) as u32,
        second: two_digits(b, 17) as u32,
    }
}

/// A real calendar date and time of day: month 1 to 12, a day the month
/// has, hour below 24, minute and second below 60.
pub open spec fn valid_datetime(t: NaiveDateTime) -> bool {
    &&& 1 <= t.month <= 12
    &&& 1 <= t.day <= days_in_month(t.year as int, t.month as int)
    &&& t.hour < 24
    &&& t.minute < 60
    &&& t.second < 60
}

/// Days from 0000-03-01 (shifted by 400 years, so that every count is
/// positive) to the given date, counting leap days by the Gregorian rule.
pub open spec fn day_number(y: int, m: int, d: int) -> int {
    let yy = (if m <= 2 {
        y - 1
    } else {
        y
    }) + 400;
    let mp = if m > 2 {
        m - 3
    } else {
        m + 9
    };
    365 * yy + yy / 4 - yy / 100 + yy / 400 + (153 * mp + 2) / 5 + d - 1
}

/// Seconds from 1970-01-01T00:00:00 to the date-time, read as UTC.
pub open spec fn epoch_seconds(t: NaiveDateTime) -> int {
    (day_number(t.year as int, t.month as int, t.day as int) - day_number(1970, 1, 1)) * 86400
        + t.hour * 3600 + t.minute * 60 + t.second
}

fn two_digits_exec(b: &[u8], i: usize) -> (r: u32)
    requires
        i + 1 < b@.len(),
        is_digit_byte(b@[i as int]),
        is_digit_byte(b@[i + 1]),
    ensures
        r as int == two_digits(b@, i as int),
        r < 100,
{
    ((b[i] - 48) as u32) * 10 + ((b[i + 1] - 48) as u32)
}

fn days_in_month_exec(y: u32, m: u32) -> (r: u32)
    ensures
        r as int == days_in_month(y as int, m as int),
{
    if m == 2 {
        if (y % 4 == 0 && y % 100 != 0) || y % 400 == 0 {
            29
        } else {
            28
        }
    } else if m == 4 || m == 6 || m == 9 || m == 11 {
        30
    } else {
        31
    }
}

impl NaiveDateTime {
    /// Parse a date-time written `YYYY-MM-DDTHH:MM:SS`; it must be a real
    /// calendar date and time of day.  The format argument is not consulted.
    pub fn parse_from_str(s: &str, fmt: &str) -> (r: Result<NaiveDateTime, ()>)
        ensures
            r is Ok <==> datetime_shape(encode_utf8(s@)) && valid_datetime(
                datetime_of(encode_utf8(s@)),
            ),
            r matches Ok(t) ==> t == datetime_of(encode_utf8(s@)),
    {
        let b = s.as_bytes();
        if b.len() != 19 || b[4] != 45 || b[7] != 45 || b[10] != 84 || b[13] != 58 || b[16] != 58 {
            return Err(());
        }
        let mut k: usize = 0;
        while k < 19
            invariant
                b@.len() == 19,
                b@ == encode_utf8(s@),
                k <= 19,
                forall|j: int|
                    0 <= j < k && j != 4 && j != 7 && j != 10 && j != 13 && j != 16 ==> is_digit_byte(
                        #[trigger] b@[j],
                    ),
            decreases 19 - k,
        {
            if k != 4 && k != 7 && k != 10 && k != 13 && k != 16 && !(48 <= b[k] && b[k] <= 57) {
                assert(!is_digit_byte(b@[k as int]));
                return Err(());
            }
            k += 1;
        }
        let year = two_digits_exec(b, 0) * 100 + two_digits_exec(b, 2);
        let month = two_digits_exec(b, 5);
        let day = two_digits_exec(b, 8);
        let hour = two_digits_exec(b, 11);
        let minute = two_digits_exec(b, 14);
        let second = two_digits_exec(b, 17);
        let t = NaiveDateTime { year, month, day, hour, minute, second };
        assert(t == datetime_of(b@));
        if month < 1 || month > 12 || day < 1 || day > days_in_month_exec(year, month) || hour >= 24
            || minute >= 60 || second >= 60 {
            return Err(());
        }
        Ok(t)
    }

    /// The same date-time, taken as UTC.
    pub fn and_utc(&self) -> (r: NaiveDateTime)
        ensures
            r == *self,
    {
        *self
    }

    /// Seconds since the Unix epoch, reading the date-time as UTC; negative
    /// before 1970.
    pub fn timestamp(&self) -> (r: i64)
        requires
            self.year <= 9999,
            1 <= self.month <= 12,
            self.hour < 24,
            self.minute < 60,
            self.second < 60,
            self.day <= 31,
        ensures
            r == epoch_seconds(*self),
    {
        let y: i64 = if self.month <= 2 {
            self.year as i64 - 1
        } else {
            self.year as i64
        } + 400;
        let mp: i64 = if self.month > 2 {
            self.month as i64 - 3
        } else {
            self.month as i64 + 9
        };
        let days: i64 = 365 * y + y / 4 - y / 100 + y / 400 + (153 * mp + 2) / 5 + self.day as i64 - 1;
        let epoch_days: i64 = 365 * 2369 + 2369 / 4 - 2369 / 100 + 2369 / 400 + (153 * 10 + 2) / 5;
        assert(epoch_days == day_number(1970, 1, 1));
        (days - epoch_days) * 86400 + self.hour as i64 * 3600 + self.minute as i64 * 60
            + self.second as i64
    }
}

} // verus!

verus! {

/// The deletion time recorded by a `DeletionDate=` value: seconds since
/// the epoch of a valid date-time, with dates before 1970 counted as the
/// epoch; `None` when the value is not a valid date-time.
pub open spec fn deletion_seconds(value: Seq<char>) -> Option<u64> {
    let b = encode_utf8(value);
    if datetime_shape(b) && valid_datetime(datetime_of(b)) {
        Some(
            if epoch_seconds(datetime_of(b)) < 0 {
                0u64
            } else {
                epoch_seconds(datetime_of(b)) as u64
            },
        )
    } else {
        None
    }
}

/// The parse state of `.trashinfo` text: the original path and the
/// deletion time, from the last line of each kind that holds a valid one.
pub open spec fn trashinfo_step(st: (Option<Seq<char>>, Option<u64>), line: Seq<char>) -> (Option<Seq<char>>, Option<u64>) {
    let path = if has_prefix(line, "Path="@) {
        Some(percent_decoded(line.skip(5)))
    } else {
        st.0
    };
    let dated = if has_prefix(line, "DeletionDate="@) && deletion_seconds(line.skip(13)) is Some {
        deletion_seconds(line.skip(13))
    } else {
        st.1
    };
    (path, dated)
}

pub open spec fn trashinfo_fold(ls: Seq<Seq<char>>, st: (Option<Seq<char>>, Option<u64>)) -> (Option<Seq<char>>, Option<u64>)
    decreases ls.len(),
{
    if ls.len() == 0 {
        st
    } else {
        trashinfo_fold(ls.drop_first(), trashinfo_step(st, ls[0]))
    }
}

proof fn lemma_trashinfo_no_path(ls: Seq<Seq<char>>, st: (Option<Seq<char>>, Option<u64>))
    requires
        forall|i: int| 0 <= i < ls.len() ==> !has_prefix(#[trigger] ls[i], "Path="@),
    ensures
        trashinfo_fold(ls, st).0 == st.0,
    decreases ls.len(),
{
    if ls.len() > 0 {
        assert(!has_prefix(ls[0], "Path="@));
        assert forall|i: int| 0 <= i < ls.drop_first().len() implies !has_prefix(
            #[trigger] ls.drop_first()[i],
            "Path="@,
        ) by {
            assert(ls.drop_first()[i] == ls[i + 1]);
        }
        lemma_trashinfo_no_path(ls.drop_first(), trashinfo_step(st, ls[0]));
    }
}

proof fn lemma_trashinfo_path_stays(ls: Seq<Seq<char>>, st: (Option<Seq<char>>, Option<u64>))
    requires
        st.0 is Some,
    ensures
        trashinfo_fold(ls, st).0 is Some,
    decreases ls.len(),
{
    if ls.len() > 0 {
        lemma_trashinfo_path_stays(ls.drop_first(), trashinfo_step(st, ls[0]));
    }
}

proof fn lemma_trashinfo_last_path(ls: Seq<Seq<char>>, st: (Option<Seq<char>>, Option<u64>), k: int)
    requires
        0 <= k < ls.len(),
        has_prefix(ls[k], "Path="@),
        forall|j: int| k < j < ls.len() ==> !has_prefix(#[trigger] ls[j], "Path="@),
    ensures
        trashinfo_fold(ls, st).0 == Some(percent_decoded(ls[k].skip(5))),
    decreases ls.len(),
{
    let rest = ls.drop_first();
    if k == 0 {
        assert forall|i: int| 0 <= i < rest.len() implies !has_prefix(#[trigger] rest[i], "Path="@) by {
            assert(rest[i] == ls[i + 1]);
        }
        lemma_trashinfo_no_path(rest, trashinfo_step(st, ls[0]));
    } else {
        assert forall|j: int| k - 1 < j < rest.len() implies !has_prefix(#[trigger] rest[j], "Path="@) by {
            assert(rest[j] == ls[j + 1]);
        }
        assert(rest[k - 1] == ls[k]);
        lemma_trashinfo_last_path(rest, trashinfo_step(st, ls[0]), k - 1);
    }
}

proof fn lemma_trashinfo_some_path(ls: Seq<Seq<char>>, st: (Option<Seq<char>>, Option<u64>), i: int)
    requires
        0 <= i < ls.len(),
        has_prefix(ls[i], "Path="@),
    ensures
        trashinfo_fold(ls, st).0 is Some,
    decreases ls.len(),
{
    let rest = ls.drop_first();
    if i == 0 {
        lemma_trashinfo_path_stays(rest, trashinfo_step(st, ls[0]));
    } else {
        assert(rest[i - 1] == ls[i]);
        lemma_trashinfo_some_path(rest, trashinfo_step(st, ls[0]), i - 1);
    }
}

/// The original path a `.trashinfo` text records (its last `Path=` line,
/// percent-decoded) with the deletion time in seconds since the epoch.
/// A missing or malformed date counts as the epoch.
pub open spec fn parse_trashinfo_spec(content: Seq<char>) -> Option<(Seq<char>, u64)> {
    let st = trashinfo_fold(lines(content), (None, None));
    match st.0 {
        Some(p) => Some((
            p,
            match st.1 {
                Some(t) => t,
                None => 0,
            },
        )),
        None => None,
    }
}

/// The trash directory under a data directory, or `~/.local/share/Trash`.
pub open spec fn trash_dir_spec(data_dir: Option<Seq<char>>) -> Seq<char> {
    match data_dir {
        Some(d) => joined(d, "Trash"@),
        None => "~/.local/share/Trash"@,
    }
}

impl FreedesktopTrashManager {
    /// A manager that refuses permanent deletion.
    pub fn new() -> (r: Self)
        ensures
            !r.force,
    {
        FreedesktopTrashManager { force: false }
    }

    /// The trash directory: `Trash` under the user's data directory.
    pub fn trash_dir(data_dir: Option<&str>) -> (r: String)
        ensures
            r@ == trash_dir_spec(match data_dir { Some(d) => Some(d@), None => None }),
    {
        match data_dir {
            Some(d) => path_join(d, "Trash"),
            None => string_of(&chars_of("~/.local/share/Trash")),
        }
    }

    /// Where trashed files are kept.
    pub fn files_dir(data_dir: Option<&str>) -> (r: String)
        ensures
            r@ == joined(trash_dir_spec(match data_dir { Some(d) => Some(d@), None => None }), "files"@),
    {
        path_join(Self::trash_dir(data_dir).as_str(), "files")
    }

    /// Where `.trashinfo` files are kept.
    pub fn info_dir(data_dir: Option<&str>) -> (r: String)
        ensures
            r@ == joined(trash_dir_spec(match data_dir { Some(d) => Some(d@), None => None }), "info"@),
    {
        path_join(Self::trash_dir(data_dir).as_str(), "info")
    }

    /// The `.trashinfo` file of a trashed item named `name`.
    pub fn info_path(data_dir: Option<&str>, name: &str) -> (r: String)
        ensures
            r@ == joined(
                joined(trash_dir_spec(match data_dir { Some(d) => Some(d@), None => None }), "info"@),
                name@ + ".trashinfo"@,
            ),
    {
        let mut file = string_of(&chars_of(name));
        file.append(".trashinfo");
        path_join(Self::info_dir(data_dir).as_str(), file.as_str())
    }

    /// Read the original path and deletion time from `.trashinfo` text.
    pub fn parse_trashinfo(content: &str) -> (r: Option<(String, u64)>)
        ensures
            r matches Some(p) ==> parse_trashinfo_spec(content@) == Some((p.0@, p.1)),
            r is None ==> parse_trashinfo_spec(content@) is None,
    {
        let ls = lines_of(&chars_of(content));
        let mut path: Option<String> = None;
        let mut dated: Option<u64> = None;
        let mut k: usize = 0;
        let prefix_path = chars_of("Path=");
        let prefix_date = chars_of("DeletionDate=");
        proof {
            reveal_strlit("Path=");
            reveal_strlit("DeletionDate=");
        }
        assert(views(ls@).skip(0) =~= views(ls@));
        while k < ls.len()
            invariant
                k <= ls.len(),
                views(ls@) == lines(content@),
                prefix_path@ == "Path="@,
                prefix_date@ == "DeletionDate="@,
                prefix_path@.len() == 5,
                prefix_date@.len() == 13,
                trashinfo_fold(lines(content@), (None, None)) == trashinfo_fold(
                    views(ls@).skip(k as int),
                    (
                        match path {
                            Some(p) => Some(p@),
                            None => None,
                        },
                        dated,
                    ),
                ),
            decreases ls.len() - k,
        {
            let line = &ls[k];
            assert(views(ls@).skip(k as int).drop_first() =~= views(ls@).skip(k + 1));
            assert(views(ls@).skip(k as int)[0] == line@);
            if starts_with(line, &prefix_path) {
                let rest = slice_chars(line, 5, line.len());
                assert(rest@ =~= line@.skip(5));
                let text = string_of(&rest);
                path = Some(percent_decode_str(text.as_str()).decode_utf8_lossy());
            }
            if starts_with(line, &prefix_date) {
                let rest = slice_chars(line, 13, line.len());
                assert(rest@ =~= line@.skip(13));
                let text = string_of(&rest);
                match NaiveDateTime::parse_from_str(text.as_str(), "%Y-%m-%dT%H:%M:%S") {
                    Ok(dt) => {
                        let secs = dt.and_utc().timestamp();
                        dated = Some(
                            if secs < 0 {
                                0
                            } else {
                                secs as u64
                            },
                        );
                    },
                    Err(_) => {},
                }
            }
            k += 1;
        }
        assert(views(ls@).skip(k as int) =~= Seq::<Seq<char>>::empty());
        match path {
            Some(p) => Some(
                (
                    p,
                    match dated {
                        Some(t) => t,
                        None => 0,
                    },
                ),
            ),
            None => None,
        }
    }

    /// Permanent deletion is allowed only with the force flag.
    pub fn check_permanent_delete(&self) -> (r: Result<(), TrashError>)
        ensures
            r is Ok <==> self.force,
            r matches Err(e) ==> e is PermanentDeleteRefused,
    {
        if !self.force {
            Err(TrashError::PermanentDeleteRefused)
        } else {
            Ok(())
        }
    }

    /// The trash listing's item for the file at `path`, given the text of
    /// its `.trashinfo` file; `None` when that text records no path.
    pub fn trashed_item(path: &str, info: &str) -> (r: Option<TrashedItem>)
        ensures
            r matches Some(it) ==> it.path@ == path@ && parse_trashinfo_spec(info@) == Some(
                (it.original_path@, it.trashed_at),
            ),
            r is None ==> parse_trashinfo_spec(info@) is None,
    {
        match Self::parse_trashinfo(info) {
            Some((original, at)) => Some(
                TrashedItem {
                    path: string_of(&chars_of(path)),
                    original_path: original,
                    trashed_at: at,
                },
            ),
            None => None,
        }
    }
}

impl Default for FreedesktopTrashManager {
    /// A manager that refuses permanent deletion.
    fn default() -> (r: Self)
        ensures
            !r.force,
    {
        FreedesktopTrashManager::new()
    }
}

/// A `.trashinfo` text yields an item exactly when one of its lines starts
/// with `Path=`.
pub proof fn law_trashinfo_needs_path(content: Seq<char>)
    ensures
        parse_trashinfo_spec(content) is None <==> forall|i: int|
            0 <= i < lines(content).len() ==> !has_prefix(#[trigger] lines(content)[i], "Path="@),
{
    let ls = lines(content);
    if forall|i: int| 0 <= i < ls.len() ==> !has_prefix(#[trigger] ls[i], "Path="@) {
        lemma_trashinfo_no_path(ls, (None, None));
    } else {
        let i = choose|i: int| 0 <= i < ls.len() && has_prefix(#[trigger] ls[i], "Path="@);
        lemma_trashinfo_some_path(ls, (None, None), i);
    }
}

/// The original path of a trashed item is the percent-decoded text of the
/// last `Path=` line.
pub proof fn law_trashinfo_last_path_wins(content: Seq<char>, k: int)
    requires
        0 <= k < lines(content).len(),
        has_prefix(lines(content)[k], "Path="@),
        forall|j: int| k < j < lines(content).len() ==> !has_prefix(#[trigger] lines(content)[j], "Path="@),
    ensures
        parse_trashinfo_spec(content) matches Some(r) && r.0 == percent_decoded(lines(content)[k].skip(5)),
{
    lemma_trashinfo_last_path(lines(content), (None, None), k);
}

/// The upper-case hexadecimal digit for `n < 16`.
pub open spec fn hex_upper(n: int) -> u8 {
    if n < 10 {
        (48 + n) as u8
    } else {
        (55 + n) as u8
    }
}

/// Every byte written as `%XY` (two upper-case hexadecimal digits).
pub open spec fn percent_encode_bytes(b: Seq<u8>) -> Seq<u8>
    decreases b.len(),
{
    if b.len() == 0 {
        seq![]
    } else {
        seq![37u8, hex_upper(b[0] as int / 16), hex_upper(b[0] as int % 16)] + percent_encode_bytes(b.drop_first())
    }
}

/// The text that percent-encodes every byte of the UTF-8 encoding of `s`.
pub open spec fn percent_encoded(s: Seq<char>) -> Seq<char> {
    percent_encode_bytes(encode_utf8(s)).map_values(|b: u8| b as char)
}

proof fn lemma_percent_encode_ascii(b: Seq<u8>)
    ensures
        forall|i: int| 0 <= i < percent_encode_bytes(b).len() ==> #[trigger] percent_encode_bytes(b)[i]
            < 0x80,
        percent_encode_bytes(b).len() == 3 * b.len(),
    decreases b.len(),
{
    if b.len() > 0 {
        lemma_percent_encode_ascii(b.drop_first());
        let head = seq![37u8, hex_upper(b[0] as int / 16), hex_upper(b[0] as int % 16)];
        let rest = percent_encode_bytes(b.drop_first());
        assert forall|i: int| 0 <= i < (head + rest).len() implies #[trigger] (head + rest)[i] < 0x80 by {
            if i >= 3 {
                assert((head + rest)[i] == rest[i - 3]);
            }
        }
    }
}

proof fn lemma_percent_decode_encoded(b: Seq<u8>)
    ensures
        percent_decode_bytes(percent_encode_bytes(b)) == b,
    decreases b.len(),
{
    if b.len() > 0 {
        let e = percent_encode_bytes(b);
        let x = b[0];
        let hi = x as int / 16;
        let lo = x as int % 16;
        assert(hex_digit(hex_upper(hi)) == Some(hi as u8));
        assert(hex_digit(hex_upper(lo)) == Some(lo as u8));
        lemma_percent_encode_ascii(b.drop_first());
        assert(e[0] == 37u8 && e[1] == hex_upper(hi) && e[2] == hex_upper(lo));
        assert(e.skip(3) =~= percent_encode_bytes(b.drop_first()));
        assert((hi * 16 + lo) as u8 == x) by (nonlinear_arith)
            requires
                hi == x / 16,
                lo == x % 16,
        ;
        lemma_percent_decode_encoded(b.drop_first());
        assert(seq![x] + b.drop_first() =~= b);
    }
}

proof fn lemma_ascii_encode(b: Seq<u8>)
    requires
        forall|i: int| 0 <= i < b.len() ==> #[trigger] b[i] < 0x80,
    ensures
        encode_utf8(b.map_values(|c: u8| c as char)) == b,
    decreases b.len(),
{
    let cs = b.map_values(|c: u8| c as char);
    if b.len() > 0 {
        let v = b[0] as u32;
        assert(cs[0] as u32 == v);
        assert(has_width_1_encoding(v));
        assert((v & 0x7F) as u8 == v) by (bit_vector)
            requires
                v <= 0x7F,
        ;
        assert(cs.drop_first() =~= b.drop_first().map_values(|c: u8| c as char));
        lemma_ascii_encode(b.drop_first());
        assert(seq![b[0]] + b.drop_first() =~= b);
        assert(encode_scalar(v) =~= seq![b[0]]);
    } else {
        assert(cs =~= Seq::<char>::empty());
    }
}

/// Percent-encoding every byte of a text and decoding it again gives the
/// text back: the decoded bytes are the text's UTF-8 encoding, so
/// [`PercentDecode::decode_utf8_lossy`] returns the text itself.
pub proof fn law_percent_round_trip(s: Seq<char>)
    ensures
        percent_decode_bytes(encode_utf8(percent_encoded(s))) == encode_utf8(s),
        valid_utf8(percent_decode_bytes(encode_utf8(percent_encoded(s)))),
        decode_utf8(percent_decode_bytes(encode_utf8(percent_encoded(s)))) == s,
{
    let b = encode_utf8(s);
    lemma_percent_encode_ascii(b);
    lemma_ascii_encode(percent_encode_bytes(b));
    lemma_percent_decode_encoded(b);
    vstd::utf8::encode_utf8_valid_utf8(s);
    vstd::utf8::encode_utf8_decode_utf8(s);
}

} // verus!
