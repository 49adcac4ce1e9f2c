//! Where captures go and what they are called, and how the outcome of the
//! system's interactive capture tool is read.

use vstd::prelude::*;
use vstd::string::*;

verus! {

// ---------------------------------------------------------------------------
// Paths
// ---------------------------------------------------------------------------

/// `base` with the path component `part` adjoined: an absolute `part`
/// replaces `base`; otherwise a separator is inserted unless `base` is empty
/// or already ends with one.
pub open spec fn join_path(base: Seq<char>, part: Seq<char>) -> Seq<char> {
    if part.len() > 0 && part[0] == '/' {
        part
    } else if base.len() == 0 || base.last() == '/' {
        base + part
    } else {
        base + seq!['/'] + part
    }
}

/// Adjoins a path component, as `std::path::Path::join` does on Unix.
pub fn join_path_str(base: &str, part: &str) -> (joined: String)
    ensures
        joined@ == join_path(base@, part@),
{
    let plen = part.unicode_len();
    if plen > 0 && part.get_char(0) == '/' {
        return String::from_str(part);
    }
    let blen = base.unicode_len();
    if blen == 0 || base.get_char(blen - 1) == '/' {
        String::from_str(base).concat(part)
    } else {
        proof {
            reveal_strlit("/");
        }
        String::from_str(base).concat("/").concat(part)
    }
}

/// The captures folder inside the home folder `home`:
/// `<home>/Pictures/DigitShot`.
pub fn captures_dir(home: &str) -> (dir: String)
    ensures
        dir@ == join_path(join_path(home@, "Pictures"@), "DigitShot"@),
{
    let pictures = join_path_str(home, "Pictures");
    join_path_str(pictures.as_str(), "DigitShot")
}

/// The captures folder is always `Pictures/DigitShot` under the home
/// folder, whatever separator the home path ends with.
pub proof fn lemma_captures_dir_under_home(home: Seq<char>)
    ensures
        home.len() == 0 ==> join_path(join_path(home, "Pictures"@), "DigitShot"@)
            == "Pictures/DigitShot"@,
        home.len() > 0 && home.last() == '/' ==> join_path(join_path(home, "Pictures"@), "DigitShot"@)
            == home + "Pictures/DigitShot"@,
        home.len() > 0 && home.last() != '/' ==> join_path(
            join_path(home, "Pictures"@),
            "DigitShot"@,
        ) == home + "/Pictures/DigitShot"@,
{
    reveal_strlit("Pictures");
    reveal_strlit("DigitShot");
    reveal_strlit("Pictures/DigitShot");
    reveal_strlit("/Pictures/DigitShot");
    let p = join_path(home, "Pictures"@);
    assert(p.len() > 0 && p.last() == 's');
    if home.len() == 0 {
        assert(join_path(p, "DigitShot"@) =~= "Pictures/DigitShot"@);
    } else if home.last() == '/' {
        assert(join_path(p, "DigitShot"@) =~= home + "Pictures/DigitShot"@);
    } else {
        assert(join_path(p, "DigitShot"@) =~= home + "/Pictures/DigitShot"@);
    }
}

// ---------------------------------------------------------------------------
// Capture outcome
// ---------------------------------------------------------------------------

/// Interprets the result of a `screencapture -i` run.
/// Esc during capture exits 0 but writes no file -> `None`.
pub fn capture_result<P>(exit_success: bool, file_exists: bool, path: P) -> (r: Option<P>)
    ensures
        r == (if exit_success && file_exists {
            Some(path)
        } else {
            None
        }),
{
    if exit_success && file_exists {
        Some(path)
    } else {
        None
    }
}

// ---------------------------------------------------------------------------
// Local date and time, and the capture file name
// ---------------------------------------------------------------------------

/// Smallest year the calendar library represents.
pub const MIN_YEAR: i32 = -262143;

/// Largest year the calendar library represents.
pub const MAX_YEAR: i32 = 262142;

/// Proleptic Gregorian leap year.
pub open spec fn is_leap_year(y: int) -> bool {
    (y % 4 == 0 && y % 100 != 0) || y % 400 == 0
}

pub open spec fn days_in_month(y: int, m: int) -> int {
    if m == 2 {
        if is_leap_year(y) {
            29
        } else {
            28
        }
    } else if m == 4 || m == 6 || m == 9 || m == 11 {
        30
    } else {
        31
    }
}

/// A calendar date that exists and lies in the library's range of years.
pub open spec fn calendar_date_exists(y: int, m: int, d: int) -> bool {
    &&& MIN_YEAR <= y <= MAX_YEAR
    &&& 1 <= m <= 12
    &&& 1 <= d <= days_in_month(y, m)
}

/// A time of day without leap second.
pub open spec fn time_of_day_valid(h: int, mi: int, s: int) -> bool {
    h < 24 && mi < 60 && s < 60
}

/// Calls `chrono::NaiveDate::from_ymd_opt` and tells whether it gives a date.
/// Trusted: as chrono documents, `None` comes exactly for a day that does not
/// exist in the proleptic Gregorian calendar, an invalid month or day, or a
/// year outside `MIN_YEAR..=MAX_YEAR` (the crate's `MIN_YEAR`/`MAX_YEAR`).
#[verifier::external_body]
fn chrono_date_exists(year: i32, month: u32, day: u32) -> (r: bool)
    ensures
        r == calendar_date_exists(year as int, month as int, day as int),
{
    chrono::NaiveDate::from_ymd_opt(year, month, day).is_some()
}

/// A local wall-clock date and time, to the second.
#[derive(Clone, Copy, Debug, PartialEq, Eq)]
pub struct LocalTime {
    year: i32,
    month: u32,
    day: u32,
    hour: u32,
    minute: u32,
    second: u32,
}

impl View for LocalTime {
    /// `(year, month, day, hour, minute, second)`
    type V = (i32, u32, u32, u32, u32, u32);

    closed spec fn view(&self) -> (i32, u32, u32, u32, u32, u32) {
        (self.year, self.month, self.day, self.hour, self.minute, self.second)
    }
}

impl LocalTime {
    #[verifier::type_invariant]
    spec fn valid(self) -> bool {
        &&& calendar_date_exists(self.year as int, self.month as int, self.day as int)
        &&& time_of_day_valid(self.hour as int, self.minute as int, self.second as int)
    }

    /// The given date and time; `None` when the date does not exist or the
    /// time of day is invalid.
    pub fn new(year: i32, month: u32, day: u32, hour: u32, minute: u32, second: u32) -> (t:
        Option<LocalTime>)
        ensures
            t is Some <==> calendar_date_exists(year as int, month as int, day as int)
                && time_of_day_valid(hour as int, minute as int, second as int),
            t matches Some(lt) ==> lt@ == (year, month, day, hour, minute, second),
    {
        if chrono_date_exists(year, month, day) && hour < 24 && minute < 60 && second < 60 {
            Some(LocalTime { year, month, day, hour, minute, second })
        } else {
            None
        }
    }
}

/// Decimal digit `n` (0 to 9) as a character.
pub open spec fn digit_char(n: int) -> char {
    (48 + n) as char
}

/// Decimal digits of `n`, without leading zeros.
pub open spec fn decimal(n: nat) -> Seq<char>
    decreases n,
{
    if n < 10 {
        seq![digit_char(n as int)]
    } else {
        decimal(n / 10) + seq![digit_char((n % 10) as int)]
    }
}

/// `s` padded on the left with zeros to at least `width` characters.
pub open spec fn zero_pad(s: Seq<char>, width: nat) -> Seq<char> {
    if s.len() >= width {
        s
    } else {
        Seq::new((width - s.len()) as nat, |i: int| '0') + s
    }
}

/// The year as four digits at least; outside `0..=9999` with its sign.
pub open spec fn year_text(y: int) -> Seq<char> {
    if 0 <= y <= 9999 {
        zero_pad(decimal(y as nat), 4)
    } else if y < 0 {
        seq!['-'] + zero_pad(decimal((-y) as nat), 4)
    } else {
        seq!['+'] + zero_pad(decimal(y as nat), 4)
    }
}

pub open spec fn two_digits(n: int) -> Seq<char> {
    zero_pad(decimal(n as nat), 2)
}

/// The capture time stamp: `YYYY-MM-DD at HH.MM.SS`.
pub open spec fn stamp_text(t: (i32, u32, u32, u32, u32, u32)) -> Seq<char> {
    year_text(t.0 as int) + (seq!['-'] + (two_digits(t.1 as int) + (seq!['-'] + (two_digits(
        t.2 as int,
    ) + (seq![' ', 'a', 't', ' '] + (two_digits(t.3 as int) + (seq!['.'] + (two_digits(t.4 as int)
        + (seq!['.'] + two_digits(t.5 as int))))))))))
}

/// The capture file name for the local time `t`.
pub open spec fn capture_name(t: (i32, u32, u32, u32, u32, u32)) -> Seq<char> {
    "DigitShot "@ + stamp_text(t) + ".png"@
}

/// The chrono format string of the capture time stamp.
pub open spec fn stamp_pattern() -> Seq<char> {
    "%Y-%m-%d at %H.%M.%S"@
}

/// Calls chrono's `format` on the date and time `t` with the pattern
/// `%Y-%m-%d at %H.%M.%S` and renders it to a string.
/// Trusted: as chrono's formatting code writes them, `%Y` is the year
/// zero-padded to four digits (with a sign outside 0..=9999), `%m`, `%d`,
/// `%H`, `%M`, `%S` are zero-padded to two digits, and the other characters
/// are copied; the pattern is valid, so rendering does not fail, and the
/// date exists by `LocalTime`'s invariant, so building it does not fail.
#[verifier::external_body]
fn chrono_format(t: &LocalTime, pattern: &str) -> (s: String)
    requires
        pattern@ == stamp_pattern(),
    ensures
        s@ == stamp_text(t@),
{
    chrono::NaiveDate::from_ymd_opt(t.year, t.month, t.day).unwrap().and_hms_opt(
        t.hour,
        t.minute,
        t.second,
    ).unwrap().format(pattern).to_string()
}

/// File name of a capture taken at `now`:
/// `DigitShot YYYY-MM-DD at HH.MM.SS.png` (sortable, and safe for Finder).
pub fn capture_filename(now: &LocalTime) -> (name: String)
    ensures
        name@ == capture_name(now@),
{
    let stamp = chrono_format(now, "%Y-%m-%d at %H.%M.%S");
    String::from_str("DigitShot ").concat(stamp.as_str()).concat(".png")
}

// ---------------------------------------------------------------------------
// Capture names sort in time order
// ---------------------------------------------------------------------------

/// Lexicographic order of two texts by character code; on ASCII text, as
/// capture names are, this is the byte order that sorts file names.
pub open spec fn text_lt(a: Seq<char>, b: Seq<char>) -> bool
    decreases a.len(),
{
    if a.len() == 0 {
        b.len() > 0
    } else if b.len() == 0 {
        false
    } else if a[0] != b[0] {
        (a[0] as int) < (b[0] as int)
    } else {
        text_lt(a.drop_first(), b.drop_first())
    }
}

/// `a` is an earlier second than `b`: the order of
/// `(year, month, day, hour, minute, second)`, field after field.
pub open spec fn time_lt(a: (i32, u32, u32, u32, u32, u32), b: (i32, u32, u32, u32, u32, u32)) -> bool {
    ||| a.0 < b.0
    ||| a.0 == b.0 && a.1 < b.1
    ||| a.0 == b.0 && a.1 == b.1 && a.2 < b.2
    ||| a.0 == b.0 && a.1 == b.1 && a.2 == b.2 && a.3 < b.3
    ||| a.0 == b.0 && a.1 == b.1 && a.2 == b.2 && a.3 == b.3 && a.4 < b.4
    ||| a.0 == b.0 && a.1 == b.1 && a.2 == b.2 && a.3 == b.3 && a.4 == b.4 && a.5 < b.5
}

/// The fields of a `LocalTime`: an existing date and a valid time of day.
pub open spec fn local_time_valid(t: (i32, u32, u32, u32, u32, u32)) -> bool {
    &&& calendar_date_exists(t.0 as int, t.1 as int, t.2 as int)
    &&& time_of_day_valid(t.3 as int, t.4 as int, t.5 as int)
}

proof fn lemma_text_lt_irreflexive(a: Seq<char>)
    ensures
        !text_lt(a, a),
    decreases a.len(),
{
    if a.len() > 0 {
        lemma_text_lt_irreflexive(a.drop_first());
    }
}

/// A common prefix does not change the order.
proof fn lemma_common_prefix(p: Seq<char>, a: Seq<char>, b: Seq<char>)
    ensures
        text_lt(p + a, p + b) == text_lt(a, b),
    decreases p.len(),
{
    if p.len() == 0 {
        assert(p + a =~= a);
        assert(p + b =~= b);
    } else {
        assert((p + a).drop_first() =~= p.drop_first() + a);
        assert((p + b).drop_first() =~= p.drop_first() + b);
        lemma_common_prefix(p.drop_first(), a, b);
    }
}

/// Two heads of the same length that differ decide the order, whatever
/// follows them.
proof fn lemma_heads_decide(a1: Seq<char>, a2: Seq<char>, r1: Seq<char>, r2: Seq<char>)
    requires
        a1.len() == a2.len(),
        text_lt(a1, a2),
    ensures
        text_lt(a1 + r1, a2 + r2),
    decreases a1.len(),
{
    assert((a1 + r1)[0] == a1[0]);
    assert((a2 + r2)[0] == a2[0]);
    if a1[0] == a2[0] {
        assert((a1 + r1).drop_first() =~= a1.drop_first() + r1);
        assert((a2 + r2).drop_first() =~= a2.drop_first() + r2);
        lemma_heads_decide(a1.drop_first(), a2.drop_first(), r1, r2);
    }
}

proof fn lemma_two_digits(n: int)
    requires
        0 <= n < 100,
    ensures
        two_digits(n) == seq![digit_char(n / 10), digit_char(n % 10)],
{
    reveal_with_fuel(decimal, 2);
    if n < 10 {
        assert(decimal(n as nat) == seq![digit_char(n)]);
        assert(two_digits(n) =~= seq![digit_char(n / 10), digit_char(n % 10)]);
    } else {
        assert(decimal(n as nat) =~= seq![digit_char(n / 10), digit_char(n % 10)]);
    }
}

proof fn lemma_two_digits_order(a: int, b: int)
    requires
        0 <= a < b < 100,
    ensures
        text_lt(two_digits(a), two_digits(b)),
{
    lemma_two_digits(a);
    lemma_two_digits(b);
    let x = two_digits(a);
    let y = two_digits(b);
    assert(digit_char(a / 10) as int == 48 + a / 10);
    assert(digit_char(b / 10) as int == 48 + b / 10);
    assert(digit_char(a % 10) as int == 48 + a % 10);
    assert(digit_char(b % 10) as int == 48 + b % 10);
    if a / 10 == b / 10 {
        assert(x.drop_first() =~= seq![digit_char(a % 10)]);
        assert(y.drop_first() =~= seq![digit_char(b % 10)]);
        assert(text_lt(x.drop_first(), y.drop_first()));
    }
}

/// A two-digit field decides the order, or, when equal, what follows it.
proof fn lemma_field_step(a: int, b: int, r1: Seq<char>, r2: Seq<char>)
    requires
        0 <= a < 100,
        0 <= b < 100,
        a < b || (a == b && text_lt(r1, r2)),
    ensures
        text_lt(two_digits(a) + r1, two_digits(b) + r2),
{
    lemma_two_digits(a);
    lemma_two_digits(b);
    if a < b {
        lemma_two_digits_order(a, b);
        lemma_heads_decide(two_digits(a), two_digits(b), r1, r2);
    } else {
        lemma_common_prefix(two_digits(a), r1, r2);
    }
}

proof fn lemma_year_text(y: int)
    requires
        0 <= y <= 9999,
    ensures
        year_text(y) == two_digits(y / 100) + two_digits(y % 100),
{
    reveal_with_fuel(decimal, 4);
    lemma_two_digits(y / 100);
    lemma_two_digits(y % 100);
    assert(digit_char(0) == '0');
    assert((y % 100) / 10 == (y / 10) % 10);
    assert((y / 100) / 10 == y / 1000);
    assert((y / 10) / 10 == y / 100);
    if y < 10 {
        assert(decimal(y as nat) == seq![digit_char(y)]);
        assert(year_text(y) =~= two_digits(y / 100) + two_digits(y % 100));
    } else if y < 100 {
        assert(decimal(y as nat) =~= seq![digit_char(y / 10), digit_char(y % 10)]);
        assert(year_text(y) =~= two_digits(y / 100) + two_digits(y % 100));
    } else if y < 1000 {
        assert(decimal(y as nat) =~= seq![
            digit_char(y / 100),
            digit_char((y / 10) % 10),
            digit_char(y % 10),
        ]);
        assert(year_text(y) =~= two_digits(y / 100) + two_digits(y % 100));
    } else {
        assert(decimal(y as nat) =~= seq![
            digit_char(y / 1000),
            digit_char((y / 100) % 10),
            digit_char((y / 10) % 10),
            digit_char(y % 10),
        ]);
        assert(year_text(y) =~= two_digits(y / 100) + two_digits(y % 100));
    }
}

/// The year decides the order, or, when equal, what follows it.
proof fn lemma_year_step(a: int, b: int, r1: Seq<char>, r2: Seq<char>)
    requires
        0 <= a <= 9999,
        0 <= b <= 9999,
        a < b || (a == b && text_lt(r1, r2)),
    ensures
        text_lt(year_text(a) + r1, year_text(b) + r2),
{
    lemma_year_text(a);
    lemma_year_text(b);
    lemma_two_digits(a / 100);
    lemma_two_digits(b / 100);
    lemma_two_digits(a % 100);
    lemma_two_digits(b % 100);
    if a < b {
        if a / 100 < b / 100 {
            lemma_field_step(a / 100, b / 100, two_digits(a % 100), two_digits(b % 100));
        } else {
            lemma_two_digits_order(a % 100, b % 100);
            lemma_field_step(a / 100, b / 100, two_digits(a % 100), two_digits(b % 100));
        }
        lemma_heads_decide(year_text(a), year_text(b), r1, r2);
    } else {
        lemma_common_prefix(year_text(a), r1, r2);
    }
}

proof fn lemma_stamp_order(t1: (i32, u32, u32, u32, u32, u32), t2: (i32, u32, u32, u32, u32, u32))
    requires
        local_time_valid(t1),
        local_time_valid(t2),
        0 <= t1.0 <= 9999,
        0 <= t2.0 <= 9999,
        time_lt(t1, t2),
    ensures
        text_lt(stamp_text(t1), stamp_text(t2)),
{
    let dot = seq!['.'];
    let dash = seq!['-'];
    let at = seq![' ', 'a', 't', ' '];
    let s1 = dot + two_digits(t1.5 as int);
    let s2 = dot + two_digits(t2.5 as int);
    if t1.5 < t2.5 {
        lemma_two_digits_order(t1.5 as int, t2.5 as int);
        lemma_common_prefix(dot, two_digits(t1.5 as int), two_digits(t2.5 as int));
    }
    let m1 = dot + (two_digits(t1.4 as int) + s1);
    let m2 = dot + (two_digits(t2.4 as int) + s2);
    if t1.4 < t2.4 || (t1.4 == t2.4 && t1.5 < t2.5) {
        lemma_field_step(t1.4 as int, t2.4 as int, s1, s2);
        lemma_common_prefix(dot, two_digits(t1.4 as int) + s1, two_digits(t2.4 as int) + s2);
    }
    let h1 = at + (two_digits(t1.3 as int) + m1);
    let h2 = at + (two_digits(t2.3 as int) + m2);
    if t1.3 < t2.3 || (t1.3 == t2.3 && text_lt(m1, m2)) {
        lemma_field_step(t1.3 as int, t2.3 as int, m1, m2);
        lemma_common_prefix(at, two_digits(t1.3 as int) + m1, two_digits(t2.3 as int) + m2);
    }
    let d1 = dash + (two_digits(t1.2 as int) + h1);
    let d2 = dash + (two_digits(t2.2 as int) + h2);
    if t1.2 < t2.2 || (t1.2 == t2.2 && text_lt(h1, h2)) {
        lemma_field_step(t1.2 as int, t2.2 as int, h1, h2);
        lemma_common_prefix(dash, two_digits(t1.2 as int) + h1, two_digits(t2.2 as int) + h2);
    }
    let n1 = dash + (two_digits(t1.1 as int) + d1);
    let n2 = dash + (two_digits(t2.1 as int) + d2);
    if t1.1 < t2.1 || (t1.1 == t2.1 && text_lt(d1, d2)) {
        lemma_field_step(t1.1 as int, t2.1 as int, d1, d2);
        lemma_common_prefix(dash, two_digits(t1.1 as int) + d1, two_digits(t2.1 as int) + d2);
    }
    lemma_year_step(t1.0 as int, t2.0 as int, n1, n2);
}

/// Capture names sort in time order: for local times whose years have four
/// digits, a capture taken in an earlier second has a name that sorts
/// before the later one's, and two captures get the same name exactly when
/// they are taken in the same second.
pub proof fn lemma_capture_names_sort_by_time(
    t1: (i32, u32, u32, u32, u32, u32),
    t2: (i32, u32, u32, u32, u32, u32),
)
    requires
        local_time_valid(t1),
        local_time_valid(t2),
        0 <= t1.0 <= 9999,
        0 <= t2.0 <= 9999,
    ensures
        time_lt(t1, t2) ==> text_lt(capture_name(t1), capture_name(t2)),
        capture_name(t1) == capture_name(t2) <==> t1 == t2,
{
    let p = "DigitShot "@;
    let sfx = ".png"@;
    lemma_year_text(t1.0 as int);
    lemma_year_text(t2.0 as int);
    lemma_two_digits(t1.0 as int / 100);
    lemma_two_digits(t2.0 as int / 100);
    lemma_two_digits(t1.0 as int % 100);
    lemma_two_digits(t2.0 as int % 100);
    lemma_two_digits(t1.1 as int);
    lemma_two_digits(t2.1 as int);
    lemma_two_digits(t1.2 as int);
    lemma_two_digits(t2.2 as int);
    lemma_two_digits(t1.3 as int);
    lemma_two_digits(t2.3 as int);
    lemma_two_digits(t1.4 as int);
    lemma_two_digits(t2.4 as int);
    lemma_two_digits(t1.5 as int);
    lemma_two_digits(t2.5 as int);
    assert(stamp_text(t1).len() == stamp_text(t2).len());
    assert(capture_name(t1) =~= p + (stamp_text(t1) + sfx));
    assert(capture_name(t2) =~= p + (stamp_text(t2) + sfx));
    if time_lt(t1, t2) {
        lemma_stamp_order(t1, t2);
        lemma_heads_decide(stamp_text(t1), stamp_text(t2), sfx, sfx);
        lemma_common_prefix(p, stamp_text(t1) + sfx, stamp_text(t2) + sfx);
    }
    if time_lt(t2, t1) {
        lemma_stamp_order(t2, t1);
        lemma_heads_decide(stamp_text(t2), stamp_text(t1), sfx, sfx);
        lemma_common_prefix(p, stamp_text(t2) + sfx, stamp_text(t1) + sfx);
    }
    if t1 != t2 {
        assert(time_lt(t1, t2) || time_lt(t2, t1));
        lemma_text_lt_irreflexive(capture_name(t1));
    }
}

} // verus!
