//! Calendar timestamps as plain values, with the two textual forms the
//! store uses: the compact `YYYYMMDD_HHMMSS` file-name form and the
//! canonical `YYYY-MM-DDTHH:MM:SS+00:00` form. Records written long ago
//! carry the compact form; `normalize_timestamp` rewrites such a value
//! to the canonical form at the read boundary and leaves everything
//! else untouched.

use vstd::prelude::*;

verus! {

/// A wall-clock instant, broken into calendar fields (always UTC).
#[derive(Clone, Copy, PartialEq, Eq, Structural, Debug)]
pub struct Timestamp {
    pub year: u16,
    pub month: u8,
    pub day: u8,
    pub hour: u8,
    pub minute: u8,
    pub second: u8,
}

pub open spec fn is_leap_year(y: int) -> bool {
    y % 4 == 0 && (y % 100 != 0 || y % 400 == 0)
}

pub open spec fn days_in_month(y: int, m: int) -> int {
    if m == 2 {
        if is_leap_year(y) {
            29
        } else {
            28
        }
    } else if m == 4 || m == 6 || m == 9 || m == 11 {
        30
    } else {
        31
    }
}

impl Timestamp {
    /// The fields name a real calendar instant with a four-digit year.
    pub open spec fn wf(self) -> bool {
        self.year <= 9999 && 1 <= self.month <= 12 && 1 <= self.day <= days_in_month(
            self.year as int,
            self.month as int,
        ) && self.hour < 24 && self.minute < 60 && self.second < 60
    }
}

pub open spec fn digit_char(d: int) -> char {
    if d == 0 {
        '0'
    } else if d == 1 {
        '1'
    } else if d == 2 {
        '2'
    } else if d == 3 {
        '3'
    } else if d == 4 {
        '4'
    } else if d == 5 {
        '5'
    } else if d == 6 {
        '6'
    } else if d == 7 {
        '7'
    } else if d == 8 {
        '8'
    } else {
        '9'
    }
}

pub open spec fn two_digits(v: int) -> Seq<char> {
    seq![digit_char(v / 10), digit_char(v % 10)]
}

pub open spec fn four_digits(v: int) -> Seq<char> {
    seq![digit_char(v / 1000), digit_char((v / 100) % 10), digit_char((v / 10) % 10), digit_char(v % 10)]
}

/// The compact form `YYYYMMDD_HHMMSS` used in file names.
pub open spec fn compact_format(ts: Timestamp) -> Seq<char> {
    four_digits(ts.year as int) + two_digits(ts.month as int) + two_digits(ts.day as int)
        + seq!['_'] + two_digits(ts.hour as int) + two_digits(ts.minute as int) + two_digits(
        ts.second as int,
    )
}

/// The canonical UTC form `YYYY-MM-DDTHH:MM:SS+00:00`.
pub open spec fn iso_format(ts: Timestamp) -> Seq<char> {
    four_digits(ts.year as int) + seq!['-'] + two_digits(ts.month as int) + seq!['-']
        + two_digits(ts.day as int) + seq!['T'] + two_digits(ts.hour as int) + seq![':']
        + two_digits(ts.minute as int) + seq![':'] + two_digits(ts.second as int) + seq![
        '+',
        '0',
        '0',
        ':',
        '0',
        '0',
    ]
}

fn digit_str(d: u8) -> (r: &'static str)
    requires
        d < 10,
    ensures
        r@ == seq![digit_char(d as int)],
{
    proof {
        reveal_strlit("0");
        reveal_strlit("1");
        reveal_strlit("2");
        reveal_strlit("3");
        reveal_strlit("4");
        reveal_strlit("5");
        reveal_strlit("6");
        reveal_strlit("7");
        reveal_strlit("8");
        reveal_strlit("9");
        assert("0"@ =~= seq![digit_char(0)]);
        assert("1"@ =~= seq![digit_char(1)]);
        assert("2"@ =~= seq![digit_char(2)]);
        assert("3"@ =~= seq![digit_char(3)]);
        assert("4"@ =~= seq![digit_char(4)]);
        assert("5"@ =~= seq![digit_char(5)]);
        assert("6"@ =~= seq![digit_char(6)]);
        assert("7"@ =~= seq![digit_char(7)]);
        assert("8"@ =~= seq![digit_char(8)]);
        assert("9"@ =~= seq![digit_char(9)]);
    }
    match d {
        0 => "0",
        1 => "1",
        2 => "2",
        3 => "3",
        4 => "4",
        5 => "5",
        6 => "6",
        7 => "7",
        8 => "8",
        _ => "9",
    }
}

fn push_two_digits(s: &mut String, v: u8)
    requires
        v < 100,
    ensures
        final(s)@ == old(s)@ + two_digits(v as int),
{
    s.append(digit_str(v / 10));
    s.append(digit_str(v % 10));
    assert(final(s)@ =~= old(s)@ + two_digits(v as int));
}

fn push_four_digits(s: &mut String, v: u16)
    requires
        v < 10000,
    ensures
        final(s)@ == old(s)@ + four_digits(v as int),
{
    s.append(digit_str((v / 1000) as u8));
    s.append(digit_str(((v / 100) % 10) as u8));
    s.append(digit_str(((v / 10) % 10) as u8));
    s.append(digit_str((v % 10) as u8));
    assert(final(s)@ =~= old(s)@ + four_digits(v as int));
}

/// Render a timestamp in the compact `YYYYMMDD_HHMMSS` form.
pub fn format_compact(ts: &Timestamp) -> (r: String)
    requires
        ts.wf(),
    ensures
        r@ == compact_format(*ts),
{
    let mut s = String::new();
    push_four_digits(&mut s, ts.year);
    push_two_digits(&mut s, ts.month);
    push_two_digits(&mut s, ts.day);
    s.append("_");
    push_two_digits(&mut s, ts.hour);
    push_two_digits(&mut s, ts.minute);
    push_two_digits(&mut s, ts.second);
    proof {
        reveal_strlit("_");
        assert("_"@ =~= seq!['_']);
        assert(s@ =~= compact_format(*ts));
    }
    s
}

/// Render a timestamp in the canonical `YYYY-MM-DDTHH:MM:SS+00:00` form.
pub fn format_iso(ts: &Timestamp) -> (r: String)
    requires
        ts.wf(),
    ensures
        r@ == iso_format(*ts),
{
    let mut s = String::new();
    push_four_digits(&mut s, ts.year);
    s.append("-");
    push_two_digits(&mut s, ts.month);
    s.append("-");
    push_two_digits(&mut s, ts.day);
    s.append("T");
    push_two_digits(&mut s, ts.hour);
    s.append(":");
    push_two_digits(&mut s, ts.minute);
    s.append(":");
    push_two_digits(&mut s, ts.second);
    s.append("+00:00");
    proof {
        reveal_strlit("-");
        reveal_strlit("T");
        reveal_strlit(":");
        reveal_strlit("+00:00");
        assert("-"@ =~= seq!['-']);
        assert("T"@ =~= seq!['T']);
        assert(":"@ =~= seq![':']);
        assert("+00:00"@ =~= seq!['+', '0', '0', ':', '0', '0']);
        assert(s@ =~= iso_format(*ts));
    }
    s
}

pub open spec fn is_digit(c: char) -> bool {
    48 <= c as u32 <= 57
}

pub open spec fn digit_val(c: char) -> int {
    c as u32 - 48
}

/// Whether a character sequence is exactly the compact form of some
/// real calendar instant: fifteen characters, `_` in the middle, all
/// the rest digits, and the fields in calendar range.
pub open spec fn compact_parses(s: Seq<char>) -> bool {
    &&& s.len() == 15
    &&& s[8] == '_'
    &&& forall|i: int| 0 <= i < 15 && i != 8 ==> is_digit(#[trigger] s[i])
    &&& {
        let ts = parsed_compact(s);
        &&& 1 <= ts.month as int <= 12
        &&& 1 <= ts.day as int <= days_in_month(ts.year as int, ts.month as int)
        &&& ts.hour < 24
        &&& ts.minute < 60
        &&& ts.second < 60
    }
}

/// The fields the compact form carries (meaningful only where
/// `compact_parses` holds).
pub open spec fn parsed_compact(s: Seq<char>) -> Timestamp {
    Timestamp {
        year: (1000 * digit_val(s[0]) + 100 * digit_val(s[1]) + 10 * digit_val(s[2]) + digit_val(
            s[3],
        )) as u16,
        month: (10 * digit_val(s[4]) + digit_val(s[5])) as u8,
        day: (10 * digit_val(s[6]) + digit_val(s[7])) as u8,
        hour: (10 * digit_val(s[9]) + digit_val(s[10])) as u8,
        minute: (10 * digit_val(s[11]) + digit_val(s[12])) as u8,
        second: (10 * digit_val(s[13]) + digit_val(s[14])) as u8,
    }
}

fn read_digit(s: &str, i: usize) -> (r: Option<u8>)
    requires
        i < s@.len(),
    ensures
        r is Some <==> is_digit(s@[i as int]),
        r is Some ==> r->0 == digit_val(s@[i as int]) && r->0 < 10,
{
    let c = s.get_char(i);
    let v = c as u32;
    if 48 <= v && v <= 57 {
        Some((v - 48) as u8)
    } else {
        None
    }
}

fn exec_days_in_month(y: u16, m: u8) -> (r: u8)
    ensures
        r as int == days_in_month(y as int, m as int),
{
    if m == 2 {
        if y % 4 == 0 && (y % 100 != 0 || y % 400 == 0) {
            29
        } else {
            28
        }
    } else if m == 4 || m == 6 || m == 9 || m == 11 {
        30
    } else {
        31
    }
}

/// Parse the compact `YYYYMMDD_HHMMSS` form, accepting exactly the
/// strings that name a real calendar instant.
pub fn parse_compact(s: &str) -> (r: Option<Timestamp>)
    ensures
        r is Some <==> compact_parses(s@),
        r is Some ==> r->0 == parsed_compact(s@) && r->0.wf(),
{
    if s.unicode_len() != 15 {
        return None;
    }
    let underscore = s.get_char(8);
    if underscore != '_' {
        return None;
    }
    let mut digits: Vec<u8> = Vec::new();
    let mut i: usize = 0;
    while i < 15
        invariant
            s@.len() == 15,
            i <= 15,
            digits@.len() == i,
            forall|j: int| 0 <= j < i && j != 8 ==> is_digit(#[trigger] s@[j]),
            forall|j: int|
                0 <= j < i && j != 8 ==> #[trigger] digits@[j] == digit_val(s@[j]) && digits@[j]
                    < 10,
        decreases 15 - i,
    {
        if i == 8 {
            digits.push(0);
        } else {
            match read_digit(s, i) {
                Some(d) => digits.push(d),
                None => {
                    return None;
                },
            }
        }
        i = i + 1;
    }
    let year: u16 = 1000 * (digits[0] as u16) + 100 * (digits[1] as u16) + 10 * (digits[2] as u16)
        + digits[3] as u16;
    let month: u8 = 10 * digits[4] + digits[5];
    let day: u8 = 10 * digits[6] + digits[7];
    let hour: u8 = 10 * digits[9] + digits[10];
    let minute: u8 = 10 * digits[11] + digits[12];
    let second: u8 = 10 * digits[13] + digits[14];
    if !(1 <= month && month <= 12) {
        return None;
    }
    if !(1 <= day && day <= exec_days_in_month(year, month)) {
        return None;
    }
    if !(hour < 24 && minute < 60 && second < 60) {
        return None;
    }
    Some(Timestamp { year, month, day, hour, minute, second })
}

/// Whether a character occurs in a sequence.
pub open spec fn contains_char(s: Seq<char>, c: char) -> bool {
    exists|i: int| 0 <= i < s.len() && s[i] == c
}

fn find_char(s: &str, c: char) -> (r: bool)
    ensures
        r == contains_char(s@, c),
{
    let n = s.unicode_len();
    let mut i: usize = 0;
    while i < n
        invariant
            n == s@.len(),
            i <= n,
            forall|j: int| 0 <= j < i ==> s@[j] != c,
        decreases n - i,
    {
        if s.get_char(i) == c {
            return true;
        }
        i = i + 1;
    }
    false
}

/// What a stored timestamp value reads as after normalization: a value
/// already in canonical form (it contains a `T`) is kept; a value in
/// the compact legacy form is rewritten to the canonical form; any
/// other value is kept unchanged.
pub open spec fn normalized_timestamp(s: Seq<char>) -> Seq<char> {
    if contains_char(s, 'T') {
        s
    } else if compact_parses(s) {
        iso_format(parsed_compact(s))
    } else {
        s
    }
}

/// Normalize a stored timestamp value at the read boundary.
pub fn normalize_timestamp(s: &str) -> (r: String)
    ensures
        r@ == normalized_timestamp(s@),
{
    if find_char(s, 'T') {
        return s.to_owned();
    }
    match parse_compact(s) {
        Some(ts) => format_iso(&ts),
        None => s.to_owned(),
    }
}

pub open spec fn days_in_year(y: int) -> int {
    if is_leap_year(y) {
        366
    } else {
        365
    }
}

/// Leap years from 1970 (inclusive) up to year `y` (exclusive), in
/// closed form: 477 is the count of leap years before 1970.
pub open spec fn leap_days_before(y: int) -> int {
    (y - 1) / 4 - (y - 1) / 100 + (y - 1) / 400 - 477
}

/// Days from the epoch (1970-01-01) to the start of year `y`.
pub open spec fn days_before_year(y: int) -> int {
    365 * (y - 1970) + leap_days_before(y)
}

/// Days from the start of year `y` to the start of its month `m`.
pub open spec fn days_before_month(y: int, m: int) -> int
    decreases m,
{
    if m <= 1 {
        0
    } else {
        days_before_month(y, m - 1) + days_in_month(y, m - 1)
    }
}

/// Seconds from the epoch to a calendar instant.
pub open spec fn epoch_of(ts: Timestamp) -> int {
    (days_before_year(ts.year as int) + days_before_month(ts.year as int, ts.month as int)
        + ts.day - 1) * 86400 + ts.hour * 3600 + ts.minute * 60 + ts.second
}

/// Stepping `a - 1` to `a` raises `a / d` exactly when `d` divides `a`.
proof fn lemma_div_step(a: int, d: int)
    requires
        d > 0,
    ensures
        a / d - (a - 1) / d == if a % d == 0 {
            1int
        } else {
            0
        },
{
    vstd::arithmetic::div_mod::lemma_fundamental_div_mod(a - 1, d);
    let q = (a - 1) / d;
    let r = (a - 1) % d;
    if r == d - 1 {
        assert(a == (q + 1) * d + 0) by (nonlinear_arith)
            requires
                a - 1 == d * q + r,
                r == d - 1,
        ;
        vstd::arithmetic::div_mod::lemma_fundamental_div_mod_converse(a, d, q + 1, 0);
    } else {
        assert(a == q * d + (r + 1)) by (nonlinear_arith)
            requires
                a - 1 == d * q + r,
        ;
        vstd::arithmetic::div_mod::lemma_fundamental_div_mod_converse(a, d, q, r + 1);
    }
}

/// A multiple of 400 is a multiple of 100; a multiple of 100 is one of 4.
proof fn lemma_leap_divisors(y: int)
    ensures
        y % 400 == 0 ==> y % 100 == 0,
        y % 100 == 0 ==> y % 4 == 0,
{
    if y % 400 == 0 {
        let k = y / 400;
        vstd::arithmetic::div_mod::lemma_fundamental_div_mod(y, 400);
        assert(y == (4 * k) * 100 + 0) by (nonlinear_arith)
            requires
                y == 400 * k,
        ;
        vstd::arithmetic::div_mod::lemma_fundamental_div_mod_converse(y, 100, 4 * k, 0);
    }
    if y % 100 == 0 {
        let k = y / 100;
        vstd::arithmetic::div_mod::lemma_fundamental_div_mod(y, 100);
        assert(y == (25 * k) * 4 + 0) by (nonlinear_arith)
            requires
                y == 100 * k,
        ;
        vstd::arithmetic::div_mod::lemma_fundamental_div_mod_converse(y, 4, 25 * k, 0);
    }
}

/// One year advances the day count by that year's length.
proof fn lemma_days_before_year_step(y: int)
    ensures
        days_before_year(y + 1) == days_before_year(y) + days_in_year(y),
{
    lemma_div_step(y, 4);
    lemma_div_step(y, 100);
    lemma_div_step(y, 400);
    lemma_leap_divisors(y);
}

/// December starts 31 days before the year ends.
proof fn lemma_days_before_december(y: int)
    ensures
        days_before_month(y, 12) == days_in_year(y) - 31,
{
    reveal_with_fuel(days_before_month, 13);
}

fn exec_days_in_year(y: u16) -> (r: u16)
    ensures
        r as int == days_in_year(y as int),
{
    if y % 4 == 0 && (y % 100 != 0 || y % 400 == 0) {
        366
    } else {
        365
    }
}

/// The calendar instant `secs` seconds after the epoch (UTC). The
/// bound keeps the year to four digits; the result is exactly the
/// instant whose `epoch_of` is `secs`.
pub fn timestamp_from_epoch(secs: u64) -> (r: Timestamp)
    requires
        secs <= 253402300799,  // 9999-12-31T23:59:59
    ensures
        r.wf(),
        epoch_of(r) == secs,
{
    let total_days: u64 = secs / 86400;
    let rem: u64 = secs % 86400;
    let hour: u8 = (rem / 3600) as u8;
    let minute: u8 = ((rem % 3600) / 60) as u8;
    let second: u8 = ((rem % 3600) % 60) as u8;
    proof {
        vstd::arithmetic::div_mod::lemma_div_is_ordered(secs as int, 253402300799, 86400);
        vstd::arithmetic::div_mod::lemma_fundamental_div_mod(secs as int, 86400);
        vstd::arithmetic::div_mod::lemma_fundamental_div_mod(rem as int, 3600);
        vstd::arithmetic::div_mod::lemma_fundamental_div_mod((rem % 3600) as int, 60);
    }
    let mut year: u16 = 1970;
    let mut day_left: u64 = total_days;
    proof {
        assert(days_before_year(1970) == 0);
    }
    while day_left >= exec_days_in_year(year) as u64
        invariant
            1970 <= year <= 9999,
            total_days <= 2932896,
            days_before_year(year as int) + day_left == total_days,
        decreases day_left,
    {
        proof {
            assert(days_before_year(9999) == 2932532);
            if year == 9999 {
                assert(days_in_year(9999) == 365);
                assert(false);
            }
        }
        let dy = exec_days_in_year(year);
        proof {
            lemma_days_before_year_step(year as int);
        }
        day_left = day_left - dy as u64;
        year = year + 1;
    }
    let ghost day_of_year = day_left as int;
    let mut month: u8 = 1;
    while month < 12 && day_left >= exec_days_in_month(year, month) as u64
        invariant
            1 <= month <= 12,
            1970 <= year <= 9999,
            days_before_year(year as int) + days_before_month(year as int, month as int)
                + day_left == total_days,
            days_before_month(year as int, month as int) + day_left < days_in_year(year as int),
        decreases 12 - month,
    {
        let dm = exec_days_in_month(year, month);
        proof {
            assert(days_before_month(year as int, month as int + 1) == days_before_month(
                year as int,
                month as int,
            ) + days_in_month(year as int, month as int));
        }
        day_left = day_left - dm as u64;
        month = month + 1;
    }
    proof {
        if month == 12 {
            lemma_days_before_december(year as int);
        }
    }
    let day: u8 = day_left as u8 + 1;
    let r = Timestamp { year, month, day, hour, minute, second };
    proof {
        assert(r.wf());
        assert(epoch_of(r) == secs);
    }
    r
}

} // verus!
