//! Calendar dates (proleptic Gregorian), for trading-day bookkeeping.

use vstd::prelude::*;
use crate::text::{dec, pad_zeros, push_dec_padded, push_str_chars, string_from_chars, trim_text, trimmed};

verus! {

/// A calendar date; every value is a real date within the covered years.
#[derive(Debug, Clone, Copy, PartialEq, Eq, Structural)]
pub struct Date {
    year: i32,
    month: u32,
    day: u32,
}

pub open spec fn is_leap(y: int) -> bool {
    (y % 4 == 0 && y % 100 != 0) || y % 400 == 0
}

pub open spec fn days_in_month(y: int, m: int) -> int {
    if m == 2 {
        if is_leap(y) { 29 } else { 28 }
    } else if m == 4 || m == 6 || m == 9 || m == 11 {
        30
    } else {
        31
    }
}

/// Years the library's dates cover.
pub const MIN_YEAR: i32 = 1;

pub const MAX_YEAR: i32 = 9999;

/// A real date within the covered years.
pub open spec fn valid_ymd(y: int, m: int, d: int) -> bool {
    &&& MIN_YEAR <= y <= MAX_YEAR
    &&& 1 <= m <= 12
    &&& 1 <= d <= days_in_month(y, m)
}

/// `YYYY-MM-DD`.
pub open spec fn date_text(y: int, m: int, d: int) -> Seq<char> {
    pad_zeros(dec(y as nat), 4) + "-"@ + pad_zeros(dec(m as nat), 2) + "-"@ + pad_zeros(dec(d as nat), 2)
}

impl Date {
    /// Every date is a real date within the covered years.
    #[verifier::type_invariant]
    pub open spec fn valid(self) -> bool {
        valid_ymd(self.y(), self.m(), self.d())
    }

    pub closed spec fn y(self) -> int {
        self.year as int
    }

    pub closed spec fn m(self) -> int {
        self.month as int
    }

    pub closed spec fn d(self) -> int {
        self.day as int
    }

    /// Dates are equal exactly when year, month and day are.
    pub proof fn lemma_eq(self, other: Date)
        ensures
            (self == other) <==> (self.y() == other.y() && self.m() == other.m() && self.d() == other.d()),
    {
    }

    /// The day after, as a triple.
    pub open spec fn spec_succ(self) -> (int, int, int) {
        if self.d() < days_in_month(self.y(), self.m()) {
            (self.y(), self.m(), self.d() + 1)
        } else if self.m() < 12 {
            (self.y(), self.m() + 1, 1)
        } else {
            (self.y() + 1, 1, 1)
        }
    }

    /// The day before, as a triple.
    pub open spec fn spec_pred(self) -> (int, int, int) {
        if self.d() > 1 {
            (self.y(), self.m(), self.d() - 1)
        } else if self.m() > 1 {
            (self.y(), self.m() - 1, days_in_month(self.y(), self.m() - 1))
        } else {
            (self.y() - 1, 12, 31)
        }
    }

    /// The date of the given year, month and day.
    pub fn from_ymd(year: i32, month: u32, day: u32) -> (r: Date)
        requires
            valid_ymd(year as int, month as int, day as int),
        ensures
            r.y() == year && r.m() == month && r.d() == day,
    {
        Date { year, month, day }
    }

    /// The date of the given year, month and day, if there is one.
    pub fn from_ymd_opt(year: i32, month: u32, day: u32) -> (r: Option<Date>)
        ensures
            match r {
                Some(d) => valid_ymd(year as int, month as int, day as int) && d.y() == year && d.m() == month
                    && d.d() == day,
                None => !valid_ymd(year as int, month as int, day as int),
            },
    {
        if MIN_YEAR <= year && year <= MAX_YEAR && 1 <= month && month <= 12 && 1 <= day && day
            <= days_in_month_exec(year, month) {
            Some(Date { year, month, day })
        } else {
            None
        }
    }

    pub fn ymd(self) -> (r: (i32, u32, u32))
        ensures
            r.0 == self.y() && r.1 == self.m() && r.2 == self.d(),
            valid_ymd(r.0 as int, r.1 as int, r.2 as int),
    {
        proof {
            use_type_invariant(&self);
        }
        (self.year, self.month, self.day)
    }

    pub fn year(self) -> (r: i32)
        ensures
            r == self.y(),
    {
        self.year
    }

    pub fn month(self) -> (r: u32)
        ensures
            r == self.m(),
    {
        self.month
    }

    pub fn day(self) -> (r: u32)
        ensures
            r == self.d(),
    {
        self.day
    }

    /// The next calendar day.
    pub fn succ(self) -> (r: Date)
        requires
            self.y() < MAX_YEAR || self.m() < 12 || self.d() < 31,
        ensures
            (r.y(), r.m(), r.d()) == self.spec_succ(),
    {
        proof {
            use_type_invariant(&self);
        }
        if self.day < days_in_month_exec(self.year, self.month) {
            Date { year: self.year, month: self.month, day: self.day + 1 }
        } else if self.month < 12 {
            Date { year: self.year, month: self.month + 1, day: 1 }
        } else {
            Date { year: self.year + 1, month: 1, day: 1 }
        }
    }

    /// The previous calendar day.
    pub fn pred(self) -> (r: Date)
        requires
            self.y() > MIN_YEAR || self.m() > 1 || self.d() > 1,
        ensures
            (r.y(), r.m(), r.d()) == self.spec_pred(),
    {
        proof {
            use_type_invariant(&self);
        }
        if self.day > 1 {
            Date { year: self.year, month: self.month, day: self.day - 1 }
        } else if self.month > 1 {
            let m: u32 = self.month - 1;
            Date { year: self.year, month: m, day: days_in_month_exec(self.year, m) }
        } else {
            Date { year: self.year - 1, month: 12, day: 31 }
        }
    }

    /// The next calendar day (trading or not).
    pub fn next_day(self) -> (r: Date)
        requires
            self.y() < MAX_YEAR || self.m() < 12 || self.d() < 31,
        ensures
            (r.y(), r.m(), r.d()) == self.spec_succ(),
    {
        self.succ()
    }

    /// `YYYY-MM-DD`.
    pub fn as_str(&self) -> (r: String)
        ensures
            r@ == date_text(self.y(), self.m(), self.d()),
    {
        proof {
            use_type_invariant(self);
        }
        let mut v: Vec<char> = Vec::new();
        push_dec_padded(&mut v, self.year as u64, 4);
        push_str_chars(&mut v, "-");
        push_dec_padded(&mut v, self.month as u64, 2);
        push_str_chars(&mut v, "-");
        push_dec_padded(&mut v, self.day as u64, 2);
        assert(v@ =~= date_text(self.year as int, self.month as int, self.day as int));
        string_from_chars(v)
    }

    /// The date as the integer `YYYYMMDD`.
    pub fn to_int(self) -> (r: i32)
        ensures
            r == self.y() * 10000 + self.m() * 100 + self.d(),
    {
        proof {
            use_type_invariant(&self);
        }
        self.year * 10000 + (self.month as i32) * 100 + self.day as i32
    }

    /// Whether `self` comes before `other`.
    pub fn before(self, other: Date) -> (r: bool)
        ensures
            r == (self.y() < other.y() || (self.y() == other.y() && (self.m() < other.m() || (self.m()
                == other.m() && self.d() < other.d())))),
    {
        self.year < other.year || (self.year == other.year && (self.month < other.month || (
        self.month == other.month && self.day < other.day)))
    }
}

fn days_in_month_exec(y: i32, m: u32) -> (r: u32)
    ensures
        r == days_in_month(y as int, m as int),
{
    if m == 2 {
        if (y % 4 == 0 && y % 100 != 0) || y % 400 == 0 {
            29
        } else {
            28
        }
    } else if m == 4 || m == 6 || m == 9 || m == 11 {
        30
    } else {
        31
    }
}

/// The year, month and day chrono's `NaiveDate::parse_from_str` reads
/// from a text with the format `%Y-%m-%d`, if it reads a date.
pub uninterp spec fn chrono_ymd(s: Seq<char>) -> Option<(i32, u32, u32)>;

/// chrono's `NaiveDate::parse_from_str(s, "%Y-%m-%d")`, taken apart into
/// year, month and day. Claimed: the result is the named one, and a date
/// chrono reads is a real calendar date.
#[verifier::external_body]
fn parse_ymd_text(s: &str) -> (r: Option<(i32, u32, u32)>)
    ensures
        r == chrono_ymd(s@),
        r matches Some(t) ==> 1 <= t.1 <= 12 && 1 <= t.2 <= days_in_month(t.0 as int, t.1 as int),
{
    match chrono::NaiveDate::parse_from_str(s, "%Y-%m-%d") {
        Ok(d) => Some((chrono::Datelike::year(&d), chrono::Datelike::month(&d), chrono::Datelike::day(&d))),
        Err(_) => None,
    }
}

/// Days from 1970-01-01 to the date `y`-`m`-`d` of the proleptic
/// Gregorian calendar, for years from 1 on (eras of 400 years counted from
/// March 1st of year 0).
pub open spec fn days_from_civil(y: int, m: int, d: int) -> int {
    let ya = if m <= 2 { y - 1 } else { y };
    let era = ya / 400;
    let yoe = ya - era * 400;
    let mp = if m > 2 { m - 3 } else { m + 9 };
    let doy = (153 * mp + 2) / 5 + d - 1;
    let doe = yoe * 365 + yoe / 4 - yoe / 100 + doy;
    era * 146097 + doe - 719468
}

/// The day of the week of a date, Monday being 0 (1970-01-01 was a
/// Thursday).
pub open spec fn weekday_num(y: int, m: int, d: int) -> int {
    (days_from_civil(y, m, d) + 3) % 7
}

/// chrono's `NaiveDate::weekday().num_days_from_monday()`. Claimed: the
/// result is the day of the week of the proleptic Gregorian calendar,
/// counted from Monday.
#[verifier::external_body]
fn weekday_of(y: i32, m: u32, d: u32) -> (r: u32)
    requires
        valid_ymd(y as int, m as int, d as int),
    ensures
        r == weekday_num(y as int, m as int, d as int),
        r < 7,
{
    match chrono::NaiveDate::from_ymd_opt(y, m, d) {
        Some(nd) => chrono::Datelike::weekday(&nd).num_days_from_monday(),
        None => 0,
    }
}

/// A date text in the form chrono reads: eight characters without `-` or
/// `/` become `YYYY-MM-DD`; otherwise `/` becomes `-`.
pub open spec fn normalized_date_text(t: Seq<char>) -> Seq<char> {
    if t.len() == 8 && !t.contains('-') && !t.contains('/') {
        t.subrange(0, 4) + "-"@ + t.subrange(4, 6) + "-"@ + t.subrange(6, 8)
    } else {
        t.map_values(|c: char| if c == '/' { '-' } else { c })
    }
}

fn normalize_date_text(t: &str) -> (r: String)
    ensures
        r@ == normalized_date_text(t@),
{
    let n: usize = t.unicode_len();
    let mut has_sep = false;
    let mut i: usize = 0;
    while i < n
        invariant
            n == t@.len(),
            i <= n,
            has_sep == exists|j: int| 0 <= j < i && (t@[j] == '-' || t@[j] == '/'),
        decreases n - i,
    {
        let c = t.get_char(i);
        if c == '-' || c == '/' {
            has_sep = true;
        }
        i = i + 1;
    }
    proof {
        if !has_sep {
            assert(!t@.contains('-'));
            assert(!t@.contains('/'));
        } else {
            let j = choose|j: int| 0 <= j < n && (t@[j] == '-' || t@[j] == '/');
            assert(t@[j] == '-' ==> t@.contains('-'));
            assert(t@[j] == '/' ==> t@.contains('/'));
        }
    }
    let mut v: Vec<char> = Vec::new();
    if n == 8 && !has_sep {
        let mut k: usize = 0;
        while k < 8
            invariant
                n == 8,
                n == t@.len(),
                k <= 8,
                v@ == (if k <= 4 {
                    t@.subrange(0, k as int)
                } else if k <= 6 {
                    t@.subrange(0, 4) + "-"@ + t@.subrange(4, k as int)
                } else {
                    t@.subrange(0, 4) + "-"@ + t@.subrange(4, 6) + "-"@ + t@.subrange(6, k as int)
                }),
            decreases 8 - k,
        {
            proof {
                reveal_strlit("-");
            }
            if k == 4 || k == 6 {
                v.push('-');
            }
            let c = t.get_char(k);
            v.push(c);
            proof {
                if k < 4 {
                    assert(t@.subrange(0, k + 1) =~= t@.subrange(0, k as int).push(c));
                } else if k == 4 {
                    assert(t@.subrange(4, 5) =~= seq![c]);
                    assert(t@.subrange(0, 4) + "-"@ + t@.subrange(4, 5) =~= t@.subrange(0, 4).push('-').push(c));
                } else if k == 5 {
                    assert(t@.subrange(4, 6) =~= t@.subrange(4, 5).push(c));
                } else if k == 6 {
                    assert(t@.subrange(6, 7) =~= seq![c]);
                } else {
                    assert(t@.subrange(6, 8) =~= t@.subrange(6, 7).push(c));
                }
            }
            k = k + 1;
        }
    } else {
        let mut k: usize = 0;
        while k < n
            invariant
                n == t@.len(),
                k <= n,
                v@ == t@.take(k as int).map_values(|c: char| if c == '/' { '-' } else { c }),
            decreases n - k,
        {
            let c = t.get_char(k);
            let d = if c == '/' { '-' } else { c };
            v.push(d);
            assert(t@.take(k + 1).map_values(|c: char| if c == '/' { '-' } else { c }) =~= t@.take(
                k as int,
            ).map_values(|c: char| if c == '/' { '-' } else { c }).push(d));
            k = k + 1;
        }
        assert(t@.take(n as int) =~= t@);
    }
    string_from_chars(v)
}

/// `r` is what reading the text `s` as a date gives: the date chrono
/// reads from the trimmed, normalized text, if it reads one within the
/// covered years.
pub open spec fn parsed_as(s: Seq<char>, r: Option<Date>) -> bool {
    match chrono_ymd(normalized_date_text(trimmed(s))) {
        Some(t) => if MIN_YEAR <= t.0 <= MAX_YEAR {
            r matches Some(d) && d.y() == t.0 && d.m() == t.1 && d.d() == t.2
        } else {
            r is None
        },
        None => r is None,
    }
}

impl Date {
    /// Reads `YYYYMMDD`, `YYYY-MM-DD` or `YYYY/MM/DD` (surrounding
    /// whitespace ignored) as chrono reads dates; none for anything else
    /// or for a year outside the covered ones.
    pub fn parse(s: &str) -> (r: Option<Date>)
        ensures
            parsed_as(s@, r),
    {
        let t = trim_text(s);
        let norm = normalize_date_text(t.as_str());
        match parse_ymd_text(norm.as_str()) {
            Some((y, m, d)) => {
                if MIN_YEAR <= y && y <= MAX_YEAR {
                    Some(Date { year: y, month: m, day: d })
                } else {
                    None
                }
            },
            None => None,
        }
    }

    /// The day of the week, Monday being 0.
    pub fn weekday_from_monday(self) -> (r: u32)
        ensures
            r == weekday_num(self.y(), self.m(), self.d()),
            r < 7,
    {
        proof {
            use_type_invariant(&self);
        }
        weekday_of(self.year, self.month, self.day)
    }
}

/// chrono's `NaiveDate`.
#[verifier::external_type_specification]
#[verifier::external_body]
pub struct ExNaiveDate(chrono::NaiveDate);

/// chrono's `NaiveDate::from_ymd_opt` on a real date (chrono's default
/// date should it refuse one). Nothing is claimed of the value: the type
/// is opaque here.
#[verifier::external_body]
fn naive_date_of(y: i32, m: u32, d: u32) -> chrono::NaiveDate
    requires
        valid_ymd(y as int, m as int, d as int),
{
    chrono::NaiveDate::from_ymd_opt(y, m, d).unwrap_or_default()
}

/// chrono's `Local::now().date_naive()`, taken apart into year, month and
/// day. Claimed: chrono's dates are real calendar dates. Which date it is
/// depends on the clock and the time zone, and is not claimed.
#[verifier::external_body]
fn local_today_ymd() -> (r: (i32, u32, u32))
    ensures
        1 <= r.1 <= 12,
        1 <= r.2 <= days_in_month(r.0 as int, r.1 as int),
{
    let d = chrono::Local::now().date_naive();
    (chrono::Datelike::year(&d), chrono::Datelike::month(&d), chrono::Datelike::day(&d))
}

impl Date {
    /// The date as chrono's type.
    pub fn to_naive(self) -> chrono::NaiveDate {
        proof {
            use_type_invariant(&self);
        }
        naive_date_of(self.year, self.month, self.day)
    }

    /// Today's local date, when its year is a covered one.
    pub fn today() -> (r: Option<Date>)
        ensures
            r matches Some(d) ==> d.valid(),
    {
        let (y, m, d) = local_today_ymd();
        if MIN_YEAR <= y && y <= MAX_YEAR {
            Some(Date { year: y, month: m, day: d })
        } else {
            None
        }
    }
}

/// Law: the day before the day after a date is the date itself, and the
/// day after the day before it too.
pub proof fn law_pred_undoes_succ(d: Date, n: Date)
    requires
        d.valid(),
        n.valid(),
    ensures
        (n.y(), n.m(), n.d()) == d.spec_succ() ==> n.spec_pred() == (d.y(), d.m(), d.d()),
        (n.y(), n.m(), n.d()) == d.spec_pred() ==> n.spec_succ() == (d.y(), d.m(), d.d()),
{
}

impl std::str::FromStr for Date {
    type Err = String;

    /// `parse`, with `invalid date: <text>` when it reads no date.
    fn from_str(s: &str) -> (r: Result<Date, String>)
        ensures
            match r {
                Ok(d) => parsed_as(s@, Some(d)),
                Err(e) => parsed_as(s@, None) && e@ == "invalid date: "@ + s@,
            },
    {
        match Date::parse(s) {
            Some(d) => Ok(d),
            None => {
                let mut v: Vec<char> = Vec::new();
                push_str_chars(&mut v, "invalid date: ");
                push_str_chars(&mut v, s);
                Err(string_from_chars(v))
            },
        }
    }
}

} // verus!
