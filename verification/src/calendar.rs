//! The trading calendar of the mainland Chinese A-share market: either an
//! explicit set of trading days, or weekdays outside a rough table of
//! public holidays.

use vstd::prelude::*;
use crate::date::{days_in_month, parsed_as, weekday_num, Date, MAX_YEAR, MIN_YEAR};
use crate::text::{trim_text, trimmed};

verus! {

/// `a` comes before `b`.
pub open spec fn date_lt(a: Date, b: Date) -> bool {
    a.y() < b.y() || (a.y() == b.y() && (a.m() < b.m() || (a.m() == b.m() && a.d() < b.d())))
}

/// Rough public holidays (no make-up working days): New Year's day, a
/// Spring Festival window from January 21 to February 10, Qingming on
/// April 4, Labour Day May 1-3, Dragon Boat June 8-12, Mid-Autumn
/// September 13-18 and National Day October 1-7.
pub open spec fn china_holiday(m: int, d: int) -> bool {
    ||| m == 1 && d == 1
    ||| m == 1 && 21 <= d <= 31
    ||| m == 2 && 1 <= d <= 10
    ||| m == 4 && d == 4
    ||| m == 5 && 1 <= d <= 3
    ||| m == 6 && 8 <= d <= 12
    ||| m == 9 && 13 <= d <= 18
    ||| m == 10 && 1 <= d <= 7
}

/// A trading day: one of the listed days when some are listed, else a
/// weekday that is not a holiday.
pub open spec fn is_trading(days: Seq<Date>, d: Date) -> bool {
    if days.len() > 0 {
        days.contains(d)
    } else {
        d.valid() && weekday_num(d.y(), d.m(), d.d()) < 5 && !china_holiday(d.m(), d.d())
    }
}

/// A line of a trading-day file lists date `d`: trimmed, it is not empty,
/// does not start with `#`, and reads as `d`.
pub open spec fn listed_date(line: Seq<char>, d: Date) -> bool {
    let t = trimmed(line);
    &&& t.len() > 0
    &&& t[0] != '#'
    &&& parsed_as(t, Some(d))
}

/// Strictly increasing.
pub open spec fn ascending(s: Seq<Date>) -> bool {
    forall|i: int, j: int| 0 <= i < j < s.len() ==> date_lt(s[i], s[j])
}

fn is_china_holiday(m: u32, d: u32) -> (r: bool)
    ensures
        r == china_holiday(m as int, d as int),
{
    (m == 1 && d == 1) || (m == 1 && 21 <= d && d <= 31) || (m == 2 && 1 <= d && d <= 10) || (m == 4
        && d == 4) || (m == 5 && 1 <= d && d <= 3) || (m == 6 && 8 <= d && d <= 12) || (m == 9 && 13
        <= d && d <= 18) || (m == 10 && 1 <= d && d <= 7)
}

/// The trading calendar.
pub struct TradingCalendar {
    trading_days: Vec<Date>,
}

impl TradingCalendar {
    /// The listed trading days, in order; empty when the weekday rule
    /// applies.
    pub closed spec fn days(&self) -> Seq<Date> {
        self.trading_days@
    }

    pub closed spec fn wf(&self) -> bool {
        &&& ascending(self.trading_days@)
        &&& forall|i: int| 0 <= i < self.trading_days@.len() ==> (#[trigger] self.trading_days@[i]).valid()
    }

    /// A calendar of weekdays outside the holiday table.
    pub fn new_built_in() -> (r: TradingCalendar)
        ensures
            r.wf(),
            r.days().len() == 0,
    {
        TradingCalendar { trading_days: Vec::new() }
    }

    /// A calendar of exactly the given days.
    pub fn from_dates(dates: Vec<Date>) -> (r: TradingCalendar)
        ensures
            r.wf(),
            forall|d: Date| r.days().contains(d) <==> dates@.contains(d),
    {
        let mut out: Vec<Date> = Vec::new();
        let mut i: usize = 0;
        while i < dates.len()
            invariant
                i <= dates@.len(),
                ascending(out@),
                forall|j: int| 0 <= j < out@.len() ==> (#[trigger] out@[j]).valid(),
                forall|d: Date| out@.contains(d) <==> dates@.take(i as int).contains(d),
            decreases dates@.len() - i,
        {
            let d = dates[i];
            proof {
                use_type_invariant(&d);
            }
            insert_sorted(&mut out, d);
            proof {
                let t0 = dates@.take(i as int);
                let t1 = dates@.take(i + 1);
                assert(t1 =~= t0.push(d));
                assert forall|x: Date| out@.contains(x) <==> t1.contains(x) by {
                    lemma_push_contains(t0, d, x);
                }
            }
            i = i + 1;
        }
        assert(dates@.take(dates@.len() as int) =~= dates@);
        TradingCalendar { trading_days: out }
    }

    /// A calendar of the dates listed in the lines of a trading-day file:
    /// each line, trimmed, is a date (`YYYYMMDD` or `YYYY-MM-DD`); empty
    /// lines, lines starting with `#` and lines that are no date are
    /// skipped.
    pub fn from_lines(lines: &Vec<String>) -> (r: TradingCalendar)
        ensures
            r.wf(),
            forall|d: Date|
                r.days().contains(d) <==> exists|i: int| 0 <= i < lines@.len() && listed_date(lines@[i]@, d),
    {
        let mut dates: Vec<Date> = Vec::new();
        let mut i: usize = 0;
        while i < lines.len()
            invariant
                i <= lines@.len(),
                forall|d: Date| dates@.contains(d) <==> exists|j: int| 0 <= j < i && listed_date(lines@[j]@, d),
            decreases lines@.len() - i,
        {
            let t = trim_text(lines[i].as_str());
            let ghost before = dates@;
            let n: usize = t.as_str().unicode_len();
            if n > 0 && t.as_str().get_char(0) != '#' {
                match Date::parse(t.as_str()) {
                    Some(d) => {
                        dates.push(d);
                    },
                    None => {},
                }
            }
            proof {
                let grew = dates@.len() > before.len();
                assert forall|d: Date|
                    dates@.contains(d) <==> exists|j: int| 0 <= j < i + 1 && listed_date(lines@[j]@, d) by {
                    if grew {
                        lemma_push_contains(before, dates@.last(), d);
                        dates@.last().lemma_eq(d);
                    }
                    if exists|j: int| 0 <= j < i + 1 && listed_date(lines@[j]@, d) {
                        let j = choose|j: int| 0 <= j < i + 1 && listed_date(lines@[j]@, d);
                        if j < i {
                            assert(exists|j: int| 0 <= j < i && listed_date(lines@[j]@, d));
                        }
                    }
                    if before.contains(d) {
                        let j = choose|j: int| 0 <= j < i && listed_date(lines@[j]@, d);
                    }
                }
            }
            i = i + 1;
        }
        TradingCalendar::from_dates(dates)
    }

    pub fn is_trading_day(&self, date: Date) -> (r: bool)
        requires
            self.wf(),
        ensures
            r == is_trading(self.days(), date),
    {
        if self.trading_days.len() > 0 {
            let mut i: usize = 0;
            while i < self.trading_days.len()
                invariant
                    i <= self.trading_days@.len(),
                    forall|j: int| 0 <= j < i ==> self.trading_days@[j] != date,
                decreases self.trading_days@.len() - i,
            {
                if self.trading_days[i] == date {
                    return true;
                }
                i = i + 1;
            }
            false
        } else {
            proof {
                use_type_invariant(&date);
            }
            let w = date.weekday_from_monday();
            w < 5 && !is_china_holiday(date.month(), date.day())
        }
    }

    /// The first trading day after `date`.
    pub fn next_trading_day(&self, date: Date) -> (r: Date)
        requires
            self.wf(),
            exists|t: Date| is_trading(self.days(), t) && date_lt(date, t),
        ensures
            is_trading(self.days(), r),
            date_lt(date, r),
            forall|x: Date| date_lt(date, x) && date_lt(x, r) ==> !is_trading(self.days(), x),
    {
        let ghost t = choose|t: Date| is_trading(self.days(), t) && date_lt(date, t);
        proof {
            use_type_invariant(&date);
            self.lemma_trading_valid(t);
            lemma_last_date(date, t);
        }
        let mut d = date.succ();
        proof {
            use_type_invariant(&d);
            lemma_succ_between(date, d, t);
            assert forall|x: Date| date_lt(date, x) && date_lt(x, d) implies !is_trading(self.days(), x) by {
                if x.valid() {
                    lemma_succ_between(date, d, x);
                }
            }
        }
        while !self.is_trading_day(d)
            invariant
                self.wf(),
                is_trading(self.days(), t),
                t.valid(),
                date_lt(date, d),
                !date_lt(t, d),
                forall|x: Date| date_lt(date, x) && date_lt(x, d) ==> !is_trading(self.days(), x),
            decreases MAX_YEAR - d.y(), 12 - d.m(), 31 - d.d(),
        {
            proof {
                use_type_invariant(&d);
                d.lemma_eq(t);
                lemma_last_date(d, t);
            }
            let n = d.succ();
            proof {
                use_type_invariant(&n);
                lemma_succ_between(d, n, t);
                lemma_succ_between(d, n, d);
                assert forall|x: Date| date_lt(date, x) && date_lt(x, n) implies !is_trading(self.days(), x) by {
                    if x.valid() {
                        lemma_succ_between(d, n, x);
                    }
                }
            }
            d = n;
        }
        d
    }

    /// The last trading day before `date`.
    pub fn prev_trading_day(&self, date: Date) -> (r: Date)
        requires
            self.wf(),
            exists|t: Date| is_trading(self.days(), t) && date_lt(t, date),
        ensures
            is_trading(self.days(), r),
            date_lt(r, date),
            forall|x: Date| date_lt(r, x) && date_lt(x, date) ==> !is_trading(self.days(), x),
    {
        let ghost t = choose|t: Date| is_trading(self.days(), t) && date_lt(t, date);
        proof {
            use_type_invariant(&date);
            self.lemma_trading_valid(t);
            lemma_first_date(t, date);
        }
        let mut d = date.pred();
        proof {
            use_type_invariant(&d);
            lemma_pred_between(date, d, t);
            assert forall|x: Date| date_lt(d, x) && date_lt(x, date) implies !is_trading(self.days(), x) by {
                if x.valid() {
                    lemma_pred_between(date, d, x);
                }
            }
        }
        while !self.is_trading_day(d)
            invariant
                self.wf(),
                is_trading(self.days(), t),
                t.valid(),
                date_lt(d, date),
                !date_lt(d, t),
                forall|x: Date| date_lt(d, x) && date_lt(x, date) ==> !is_trading(self.days(), x),
            decreases d.y() - MIN_YEAR, d.m(), d.d(),
        {
            proof {
                use_type_invariant(&d);
                d.lemma_eq(t);
                lemma_first_date(t, d);
            }
            let n = d.pred();
            proof {
                use_type_invariant(&n);
                lemma_pred_between(d, n, t);
                lemma_pred_between(d, n, d);
                assert forall|x: Date| date_lt(n, x) && date_lt(x, date) implies !is_trading(self.days(), x) by {
                    if x.valid() {
                        lemma_pred_between(d, n, x);
                    }
                }
            }
            d = n;
        }
        d
    }

    /// A trading day is a real date.
    proof fn lemma_trading_valid(&self, x: Date)
        requires
            self.wf(),
            is_trading(self.days(), x),
        ensures
            x.valid(),
    {
        if self.days().len() > 0 {
            let j = choose|j: int| 0 <= j < self.trading_days@.len() && self.trading_days@[j] == x;
        }
    }

    /// The listed or rule-given trading days from `start` to `end`, both
    /// included, in order.
    pub fn trading_days_between(&self, start: Date, end: Date) -> (r: Vec<Date>)
        requires
            self.wf(),
        ensures
            ascending(r@),
            forall|d: Date|
                #[trigger] r@.contains(d) <==> (is_trading(self.days(), d) && !date_lt(d, start) && !date_lt(end, d)),
    {
        let mut out: Vec<Date> = Vec::new();
        if self.trading_days.len() > 0 {
            let mut i: usize = 0;
            while i < self.trading_days.len()
                invariant
                    self.wf(),
                    self.days().len() > 0,
                    i <= self.trading_days@.len(),
                    ascending(out@),
                    out@.len() > 0 ==> (i > 0 && !date_lt(self.trading_days@[i - 1], out@.last())),
                    forall|d: Date|
                        #[trigger] out@.contains(d) <==> (self.trading_days@.take(i as int).contains(d) && !date_lt(d, start)
                            && !date_lt(end, d)),
                decreases self.trading_days@.len() - i,
            {
                let d = self.trading_days[i];
                let ghost before = out@;
                if !d.before(start) && !end.before(d) {
                    proof {
                        if before.len() > 0 {
                            assert(date_lt(self.trading_days@[i - 1], d));
                        }
                        assert forall|j: int| 0 <= j < before.len() implies date_lt(before[j], d) by {
                            if j < before.len() - 1 {
                                assert(date_lt(before[j], before.last()));
                            }
                        }
                        lemma_push_ascending(before, d);
                    }
                    out.push(d);
                }
                proof {
                    let t0 = self.trading_days@.take(i as int);
                    let t1 = self.trading_days@.take(i + 1);
                    assert(t1 =~= t0.push(d));
                    if before.len() > 0 {
                        assert(date_lt(self.trading_days@[i - 1], d));
                    }
                    if !date_lt(d, start) && !date_lt(end, d) {
                        assert(out@ == before.push(d));
                    } else {
                        assert(out@ == before);
                    }
                    assert forall|x: Date|
                        out@.contains(x) <==> (t1.contains(x) && !date_lt(x, start) && !date_lt(end, x)) by {
                        lemma_push_contains(t0, d, x);
                        lemma_push_contains(before, d, x);
                        assert(before.contains(x) <==> (t0.contains(x) && !date_lt(x, start) && !date_lt(end, x)));
                    }
                }
                i = i + 1;
            }
            assert(self.trading_days@.take(self.trading_days@.len() as int) =~= self.trading_days@);
            return out;
        }
        if end.before(start) {
            return out;
        }
        let mut d = start;
        loop
            invariant
                self.wf(),
                self.days().len() == 0,
                !date_lt(end, d),
                !date_lt(d, start),
                ascending(out@),
                forall|j: int| 0 <= j < out@.len() ==> date_lt(#[trigger] out@[j], d),
                forall|x: Date|
                    #[trigger] out@.contains(x) <==> (is_trading(self.days(), x) && !date_lt(x, start) && date_lt(x, d)),
            decreases MAX_YEAR - d.y(), 12 - d.m(), 31 - d.d(),
        {
            proof {
                use_type_invariant(&d);
                use_type_invariant(&end);
            }
            let ghost before = out@;
            let is_day = self.is_trading_day(d);
            if is_day {
                proof {
                    lemma_push_ascending(before, d);
                }
                out.push(d);
            }
            proof {
                assert forall|x: Date|
                    out@.contains(x) <==> (is_trading(self.days(), x) && !date_lt(x, start) && (date_lt(x, d)
                        || x == d)) by {
                    lemma_push_contains(before, d, x);
                }
            }
            if d == end {
                proof {
                    assert forall|x: Date|
                        out@.contains(x) <==> (is_trading(self.days(), x) && !date_lt(x, start) && !date_lt(end, x)) by {
                        x.lemma_eq(d);
                    }
                }
                return out;
            }
            proof {
                d.lemma_eq(end);
            }
            let n = d.succ();
            proof {
                use_type_invariant(&n);
                lemma_succ_between(d, n, d);
                assert forall|x: Date|
                    out@.contains(x) <==> (is_trading(self.days(), x) && !date_lt(x, start) && date_lt(x, n)) by {
                    if x.valid() {
                        lemma_succ_between(d, n, x);
                    }
                }
                assert forall|j: int| 0 <= j < out@.len() implies date_lt(#[trigger] out@[j], n) by {
                    if j < before.len() {
                        assert(date_lt(before[j], d));
                    }
                }
                lemma_succ_between(d, n, end);
            }
            d = n;
        }
    }

    /// The number of trading days from `start` to `end`, both included.
    pub fn count_trading_days(&self, start: Date, end: Date) -> (r: usize)
        requires
            self.wf(),
        ensures
            r == trading_count(self.days(), start, end),
    {
        let v = self.trading_days_between(start, end);
        proof {
            law_count_matches_list(v@, self.days(), start, end);
        }
        v.len()
    }
}

/// Inserts `d` into ascending `v` unless it is there.
fn insert_sorted(v: &mut Vec<Date>, d: Date)
    requires
        ascending(old(v)@),
        forall|j: int| 0 <= j < old(v)@.len() ==> (#[trigger] old(v)@[j]).valid(),
        d.valid(),
    ensures
        ascending(final(v)@),
        forall|j: int| 0 <= j < final(v)@.len() ==> (#[trigger] final(v)@[j]).valid(),
        forall|x: Date| final(v)@.contains(x) <==> (old(v)@.contains(x) || x == d),
{
    let mut i: usize = 0;
    while i < v.len() && v[i].before(d)
        invariant
            i <= v@.len(),
            v@ == old(v)@,
            ascending(v@),
            d.valid(),
            forall|j: int| 0 <= j < v@.len() ==> (#[trigger] v@[j]).valid(),
            forall|j: int| 0 <= j < i ==> date_lt(#[trigger] v@[j], d),
        decreases v@.len() - i,
    {
        i = i + 1;
    }
    if i < v.len() && v[i] == d {
        return;
    }
    proof {
        if i < v@.len() {
            v@[i as int].lemma_eq(d);
        }
    }
    v.insert(i, d);
    proof {
        assert forall|j: int| 0 <= j < v@.len() implies (#[trigger] v@[j]).valid() by {
            if j < i {
                assert(v@[j] == old(v)@[j]);
            } else if j > i {
                assert(v@[j] == old(v)@[j - 1]);
            }
        }
        assert forall|a: int, b: int| 0 <= a < b < v@.len() implies date_lt(v@[a], v@[b]) by {
            if b == i as int {
                assert(v@[a] == old(v)@[a]);
            } else if a == i as int {
                assert(v@[b] == old(v)@[b - 1]);
                lemma_lt_trans_eq(d, old(v)@[i as int], old(v)@[b - 1]);
            } else {
                let aa = if a < i { a } else { a - 1 };
                let bb = if b < i { b } else { b - 1 };
                assert(v@[a] == old(v)@[aa]);
                assert(v@[b] == old(v)@[bb]);
            }
        }
        assert forall|x: Date| v@.contains(x) <==> (old(v)@.contains(x) || x == d) by {
            if v@.contains(x) {
                let j = choose|j: int| 0 <= j < v@.len() && v@[j] == x;
                if j < i {
                    assert(old(v)@[j] == x);
                } else if j > i {
                    assert(old(v)@[j - 1] == x);
                }
            }
            if old(v)@.contains(x) {
                let j = choose|j: int| 0 <= j < old(v)@.len() && old(v)@[j] == x;
                if j < i {
                    assert(v@[j] == x);
                } else {
                    assert(v@[j + 1] == x);
                }
            }
            if x == d {
                assert(v@[i as int] == x);
            }
        }
    }
}

/// Date order: `a` not after `b`, and different from it, comes before
/// `b` and before anything after `b`.
proof fn lemma_lt_trans_eq(a: Date, b: Date, c: Date)
    requires
        !date_lt(b, a),
        a != b,
        b == c || date_lt(b, c),
    ensures
        date_lt(a, c),
{
    a.lemma_eq(b);
}

/// The day after `d` comes right after it: dates before the next day are
/// those not after `d`.
proof fn lemma_succ_between(d: Date, n: Date, x: Date)
    requires
        (n.y(), n.m(), n.d()) == d.spec_succ(),
        d.valid(),
        x.valid(),
    ensures
        date_lt(x, n) <==> (date_lt(x, d) || x == d),
        date_lt(d, n),
{
    x.lemma_eq(d);
}

/// The number of trading days from `start` to `end`, both included: the
/// length of the ascending list of exactly those days (there is one such
/// list at most).
pub open spec fn trading_count(days: Seq<Date>, start: Date, end: Date) -> nat {
    let s = choose|s: Seq<Date>|
        ascending(s) && forall|d: Date|
            #[trigger] s.contains(d) <==> (is_trading(days, d) && !date_lt(d, start) && !date_lt(end, d));
    s.len()
}

/// The day before `d` comes right before it: dates after the previous
/// day are those not before `d`.
proof fn lemma_pred_between(d: Date, p: Date, x: Date)
    requires
        (p.y(), p.m(), p.d()) == d.spec_pred(),
        d.valid(),
        x.valid(),
    ensures
        date_lt(p, x) <==> (date_lt(d, x) || x == d),
        date_lt(p, d),
{
    x.lemma_eq(d);
}

/// A date before another one is not the last covered date.
proof fn lemma_last_date(d: Date, t: Date)
    requires
        date_lt(d, t),
        t.valid(),
    ensures
        d.y() < MAX_YEAR || d.m() < 12 || d.d() < 31,
{
}

/// A date after another one is not the first covered date.
proof fn lemma_first_date(t: Date, d: Date)
    requires
        date_lt(t, d),
        t.valid(),
    ensures
        d.y() > MIN_YEAR || d.m() > 1 || d.d() > 1,
{
}

/// The trading days of a range counted are as many as listed: every
/// ascending list holding exactly the trading days from `start` to `end`
/// (what `trading_days_between` returns) has `trading_count` entries (what
/// `count_trading_days` returns).
pub proof fn law_count_matches_list(v: Seq<Date>, days: Seq<Date>, start: Date, end: Date)
    requires
        ascending(v),
        forall|d: Date| #[trigger] v.contains(d) <==> (is_trading(days, d) && !date_lt(d, start) && !date_lt(end, d)),
    ensures
        v.len() == trading_count(days, start, end),
{
    let s = choose|s: Seq<Date>|
        ascending(s) && forall|d: Date|
            #[trigger] s.contains(d) <==> (is_trading(days, d) && !date_lt(d, start) && !date_lt(end, d));
    lemma_ascending_same(v, s);
}

proof fn lemma_push_contains(s: Seq<Date>, a: Date, x: Date)
    ensures
        s.push(a).contains(x) <==> (s.contains(x) || x == a),
{
    let t = s.push(a);
    if t.contains(x) && x != a {
        let j = choose|j: int| 0 <= j < t.len() && t[j] == x;
        assert(s[j] == x);
    }
    if s.contains(x) {
        let j = choose|j: int| 0 <= j < s.len() && s[j] == x;
        assert(t[j] == x);
    }
    if x == a {
        assert(t[s.len() as int] == x);
    }
}

proof fn lemma_push_ascending(s: Seq<Date>, a: Date)
    requires
        ascending(s),
        forall|j: int| 0 <= j < s.len() ==> date_lt(#[trigger] s[j], a),
    ensures
        ascending(s.push(a)),
{
    let t = s.push(a);
    assert forall|i: int, j: int| 0 <= i < j < t.len() implies date_lt(t[i], t[j]) by {
        assert(t[i] == s[i]);
        if j < s.len() {
            assert(t[j] == s[j]);
        }
    }
}

/// Two ascending lists with the same elements are equal.
proof fn lemma_ascending_same(a: Seq<Date>, b: Seq<Date>)
    requires
        ascending(a),
        ascending(b),
        forall|d: Date| a.contains(d) <==> b.contains(d),
    ensures
        a == b,
    decreases a.len(),
{
    if a.len() == 0 {
        if b.len() > 0 {
            assert(b.contains(b[0]));
        }
        assert(b =~= a);
    } else if b.len() == 0 {
        assert(a.contains(a[0]));
    } else {
        let la = a.last();
        let lb = b.last();
        assert(a.contains(la));
        assert(b.contains(lb));
        let ib = choose|j: int| 0 <= j < b.len() && b[j] == la;
        let ia = choose|j: int| 0 <= j < a.len() && a[j] == lb;
        if ib < b.len() - 1 {
            assert(date_lt(b[ib], lb));
            if ia < a.len() - 1 {
                assert(date_lt(a[ia], la));
            }
            lemma_lt_asym(la, lb);
        }
        if ia < a.len() - 1 {
            assert(date_lt(a[ia], la));
            lemma_lt_asym(la, lb);
        }
        assert(la == lb);
        let da = a.drop_last();
        let db = b.drop_last();
        assert forall|d: Date| da.contains(d) <==> db.contains(d) by {
            if da.contains(d) {
                let j = choose|j: int| 0 <= j < da.len() && da[j] == d;
                assert(date_lt(a[j], la));
                assert(a.contains(d));
                let k = choose|k: int| 0 <= k < b.len() && b[k] == d;
                if k == b.len() - 1 {
                    lemma_lt_irrefl(d);
                }
                assert(db[k] == d);
            }
            if db.contains(d) {
                let j = choose|j: int| 0 <= j < db.len() && db[j] == d;
                assert(date_lt(b[j], lb));
                assert(b.contains(d));
                let k = choose|k: int| 0 <= k < a.len() && a[k] == d;
                if k == a.len() - 1 {
                    lemma_lt_irrefl(d);
                }
                assert(da[k] == d);
            }
        }
        assert forall|i: int, j: int| 0 <= i < j < da.len() implies date_lt(da[i], da[j]) by {
            assert(da[i] == a[i] && da[j] == a[j]);
        }
        assert forall|i: int, j: int| 0 <= i < j < db.len() implies date_lt(db[i], db[j]) by {
            assert(db[i] == b[i] && db[j] == b[j]);
        }
        lemma_ascending_same(da, db);
        assert(a =~= da.push(la));
        assert(b =~= db.push(lb));
    }
}

proof fn lemma_lt_asym(a: Date, b: Date)
    ensures
        !(date_lt(a, b) && date_lt(b, a)),
{
}

proof fn lemma_lt_irrefl(a: Date)
    ensures
        !date_lt(a, a),
{
}

} // verus!

verus! {

/// Law: a calendar with no listed days is closed on Saturdays and Sundays
/// and on every day of its holiday windows: January 1, January 21 to
/// February 10, April 4, May 1 to 3, June 8 to 12, September 13 to 18 and
/// October 1 to 7; it is open on every other weekday.
pub proof fn law_built_in_calendar_days(days: Seq<Date>, d: Date)
    requires
        days.len() == 0,
    ensures
        weekday_num(d.y(), d.m(), d.d()) >= 5 ==> !is_trading(days, d),
        d.m() == 1 && d.d() == 1 ==> !is_trading(days, d),
        d.m() == 1 && 21 <= d.d() <= 31 ==> !is_trading(days, d),
        d.m() == 2 && 1 <= d.d() <= 10 ==> !is_trading(days, d),
        d.m() == 4 && d.d() == 4 ==> !is_trading(days, d),
        d.m() == 5 && 1 <= d.d() <= 3 ==> !is_trading(days, d),
        d.m() == 6 && 8 <= d.d() <= 12 ==> !is_trading(days, d),
        d.m() == 9 && 13 <= d.d() <= 18 ==> !is_trading(days, d),
        d.m() == 10 && 1 <= d.d() <= 7 ==> !is_trading(days, d),
        (d.valid() && weekday_num(d.y(), d.m(), d.d()) < 5 && !(d.m() == 1 && (d.d() == 1 || d.d() >= 21))
            && !(d.m() == 2 && d.d() <= 10) && !(d.m() == 4 && d.d() == 4) && !(d.m() == 5 && d.d() <= 3)
            && !(d.m() == 6 && 8 <= d.d() <= 12) && !(d.m() == 9 && 13 <= d.d() <= 18) && !(d.m() == 10
            && d.d() <= 7)) ==> is_trading(days, d),
{
}

} // verus!
