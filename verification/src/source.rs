//! Where bars come from: the query a data source answers, a placeholder
//! source, and the rules of the CSV source (which file holds a code, which
//! rows a query keeps and how a row becomes a bar).

use vstd::prelude::*;
use crate::bar::{text_less, text_lt, Bar};
use crate::date::{parsed_as, Date};
use crate::enums::Frequency;
use crate::error::HiquantError;
use crate::text::{push_str_chars, string_from_chars};
use crate::types::{Amount, Price, Volume};

verus! {

/// A bars query: a code, a frequency and a time range, both ends
/// included, compared as text.
#[derive(Debug, Clone)]
pub struct QueryRange {
    pub code: String,
    pub freq: Frequency,
    pub start: String,
    pub end: String,
}

impl QueryRange {
    pub fn new(code: String, freq: Frequency, start: String, end: String) -> (r: QueryRange)
        ensures
            r.code == code,
            r.freq == freq,
            r.start == start,
            r.end == end,
    {
        QueryRange { code, freq, start, end }
    }
}

/// A source with no data.
#[derive(Debug, Clone, Copy)]
pub struct StubSource;

impl StubSource {
    pub fn name(&self) -> (r: &'static str)
        ensures
            r@ == "stub"@,
    {
        "stub"
    }

    /// Always no bars.
    pub fn fetch_bars(&self, range: &QueryRange) -> (r: Result<Vec<Bar>, HiquantError>)
        ensures
            r matches Ok(v) && v@.len() == 0,
    {
        Ok(Vec::new())
    }
}

/// One row of a bars CSV file: `datetime,open,high,low,close,volume`
/// and, optionally, `amount,pre_close,limit_up,limit_down,open_interest`.
#[derive(Debug, Clone)]
pub struct CsvRow {
    pub datetime: String,
    pub open: Price,
    pub high: Price,
    pub low: Price,
    pub close: Price,
    pub volume: Volume,
    pub amount: Option<Amount>,
    pub pre_close: Option<Price>,
    pub limit_up: Option<Price>,
    pub limit_down: Option<Price>,
    pub open_interest: Option<Volume>,
}

/// A source reading `<directory>/<code>.csv` files.
#[derive(Debug, Clone)]
pub struct CsvSource {
    pub directory: String,
    pub freq: Frequency,
}

/// The row's time is within the query's range.
pub open spec fn row_in_range(row: CsvRow, start: Seq<char>, end: Seq<char>) -> bool {
    !text_lt(row.datetime@, start) && !text_lt(end, row.datetime@)
}

/// The rows within the range, in their order.
pub open spec fn rows_in_range(rows: Seq<CsvRow>, start: Seq<char>, end: Seq<char>) -> Seq<CsvRow>
    decreases rows.len(),
{
    if rows.len() == 0 {
        Seq::empty()
    } else {
        let rest = rows_in_range(rows.drop_last(), start, end);
        if row_in_range(rows.last(), start, end) {
            rest.push(rows.last())
        } else {
            rest
        }
    }
}

pub open spec fn unwrap_or_zero<T>(o: Option<T>, zero: T) -> T {
    match o {
        Some(x) => x,
        None => zero,
    }
}

/// `b` is the bar of `row` for `code` at frequency `freq`: missing
/// optional figures are zero, the trading date is read from the row's
/// time, the split coefficient is one and there is no dividend.
pub open spec fn bar_of_row(b: Bar, row: CsvRow, code: Seq<char>, freq: Frequency) -> bool {
    &&& b.order_book_id@ == code
    &&& b.exchange_id@.len() == 0
    &&& b.frequency == freq
    &&& b.datetime@ == row.datetime@
    &&& parsed_as(row.datetime@, b.trading_date)
    &&& b.open == row.open && b.high == row.high && b.low == row.low && b.close == row.close
    &&& b.volume == row.volume
    &&& b.amount == unwrap_or_zero(row.amount, 0i128)
    &&& b.pre_close == unwrap_or_zero(row.pre_close, 0i64)
    &&& b.limit_up == unwrap_or_zero(row.limit_up, 0i64)
    &&& b.limit_down == unwrap_or_zero(row.limit_down, 0i64)
    &&& b.open_interest == unwrap_or_zero(row.open_interest, 0i64)
    &&& b.split_coefficient_to == 1_000_000
    &&& b.dividend_cash_before_tax == 0
}

/// The name ends in `.csv`.
pub open spec fn has_csv_suffix(s: Seq<char>) -> bool {
    s.len() >= 4 && s.subrange(s.len() - 4, s.len() as int) == ".csv"@
}

/// The codes of the `.csv` names among `names`, in their order.
pub open spec fn csv_stems(names: Seq<Seq<char>>) -> Seq<Seq<char>>
    decreases names.len(),
{
    if names.len() == 0 {
        Seq::empty()
    } else {
        let rest = csv_stems(names.drop_last());
        let n = names.last();
        if has_csv_suffix(n) {
            rest.push(n.subrange(0, n.len() - 4))
        } else {
            rest
        }
    }
}

/// std's `PathBuf`.
#[verifier::external_type_specification]
#[verifier::external_body]
pub struct ExPathBuf(std::path::PathBuf);

/// std's `PathBuf::from` on a text. Nothing is claimed of the path.
#[verifier::external_body]
fn path_of(s: &str) -> std::path::PathBuf {
    std::path::PathBuf::from(s)
}

/// std's `Path::join`. Nothing is claimed of the path: how a file name is
/// joined depends on the platform's separator.
#[verifier::external_body]
fn path_join(base: &std::path::PathBuf, name: &str) -> std::path::PathBuf {
    base.join(name)
}

/// `<code>.csv`.
fn csv_file_name(code: &str) -> (r: String)
    ensures
        r@ == code@ + ".csv"@,
{
    let mut v: Vec<char> = Vec::new();
    push_str_chars(&mut v, code);
    push_str_chars(&mut v, ".csv");
    string_from_chars(v)
}

/// The code of a `.csv` file name.
fn csv_stem(name: &str) -> (r: Option<String>)
    ensures
        match r {
            Some(t) => has_csv_suffix(name@) && t@ == name@.subrange(0, name@.len() - 4),
            None => !has_csv_suffix(name@),
        },
{
    let n: usize = name.unicode_len();
    proof {
        reveal_strlit(".csv");
    }
    if n < 4 {
        return None;
    }
    let is_csv = name.get_char(n - 4) == '.' && name.get_char(n - 3) == 'c' && name.get_char(n - 2) == 's'
        && name.get_char(n - 1) == 'v';
    if !is_csv {
        proof {
            if has_csv_suffix(name@) {
                let t = name@.subrange(n - 4, n as int);
                assert(t[0] == name@[n - 4] && t[1] == name@[n - 3] && t[2] == name@[n - 2] && t[3] == name@[n - 1]);
            }
        }
        return None;
    }
    assert(name@.subrange(n - 4, n as int) =~= ".csv"@);
    let mut v: Vec<char> = Vec::new();
    let mut i: usize = 0;
    while i < n - 4
        invariant
            n == name@.len(),
            n >= 4,
            i <= n - 4,
            v@ == name@.subrange(0, i as int),
        decreases n - 4 - i,
    {
        let c = name.get_char(i);
        v.push(c);
        assert(name@.subrange(0, i + 1) =~= name@.subrange(0, i as int).push(c));
        i = i + 1;
    }
    Some(string_from_chars(v))
}

impl CsvSource {
    pub fn new(directory: String, freq: Frequency) -> (r: CsvSource)
        ensures
            r.directory == directory,
            r.freq == freq,
    {
        CsvSource { directory, freq }
    }

    pub fn name(&self) -> (r: &'static str)
        ensures
            r@ == "csv"@,
    {
        "csv"
    }

    /// The file that holds a code's bars: `<code>.csv` in the directory.
    pub fn file_for(&self, code: &str) -> std::path::PathBuf {
        let file = csv_file_name(code);
        let dir = path_of(self.directory.as_str());
        path_join(&dir, file.as_str())
    }

    /// The bars of the rows whose time lies within the query's range, in
    /// file order.
    pub fn bars_from_rows(&self, range: &QueryRange, rows: Vec<CsvRow>) -> (r: Vec<Bar>)
        ensures
            r@.len() == rows_in_range(rows@, range.start@, range.end@).len(),
            forall|k: int|
                0 <= k < r@.len() ==> bar_of_row(
                    #[trigger] r@[k],
                    rows_in_range(rows@, range.start@, range.end@)[k],
                    range.code@,
                    self.freq,
                ),
    {
        let mut out: Vec<Bar> = Vec::new();
        let mut i: usize = 0;
        while i < rows.len()
            invariant
                i <= rows@.len(),
                out@.len() == rows_in_range(rows@.take(i as int), range.start@, range.end@).len(),
                forall|k: int|
                    0 <= k < out@.len() ==> bar_of_row(
                        #[trigger] out@[k],
                        rows_in_range(rows@.take(i as int), range.start@, range.end@)[k],
                        range.code@,
                        self.freq,
                    ),
            decreases rows@.len() - i,
        {
            let row = &rows[i];
            proof {
                assert(rows@.take(i + 1).drop_last() =~= rows@.take(i as int));
                assert(rows@.take(i + 1).last() == rows@[i as int]);
            }
            let before_start = text_less(row.datetime.as_str(), range.start.as_str());
            let after_end = text_less(range.end.as_str(), row.datetime.as_str());
            if !before_start && !after_end {
                let b = Bar {
                    order_book_id: range.code.clone(),
                    exchange_id: String::new(),
                    frequency: self.freq,
                    datetime: row.datetime.clone(),
                    trading_date: Date::parse(row.datetime.as_str()),
                    open: row.open,
                    high: row.high,
                    low: row.low,
                    close: row.close,
                    volume: row.volume,
                    amount: match row.amount {
                        Some(a) => a,
                        None => 0,
                    },
                    limit_up: match row.limit_up {
                        Some(a) => a,
                        None => 0,
                    },
                    limit_down: match row.limit_down {
                        Some(a) => a,
                        None => 0,
                    },
                    pre_close: match row.pre_close {
                        Some(a) => a,
                        None => 0,
                    },
                    open_interest: match row.open_interest {
                        Some(a) => a,
                        None => 0,
                    },
                    split_coefficient_to: 1_000_000,
                    dividend_cash_before_tax: 0,
                };
                out.push(b);
            }
            i = i + 1;
        }
        assert(rows@.take(rows@.len() as int) =~= rows@);
        out
    }

    /// What a fetch answers, given what reading the code's file gave: the
    /// reason it could not be found, opened or parsed, as a data-source
    /// error; else the bars of its rows within the query's range, in file
    /// order.
    pub fn bars_from_read(&self, range: &QueryRange, read: Result<Vec<CsvRow>, String>) -> (r: Result<Vec<Bar>, HiquantError>)
        ensures
            match read {
                Err(m) => r matches Err(e) && e@ == (crate::error::ErrorKind::DataSource, m@),
                Ok(rows) => r matches Ok(bars) && {
                    &&& bars@.len() == rows_in_range(rows@, range.start@, range.end@).len()
                    &&& forall|k: int|
                        0 <= k < bars@.len() ==> bar_of_row(
                            #[trigger] bars@[k],
                            rows_in_range(rows@, range.start@, range.end@)[k],
                            range.code@,
                            self.freq,
                        )
                },
            },
    {
        match read {
            Err(m) => Err(HiquantError::DataSource(m)),
            Ok(rows) => Ok(self.bars_from_rows(range, rows)),
        }
    }

    /// The codes of the `.csv` files among a directory's file names, in
    /// the order given.
    pub fn instrument_names(names: &Vec<String>) -> (r: Vec<String>)
        ensures
            r@.map_values(|s: String| s@) == csv_stems(names@.map_values(|s: String| s@)),
    {
        let mut out: Vec<String> = Vec::new();
        let mut i: usize = 0;
        while i < names.len()
            invariant
                i <= names@.len(),
                out@.map_values(|s: String| s@) == csv_stems(names@.take(i as int).map_values(|s: String| s@)),
            decreases names@.len() - i,
        {
            let ghost prev = out@;
            let stem = csv_stem(names[i].as_str());
            proof {
                assert(names@.take(i + 1).map_values(|s: String| s@).drop_last() =~= names@.take(
                    i as int,
                ).map_values(|s: String| s@));
                assert(names@.take(i + 1).map_values(|s: String| s@).last() == names@[i as int]@);
            }
            match stem {
                Some(t) => {
                    out.push(t);
                    assert(out@.map_values(|s: String| s@) =~= prev.map_values(|s: String| s@).push(
                        out@.last()@,
                    ));
                },
                None => {},
            }
            i = i + 1;
        }
        assert(names@.take(names@.len() as int) =~= names@);
        out
    }
}

} // verus!
