//! Requests the HTTP service answers, and how their defaults resolve.

use vstd::prelude::*;
use crate::enums::Frequency;
use crate::types::{Amount, Volume};

verus! {

/// A bars request: a code, and optionally a frequency and a range.
#[derive(Debug, Clone)]
pub struct BarsQuery {
    pub code: String,
    pub freq: Option<String>,
    pub start: Option<String>,
    pub end: Option<String>,
}

/// The frequency a request names: daily when it names none or an unknown
/// one.
pub open spec fn requested_freq(f: Option<String>) -> Frequency {
    match f {
        Some(s) => match Frequency::spec_from_str(s@) {
            Some(x) => x,
            None => Frequency::Day,
        },
        None => Frequency::Day,
    }
}

pub open spec fn text_or(t: Option<String>, default: Seq<char>) -> Seq<char> {
    match t {
        Some(s) => s@,
        None => default,
    }
}

impl BarsQuery {
    /// The frequency, start and end the request asks for; an absent range
    /// end defaults to 2000-01-01 and 2099-12-31.
    pub fn resolve(&self) -> (r: (Frequency, String, String))
        ensures
            r.0 == requested_freq(self.freq),
            r.1@ == text_or(self.start, "2000-01-01"@),
            r.2@ == text_or(self.end, "2099-12-31"@),
    {
        let freq = match &self.freq {
            Some(s) => match Frequency::from_str(s.as_str()) {
                Some(x) => x,
                None => Frequency::Day,
            },
            None => Frequency::Day,
        };
        let start = match &self.start {
            Some(s) => s.clone(),
            None => String::from_str("2000-01-01"),
        };
        let end = match &self.end {
            Some(s) => s.clone(),
            None => String::from_str("2099-12-31"),
        };
        (freq, start, end)
    }
}

/// A backtest request; zero means "use the default".
#[derive(Debug, Clone)]
pub struct BacktestReq {
    pub code: String,
    pub fast: usize,
    pub slow: usize,
    pub lots: Volume,
    pub init_cash: Amount,
    pub days: usize,
    pub seed: u64,
}

pub open spec fn or_default(x: int, d: int) -> int {
    if x == 0 { d } else { x }
}

impl BacktestReq {
    /// The fast and slow periods, lot size, starting cash, number of
    /// sample days and seed the request asks for: 5, 20, 100, the given
    /// cash, 120 and 42 where it gives zero.
    pub fn resolve(&self, default_cash: Amount) -> (r: (usize, usize, Volume, Amount, usize, u64))
        ensures
            r.0 == or_default(self.fast as int, 5),
            r.1 == or_default(self.slow as int, 20),
            r.2 == or_default(self.lots as int, 100),
            r.3 == or_default(self.init_cash as int, default_cash as int),
            r.4 == or_default(self.days as int, 120),
            r.5 == or_default(self.seed as int, 42),
    {
        (
            if self.fast == 0 { 5 } else { self.fast },
            if self.slow == 0 { 20 } else { self.slow },
            if self.lots == 0 { 100 } else { self.lots },
            if self.init_cash == 0 { default_cash } else { self.init_cash },
            if self.days == 0 { 120 } else { self.days },
            if self.seed == 0 { 42 } else { self.seed },
        )
    }
}

} // verus!
