//! Instrument presets: contract multiplier, fee, tax and margin rates,
//! and the fixed-point money calculations built on them.

use vstd::prelude::*;
use crate::strmap::StrMap;
use crate::text::{alpha_prefix, alpha_prefix_len, is_ascii_digit, is_six_digits};
use crate::types::{
    lemma_ppm_bound, mul_ppm, ppm_of, trade_amount, trade_in_range, Amount, Ppm, Price, Volume,
    MAX_PPM, MAX_TRADE_AMOUNT, MAX_UNIT,
};

verus! {

/// Preset of one instrument. Rates are parts per million.
#[derive(Debug)]
pub struct CodePreset {
    pub name: String,
    /// Contract multiplier: 1 for stocks, e.g. 300 for IF futures.
    pub unit_table: i64,
    /// Smallest price step, in micro-units.
    pub price_tick: Price,
    pub buy_fee_ratio: Ppm,
    /// Sell-side fee rate.
    pub sell_fee_ratio: Ppm,
    /// Smallest fee of one trade, in micro-units.
    pub min_fee: Amount,
    /// Stamp-tax rate (stock sells only).
    pub tax_ratio: Ppm,
    /// Margin rate (meaningful for futures).
    pub margin_ratio: Ppm,
    pub is_stock: bool,
    pub allow_t0: bool,
    pub allow_sellopen: bool,
}

/// The name a preset read without one gets: empty.
pub fn default_name() -> (r: String)
    ensures
        r@.len() == 0,
{
    String::new()
}

/// The contract multiplier a preset read without one gets: 1.
pub fn default_unit_table() -> (r: i64)
    ensures
        r == 1,
{
    1
}

/// The margin rate a preset read without one gets: 100%.
pub fn default_margin_ratio() -> (r: Ppm)
    ensures
        r == 1_000_000,
{
    1_000_000
}

/// The mathematical value of a `CodePreset`.
pub struct PresetView {
    pub name: Seq<char>,
    pub unit_table: i64,
    pub price_tick: i64,
    pub buy_fee_ratio: i64,
    pub sell_fee_ratio: i64,
    pub min_fee: i128,
    pub tax_ratio: i64,
    pub margin_ratio: i64,
    pub is_stock: bool,
    pub allow_t0: bool,
    pub allow_sellopen: bool,
}

impl View for CodePreset {
    type V = PresetView;

    open spec fn view(&self) -> PresetView {
        PresetView {
            name: self.name@,
            unit_table: self.unit_table,
            price_tick: self.price_tick,
            buy_fee_ratio: self.buy_fee_ratio,
            sell_fee_ratio: self.sell_fee_ratio,
            min_fee: self.min_fee,
            tax_ratio: self.tax_ratio,
            margin_ratio: self.margin_ratio,
            is_stock: self.is_stock,
            allow_t0: self.allow_t0,
            allow_sellopen: self.allow_sellopen,
        }
    }
}

impl Clone for CodePreset {
    fn clone(&self) -> (r: Self)
        ensures
            r == *self,
    {
        CodePreset {
            name: self.name.clone(),
            unit_table: self.unit_table,
            price_tick: self.price_tick,
            buy_fee_ratio: self.buy_fee_ratio,
            sell_fee_ratio: self.sell_fee_ratio,
            min_fee: self.min_fee,
            tax_ratio: self.tax_ratio,
            margin_ratio: self.margin_ratio,
            is_stock: self.is_stock,
            allow_t0: self.allow_t0,
            allow_sellopen: self.allow_sellopen,
        }
    }
}

impl PresetView {
    /// Rates and multiplier are within the representable range.
    pub open spec fn wf(self) -> bool {
        &&& 1 <= self.unit_table <= MAX_UNIT
        &&& 0 <= self.buy_fee_ratio <= MAX_PPM
        &&& 0 <= self.sell_fee_ratio <= MAX_PPM
        &&& 0 <= self.tax_ratio <= MAX_PPM
        &&& 0 <= self.margin_ratio <= 1_000_000
        &&& 0 <= self.min_fee <= MAX_TRADE_AMOUNT
    }

    pub open spec fn market_value(self, price: int, volume: int) -> int {
        price * volume * self.unit_table
    }

    /// Buy-side fee of a trade amount, never below the minimum fee.
    pub open spec fn commission(self, amount: int) -> int {
        let fee = ppm_of(amount, self.buy_fee_ratio as int);
        if fee >= self.min_fee { fee } else { self.min_fee as int }
    }

    pub open spec fn commission_with_tax(self, amount: int) -> int {
        let fee = ppm_of(amount, self.sell_fee_ratio as int);
        let fee = if fee >= self.min_fee { fee } else { self.min_fee as int };
        fee + ppm_of(amount, self.tax_ratio as int)
    }

    /// Cash a buy must hold back: its value and its fee.
    pub open spec fn frozen_money(self, price: int, volume: int) -> int {
        let mv = self.market_value(price, volume);
        mv + self.commission(mv)
    }

    pub open spec fn margin(self, price: int, volume: int) -> int {
        ppm_of(self.market_value(price, volume), self.margin_ratio as int)
    }
}

/// The stock preset: multiplier 1, tick 0.01, fees 0.03% with a minimum
/// of 5, stamp tax 0.1%, full margin, no T+0, no short opening.
pub open spec fn stock_default_view() -> PresetView {
    PresetView {
        name: Seq::empty(),
        unit_table: 1,
        price_tick: 10_000,
        buy_fee_ratio: 300,
        sell_fee_ratio: 300,
        min_fee: 5_000_000,
        tax_ratio: 1_000,
        margin_ratio: 1_000_000,
        is_stock: true,
        allow_t0: false,
        allow_sellopen: false,
    }
}

/// The generic futures preset: multiplier 10, tick 0.2, fees 0.005%, no
/// minimum fee or tax, margin 10%, T+0 and short opening allowed.
pub open spec fn future_default_view() -> PresetView {
    PresetView {
        name: Seq::empty(),
        unit_table: 10,
        price_tick: 200_000,
        buy_fee_ratio: 50,
        sell_fee_ratio: 50,
        min_fee: 0,
        tax_ratio: 0,
        margin_ratio: 100_000,
        is_stock: false,
        allow_t0: true,
        allow_sellopen: true,
    }
}

impl Default for CodePreset {
    /// The stock preset.
    fn default() -> (r: CodePreset)
        ensures
            r@ == stock_default_view(),
    {
        CodePreset::stock_default()
    }
}

impl CodePreset {
    pub fn stock_default() -> (r: CodePreset)
        ensures
            r@ == stock_default_view(),
    {
        CodePreset {
            name: String::new(),
            unit_table: 1,
            price_tick: 10_000,
            buy_fee_ratio: 300,
            sell_fee_ratio: 300,
            min_fee: 5_000_000,
            tax_ratio: 1_000,
            margin_ratio: 1_000_000,
            is_stock: true,
            allow_t0: false,
            allow_sellopen: false,
        }
    }

    pub fn future_default() -> (r: CodePreset)
        ensures
            r@ == future_default_view(),
    {
        CodePreset {
            name: String::new(),
            unit_table: 10,
            price_tick: 200_000,
            buy_fee_ratio: 50,
            sell_fee_ratio: 50,
            min_fee: 0,
            tax_ratio: 0,
            margin_ratio: 100_000,
            is_stock: false,
            allow_t0: true,
            allow_sellopen: true,
        }
    }

    /// Value of `volume` units at `price`.
    pub fn calc_marketvalue(&self, price: Price, volume: Volume) -> (r: Amount)
        requires
            self@.wf(),
            trade_in_range(price as int, volume as int),
        ensures
            r == self@.market_value(price as int, volume as int),
            -MAX_TRADE_AMOUNT <= r <= MAX_TRADE_AMOUNT,
    {
        trade_amount(price, volume, self.unit_table)
    }

    /// Buy-side fee of a trade amount.
    pub fn calc_commission(&self, amount: Amount) -> (r: Amount)
        requires
            self@.wf(),
            -MAX_TRADE_AMOUNT <= amount <= MAX_TRADE_AMOUNT,
        ensures
            r == self@.commission(amount as int),
            0 <= r <= MAX_TRADE_AMOUNT * 68,
    {
        proof { lemma_ppm_bound(amount as int, self.buy_fee_ratio as int, MAX_TRADE_AMOUNT as int); }
        let fee = mul_ppm(amount, self.buy_fee_ratio);
        if fee >= self.min_fee {
            fee
        } else {
            self.min_fee
        }
    }

    /// Sell-side fee plus stamp tax of a trade amount.
    pub fn calc_commission_with_tax(&self, amount: Amount) -> (r: Amount)
        requires
            self@.wf(),
            -MAX_TRADE_AMOUNT <= amount <= MAX_TRADE_AMOUNT,
        ensures
            r == self@.commission_with_tax(amount as int),
    {
        proof {
            lemma_ppm_bound(amount as int, self.sell_fee_ratio as int, MAX_TRADE_AMOUNT as int);
            lemma_ppm_bound(amount as int, self.tax_ratio as int, MAX_TRADE_AMOUNT as int);
        }
        let fee = mul_ppm(amount, self.sell_fee_ratio);
        let fee = if fee >= self.min_fee {
            fee
        } else {
            self.min_fee
        };
        fee + mul_ppm(amount, self.tax_ratio)
    }

    /// Cash a buy of `volume` at `price` holds back, fee included.
    pub fn calc_frozenmoney(&self, price: Price, volume: Volume) -> (r: Amount)
        requires
            self@.wf(),
            trade_in_range(price as int, volume as int),
        ensures
            r == self@.frozen_money(price as int, volume as int),
            -MAX_TRADE_AMOUNT <= r <= MAX_TRADE_AMOUNT * 69,
    {
        let mv = self.calc_marketvalue(price, volume);
        mv + self.calc_commission(mv)
    }

    /// Margin of `volume` at `price`.
    pub fn calc_margin(&self, price: Price, volume: Volume) -> (r: Amount)
        requires
            self@.wf(),
            trade_in_range(price as int, volume as int),
        ensures
            r == self@.margin(price as int, volume as int),
            -MAX_TRADE_AMOUNT * 68 <= r <= MAX_TRADE_AMOUNT * 68,
    {
        let mv = self.calc_marketvalue(price, volume);
        proof { lemma_ppm_bound(mv as int, self.margin_ratio as int, MAX_TRADE_AMOUNT as int); }
        mul_ppm(mv, self.margin_ratio)
    }
}

/// The preset a code resolves to: its own entry, else the entry of its
/// leading letters (AG2301 finds AG), else the stock preset for six
/// ASCII digits and the futures preset otherwise.
pub open spec fn resolve_preset(m: Map<Seq<char>, CodePreset>, code: Seq<char>) -> PresetView {
    let prefix = code.take(alpha_prefix_len(code) as int);
    if m.contains_key(code) {
        m[code]@
    } else if m.contains_key(prefix) {
        m[prefix]@
    } else if code.len() == 6 && forall|j: int| 0 <= j < 6 ==> is_ascii_digit(#[trigger] code[j]) {
        stock_default_view()
    } else {
        future_default_view()
    }
}

/// The built-in presets: STOCK, and the IF, AG and AU futures, and no
/// other entry.
pub open spec fn default_presets(m: Map<Seq<char>, CodePreset>) -> bool {
    &&& m.dom() == set!["STOCK"@, "IF"@, "AG"@, "AU"@]
    &&& m["STOCK"@]@ == stock_default_view()
    &&& m["IF"@]@ == (PresetView {
        name: "IF"@,
        unit_table: 300,
        price_tick: 200_000,
        buy_fee_ratio: 25,
        sell_fee_ratio: 25,
        min_fee: 0,
        tax_ratio: 0,
        margin_ratio: 120_000,
        is_stock: false,
        allow_t0: true,
        allow_sellopen: true,
    })
    &&& m["AG"@]@ == (PresetView {
        name: "AG"@,
        unit_table: 15,
        price_tick: 1_000_000,
        buy_fee_ratio: 80,
        sell_fee_ratio: 80,
        min_fee: 0,
        tax_ratio: 0,
        margin_ratio: 100_000,
        is_stock: false,
        allow_t0: true,
        allow_sellopen: true,
    })
    &&& m["AU"@]@ == (PresetView {
        name: "AU"@,
        unit_table: 1000,
        price_tick: 20_000,
        buy_fee_ratio: 100,
        sell_fee_ratio: 100,
        min_fee: 0,
        tax_ratio: 0,
        margin_ratio: 80_000,
        is_stock: false,
        allow_t0: true,
        allow_sellopen: true,
    })
}

/// A set of presets keyed by code or code prefix.
pub struct MarketPreset {
    pub presets: StrMap<CodePreset>,
}

impl MarketPreset {
    /// The map is sound and every preset in it is in range.
    pub open spec fn wf(&self) -> bool {
        &&& self.presets.wf()
        &&& forall|k: Seq<char>|
            #[trigger] self.presets.map().contains_key(k) ==> self.presets.map()[k]@.wf()
    }

    /// Every code resolves to a preset in range.
    pub proof fn lemma_resolve_wf(&self, code: Seq<char>)
        requires
            self.wf(),
        ensures
            resolve_preset(self.presets.map(), code).wf(),
    {
    }

    pub fn new() -> (r: MarketPreset)
        ensures
            r.wf(),
            r.presets.map() == Map::<Seq<char>, CodePreset>::empty(),
    {
        MarketPreset { presets: StrMap::new() }
    }

    /// Adds or replaces the preset of a code.
    pub fn add(&mut self, code: String, preset: CodePreset)
        requires
            old(self).wf(),
            preset@.wf(),
        ensures
            final(self).wf(),
            final(self).presets.map() == old(self).presets.map().insert(code@, preset),
    {
        self.presets.insert(code, preset);
    }

    pub fn contains(&self, code: &str) -> (r: bool)
        requires
            self.wf(),
        ensures
            r == self.presets.map().contains_key(code@),
    {
        self.presets.contains_key(code)
    }

    /// The preset for a code (see `resolve_preset`).
    pub fn get(&self, code: &str) -> (r: CodePreset)
        requires
            self.wf(),
        ensures
            r@ == resolve_preset(self.presets.map(), code@),
            r@.wf(),
    {
        match self.presets.get(code) {
            Some(p) => {
                return p.clone();
            },
            None => {},
        }
        let prefix = alpha_prefix(code);
        match self.presets.get(prefix.as_str()) {
            Some(p) => {
                return p.clone();
            },
            None => {},
        }
        if is_six_digits(code) {
            CodePreset::stock_default()
        } else {
            CodePreset::future_default()
        }
    }

    /// The built-in presets: STOCK, and the IF, AG and AU futures.
    pub fn with_defaults() -> (r: MarketPreset)
        ensures
            r.wf(),
            default_presets(r.presets.map()),
    {
        proof {
            reveal_strlit("STOCK");
            reveal_strlit("IF");
            reveal_strlit("AG");
            reveal_strlit("AU");
            assert("STOCK"@.len() == 5);
            assert("IF"@.len() == 2);
            assert("AG"@[1] != "AU"@[1]);
            assert("STOCK"@ != "IF"@);
            assert("STOCK"@ != "AG"@);
            assert("STOCK"@ != "AU"@);
            assert("IF"@ != "AG"@);
            assert("IF"@ != "AU"@);
            assert("AG"@ != "AU"@);
        }
        let mut p = MarketPreset::new();
        let stock = CodePreset::stock_default();
        let ghost stock_v = stock@;
        p.add(String::from_str("STOCK"), stock);
        assert(p.presets.map()["STOCK"@]@ == stock_default_view());
        p.add(
            String::from_str("IF"),
            CodePreset {
                name: String::from_str("IF"),
                unit_table: 300,
                price_tick: 200_000,
                buy_fee_ratio: 25,
                sell_fee_ratio: 25,
                min_fee: 0,
                tax_ratio: 0,
                margin_ratio: 120_000,
                is_stock: false,
                allow_t0: true,
                allow_sellopen: true,
            },
        );
        p.add(
            String::from_str("AG"),
            CodePreset {
                name: String::from_str("AG"),
                unit_table: 15,
                price_tick: 1_000_000,
                buy_fee_ratio: 80,
                sell_fee_ratio: 80,
                min_fee: 0,
                tax_ratio: 0,
                margin_ratio: 100_000,
                is_stock: false,
                allow_t0: true,
                allow_sellopen: true,
            },
        );
        p.add(
            String::from_str("AU"),
            CodePreset {
                name: String::from_str("AU"),
                unit_table: 1000,
                price_tick: 20_000,
                buy_fee_ratio: 100,
                sell_fee_ratio: 100,
                min_fee: 0,
                tax_ratio: 0,
                margin_ratio: 80_000,
                is_stock: false,
                allow_t0: true,
                allow_sellopen: true,
            },
        );
        proof {
            assert(p.presets.map().dom() =~= set!["STOCK"@, "IF"@, "AG"@, "AU"@]);
        }
        p
    }
}

} // verus!

verus! {

impl CodePreset {
    /// Whether the preset's rates and multiplier are in range.
    pub fn is_valid(&self) -> (r: bool)
        ensures
            r == self@.wf(),
    {
        1 <= self.unit_table && self.unit_table <= MAX_UNIT && 0 <= self.buy_fee_ratio
            && self.buy_fee_ratio <= MAX_PPM && 0 <= self.sell_fee_ratio && self.sell_fee_ratio
            <= MAX_PPM && 0 <= self.tax_ratio && self.tax_ratio <= MAX_PPM && 0 <= self.margin_ratio
            && self.margin_ratio <= 1_000_000 && 0 <= self.min_fee && self.min_fee
            <= MAX_TRADE_AMOUNT
    }
}

} // verus!
