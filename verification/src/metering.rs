//! Cost estimation from model price tables, and the periods spend is
//! queried over.
//!
//! Prices are held in micro-dollars per million tokens (`3_000_000` is
//! $3 per million tokens), so a cost is an exact count of pico-dollars
//! (10^-12 USD): tokens times that price.
use vstd::prelude::*;

use crate::duration::Duration;
use crate::ids::FighterId;
use crate::text::{chars_of, has_prefix, starts_with, to_owned_string};

verus! {

/// Price of a model, per million tokens, in micro-dollars.
#[derive(Debug, Clone, Copy, PartialEq, Eq, Structural)]
pub struct ModelPrice {
    /// Price per million input tokens (micro-dollars).
    pub input_per_million: u64,
    /// Price per million output tokens (micro-dollars).
    pub output_per_million: u64,
}

/// Time period for spend queries.
#[derive(Debug, Clone, Copy, PartialEq, Eq, Structural)]
pub enum SpendPeriod {
    Hour,
    Day,
    Month,
}

/// The length of a spend period in milliseconds.
pub open spec fn period_ms(p: SpendPeriod) -> int {
    match p {
        SpendPeriod::Hour => 3_600_000,
        SpendPeriod::Day => 86_400_000,
        SpendPeriod::Month => 2_592_000_000,
    }
}

/// How a spend period is displayed.
pub open spec fn period_text(p: SpendPeriod) -> Seq<char> {
    match p {
        SpendPeriod::Hour => "hour"@,
        SpendPeriod::Day => "day"@,
        SpendPeriod::Month => "month"@,
    }
}

impl SpendPeriod {
    /// The length of this period.
    pub fn to_duration(self) -> (d: Duration)
        ensures
            d.wf(),
            d@ == period_ms(self) * 1_000_000,
    {
        match self {
            SpendPeriod::Hour => Duration::from_secs(3600),
            SpendPeriod::Day => Duration::from_secs(86_400),
            SpendPeriod::Month => Duration::from_secs(30 * 86_400),
        }
    }

    /// The start of this period when it ends at `now` (milliseconds).
    pub fn since(self, now: i64) -> (t: i64)
        requires
            now >= i64::MIN + 2_592_000_000,
        ensures
            t == now - period_ms(self),
    {
        match self {
            SpendPeriod::Hour => now - 3_600_000,
            SpendPeriod::Day => now - 86_400_000,
            SpendPeriod::Month => now - 2_592_000_000,
        }
    }

    /// The displayed form of this period.
    pub fn to_string(&self) -> (s: String)
        ensures
            s@ == period_text(*self),
    {
        match self {
            SpendPeriod::Hour => to_owned_string("hour"),
            SpendPeriod::Day => to_owned_string("day"),
            SpendPeriod::Month => to_owned_string("month"),
        }
    }
}

/// The price used for models the table does not know: $1 in, $3 out.
pub open spec fn fallback_price() -> ModelPrice {
    ModelPrice { input_per_million: 1_000_000, output_per_million: 3_000_000 }
}

/// The first position from `i` on whose key is a prefix of `model`.
pub open spec fn first_prefix(keys: Seq<Seq<char>>, model: Seq<char>, i: int) -> Option<int>
    decreases keys.len() - i,
{
    if i < 0 || i >= keys.len() {
        None
    } else if has_prefix(model, keys[i]) {
        Some(i)
    } else {
        first_prefix(keys, model, i + 1)
    }
}

/// The first position from `i` on whose key is exactly `model`.
pub open spec fn first_exact(keys: Seq<Seq<char>>, model: Seq<char>, i: int) -> Option<int>
    decreases keys.len() - i,
{
    if i < 0 || i >= keys.len() {
        None
    } else if keys[i] == model {
        Some(i)
    } else {
        first_exact(keys, model, i + 1)
    }
}

/// Engine for estimating LLM costs from a price table.
pub struct MeteringEngine {
    model_prices: Vec<(String, ModelPrice)>,
}

/// The default price table, in order (a longer name before a name that is
/// a prefix of it, so dated snapshots take the more specific price).
pub open spec fn default_prices() -> Seq<(Seq<char>, ModelPrice)> {
    seq![
        ("gpt-4o-mini"@, ModelPrice { input_per_million: 150_000, output_per_million: 600_000 }),
        ("gpt-4o"@, ModelPrice { input_per_million: 2_500_000, output_per_million: 10_000_000 }),
        ("ollama/"@, ModelPrice { input_per_million: 0, output_per_million: 0 }),
    ]
}

/// The views of a price table.
pub open spec fn table_views(t: Seq<(String, ModelPrice)>) -> Seq<(Seq<char>, ModelPrice)> {
    t.map_values(|e: (String, ModelPrice)| (e.0@, e.1))
}

/// The price `table` charges for `model`: the first entry named exactly
/// `model`, else the first entry whose name is a prefix of it, else the
/// fallback price.
pub open spec fn price_in(table: Seq<(Seq<char>, ModelPrice)>, model: Seq<char>) -> ModelPrice {
    let keys = table.map_values(|e: (Seq<char>, ModelPrice)| e.0);
    match first_exact(keys, model, 0) {
        Some(i) => table[i].1,
        None => match first_prefix(keys, model, 0) {
            Some(i) => table[i].1,
            None => fallback_price(),
        },
    }
}

impl MeteringEngine {
    /// The price table: model names (or name prefixes) and their prices.
    pub closed spec fn table(&self) -> Seq<(Seq<char>, ModelPrice)> {
        table_views(self.model_prices@)
    }

    /// An engine with the given price table.
    pub fn with_prices(prices: Vec<(String, ModelPrice)>) -> (e: MeteringEngine)
        ensures
            e.table() == table_views(prices@),
    {
        MeteringEngine { model_prices: prices }
    }

    /// An engine with the default price table.
    pub fn new() -> (e: MeteringEngine)
        ensures
            e.table() == default_prices(),
    {
        let mut t: Vec<(String, ModelPrice)> = Vec::new();
        t.push((to_owned_string("gpt-4o-mini"), ModelPrice { input_per_million: 150_000, output_per_million: 600_000 }));
        t.push((to_owned_string("gpt-4o"), ModelPrice { input_per_million: 2_500_000, output_per_million: 10_000_000 }));
        t.push((to_owned_string("ollama/"), ModelPrice { input_per_million: 0, output_per_million: 0 }));
        assert(table_views(t@) =~= default_prices());
        MeteringEngine { model_prices: t }
    }

    /// The price charged for `model`.
    pub fn get_price(&self, model: &str) -> (p: ModelPrice)
        ensures
            p == price_in(self.table(), model@),
    {
        let ghost tv = self.table();
        let ghost keys = tv.map_values(|e: (Seq<char>, ModelPrice)| e.0);
        let mv = chars_of(model);
        let mut i: usize = 0;
        while i < self.model_prices.len()
            invariant
                i <= self.model_prices@.len(),
                tv == self.table(),
                tv.len() == self.model_prices@.len(),
                keys == tv.map_values(|e: (Seq<char>, ModelPrice)| e.0),
                mv@ == model@,
                first_exact(keys, model@, 0) == first_exact(keys, model@, i as int),
            decreases self.model_prices@.len() - i,
        {
            let kv = chars_of(self.model_prices[i].0.as_str());
            assert(kv@ == keys[i as int]);
            if crate::text::chars_eq(kv.as_slice(), mv.as_slice()) {
                return self.model_prices[i].1;
            }
            i = i + 1;
        }
        let mut i: usize = 0;
        while i < self.model_prices.len()
            invariant
                i <= self.model_prices@.len(),
                tv == self.table(),
                tv.len() == self.model_prices@.len(),
                keys == tv.map_values(|e: (Seq<char>, ModelPrice)| e.0),
                mv@ == model@,
                first_exact(keys, model@, 0).is_none(),
                first_prefix(keys, model@, 0) == first_prefix(keys, model@, i as int),
            decreases self.model_prices@.len() - i,
        {
            let kv = chars_of(self.model_prices[i].0.as_str());
            assert(kv@ == keys[i as int]);
            if starts_with(mv.as_slice(), kv.as_slice()) {
                return self.model_prices[i].1;
            }
            i = i + 1;
        }
        ModelPrice { input_per_million: 1_000_000, output_per_million: 3_000_000 }
    }

    /// The cost, in pico-dollars, of `input_tokens` and `output_tokens` on
    /// `model` (at most `u128::MAX`).
    pub fn estimate_cost(&self, model: &str, input_tokens: u64, output_tokens: u64) -> (c: u128)
        ensures
            c == vstd::math::min(
                input_tokens * price_in(self.table(), model@).input_per_million + output_tokens * price_in(
                    self.table(),
                    model@,
                ).output_per_million,
                u128::MAX as int,
            ),
    {
        let p = self.get_price(model);
        assert((input_tokens as int) * (p.input_per_million as int) <= 0xffff_ffff_ffff_ffff * 0xffff_ffff_ffff_ffff)
            by (nonlinear_arith)
            requires
                input_tokens <= 0xffff_ffff_ffff_ffff,
                p.input_per_million <= 0xffff_ffff_ffff_ffff,
        ;
        assert((output_tokens as int) * (p.output_per_million as int) <= 0xffff_ffff_ffff_ffff * 0xffff_ffff_ffff_ffff)
            by (nonlinear_arith)
            requires
                output_tokens <= 0xffff_ffff_ffff_ffff,
                p.output_per_million <= 0xffff_ffff_ffff_ffff,
        ;
        let a: u128 = input_tokens as u128 * p.input_per_million as u128;
        let b: u128 = output_tokens as u128 * p.output_per_million as u128;
        a.saturating_add(b)
    }

    /// Price one use of `model` by a fighter: the record a usage store keeps,
    /// with the cost the table gives.
    pub fn price_usage(&self, fighter_id: &FighterId, model: &str, input_tokens: u64, output_tokens: u64) -> (r:
        UsageCharge)
        ensures
            r.fighter_id == *fighter_id,
            r.model@ == model@,
            r.input_tokens == input_tokens,
            r.output_tokens == output_tokens,
            r.cost == vstd::math::min(
                input_tokens * price_in(self.table(), model@).input_per_million + output_tokens * price_in(
                    self.table(),
                    model@,
                ).output_per_million,
                u128::MAX as int,
            ),
    {
        let cost = self.estimate_cost(model, input_tokens, output_tokens);
        UsageCharge { fighter_id: *fighter_id, model: to_owned_string(model), input_tokens, output_tokens, cost }
    }
}

/// One priced use of a model, as a usage store keeps it.
#[derive(Debug, Clone)]
pub struct UsageCharge {
    /// Who used it.
    pub fighter_id: FighterId,
    /// The model used.
    pub model: String,
    /// Input tokens.
    pub input_tokens: u64,
    /// Output tokens.
    pub output_tokens: u64,
    /// Cost in pico-dollars.
    pub cost: u128,
}

impl Default for MeteringEngine {
    /// An engine with the default price table.
    fn default() -> (e: MeteringEngine)
        ensures
            e.table() == default_prices(),
    {
        MeteringEngine::new()
    }
}

} // verus!
