//! Budget enforcement: spending limits per fighter and globally, checked
//! before each LLM call, answering allowed, warning or blocked.
//!
//! Enforcement is opt-in: with no limits configured, every request is
//! allowed. Spend is given in whole cents for the current day.
use vstd::prelude::*;

use crate::ids::FighterId;
use crate::report::DAY_MS;
use crate::schedule::now_ms;
use crate::table::{Table, lemma_table_insert, lemma_table_remove};
use crate::text::{decimal, put, put_u64, string_from_chars};

verus! {

/// The warning threshold used when none is given: 80 percent.
pub fn default_warning_threshold() -> (p: u8)
    ensures
        p == 80,
{
    80
}

/// Spending limits for a fighter or globally.
#[derive(Debug, Clone, Copy, PartialEq, Eq, Structural)]
pub struct BudgetLimit {
    /// Maximum total tokens (input + output) per hour.
    pub max_tokens_per_hour: Option<u64>,
    /// Maximum total tokens (input + output) per day.
    pub max_tokens_per_day: Option<u64>,
    /// Maximum cost per day in cents (USD).
    pub max_cost_per_day_cents: Option<u64>,
    /// Maximum number of requests per hour.
    pub max_requests_per_hour: Option<u64>,
    /// Warning threshold as a percentage of any limit.
    pub warning_threshold_percent: u8,
}

impl Default for BudgetLimit {
    /// No limits, warning at 80 percent.
    fn default() -> (l: BudgetLimit)
        ensures
            l == (BudgetLimit {
                max_tokens_per_hour: None,
                max_tokens_per_day: None,
                max_cost_per_day_cents: None,
                max_requests_per_hour: None,
                warning_threshold_percent: 80,
            }),
    {
        BudgetLimit {
            max_tokens_per_hour: None,
            max_tokens_per_day: None,
            max_cost_per_day_cents: None,
            max_requests_per_hour: None,
            warning_threshold_percent: default_warning_threshold(),
        }
    }
}

/// Some limit is configured.
pub open spec fn any_limit(l: BudgetLimit) -> bool {
    l.max_tokens_per_hour.is_some() || l.max_tokens_per_day.is_some() || l.max_cost_per_day_cents.is_some()
        || l.max_requests_per_hour.is_some()
}

impl BudgetLimit {
    /// Whether any limit is configured.
    pub fn has_any_limit(&self) -> (b: bool)
        ensures
            b == any_limit(*self),
    {
        self.max_tokens_per_hour.is_some() || self.max_tokens_per_day.is_some()
            || self.max_cost_per_day_cents.is_some() || self.max_requests_per_hour.is_some()
    }
}

/// The verdict of a budget check.
#[derive(Debug, Clone, PartialEq, Eq)]
pub enum BudgetVerdict {
    /// Within budget.
    Allowed,
    /// Allowed, but approaching a limit: `used_cents` of `limit_cents`.
    Warning { used_cents: u64, limit_cents: u64, message: String },
    /// Over budget.
    Blocked { reason: String, retry_after_secs: u64 },
}

/// How restrictive a verdict is: allowed 0, warning 1, blocked 2.
pub open spec fn severity(v: BudgetVerdict) -> int {
    match v {
        BudgetVerdict::Allowed => 0,
        BudgetVerdict::Warning { .. } => 1,
        BudgetVerdict::Blocked { .. } => 2,
    }
}

/// Warning `a` shows usage at least as high as warning `b` (as fractions
/// of their limits).
pub open spec fn usage_at_least(a: BudgetVerdict, b: BudgetVerdict) -> bool {
    match (a, b) {
        (
            BudgetVerdict::Warning { used_cents: ua, limit_cents: la, .. },
            BudgetVerdict::Warning { used_cents: ub, limit_cents: lb, .. },
        ) => ua * lb >= ub * la,
        _ => true,
    }
}

/// The more restrictive of two verdicts: blocked over warning over
/// allowed; `a` first among two blocks; between two warnings, the one at
/// the higher usage, `a` on a tie.
pub open spec fn more_restrictive(a: BudgetVerdict, b: BudgetVerdict) -> BudgetVerdict {
    if a is Blocked {
        a
    } else if b is Blocked {
        b
    } else if a is Warning && b is Warning {
        if usage_at_least(a, b) {
            a
        } else {
            b
        }
    } else if a is Warning {
        a
    } else if b is Warning {
        b
    } else {
        BudgetVerdict::Allowed
    }
}

/// The product of two 64-bit numbers.
fn mul_wide(a: u64, b: u64) -> (r: u128)
    ensures
        r == a * b,
{
    assert((a as int) * (b as int) <= 0xffff_ffff_ffff_ffff * 0xffff_ffff_ffff_ffff) by (nonlinear_arith)
        requires
            a <= 0xffff_ffff_ffff_ffff,
            b <= 0xffff_ffff_ffff_ffff,
    ;
    a as u128 * b as u128
}

/// Return the more restrictive of two verdicts.
pub fn most_restrictive(a: BudgetVerdict, b: BudgetVerdict) -> (r: BudgetVerdict)
    ensures
        r == more_restrictive(a, b),
        severity(r) == vstd::math::max(severity(a), severity(b)),
{
    let a_blocked = match &a {
        BudgetVerdict::Blocked { .. } => true,
        _ => false,
    };
    let b_blocked = match &b {
        BudgetVerdict::Blocked { .. } => true,
        _ => false,
    };
    if a_blocked {
        return a;
    }
    if b_blocked {
        return b;
    }
    match (&a, &b) {
        (
            BudgetVerdict::Warning { used_cents: ua, limit_cents: la, .. },
            BudgetVerdict::Warning { used_cents: ub, limit_cents: lb, .. },
        ) => {
            let x: u128 = mul_wide(*ua, *lb);
            let y: u128 = mul_wide(*ub, *la);
            if x >= y {
                a
            } else {
                b
            }
        },
        (BudgetVerdict::Warning { .. }, _) => a,
        (_, BudgetVerdict::Warning { .. }) => b,
        _ => BudgetVerdict::Allowed,
    }
}

/// The more restrictive verdict is at least as restrictive as either one,
/// and is one of them unless both allow.
pub proof fn lemma_most_restrictive(a: BudgetVerdict, b: BudgetVerdict)
    ensures
        severity(more_restrictive(a, b)) >= severity(a),
        severity(more_restrictive(a, b)) >= severity(b),
        more_restrictive(a, b) == a || more_restrictive(a, b) == b || more_restrictive(a, b)
            == BudgetVerdict::Allowed,
        more_restrictive(a, BudgetVerdict::Allowed) == a || (a is Allowed && more_restrictive(
            a,
            BudgetVerdict::Allowed,
        ) is Allowed),
{
}

/// Milliseconds from `now` to the next midnight UTC.
pub open spec fn ms_to_midnight(now: int) -> int {
    DAY_MS - (now % (DAY_MS as int))
}

/// Whole seconds from `now` to the next midnight UTC.
pub open spec fn secs_to_midnight(now: int) -> int {
    ms_to_midnight(now) / 1000
}

/// Whole seconds from `now` (milliseconds since the Unix epoch) until the
/// next midnight UTC.
pub fn seconds_until_day_reset_at(now: i64) -> (s: u64)
    ensures
        s == secs_to_midnight(now as int),
        s <= 86400,
{
    let r: i64 = ((now % DAY_MS) + DAY_MS) % DAY_MS;
    assert(r == (now as int) % (DAY_MS as int)) by {
        assert(0 <= r < DAY_MS);
    }
    ((DAY_MS - r) / 1000) as u64
}

/// Whole seconds until the next midnight UTC.
pub fn seconds_until_day_reset() -> (s: u64)
    ensures
        s <= 86400,
{
    seconds_until_day_reset_at(now_ms())
}

/// Usage in whole percent of a limit, rounded half to even.
pub open spec fn percent_rounded(used: nat, limit: nat) -> nat
    recommends
        limit > 0,
{
    let q = (used * 100) / limit;
    let r = (used * 100) % limit;
    if 2 * r > limit || (2 * r == limit && q % 2 == 1) {
        q + 1
    } else {
        q
    }
}

/// Usage in whole percent, rounded half to even.
fn percent_rounded_of(used: u64, limit: u64) -> (p: u128)
    requires
        limit > 0,
    ensures
        p == percent_rounded(used as nat, limit as nat),
{
    let n: u128 = used as u128 * 100;
    let l: u128 = limit as u128;
    let q = n / l;
    let r = n % l;
    if 2 * r > l || (2 * r == l && q % 2 == 1) {
        q + 1
    } else {
        q
    }
}

/// The verdict of `limit` on a day's spend of `daily_cents` at `now`; the
/// messages name the global budget when `global`.
pub open spec fn verdict_of(limit: BudgetLimit, daily_cents: u64, now: int, global: bool) -> BudgetVerdict {
    if !any_limit(limit) {
        BudgetVerdict::Allowed
    } else {
        match limit.max_cost_per_day_cents {
            Some(max) => if daily_cents >= max {
                BudgetVerdict::Blocked {
                    reason: arbitrary(),
                    retry_after_secs: secs_to_midnight(now) as u64,
                }
            } else if daily_cents * 100 >= limit.warning_threshold_percent * max {
                BudgetVerdict::Warning { used_cents: daily_cents, limit_cents: max, message: arbitrary() }
            } else {
                BudgetVerdict::Allowed
            },
            None => BudgetVerdict::Allowed,
        }
    }
}

/// The words a blocked or warning verdict carries.
pub open spec fn verdict_text(v: BudgetVerdict) -> Seq<char> {
    match v {
        BudgetVerdict::Blocked { reason, .. } => reason@,
        BudgetVerdict::Warning { message, .. } => message@,
        BudgetVerdict::Allowed => Seq::empty(),
    }
}

/// The verdict with its text left out.
pub open spec fn bare(v: BudgetVerdict) -> BudgetVerdict {
    match v {
        BudgetVerdict::Blocked { retry_after_secs, .. } => BudgetVerdict::Blocked {
            reason: arbitrary(),
            retry_after_secs,
        },
        BudgetVerdict::Warning { used_cents, limit_cents, .. } => BudgetVerdict::Warning {
            used_cents,
            limit_cents,
            message: arbitrary(),
        },
        BudgetVerdict::Allowed => BudgetVerdict::Allowed,
    }
}

/// The expected text of the verdict of `limit` on `daily_cents`.
pub open spec fn verdict_text_of(limit: BudgetLimit, daily_cents: u64, global: bool) -> Seq<char> {
    let scope = if global {
        "global "@
    } else {
        Seq::<char>::empty()
    };
    match limit.max_cost_per_day_cents {
        Some(max) => if daily_cents >= max {
            scope + "daily cost budget exceeded: "@ + decimal(daily_cents as nat) + "c / "@ + decimal(max as nat)
                + "c"@
        } else {
            "approaching "@ + scope + "daily cost limit: "@ + decimal(daily_cents as nat) + "c / "@ + decimal(
                max as nat,
            ) + "c ("@ + decimal(percent_rounded(daily_cents as nat, max as nat)) + "%)"@
        },
        None => Seq::empty(),
    }
}

/// Evaluate `limit` against a day's spend of `daily_cents` at `now`.
pub fn evaluate_limit(limit: &BudgetLimit, daily_cents: u64, now: i64, global: bool) -> (v: BudgetVerdict)
    ensures
        bare(v) == bare(verdict_of(*limit, daily_cents, now as int, global)),
        !(v is Allowed) ==> verdict_text(v) == verdict_text_of(*limit, daily_cents, global),
{
    if !limit.has_any_limit() {
        return BudgetVerdict::Allowed;
    }
    match limit.max_cost_per_day_cents {
        Some(max) => {
            if daily_cents >= max {
                let mut t: Vec<char> = Vec::new();
                if global {
                    put(&mut t, "global ");
                } else {
                    assert(t@ =~= Seq::<char>::empty());
                }
                put(&mut t, "daily cost budget exceeded: ");
                put_u64(&mut t, daily_cents);
                put(&mut t, "c / ");
                put_u64(&mut t, max);
                put(&mut t, "c");
                return BudgetVerdict::Blocked {
                    reason: string_from_chars(t.as_slice()),
                    retry_after_secs: seconds_until_day_reset_at(now),
                };
            }
            let lhs: u128 = daily_cents as u128 * 100;
            let rhs: u128 = mul_wide(limit.warning_threshold_percent as u64, max);
            if lhs >= rhs {
                let mut t: Vec<char> = Vec::new();
                put(&mut t, "approaching ");
                let ghost t0 = t@;
                if global {
                    put(&mut t, "global ");
                } else {
                    assert(t@ =~= t0 + Seq::<char>::empty());
                }
                put(&mut t, "daily cost limit: ");
                put_u64(&mut t, daily_cents);
                put(&mut t, "c / ");
                put_u64(&mut t, max);
                put(&mut t, "c (");
                let pct = percent_rounded_of(daily_cents, max);
                let pv = crate::text::wide_decimal_chars(pct);
                crate::text::append_chars(&mut t, pv.as_slice());
                put(&mut t, "%)");
                return BudgetVerdict::Warning {
                    used_cents: daily_cents,
                    limit_cents: max,
                    message: string_from_chars(t.as_slice()),
                };
            }
            BudgetVerdict::Allowed
        },
        None => BudgetVerdict::Allowed,
    }
}

/// The current budget status, for display.
#[derive(Debug, Clone)]
pub struct BudgetStatus {
    /// Configured limits, if any.
    pub limits: Option<BudgetLimit>,
    /// Current hourly token usage.
    pub tokens_used_hour: u64,
    /// Current daily token usage.
    pub tokens_used_day: u64,
    /// Current daily cost in cents.
    pub cost_used_day_cents: u64,
    /// Current hourly request count.
    pub requests_used_hour: u64,
    /// Current verdict.
    pub verdict: BudgetVerdict,
}

/// Per-fighter and global spending limits.
pub struct BudgetEnforcer {
    limits: Table<BudgetLimit>,
    global_limit: Option<BudgetLimit>,
}

impl BudgetEnforcer {
    /// The per-fighter limits, keyed by fighter id.
    pub closed spec fn fighter_limits(&self) -> Table<BudgetLimit> {
        self.limits
    }

    /// The global limit, if set.
    pub closed spec fn global(&self) -> Option<BudgetLimit> {
        self.global_limit
    }

    /// The limit table is well formed.
    pub closed spec fn wf(&self) -> bool {
        self.limits.wf()
    }

    /// The limit of fighter `k`, if set.
    pub open spec fn limit_of(&self, k: u128) -> Option<BudgetLimit> {
        if self.fighter_limits().has(k) {
            Some(self.fighter_limits().at(k))
        } else {
            None
        }
    }

    /// An enforcer with no limits.
    pub fn new() -> (e: BudgetEnforcer)
        ensures
            e.wf(),
            forall|k: u128| #[trigger] e.limit_of(k).is_none(),
            e.global().is_none(),
    {
        BudgetEnforcer { limits: Table::new(), global_limit: None }
    }

    /// Set a fighter's limit.
    pub fn set_fighter_limit(&mut self, fighter_id: FighterId, limit: BudgetLimit)
        requires
            old(self).wf(),
        ensures
            final(self).wf(),
            final(self).limit_of(fighter_id.0) == Some(limit),
            forall|k: u128| k != fighter_id.0 ==> #[trigger] final(self).limit_of(k) == old(self).limit_of(k),
            final(self).global() == old(self).global(),
    {
        let ghost t0 = self.limits;
        self.limits.insert(fighter_id.0, limit);
        proof {
            lemma_table_insert(t0, self.limits, fighter_id.0, limit);
        }
    }

    /// Remove a fighter's limit.
    pub fn remove_fighter_limit(&mut self, fighter_id: &FighterId)
        requires
            old(self).wf(),
        ensures
            final(self).wf(),
            final(self).limit_of(fighter_id.0).is_none(),
            forall|k: u128| k != fighter_id.0 ==> #[trigger] final(self).limit_of(k) == old(self).limit_of(k),
            final(self).global() == old(self).global(),
    {
        let ghost t0 = self.limits;
        let _ = self.limits.remove(fighter_id.0);
        proof {
            lemma_table_remove(t0, self.limits, fighter_id.0);
        }
    }

    /// A fighter's limit, if set.
    pub fn get_fighter_limit(&self, fighter_id: &FighterId) -> (r: Option<BudgetLimit>)
        requires
            self.wf(),
        ensures
            r == self.limit_of(fighter_id.0),
    {
        match self.limits.get(fighter_id.0) {
            Some(l) => Some(*l),
            None => None,
        }
    }

    /// Set the global limit, which applies to all fighters together.
    pub fn set_global_limit(&mut self, limit: BudgetLimit)
        ensures
            final(self).global() == Some(limit),
            final(self).fighter_limits() == old(self).fighter_limits(),
            final(self).wf() == old(self).wf(),
    {
        self.global_limit = Some(limit);
    }

    /// Remove the global limit.
    pub fn clear_global_limit(&mut self)
        ensures
            final(self).global().is_none(),
            final(self).fighter_limits() == old(self).fighter_limits(),
            final(self).wf() == old(self).wf(),
    {
        self.global_limit = None;
    }

    /// The global limit, if set.
    pub fn get_global_limit(&self) -> (r: Option<BudgetLimit>)
        ensures
            r == self.global(),
    {
        self.global_limit
    }

    /// The verdict of the global limit on a day's total spend.
    pub open spec fn global_verdict(&self, global_daily_cents: u64, now: int) -> BudgetVerdict {
        match self.global() {
            Some(l) => verdict_of(l, global_daily_cents, now, true),
            None => BudgetVerdict::Allowed,
        }
    }

    /// The verdict of a fighter's own limit on its day's spend.
    pub open spec fn fighter_verdict(&self, k: u128, fighter_daily_cents: u64, now: int) -> BudgetVerdict {
        match self.limit_of(k) {
            Some(l) => verdict_of(l, fighter_daily_cents, now, false),
            None => BudgetVerdict::Allowed,
        }
    }

    /// The verdict of a budget check (texts aside): a block by the
    /// fighter's own limit, else the more restrictive of its own and the
    /// global verdict.
    pub open spec fn checked_verdict(&self, k: u128, fighter_daily_cents: u64, global_daily_cents: u64, now: int) -> BudgetVerdict {
        if self.fighter_verdict(k, fighter_daily_cents, now) is Blocked {
            self.fighter_verdict(k, fighter_daily_cents, now)
        } else {
            more_restrictive(
                self.fighter_verdict(k, fighter_daily_cents, now),
                self.global_verdict(global_daily_cents, now),
            )
        }
    }

    /// The reason a blocked check gives: that of the fighter's own limit
    /// when it blocks, else that of the global limit.
    pub open spec fn block_reason(&self, k: u128, fighter_daily_cents: u64, global_daily_cents: u64) -> Seq<char> {
        if self.fighter_verdict(k, fighter_daily_cents, 0) is Blocked {
            verdict_text_of(self.limit_of(k)->Some_0, fighter_daily_cents, false)
        } else {
            verdict_text_of(self.global()->Some_0, global_daily_cents, true)
        }
    }

    /// Check a fighter's budget before an LLM call, given its spend today
    /// and the total spend today (in cents): its own limit and the global
    /// limit both apply, and the more restrictive verdict wins. A block by
    /// its own limit is answered without looking at the global one.
    pub fn check_budget(&self, fighter_id: &FighterId, fighter_daily_cents: u64, global_daily_cents: u64, now: i64) -> (v: BudgetVerdict)
        requires
            self.wf(),
        ensures
            bare(v) == bare(self.checked_verdict(fighter_id.0, fighter_daily_cents, global_daily_cents, now as int)),
            v is Blocked ==> verdict_text(v) == self.block_reason(fighter_id.0, fighter_daily_cents, global_daily_cents),
            v matches BudgetVerdict::Blocked { retry_after_secs, .. } ==> retry_after_secs == secs_to_midnight(
                now as int,
            ) && retry_after_secs <= 86400,
            severity(v) >= severity(self.fighter_verdict(fighter_id.0, fighter_daily_cents, now as int)),
            severity(v) >= severity(self.global_verdict(global_daily_cents, now as int)),
    {
        let fv = match self.limits.get(fighter_id.0) {
            Some(l) => evaluate_limit(l, fighter_daily_cents, now, false),
            None => BudgetVerdict::Allowed,
        };
        let blocked = match &fv {
            BudgetVerdict::Blocked { .. } => true,
            _ => false,
        };
        if blocked {
            return fv;
        }
        let gv = match &self.global_limit {
            Some(l) => evaluate_limit(l, global_daily_cents, now, true),
            None => BudgetVerdict::Allowed,
        };
        proof {
            let f = self.fighter_verdict(fighter_id.0, fighter_daily_cents, now as int);
            let g = self.global_verdict(global_daily_cents, now as int);
            assert(bare(more_restrictive(fv, gv)) == bare(more_restrictive(f, g)));
        }
        most_restrictive(fv, gv)
    }

    /// A fighter's budget status, given its spend today and the total spend
    /// today (in cents).
    pub fn get_fighter_status(&self, fighter_id: &FighterId, fighter_daily_cents: u64, global_daily_cents: u64, now: i64) -> (s: BudgetStatus)
        requires
            self.wf(),
        ensures
            s.limits == self.limit_of(fighter_id.0),
            s.tokens_used_hour == 0 && s.tokens_used_day == 0 && s.requests_used_hour == 0,
            s.cost_used_day_cents == fighter_daily_cents,
            severity(s.verdict) >= severity(self.fighter_verdict(fighter_id.0, fighter_daily_cents, now as int)),
            severity(s.verdict) >= severity(self.global_verdict(global_daily_cents, now as int)),
    {
        let limits = self.get_fighter_limit(fighter_id);
        let verdict = self.check_budget(fighter_id, fighter_daily_cents, global_daily_cents, now);
        BudgetStatus {
            limits,
            tokens_used_hour: 0,
            tokens_used_day: 0,
            cost_used_day_cents: fighter_daily_cents,
            requests_used_hour: 0,
            verdict,
        }
    }

    /// The global budget status, given the total spend today (in cents).
    pub fn get_global_status(&self, global_daily_cents: u64, now: i64) -> (s: BudgetStatus)
        ensures
            s.limits == self.global(),
            s.tokens_used_hour == 0 && s.tokens_used_day == 0 && s.requests_used_hour == 0,
            s.cost_used_day_cents == global_daily_cents,
            bare(s.verdict) == bare(self.global_verdict(global_daily_cents, now as int)),
    {
        let verdict = match &self.global_limit {
            Some(l) => evaluate_limit(l, global_daily_cents, now, true),
            None => BudgetVerdict::Allowed,
        };
        BudgetStatus {
            limits: self.global_limit,
            tokens_used_hour: 0,
            tokens_used_day: 0,
            cost_used_day_cents: global_daily_cents,
            requests_used_hour: 0,
            verdict,
        }
    }
}

} // verus!
