//! The fighter side of the Ring, the central coordinator: the roster of
//! fighters, and the decisions around sending a fighter a message (quota,
//! budget, bout and status) with the usage and metrics recorded afterwards.
//!
//! The conversation itself (creating a bout in storage, running the model)
//! happens outside; these functions take its results as arguments.
use vstd::prelude::*;

use crate::background::BackgroundExecutor;
use crate::budget::{BudgetEnforcer, BudgetVerdict, verdict_text};
use crate::executor::{GorillaManifest, GorillaStatus};
use crate::ids::{FighterId, GorillaId};
use crate::metrics::{
    MetricsRegistry, ACTIVE_FIGHTERS, ACTIVE_GORILLAS, FIGHTER_SPAWNS_TOTAL, GORILLA_RUNS_TOTAL, MESSAGES_TOTAL,
    TOKENS_INPUT_TOTAL, TOKENS_OUTPUT_TOTAL, ERRORS_TOTAL,
};
use crate::quota::{QuotaScheduler, UsageRecord, within_quota};
use crate::table::{Table, lemma_table_insert, lemma_table_remove, lemma_table_set};
use crate::tenants::{TenantId, TenantRegistry, TenantStatus};
use crate::text::{
    chars_eq, chars_eq_ignore_ascii_case, chars_of, eq_ignore_ascii_case, put, string_from_chars, to_owned_string,
};
use crate::schedule::now_ms;
use crate::table::lemma_filter_take_step;

verus! {

/// Operational status of a fighter.
#[derive(Debug, Clone, Copy, PartialEq, Eq, Structural)]
pub enum FighterStatus {
    /// Waiting for a message.
    Idle,
    /// Working on a message.
    Fighting,
    /// Held back by a quota or budget.
    Resting,
    /// Its last message failed.
    KnockedOut,
}

/// What the Ring tracks about a fighter.
#[derive(Debug, Clone)]
pub struct FighterEntry {
    /// Display name.
    pub name: String,
    /// The model it talks to.
    pub model: String,
    /// Current status.
    pub status: FighterStatus,
    /// The open bout (conversation session), if any.
    pub current_bout: Option<u128>,
    /// The tenant it belongs to, if any.
    pub tenant_id: Option<TenantId>,
}

/// Why a message was refused.
#[derive(Debug, Clone, PartialEq, Eq)]
pub enum RingError {
    /// No such fighter.
    FighterNotFound(FighterId),
    /// Rate limited by `provider`; retry after the given milliseconds.
    RateLimited { provider: String, retry_after_ms: u64 },
    /// No such tenant.
    TenantNotFound(TenantId),
    /// The tenant is suspended.
    TenantSuspended(TenantId),
    /// The tenant already runs as many fighters as it may.
    FighterQuotaExceeded { tenant: TenantId, max: usize },
    /// The fighter belongs to another tenant (or none).
    NotOwnedByTenant { fighter: FighterId, tenant: TenantId },
    /// No such gorilla.
    GorillaNotFound(GorillaId),
    /// The gorilla is already unleashed or rampaging.
    GorillaAlreadyActive(GorillaId),
    /// The gorilla already runs in the background.
    GorillaAlreadyRunning(GorillaId),
}

/// A gorilla registered with the Ring.
#[derive(Debug, Clone)]
pub struct RingGorilla {
    /// What it is.
    pub manifest: GorillaManifest,
    /// Its lifecycle status.
    pub status: GorillaStatus,
}

/// The fighters and the limits that apply to them.
pub struct Ring {
    /// The fighters by id.
    pub fighters: Table<FighterEntry>,
    /// Per-fighter quotas.
    pub scheduler: QuotaScheduler,
    /// Spending limits.
    pub budget: BudgetEnforcer,
    /// Observability counters.
    pub metrics: MetricsRegistry,
    /// The gorillas by id.
    pub gorillas: Table<RingGorilla>,
    /// The gorillas running in the background.
    pub background: BackgroundExecutor,
}

/// How long a fighter over quota is asked to wait: one minute.
pub const QUOTA_RETRY_MS: u64 = 60_000;

impl Ring {
    /// The fighters by id.
    pub closed spec fn roster(&self) -> Table<FighterEntry> {
        self.fighters
    }

    /// Everything is well formed.
    pub open spec fn wf(&self) -> bool {
        &&& self.roster().wf()
        &&& self.scheduler.wf()
        &&& self.budget.wf()
        &&& self.metrics.wf()
        &&& self.gorillas.wf()
        &&& self.background.wf()
    }

    /// The entry of fighter `k`.
    pub open spec fn entry(&self, k: u128) -> FighterEntry {
        self.roster().at(k)
    }

    /// A Ring with no fighters.
    pub fn new(scheduler: QuotaScheduler, budget: BudgetEnforcer, metrics: MetricsRegistry) -> (r: Ring)
        requires
            scheduler.wf(),
            budget.wf(),
            metrics.wf(),
        ensures
            r.wf(),
            r.roster().len() == 0,
    {
        Ring {
            fighters: Table::new(),
            scheduler,
            budget,
            metrics,
            gorillas: Table::new(),
            background: BackgroundExecutor::new(),
        }
    }

    /// File `e` under `id`, count the spawn, and set the active fighter
    /// gauge to the number of fighters.
    fn insert_fighter(&mut self, id: FighterId, e: FighterEntry)
        requires
            old(self).wf(),
        ensures
            final(self).wf(),
            final(self).roster().has(id.0),
            final(self).entry(id.0) == e,
            forall|j: u128| j != id.0 ==> (#[trigger] final(self).roster().has(j) == old(self).roster().has(j)),
            forall|j: u128| j != id.0 && old(self).roster().has(j) ==> #[trigger] final(self).entry(j) == old(self).entry(j),
            final(self).metrics.counters() == bumped_counter(old(self).metrics.counters(), FIGHTER_SPAWNS_TOTAL@),
            final(self).metrics.gauges() == old(self).metrics.gauges().insert(
                ACTIVE_FIGHTERS@,
                final(self).roster().len() as i64,
            ),
            final(self).scheduler == old(self).scheduler,
            final(self).budget == old(self).budget,
            final(self).gorillas == old(self).gorillas,
            final(self).background == old(self).background,
    {
        let ghost t0 = self.fighters;
        self.fighters.insert(id.0, e);
        proof {
            lemma_table_insert(t0, self.fighters, id.0, e);
        }
        self.metrics.counter_inc(FIGHTER_SPAWNS_TOTAL);
        #[verifier::truncate]
        let n = self.fighters.size() as i64;
        self.metrics.gauge_set(ACTIVE_FIGHTERS, n);
    }

    /// Add a fighter under `id`, idle and without a bout; the spawn is
    /// counted and the active fighter gauge set to the number of fighters.
    pub fn spawn_fighter_with_id(&mut self, id: FighterId, name: String, model: String)
        requires
            old(self).wf(),
        ensures
            final(self).wf(),
            final(self).roster().has(id.0),
            final(self).entry(id.0) == (FighterEntry {
                name,
                model,
                status: FighterStatus::Idle,
                current_bout: None,
                tenant_id: None,
            }),
            forall|j: u128| j != id.0 ==> (#[trigger] final(self).roster().has(j) == old(self).roster().has(j)),
            forall|j: u128| j != id.0 && old(self).roster().has(j) ==> #[trigger] final(self).entry(j) == old(self).entry(j),
            final(self).metrics.counters() == bumped_counter(old(self).metrics.counters(), FIGHTER_SPAWNS_TOTAL@),
            final(self).metrics.gauges() == old(self).metrics.gauges().insert(
                ACTIVE_FIGHTERS@,
                final(self).roster().len() as i64,
            ),
    {
        let e = FighterEntry { name, model, status: FighterStatus::Idle, current_bout: None, tenant_id: None };
        self.insert_fighter(id, e);
    }

    /// Add a fighter under a fresh id; see `spawn_fighter_with_id`.
    pub fn spawn_fighter(&mut self, name: String, model: String) -> (id: FighterId)
        requires
            old(self).wf(),
        ensures
            final(self).wf(),
            final(self).roster().has(id.0),
            final(self).entry(id.0) == (FighterEntry {
                name,
                model,
                status: FighterStatus::Idle,
                current_bout: None,
                tenant_id: None,
            }),
            forall|j: u128| j != id.0 ==> (#[trigger] final(self).roster().has(j) == old(self).roster().has(j)),
            forall|j: u128| j != id.0 && old(self).roster().has(j) ==> #[trigger] final(self).entry(j) == old(self).entry(j),
            final(self).metrics.counters() == bumped_counter(old(self).metrics.counters(), FIGHTER_SPAWNS_TOTAL@),
    {
        let id = FighterId::new();
        self.spawn_fighter_with_id(id, name, model);
        id
    }

    /// Set the status of a present fighter.
    fn set_status(&mut self, k: u128, i: usize, status: FighterStatus)
        requires
            old(self).wf(),
            old(self).roster().has(k),
            i == old(self).roster().pos(k),
        ensures
            final(self).wf(),
            final(self).roster().has(k),
            final(self).entry(k) == (FighterEntry { status, ..old(self).entry(k) }),
            forall|j: u128| #[trigger] final(self).roster().has(j) == old(self).roster().has(j),
            forall|j: u128| j != k && old(self).roster().has(j) ==> #[trigger] final(self).entry(j) == old(self).entry(j),
            final(self).scheduler == old(self).scheduler,
            final(self).budget == old(self).budget,
            final(self).metrics == old(self).metrics,
    {
        let ghost t0 = self.fighters;
        proof {
            t0.lemma_wf();
        }
        self.fighters.val_mut(i).status = status;
        proof {
            Table::lemma_wf_vals(t0, self.fighters);
            lemma_table_set(t0, self.fighters, i as int, self.fighters.val_seq()[i as int]);
        }
    }

    /// The first half of sending a fighter a message at `now`, given its
    /// spend today and the total spend today in cents: the fighter must
    /// exist; over quota or over budget it rests and the message is refused
    /// as rate limited. Otherwise the fighter's open bout is returned
    /// (`None`: a bout is to be created) and the fighter is left as it was.
    pub fn begin_message_at(
        &mut self,
        fighter_id: &FighterId,
        now: i64,
        fighter_daily_cents: u64,
        global_daily_cents: u64,
    ) -> (r: Result<Option<u128>, RingError>)
        requires
            old(self).wf(),
        ensures
            final(self).wf(),
            forall|j: u128| #[trigger] final(self).roster().has(j) == old(self).roster().has(j),
            forall|j: u128| j != fighter_id.0 && old(self).roster().has(j) ==> #[trigger] final(self).entry(j)
                == old(self).entry(j),
            final(self).metrics == old(self).metrics,
            final(self).budget == old(self).budget,
            final(self).scheduler.cfg() == old(self).scheduler.cfg(),
            forall|j: u128| #[trigger] final(self).scheduler.log_of(j) == old(self).scheduler.log_of(j),
            !old(self).roster().has(fighter_id.0) ==> r == Err::<Option<u128>, RingError>(
                RingError::FighterNotFound(*fighter_id),
            ),
            old(self).roster().has(fighter_id.0) && !within_quota(
                old(self).scheduler.cfg(),
                old(self).scheduler.log_of(fighter_id.0),
                now as int,
            ) ==> final(self).entry(fighter_id.0) == (FighterEntry {
                status: FighterStatus::Resting,
                ..old(self).entry(fighter_id.0)
            }) && (r matches Err(RingError::RateLimited { provider, retry_after_ms }) && provider@ == "scheduler"@
                && retry_after_ms == QUOTA_RETRY_MS),
            old(self).roster().has(fighter_id.0) && within_quota(
                old(self).scheduler.cfg(),
                old(self).scheduler.log_of(fighter_id.0),
                now as int,
            ) ==> match old(self).budget.checked_verdict(
                fighter_id.0,
                fighter_daily_cents,
                global_daily_cents,
                now as int,
            ) {
                BudgetVerdict::Blocked { retry_after_secs, .. } => final(self).entry(fighter_id.0) == (FighterEntry {
                    status: FighterStatus::Resting,
                    ..old(self).entry(fighter_id.0)
                }) && (r matches Err(RingError::RateLimited { provider, retry_after_ms }) && provider@ == "budget: "@
                    + old(self).budget.block_reason(fighter_id.0, fighter_daily_cents, global_daily_cents)
                    && retry_after_ms == retry_after_secs * 1000),
                _ => r == Ok::<Option<u128>, RingError>(old(self).entry(fighter_id.0).current_bout)
                    && final(self).entry(fighter_id.0) == old(self).entry(fighter_id.0),
            },
    {
        let i = match self.fighters.find(fighter_id.0) {
            None => {
                return Err(RingError::FighterNotFound(*fighter_id));
            },
            Some(i) => i,
        };
        let quota_ok = self.scheduler.check_quota_at(fighter_id, now);
        if !quota_ok {
            self.set_status(fighter_id.0, i, FighterStatus::Resting);
            return Err(RingError::RateLimited { provider: to_owned_string("scheduler"), retry_after_ms: QUOTA_RETRY_MS });
        }
        let verdict = self.budget.check_budget(fighter_id, fighter_daily_cents, global_daily_cents, now);
        match verdict {
            BudgetVerdict::Blocked { reason, retry_after_secs } => {
                self.set_status(fighter_id.0, i, FighterStatus::Resting);
                let mut p: Vec<char> = Vec::new();
                put(&mut p, "budget: ");
                put(&mut p, reason.as_str());
                return Err(
                    RingError::RateLimited {
                        provider: string_from_chars(p.as_slice()),
                        retry_after_ms: retry_after_secs * 1000,
                    },
                );
            },
            _ => {},
        }
        let bout = self.fighters.val_at(i).current_bout;
        Ok(bout)
    }

    /// Record the bout a fighter's messages now go to, mark it fighting and
    /// count the message. Returns the bout when it is new to the fighter
    /// (the caller announces it as started), `None` when it was already open.
    pub fn start_fighting(&mut self, fighter_id: &FighterId, bout: u128) -> (started: Option<u128>)
        requires
            old(self).wf(),
        ensures
            final(self).wf(),
            forall|j: u128| #[trigger] final(self).roster().has(j) == old(self).roster().has(j),
            forall|j: u128| j != fighter_id.0 && old(self).roster().has(j) ==> #[trigger] final(self).entry(j)
                == old(self).entry(j),
            old(self).roster().has(fighter_id.0) ==> final(self).entry(fighter_id.0) == (FighterEntry {
                status: FighterStatus::Fighting,
                current_bout: Some(bout),
                ..old(self).entry(fighter_id.0)
            }),
            old(self).roster().has(fighter_id.0) ==> started == (if old(self).entry(fighter_id.0).current_bout is None {
                Some(bout)
            } else {
                None::<u128>
            }),
            old(self).roster().has(fighter_id.0) ==> final(self).metrics.counters() == bumped_counter(
                old(self).metrics.counters(),
                MESSAGES_TOTAL@,
            ) && final(self).metrics.gauges() == old(self).metrics.gauges(),
            !old(self).roster().has(fighter_id.0) ==> started is None && final(self).metrics == old(self).metrics,
            final(self).scheduler == old(self).scheduler,
            final(self).budget == old(self).budget,
    {
        match self.fighters.find(fighter_id.0) {
            None => None,
            Some(i) => {
                let ghost t0 = self.fighters;
                proof {
                    t0.lemma_wf();
                }
                let was_open = self.fighters.val_at(i).current_bout.is_some();
                {
                    let e = self.fighters.val_mut(i);
                    e.status = FighterStatus::Fighting;
                    e.current_bout = Some(bout);
                }
                proof {
                    Table::lemma_wf_vals(t0, self.fighters);
                    lemma_table_set(t0, self.fighters, i as int, self.fighters.val_seq()[i as int]);
                }
                let ghost f1 = self.fighters;
                let ghost mid = *self;
                self.metrics.counter_inc(MESSAGES_TOTAL);
                assert(self.fighters == f1);
                assert forall|j: u128| j != fighter_id.0 && old(self).roster().has(j) implies #[trigger] self.entry(j)
                    == old(self).entry(j) by {
                    assert(self.entry(j) == mid.entry(j));
                }
                if was_open {
                    None
                } else {
                    Some(bout)
                }
            },
        }
    }

    /// The second half of sending a message, at `now`: on success the
    /// fighter is idle again and its tokens count against its quota and in
    /// the token counters; on failure it is knocked out and the error
    /// counter grows.
    pub fn finish_message_at(&mut self, fighter_id: &FighterId, outcome: Option<(u64, u64)>, now: i64)
        requires
            old(self).wf(),
        ensures
            final(self).wf(),
            forall|j: u128| #[trigger] final(self).roster().has(j) == old(self).roster().has(j),
            forall|j: u128| j != fighter_id.0 && old(self).roster().has(j) ==> #[trigger] final(self).entry(j)
                == old(self).entry(j),
            old(self).roster().has(fighter_id.0) ==> final(self).entry(fighter_id.0) == (FighterEntry {
                status: if outcome.is_some() {
                    FighterStatus::Idle
                } else {
                    FighterStatus::KnockedOut
                },
                ..old(self).entry(fighter_id.0)
            }),
            old(self).roster().has(fighter_id.0) && outcome is Some ==> final(self).scheduler.log_of(fighter_id.0)
                == old(self).scheduler.log_of(fighter_id.0).push(
                UsageRecord {
                    timestamp: now,
                    tokens: (outcome->Some_0.0 + outcome->Some_0.1) as u64,
                },
            ) || outcome->Some_0.0 as nat + outcome->Some_0.1 as nat > u64::MAX,
            !(old(self).roster().has(fighter_id.0) && outcome is Some) ==> final(self).scheduler == old(self).scheduler,
            old(self).roster().has(fighter_id.0) ==> final(self).metrics.counters() == match outcome {
                Some((input, output)) => added_counter(
                    added_counter(old(self).metrics.counters(), TOKENS_INPUT_TOTAL@, input),
                    TOKENS_OUTPUT_TOTAL@,
                    output,
                ),
                None => bumped_counter(old(self).metrics.counters(), ERRORS_TOTAL@),
            },
            final(self).metrics.gauges() == old(self).metrics.gauges(),
            !old(self).roster().has(fighter_id.0) ==> final(self).metrics == old(self).metrics,
    {
        match self.fighters.find(fighter_id.0) {
            None => {},
            Some(i) => {
                match outcome {
                    Some((input, output)) => {
                        self.set_status(fighter_id.0, i, FighterStatus::Idle);
                        let ghost f1 = self.fighters;
                        let ghost mid = *self;
                        let total = input.saturating_add(output);
                        self.scheduler.record_usage_at(fighter_id, total, now);
                        self.metrics.counter_add(TOKENS_INPUT_TOTAL, input);
                        self.metrics.counter_add(TOKENS_OUTPUT_TOTAL, output);
                        assert(self.fighters == f1);
                        assert forall|j: u128| j != fighter_id.0 && old(self).roster().has(j) implies #[trigger] self.entry(
                            j,
                        ) == old(self).entry(j) by {
                            assert(self.entry(j) == mid.entry(j));
                        }
                    },
                    None => {
                        self.set_status(fighter_id.0, i, FighterStatus::KnockedOut);
                        let ghost f1 = self.fighters;
                        let ghost mid = *self;
                        self.metrics.counter_inc(ERRORS_TOTAL);
                        assert(self.fighters == f1);
                        assert forall|j: u128| j != fighter_id.0 && old(self).roster().has(j) implies #[trigger] self.entry(
                            j,
                        ) == old(self).entry(j) by {
                            assert(self.entry(j) == mid.entry(j));
                        }
                    },
                }
            },
        }
    }

    /// Remove a fighter and its quota state, and set the active fighter
    /// gauge to the number left; returns its entry if it existed.
    pub fn kill_fighter(&mut self, fighter_id: &FighterId) -> (r: Option<FighterEntry>)
        requires
            old(self).wf(),
        ensures
            final(self).wf(),
            !final(self).roster().has(fighter_id.0),
            forall|j: u128| j != fighter_id.0 ==> (#[trigger] final(self).roster().has(j) == old(self).roster().has(j)),
            forall|j: u128| j != fighter_id.0 && old(self).roster().has(j) ==> #[trigger] final(self).entry(j)
                == old(self).entry(j),
            r is Some == old(self).roster().has(fighter_id.0),
            r is Some ==> final(self).metrics.gauges() == old(self).metrics.gauges().insert(
                ACTIVE_FIGHTERS@,
                final(self).roster().len() as i64,
            ),
            r is None ==> final(self).metrics == old(self).metrics,
            final(self).metrics.counters() == old(self).metrics.counters(),
    {
        let ghost t0 = self.fighters;
        let r = self.fighters.remove(fighter_id.0);
        proof {
            lemma_table_remove(t0, self.fighters, fighter_id.0);
        }
        if r.is_some() {
            self.scheduler.remove_fighter(fighter_id);
            #[verifier::truncate]
            let n = self.fighters.size() as i64;
            self.metrics.gauge_set(ACTIVE_FIGHTERS, n);
        }
        r
    }

    /// A fighter's entry, if present.
    pub fn get_fighter(&self, fighter_id: &FighterId) -> (r: Option<&FighterEntry>)
        requires
            self.wf(),
        ensures
            match r {
                Some(e) => self.roster().has(fighter_id.0) && *e == self.entry(fighter_id.0),
                None => !self.roster().has(fighter_id.0),
            },
    {
        self.fighters.get(fighter_id.0)
    }

    /// Every fighter's id, name and status, in the order they were added.
    pub fn list_fighters(&self) -> (r: Vec<(FighterId, String, FighterStatus)>)
        requires
            self.wf(),
        ensures
            r@.len() == self.roster().len(),
            forall|i: int|
                0 <= i < r@.len() ==> {
                    &&& (#[trigger] r@[i]).0 == FighterId(self.roster().key_seq()[i])
                    &&& r@[i].1@ == self.roster().val_seq()[i].name@
                    &&& r@[i].2 == self.roster().val_seq()[i].status
                },
    {
        let mut r: Vec<(FighterId, String, FighterStatus)> = Vec::new();
        let mut i: usize = 0;
        proof {
            self.fighters.lemma_wf();
        }
        while i < self.fighters.size()
            invariant
                self.wf(),
                i <= self.roster().len(),
                self.roster().key_seq().len() == self.roster().val_seq().len(),
                r@.len() == i,
                forall|j: int|
                    0 <= j < i ==> {
                        &&& (#[trigger] r@[j]).0 == FighterId(self.roster().key_seq()[j])
                        &&& r@[j].1@ == self.roster().val_seq()[j].name@
                        &&& r@[j].2 == self.roster().val_seq()[j].status
                    },
            decreases self.roster().len() - i,
        {
            let k = self.fighters.key_at(i);
            let e = self.fighters.val_at(i);
            r.push((FighterId(k), e.name.clone(), e.status));
            i = i + 1;
        }
        r
    }
}

/// Holds of the entries of fighters of tenant `t`.
pub open spec fn of_tenant(t: TenantId) -> spec_fn(FighterEntry) -> bool {
    |e: FighterEntry| e.tenant_id == Some(t)
}

/// The number of fighters of tenant `t` in `roster`.
pub open spec fn tenant_fighter_count(roster: Table<FighterEntry>, t: TenantId) -> nat {
    roster.val_seq().filter(of_tenant(t)).len()
}

/// The positions in `roster` of the fighters of tenant `t`, in order.
pub open spec fn tenant_positions(roster: Table<FighterEntry>, t: TenantId) -> Seq<int> {
    Seq::new(roster.val_seq().len(), |i: int| i).filter(|i: int| roster.val_seq()[i].tenant_id == Some(t))
}

/// The first position in `roster` of a fighter named `name`, or the
/// roster's length when there is none.
pub open spec fn first_named(roster: Seq<FighterEntry>, name: Seq<char>, from: int) -> int
    decreases roster.len() - from,
{
    if from >= roster.len() || from < 0 {
        roster.len() as int
    } else if roster[from].name@ == name {
        from
    } else {
        first_named(roster, name, from + 1)
    }
}

proof fn lemma_first_named(roster: Seq<FighterEntry>, name: Seq<char>, from: int)
    requires
        0 <= from <= roster.len(),
    ensures
        from <= first_named(roster, name, from) <= roster.len(),
        first_named(roster, name, from) < roster.len() ==> roster[first_named(roster, name, from)].name@ == name,
        forall|j: int| from <= j < first_named(roster, name, from) ==> (#[trigger] roster[j]).name@ != name,
    decreases roster.len() - from,
{
    if from < roster.len() && roster[from].name@ != name {
        lemma_first_named(roster, name, from + 1);
    }
}

impl Ring {
    /// The number of fighters of tenant `t`.
    fn count_for_tenant(&self, t: TenantId) -> (n: usize)
        requires
            self.wf(),
        ensures
            n == tenant_fighter_count(self.roster(), t),
    {
        let ghost vals = self.roster().val_seq();
        let ghost pred = of_tenant(t);
        proof { self.fighters.lemma_wf(); }
        let mut n: usize = 0;
        let mut i: usize = 0;
        while i < self.fighters.size()
            invariant
                self.wf(),
                vals == self.roster().val_seq(),
                vals.len() == self.roster().len(),
                pred == of_tenant(t),
                i <= vals.len(),
                n == vals.take(i as int).filter(pred).len(),
                n <= i,
            decreases vals.len() - i,
        {
            proof { lemma_filter_take_step(vals, i as int, pred); }
            if self.fighters.val_at(i).tenant_id == Some(t) {
                n = n + 1;
            }
            i = i + 1;
        }
        assert(vals.take(vals.len() as int) =~= vals);
        n
    }

    /// Spawn a fighter named `name` on `model` for tenant `tenant_id`:
    /// refused when the tenant is unknown or suspended, or already runs as
    /// many fighters as its quota allows; otherwise the fighter is added
    /// idle, stamped with the tenant, under a fresh id.
    pub fn spawn_fighter_for_tenant(&mut self, tenants: &TenantRegistry, tenant_id: &TenantId, name: String, model: String) -> (r: Result<
        FighterId,
        RingError,
    >)
        requires
            old(self).wf(),
            tenants.wf(),
        ensures
            final(self).wf(),
            match tenants.tenant(tenant_id.0) {
                None => r == Err::<FighterId, RingError>(RingError::TenantNotFound(*tenant_id)) && *final(self) == *old(self),
                Some(t) => if t.status == TenantStatus::Suspended {
                    r == Err::<FighterId, RingError>(RingError::TenantSuspended(*tenant_id)) && *final(self) == *old(self)
                } else if tenant_fighter_count(old(self).roster(), *tenant_id) >= t.quota.max_fighters {
                    r == Err::<FighterId, RingError>(
                        RingError::FighterQuotaExceeded { tenant: *tenant_id, max: t.quota.max_fighters },
                    ) && *final(self) == *old(self)
                } else {
                    &&& r is Ok
                    &&& final(self).roster().has(r->Ok_0.0)
                    &&& final(self).entry(r->Ok_0.0) == (FighterEntry {
                        name,
                        model,
                        status: FighterStatus::Idle,
                        current_bout: None,
                        tenant_id: Some(*tenant_id),
                    })
                    &&& forall|j: u128| j != r->Ok_0.0 ==> (#[trigger] final(self).roster().has(j) == old(self).roster().has(j))
                    &&& forall|j: u128| j != r->Ok_0.0 && old(self).roster().has(j) ==> #[trigger] final(self).entry(j)
                        == old(self).entry(j)
                    &&& final(self).metrics.counters() == bumped_counter(old(self).metrics.counters(), FIGHTER_SPAWNS_TOTAL@)
                    &&& final(self).metrics.gauges() == old(self).metrics.gauges().insert(
                        ACTIVE_FIGHTERS@,
                        final(self).roster().len() as i64,
                    )
                },
            },
    {
        let (suspended, max) = match tenants.get_tenant(tenant_id) {
            None => {
                return Err(RingError::TenantNotFound(*tenant_id));
            },
            Some(t) => (t.status == TenantStatus::Suspended, t.quota.max_fighters),
        };
        if suspended {
            return Err(RingError::TenantSuspended(*tenant_id));
        }
        if self.count_for_tenant(*tenant_id) >= max {
            return Err(RingError::FighterQuotaExceeded { tenant: *tenant_id, max });
        }
        let id = FighterId::new();
        let e = FighterEntry { name, model, status: FighterStatus::Idle, current_bout: None, tenant_id: Some(*tenant_id) };
        self.insert_fighter(id, e);
        Ok(id)
    }

    /// Every fighter of tenant `t`, with its name and status, in the order
    /// they were added.
    pub fn list_fighters_for_tenant(&self, t: &TenantId) -> (r: Vec<(FighterId, String, FighterStatus)>)
        requires
            self.wf(),
        ensures
            r@.len() == tenant_positions(self.roster(), *t).len(),
            forall|j: int|
                0 <= j < r@.len() ==> {
                    let p = tenant_positions(self.roster(), *t)[j];
                    &&& (#[trigger] r@[j]).0 == FighterId(self.roster().key_seq()[p])
                    &&& r@[j].1@ == self.roster().val_seq()[p].name@
                    &&& r@[j].2 == self.roster().val_seq()[p].status
                },
    {
        let ghost vals = self.roster().val_seq();
        let ghost idx = Seq::new(vals.len(), |i: int| i);
        let ghost pred = |i: int| vals[i].tenant_id == Some(*t);
        proof { self.fighters.lemma_wf(); }
        let mut r: Vec<(FighterId, String, FighterStatus)> = Vec::new();
        let mut i: usize = 0;
        while i < self.fighters.size()
            invariant
                self.wf(),
                vals == self.roster().val_seq(),
                vals.len() == self.roster().len(),
                self.roster().key_seq().len() == vals.len(),
                idx == Seq::new(vals.len(), |i: int| i),
                pred == (|i: int| vals[i].tenant_id == Some(*t)),
                i <= vals.len(),
                r@.len() == idx.take(i as int).filter(pred).len(),
                forall|j: int|
                    0 <= j < r@.len() ==> {
                        let p = idx.take(i as int).filter(pred)[j];
                        &&& (#[trigger] r@[j]).0 == FighterId(self.roster().key_seq()[p])
                        &&& r@[j].1@ == vals[p].name@
                        &&& r@[j].2 == vals[p].status
                    },
            decreases vals.len() - i,
        {
            proof {
                lemma_filter_take_step(idx, i as int, pred);
            }
            let e = self.fighters.val_at(i);
            if e.tenant_id == Some(*t) {
                let ghost before = idx.take(i as int).filter(pred);
                r.push((FighterId(self.fighters.key_at(i)), e.name.clone(), e.status));
                proof {
                    assert(idx[i as int] == i as int);
                    assert forall|j: int| 0 <= j < r@.len() implies {
                        let p = idx.take(i + 1).filter(pred)[j];
                        &&& (#[trigger] r@[j]).0 == FighterId(self.roster().key_seq()[p])
                        &&& r@[j].1@ == vals[p].name@
                        &&& r@[j].2 == vals[p].status
                    } by {
                        if j < before.len() {
                            assert(idx.take(i + 1).filter(pred)[j] == before[j]);
                        }
                    }
                }
            }
            i = i + 1;
        }
        assert(idx.take(vals.len() as int) =~= idx);
        assert(tenant_positions(self.roster(), *t) == idx.filter(pred)) by {
            assert(pred =~= (|i: int| self.roster().val_seq()[i].tenant_id == Some(*t)));
        }
        r
    }

    /// Remove fighter `fighter_id` on behalf of tenant `tenant_id`: refused
    /// when there is no such fighter or it belongs to another tenant.
    pub fn kill_fighter_for_tenant(&mut self, fighter_id: &FighterId, tenant_id: &TenantId) -> (r: Result<(), RingError>)
        requires
            old(self).wf(),
        ensures
            final(self).wf(),
            !old(self).roster().has(fighter_id.0) ==> r == Err::<(), RingError>(RingError::FighterNotFound(*fighter_id))
                && *final(self) == *old(self),
            old(self).roster().has(fighter_id.0) && old(self).entry(fighter_id.0).tenant_id != Some(*tenant_id) ==> r
                == Err::<(), RingError>(RingError::NotOwnedByTenant { fighter: *fighter_id, tenant: *tenant_id })
                && *final(self) == *old(self),
            old(self).roster().has(fighter_id.0) && old(self).entry(fighter_id.0).tenant_id == Some(*tenant_id) ==> {
                &&& r is Ok
                &&& !final(self).roster().has(fighter_id.0)
                &&& forall|j: u128| j != fighter_id.0 ==> (#[trigger] final(self).roster().has(j) == old(self).roster().has(j))
                &&& forall|j: u128| j != fighter_id.0 && old(self).roster().has(j) ==> #[trigger] final(self).entry(j)
                    == old(self).entry(j)
            },
    {
        let owned = match self.fighters.get(fighter_id.0) {
            None => {
                return Err(RingError::FighterNotFound(*fighter_id));
            },
            Some(e) => e.tenant_id == Some(*tenant_id),
        };
        if !owned {
            return Err(RingError::NotOwnedByTenant { fighter: *fighter_id, tenant: *tenant_id });
        }
        let _gone = self.kill_fighter(fighter_id);
        Ok(())
    }

    /// The first fighter (in the order they were added) named `name`.
    pub fn find_fighter_by_name(&self, name: &str) -> (r: Option<FighterId>)
        requires
            self.wf(),
        ensures
            match r {
                Some(id) => first_named(self.roster().val_seq(), name@, 0) < self.roster().len() && id.0
                    == self.roster().key_seq()[first_named(self.roster().val_seq(), name@, 0)],
                None => first_named(self.roster().val_seq(), name@, 0) == self.roster().len(),
            },
    {
        let ghost vals = self.roster().val_seq();
        proof {
            self.fighters.lemma_wf();
            lemma_first_named(vals, name@, 0);
        }
        let nc = chars_of(name);
        let mut i: usize = 0;
        while i < self.fighters.size()
            invariant
                self.wf(),
                vals == self.roster().val_seq(),
                vals.len() == self.roster().len(),
                nc@ == name@,
                i <= vals.len(),
                first_named(vals, name@, 0) == first_named(vals, name@, i as int),
            decreases vals.len() - i,
        {
            let ec = chars_of(self.fighters.val_at(i).name.as_str());
            if chars_eq(ec.as_slice(), nc.as_slice()) {
                return Some(FighterId(self.fighters.key_at(i)));
            }
            i = i + 1;
        }
        None
    }
}

/// The first position in `gorillas` of a gorilla whose name equals `name`
/// apart from ASCII case, or the length when there is none.
pub open spec fn first_gorilla_named(gorillas: Seq<RingGorilla>, name: Seq<char>, from: int) -> int
    decreases gorillas.len() - from,
{
    if from >= gorillas.len() || from < 0 {
        gorillas.len() as int
    } else if eq_ignore_ascii_case(gorillas[from].manifest.name@, name) {
        from
    } else {
        first_gorilla_named(gorillas, name, from + 1)
    }
}

/// The value of counter `key` after one more.
pub open spec fn bumped_counter(m: Map<Seq<char>, u64>, key: Seq<char>) -> Map<Seq<char>, u64> {
    added_counter(m, key, 1)
}

/// The counters after adding `n` to counter `key` (wrapping, as counters do).
pub open spec fn added_counter(m: Map<Seq<char>, u64>, key: Seq<char>, n: u64) -> Map<Seq<char>, u64> {
    m.insert(key, (if m.dom().contains(key) { m[key] } else { 0u64 }).wrapping_add(n))
}

/// The value of gauge `key` after adding `d`.
pub open spec fn moved_gauge(m: Map<Seq<char>, i64>, key: Seq<char>, d: i64) -> Map<Seq<char>, i64> {
    m.insert(key, (if m.dom().contains(key) { m[key] } else { 0i64 }).wrapping_add(d))
}

impl Ring {
    /// Register a gorilla, caged, under a fresh id.
    pub fn register_gorilla(&mut self, manifest: GorillaManifest) -> (id: GorillaId)
        requires
            old(self).wf(),
        ensures
            final(self).wf(),
            final(self).gorillas.has(id.0),
            final(self).gorillas.at(id.0) == (RingGorilla { manifest, status: GorillaStatus::Caged }),
            forall|j: u128| j != id.0 ==> (#[trigger] final(self).gorillas.has(j) == old(self).gorillas.has(j)),
            forall|j: u128| j != id.0 && old(self).gorillas.has(j) ==> #[trigger] final(self).gorillas.at(j)
                == old(self).gorillas.at(j),
            final(self).roster() == old(self).roster(),
            final(self).background == old(self).background,
    {
        let id = GorillaId::new();
        let g = RingGorilla { manifest, status: GorillaStatus::Caged };
        let ghost t0 = self.gorillas;
        self.gorillas.insert(id.0, g);
        proof {
            lemma_table_insert(t0, self.gorillas, id.0, g);
        }
        id
    }

    /// Unleash gorilla `id` at `now`: refused when it is not registered, is
    /// already unleashed or rampaging, or already runs in the background;
    /// otherwise it starts in the background, is unleashed, and the gorilla
    /// run counter and active gorilla gauge each go up by one.
    pub fn unleash_gorilla_at(&mut self, id: &GorillaId, now: i64) -> (r: Result<(), RingError>)
        requires
            old(self).wf(),
        ensures
            final(self).wf(),
            !old(self).gorillas.has(id.0) ==> r == Err::<(), RingError>(RingError::GorillaNotFound(*id)) && *final(self)
                == *old(self),
            old(self).gorillas.has(id.0) && (old(self).gorillas.at(id.0).status == GorillaStatus::Unleashed
                || old(self).gorillas.at(id.0).status == GorillaStatus::Rampaging) ==> r == Err::<(), RingError>(
                RingError::GorillaAlreadyActive(*id),
            ) && *final(self) == *old(self),
            old(self).gorillas.has(id.0) && old(self).gorillas.at(id.0).status != GorillaStatus::Unleashed
                && old(self).gorillas.at(id.0).status != GorillaStatus::Rampaging && old(self).background.running().has(
                id.0,
            ) ==> r == Err::<(), RingError>(RingError::GorillaAlreadyRunning(*id)) && *final(self) == *old(self),
            old(self).gorillas.has(id.0) && old(self).gorillas.at(id.0).status != GorillaStatus::Unleashed
                && old(self).gorillas.at(id.0).status != GorillaStatus::Rampaging && !old(self).background.running().has(
                id.0,
            ) ==> {
                &&& r is Ok
                &&& final(self).gorillas.has(id.0)
                &&& final(self).gorillas.at(id.0) == (RingGorilla {
                    status: GorillaStatus::Unleashed,
                    ..old(self).gorillas.at(id.0)
                })
                &&& final(self).background.running().has(id.0)
                &&& final(self).background.running().at(id.0) == now
                &&& final(self).metrics.counters() == bumped_counter(old(self).metrics.counters(), GORILLA_RUNS_TOTAL@)
                &&& final(self).metrics.gauges() == moved_gauge(old(self).metrics.gauges(), ACTIVE_GORILLAS@, 1i64)
            },
            forall|j: u128| j != id.0 ==> (#[trigger] final(self).gorillas.has(j) == old(self).gorillas.has(j)),
            forall|j: u128| j != id.0 && old(self).gorillas.has(j) ==> #[trigger] final(self).gorillas.at(j)
                == old(self).gorillas.at(j),
            final(self).roster() == old(self).roster(),
    {
        let i = match self.gorillas.find(id.0) {
            None => {
                return Err(RingError::GorillaNotFound(*id));
            },
            Some(i) => i,
        };
        let status = self.gorillas.val_at(i).status;
        if status == GorillaStatus::Unleashed || status == GorillaStatus::Rampaging {
            return Err(RingError::GorillaAlreadyActive(*id));
        }
        if self.background.is_running(id) {
            return Err(RingError::GorillaAlreadyRunning(*id));
        }
        let schedule = to_owned_string(self.gorillas.val_at(i).manifest.schedule.as_str());
        let _interval = self.background.start_gorilla_at(*id, schedule.as_str(), now);
        let ghost t0 = self.gorillas;
        proof {
            t0.lemma_wf();
        }
        self.gorillas.val_mut(i).status = GorillaStatus::Unleashed;
        proof {
            Table::lemma_wf_vals(t0, self.gorillas);
            lemma_table_set(t0, self.gorillas, i as int, self.gorillas.val_seq()[i as int]);
        }
        self.metrics.counter_inc(GORILLA_RUNS_TOTAL);
        self.metrics.gauge_inc(ACTIVE_GORILLAS);
        Ok(())
    }

    /// Unleash gorilla `id` now; see `unleash_gorilla_at`.
    pub fn unleash_gorilla(&mut self, id: &GorillaId) -> (r: Result<(), RingError>)
        requires
            old(self).wf(),
        ensures
            final(self).wf(),
            !old(self).gorillas.has(id.0) ==> r == Err::<(), RingError>(RingError::GorillaNotFound(*id)),
            r is Ok ==> final(self).gorillas.has(id.0) && final(self).gorillas.at(id.0).status
                == GorillaStatus::Unleashed && final(self).background.running().has(id.0),
    {
        let now = now_ms();
        self.unleash_gorilla_at(id, now)
    }

    /// Cage gorilla `id`: refused when it is not registered; otherwise it
    /// stops running in the background, is caged, and the active gorilla
    /// gauge goes down by one.
    pub fn cage_gorilla(&mut self, id: &GorillaId) -> (r: Result<(), RingError>)
        requires
            old(self).wf(),
        ensures
            final(self).wf(),
            !old(self).gorillas.has(id.0) ==> r == Err::<(), RingError>(RingError::GorillaNotFound(*id)) && *final(self)
                == *old(self),
            old(self).gorillas.has(id.0) ==> {
                &&& r is Ok
                &&& final(self).gorillas.has(id.0)
                &&& final(self).gorillas.at(id.0) == (RingGorilla {
                    status: GorillaStatus::Caged,
                    ..old(self).gorillas.at(id.0)
                })
                &&& !final(self).background.running().has(id.0)
                &&& final(self).metrics.gauges() == moved_gauge(old(self).metrics.gauges(), ACTIVE_GORILLAS@, -1i64)
                &&& final(self).metrics.counters() == old(self).metrics.counters()
            },
            forall|j: u128| j != id.0 ==> (#[trigger] final(self).gorillas.has(j) == old(self).gorillas.has(j)),
            forall|j: u128| j != id.0 && old(self).gorillas.has(j) ==> #[trigger] final(self).gorillas.at(j)
                == old(self).gorillas.at(j),
            forall|j: u128| j != id.0 ==> (#[trigger] final(self).background.running().has(j)
                == old(self).background.running().has(j)),
            final(self).roster() == old(self).roster(),
    {
        let i = match self.gorillas.find(id.0) {
            None => {
                return Err(RingError::GorillaNotFound(*id));
            },
            Some(i) => i,
        };
        let _was_running = self.background.stop_gorilla(id);
        let ghost t0 = self.gorillas;
        proof {
            t0.lemma_wf();
        }
        self.gorillas.val_mut(i).status = GorillaStatus::Caged;
        proof {
            Table::lemma_wf_vals(t0, self.gorillas);
            lemma_table_set(t0, self.gorillas, i as int, self.gorillas.val_seq()[i as int]);
        }
        self.metrics.gauge_dec(ACTIVE_GORILLAS);
        Ok(())
    }

    /// Every gorilla's id, name and status, in the order they were
    /// registered.
    pub fn list_gorillas(&self) -> (r: Vec<(GorillaId, String, GorillaStatus)>)
        requires
            self.wf(),
        ensures
            r@.len() == self.gorillas.len(),
            forall|i: int|
                0 <= i < r@.len() ==> {
                    &&& (#[trigger] r@[i]).0 == GorillaId(self.gorillas.key_seq()[i])
                    &&& r@[i].1@ == self.gorillas.val_seq()[i].manifest.name@
                    &&& r@[i].2 == self.gorillas.val_seq()[i].status
                },
    {
        let mut r: Vec<(GorillaId, String, GorillaStatus)> = Vec::new();
        let mut i: usize = 0;
        proof {
            self.gorillas.lemma_wf();
        }
        while i < self.gorillas.size()
            invariant
                self.wf(),
                i <= self.gorillas.len(),
                self.gorillas.key_seq().len() == self.gorillas.val_seq().len(),
                r@.len() == i,
                forall|j: int|
                    0 <= j < i ==> {
                        &&& (#[trigger] r@[j]).0 == GorillaId(self.gorillas.key_seq()[j])
                        &&& r@[j].1@ == self.gorillas.val_seq()[j].manifest.name@
                        &&& r@[j].2 == self.gorillas.val_seq()[j].status
                    },
            decreases self.gorillas.len() - i,
        {
            let k = self.gorillas.key_at(i);
            let g = self.gorillas.val_at(i);
            r.push((GorillaId(k), g.manifest.name.clone(), g.status));
            i = i + 1;
        }
        r
    }

    /// Stop every gorilla running in the background; how many were.
    pub fn shutdown(&mut self) -> (n: usize)
        requires
            old(self).wf(),
        ensures
            final(self).wf(),
            n == old(self).background.running().len(),
            final(self).background.running().len() == 0,
            final(self).roster() == old(self).roster(),
            final(self).gorillas == old(self).gorillas,
    {
        self.background.shutdown_all()
    }

    /// The manifest of gorilla `id`, if registered.
    pub fn get_gorilla_manifest(&self, id: &GorillaId) -> (r: Option<&GorillaManifest>)
        requires
            self.wf(),
        ensures
            match r {
                Some(m) => self.gorillas.has(id.0) && *m == self.gorillas.at(id.0).manifest,
                None => !self.gorillas.has(id.0),
            },
    {
        match self.gorillas.get(id.0) {
            Some(g) => Some(&g.manifest),
            None => None,
        }
    }

    /// The first gorilla (in registration order) whose name equals `name`
    /// apart from ASCII case.
    pub fn find_gorilla_by_name(&self, name: &str) -> (r: Option<GorillaId>)
        requires
            self.wf(),
        ensures
            match r {
                Some(id) => first_gorilla_named(self.gorillas.val_seq(), name@, 0) < self.gorillas.len() && id.0
                    == self.gorillas.key_seq()[first_gorilla_named(self.gorillas.val_seq(), name@, 0)],
                None => first_gorilla_named(self.gorillas.val_seq(), name@, 0) == self.gorillas.len(),
            },
    {
        let ghost vals = self.gorillas.val_seq();
        proof {
            self.gorillas.lemma_wf();
        }
        let nc = chars_of(name);
        let mut i: usize = 0;
        while i < self.gorillas.size()
            invariant
                self.wf(),
                vals == self.gorillas.val_seq(),
                vals.len() == self.gorillas.len(),
                nc@ == name@,
                i <= vals.len(),
                first_gorilla_named(vals, name@, 0) == first_gorilla_named(vals, name@, i as int),
            decreases vals.len() - i,
        {
            let gc = chars_of(self.gorillas.val_at(i).manifest.name.as_str());
            if chars_eq_ignore_ascii_case(gc.as_slice(), nc.as_slice()) {
                return Some(GorillaId(self.gorillas.key_at(i)));
            }
            i = i + 1;
        }
        None
    }
}

/// The value of gauge `key` in `m`, zero when it was never set.
pub open spec fn gauge_value(m: Map<Seq<char>, i64>, key: Seq<char>) -> i64 {
    if m.dom().contains(key) {
        m[key]
    } else {
        0
    }
}

/// Unleashing a gorilla and caging it again leaves the active gorilla gauge
/// where it was (short of the gauge's largest value).
pub proof fn lemma_unleash_then_cage_gauge(m: Map<Seq<char>, i64>, key: Seq<char>)
    requires
        gauge_value(m, key) < i64::MAX,
    ensures
        gauge_value(moved_gauge(moved_gauge(m, key, 1i64), key, -1i64), key) == gauge_value(m, key),
{
}

} // verus!
