//! Per-fighter quotas: tokens and messages per sliding window.
//!
//! Each fighter has a log of usage records (time in milliseconds since the
//! Unix epoch, tokens). A fighter is within quota while the records inside
//! the window hold fewer tokens and fewer messages than the limits.
use vstd::prelude::*;

use crate::ids::FighterId;
use crate::schedule::{in_range, now_ms};
use crate::table::{Table, lemma_table_insert, lemma_table_remove, lemma_table_set};

verus! {

/// One recorded use within a quota window.
#[derive(Debug, Clone, Copy, PartialEq, Eq, Structural)]
pub struct UsageRecord {
    /// When the use was recorded (milliseconds since the Unix epoch).
    pub timestamp: i64,
    /// Tokens consumed (0 for a message-only record).
    pub tokens: u64,
}

/// Quota configuration.
#[derive(Debug, Clone, Copy, PartialEq, Eq, Structural)]
pub struct QuotaConfig {
    /// Maximum tokens a fighter may consume per window.
    pub tokens_per_hour: u64,
    /// Maximum messages a fighter may send per window.
    pub messages_per_hour: u64,
    /// Length of the sliding window in milliseconds.
    pub window_ms: i64,
}

impl Default for QuotaConfig {
    /// A million tokens and 500 messages per hour.
    fn default() -> (c: QuotaConfig)
        ensures
            c == (QuotaConfig { tokens_per_hour: 1_000_000, messages_per_hour: 500, window_ms: 3_600_000 }),
    {
        QuotaConfig { tokens_per_hour: 1_000_000, messages_per_hour: 500, window_ms: 3_600_000 }
    }
}

/// Tokens of the records at or after `cutoff`.
pub open spec fn window_tokens(rs: Seq<UsageRecord>, cutoff: int) -> nat
    decreases rs.len(),
{
    if rs.len() == 0 {
        0
    } else {
        window_tokens(rs.drop_last(), cutoff) + if rs.last().timestamp >= cutoff {
            rs.last().tokens as nat
        } else {
            0nat
        }
    }
}

/// Number of records at or after `cutoff`.
pub open spec fn window_messages(rs: Seq<UsageRecord>, cutoff: int) -> nat
    decreases rs.len(),
{
    if rs.len() == 0 {
        0
    } else {
        window_messages(rs.drop_last(), cutoff) + if rs.last().timestamp >= cutoff {
            1nat
        } else {
            0nat
        }
    }
}

/// The records are within the limits of `c` for the window ending at `now`.
pub open spec fn within_quota(c: QuotaConfig, rs: Seq<UsageRecord>, now: int) -> bool {
    &&& window_tokens(rs, now - c.window_ms) < c.tokens_per_hour
    &&& window_messages(rs, now - c.window_ms) < c.messages_per_hour
}

/// The records from the first at or after `cutoff` on (the log is evicted
/// from its front).
pub open spec fn evict_front(rs: Seq<UsageRecord>, cutoff: int) -> Seq<UsageRecord>
    decreases rs.len(),
{
    if rs.len() > 0 && rs[0].timestamp < cutoff {
        evict_front(rs.drop_first(), cutoff)
    } else {
        rs
    }
}

/// Window sums grow by one record's share when a record is appended.
proof fn lemma_window_push(rs: Seq<UsageRecord>, r: UsageRecord, cutoff: int)
    ensures
        window_tokens(rs.push(r), cutoff) == window_tokens(rs, cutoff) + if r.timestamp >= cutoff {
            r.tokens as nat
        } else {
            0nat
        },
        window_messages(rs.push(r), cutoff) == window_messages(rs, cutoff) + if r.timestamp >= cutoff {
            1nat
        } else {
            0nat
        },
{
    assert(rs.push(r).drop_last() =~= rs);
}

/// Per-fighter quota enforcement.
pub struct QuotaScheduler {
    quotas: Table<Vec<UsageRecord>>,
    config: QuotaConfig,
}

impl QuotaScheduler {
    /// The usage logs by fighter id.
    pub closed spec fn logs(&self) -> Table<Vec<UsageRecord>> {
        self.quotas
    }

    /// The configuration.
    pub closed spec fn cfg(&self) -> QuotaConfig {
        self.config
    }

    /// The table is well formed.
    pub closed spec fn wf(&self) -> bool {
        self.quotas.wf()
    }

    /// The usage log of fighter `k` (empty if untracked).
    pub open spec fn log_of(&self, k: u128) -> Seq<UsageRecord> {
        if self.logs().has(k) {
            self.logs().at(k)@
        } else {
            Seq::empty()
        }
    }

    /// A scheduler with no usage recorded.
    pub fn new(config: QuotaConfig) -> (s: QuotaScheduler)
        ensures
            s.wf(),
            s.cfg() == config,
            s.logs().len() == 0,
            forall|k: u128| #[trigger] s.log_of(k).len() == 0,
    {
        QuotaScheduler { quotas: Table::new(), config }
    }

    /// The configuration.
    pub fn config(&self) -> (c: QuotaConfig)
        ensures
            c == self.cfg(),
    {
        self.config
    }

    /// Make sure fighter `k` is tracked.
    fn ensure_entry(&mut self, k: u128)
        requires
            old(self).wf(),
        ensures
            final(self).wf(),
            final(self).cfg() == old(self).cfg(),
            final(self).logs().has(k),
            forall|j: u128| #[trigger] final(self).log_of(j) == old(self).log_of(j),
            forall|j: u128| j != k ==> (#[trigger] final(self).logs().has(j) == old(self).logs().has(j)),
    {
        if self.quotas.find(k).is_none() {
            let ghost t0 = self.quotas;
            let v: Vec<UsageRecord> = Vec::new();
            self.quotas.insert(k, v);
            proof {
                lemma_table_insert(t0, self.quotas, k, v);
                assert forall|j: u128| #[trigger] self.log_of(j) == old(self).log_of(j) by {
                    if j == k {
                        assert(self.log_of(j) =~= Seq::<UsageRecord>::empty());
                    }
                }
            }
        }
    }

    /// The window sums of a log, for the window from `cutoff`.
    fn sums(rs: &Vec<UsageRecord>, cutoff: i128) -> (r: (u128, u64))
        ensures
            r.0 == window_tokens(rs@, cutoff as int),
            r.1 == window_messages(rs@, cutoff as int),
    {
        let mut tokens: u128 = 0;
        let mut count: u64 = 0;
        let mut i: usize = 0;
        let n = rs.len();
        while i < n
            invariant
                n == rs@.len(),
                i <= rs@.len(),
                tokens == window_tokens(rs@.take(i as int), cutoff as int),
                count == window_messages(rs@.take(i as int), cutoff as int),
                tokens <= i * 0xffff_ffff_ffff_ffffu128,
                count <= i,
            decreases rs@.len() - i,
        {
            assert(rs@.take(i + 1).drop_last() =~= rs@.take(i as int));
            if rs[i].timestamp as i128 >= cutoff {
                assert(tokens + rs[i as int].tokens <= (i + 1) * 0xffff_ffff_ffff_ffffu128) by (nonlinear_arith)
                    requires
                        tokens <= i * 0xffff_ffff_ffff_ffffu128,
                        rs[i as int].tokens <= 0xffff_ffff_ffff_ffffu128,
                ;
                assert((i + 1) * 0xffff_ffff_ffff_ffffu128 <= 0xffff_ffff_ffff_ffffu128 * 0x1_0000_0000_0000_0000u128)
                    by (nonlinear_arith)
                    requires
                        i < 0xffff_ffff_ffff_ffffu128,
                ;
                tokens = tokens + rs[i].tokens as u128;
                count = count + 1;
            } else {
                assert(tokens <= (i + 1) * 0xffff_ffff_ffff_ffffu128) by (nonlinear_arith)
                    requires
                        tokens <= i * 0xffff_ffff_ffff_ffffu128,
                ;
            }
            i = i + 1;
        }
        assert(rs@.take(rs@.len() as int) =~= rs@);
        (tokens, count)
    }

    /// Whether fighter `fighter_id` is within its quota at `now`; starts
    /// tracking the fighter if it was not tracked.
    pub fn check_quota_at(&mut self, fighter_id: &FighterId, now: i64) -> (ok: bool)
        requires
            old(self).wf(),
        ensures
            final(self).wf(),
            final(self).cfg() == old(self).cfg(),
            ok == within_quota(old(self).cfg(), old(self).log_of(fighter_id.0), now as int),
            final(self).logs().has(fighter_id.0),
            forall|j: u128| #[trigger] final(self).log_of(j) == old(self).log_of(j),
    {
        self.ensure_entry(fighter_id.0);
        let cutoff: i128 = now as i128 - self.config.window_ms as i128;
        let entry = self.quotas.get(fighter_id.0);
        assert(entry.is_some());
        let rs = entry.unwrap();
        assert(self.log_of(fighter_id.0) == old(self).log_of(fighter_id.0));
        assert(rs@ == self.log_of(fighter_id.0));
        let (tokens, messages) = Self::sums(rs, cutoff);
        tokens < self.config.tokens_per_hour as u128 && messages < self.config.messages_per_hour
    }

    /// Whether a fighter is within its quota now.
    pub fn check_quota(&mut self, fighter_id: &FighterId) -> (ok: bool)
        requires
            old(self).wf(),
        ensures
            exists|t: i64| #[trigger] in_range(t as int) && ok == within_quota(
                old(self).cfg(),
                old(self).log_of(fighter_id.0),
                t as int,
            ),
            final(self).wf(),
            final(self).cfg() == old(self).cfg(),
            final(self).logs().has(fighter_id.0),
            forall|j: u128| #[trigger] final(self).log_of(j) == old(self).log_of(j),
    {
        let now = now_ms();
        let ok = self.check_quota_at(fighter_id, now);
        assert(in_range(now as int));
        ok
    }

    /// Record that fighter `fighter_id` used `tokens` at `now`.
    pub fn record_usage_at(&mut self, fighter_id: &FighterId, tokens: u64, now: i64)
        requires
            old(self).wf(),
        ensures
            final(self).wf(),
            final(self).cfg() == old(self).cfg(),
            final(self).log_of(fighter_id.0) == old(self).log_of(fighter_id.0).push(
                UsageRecord { timestamp: now, tokens },
            ),
            forall|j: u128| j != fighter_id.0 ==> #[trigger] final(self).log_of(j) == old(self).log_of(j),
    {
        self.ensure_entry(fighter_id.0);
        let ghost t1 = self.quotas;
        let ghost mid = *self;
        match self.quotas.find(fighter_id.0) {
            Some(i) => {
                proof {
                    t1.lemma_wf();
                    assert(t1.key_seq()[i as int] == fighter_id.0);
                    assert(mid.log_of(fighter_id.0) == t1.val_seq()[i as int]@);
                }
                self.quotas.val_mut(i).push(UsageRecord { timestamp: now, tokens });
                proof {
                    Table::lemma_wf_vals(t1, self.quotas);
                    lemma_table_set(t1, self.quotas, i as int, self.quotas.val_seq()[i as int]);
                    assert forall|j: u128| j != fighter_id.0 implies #[trigger] self.log_of(j) == mid.log_of(j) by {
                    }
                }
            },
            None => {},
        }
    }

    /// Record that a fighter used `tokens` now.
    pub fn record_usage(&mut self, fighter_id: &FighterId, tokens: u64)
        requires
            old(self).wf(),
        ensures
            final(self).wf(),
            final(self).cfg() == old(self).cfg(),
            exists|t: i64| #[trigger] in_range(t as int) && final(self).log_of(fighter_id.0) == old(self).log_of(
                fighter_id.0,
            ).push(UsageRecord { timestamp: t, tokens }),
            forall|j: u128| j != fighter_id.0 ==> #[trigger] final(self).log_of(j) == old(self).log_of(j),
    {
        let now = now_ms();
        self.record_usage_at(fighter_id, tokens, now);
        assert(in_range(now as int));
    }

    /// Evict the records older than the window ending at `now` from the
    /// front of each log, then stop tracking fighters whose logs are empty.
    /// Returns the number of records evicted.
    pub fn cleanup_at(&mut self, now: i64) -> (evicted: usize)
        requires
            old(self).wf(),
        ensures
            final(self).wf(),
            Self::cleaned(*old(self), *final(self), now),
    {
        let cutoff: i128 = now as i128 - self.config.window_ms as i128;
        let mut kept: Table<Vec<UsageRecord>> = Table::new();
        let mut evicted: usize = 0;
        let mut i: usize = 0;
        proof {
            self.quotas.lemma_wf();
        }
        while i < self.quotas.size()
            invariant
                self.wf(),
                self.quotas == old(self).quotas,
                self.config == old(self).config,
                cutoff == now - self.config.window_ms,
                i <= self.quotas.len(),
                kept.wf(),
                forall|j: u128| #[trigger] kept.has(j) ==> self.quotas.has(j) && self.quotas.pos(j) < i,
                forall|j: u128|
                    #[trigger] self.quotas.has(j) && self.quotas.pos(j) < i ==> (kept.has(j) <==> evict_front(
                        self.quotas.at(j)@,
                        cutoff as int,
                    ).len() > 0),
                forall|j: u128| #[trigger] kept.has(j) ==> kept.at(j)@ == evict_front(self.quotas.at(j)@, cutoff as int)
                    && kept.at(j)@.len() > 0,
            decreases self.quotas.len() - i,
        {
            proof {
                self.quotas.lemma_wf();
            }
            let k = self.quotas.key_at(i);
            let rs = self.quotas.val_at(i);
            let mut start: usize = 0;
            assert(rs@.subrange(0, rs@.len() as int) =~= rs@);
            while start < rs.len() && (rs[start].timestamp as i128) < cutoff
                invariant
                    start <= rs@.len(),
                    evict_front(rs@.subrange(start as int, rs@.len() as int), cutoff as int) == evict_front(
                        rs@,
                        cutoff as int,
                    ),
                decreases rs@.len() - start,
            {
                assert(rs@.subrange(start as int, rs@.len() as int).drop_first() =~= rs@.subrange(
                    start + 1,
                    rs@.len() as int,
                ));
                start = start + 1;
            }
            let mut rest: Vec<UsageRecord> = Vec::new();
            let mut p: usize = start;
            while p < rs.len()
                invariant
                    start <= p <= rs@.len(),
                    rest@ == rs@.subrange(start as int, p as int),
                decreases rs@.len() - p,
            {
                rest.push(rs[p]);
                p = p + 1;
                assert(rest@ =~= rs@.subrange(start as int, p as int));
            }
            proof {
                let tail = rs@.subrange(start as int, rs@.len() as int);
                assert(rest@ =~= tail);
                assert(tail.len() > 0 ==> tail[0] == rs@[start as int]);
            }
            evicted = if evicted as u128 + start as u128 > usize::MAX as u128 {
                usize::MAX
            } else {
                evicted + start
            };
            if rest.len() > 0 {
                let ghost k0 = kept;
                kept.insert(k, rest);
                proof {
                    lemma_table_insert(k0, kept, k, rest);
                }
            }
            proof {
                assert(self.quotas.pos(k) == i as int);
                assert forall|j: u128| #[trigger] self.quotas.has(j) && self.quotas.pos(j) < i + 1 implies (
                kept.has(j) <==> evict_front(self.quotas.at(j)@, cutoff as int).len() > 0) by {
                    if j == k {
                        assert(self.quotas.at(j) == rs);
                    }
                }
            }
            i = i + 1;
        }
        proof {
            assert forall|j: u128| #[trigger] kept.has(j) implies self.quotas.has(j) by {}
        }
        self.quotas = kept;
        proof {
            assert forall|j: u128| #[trigger] self.log_of(j) == evict_front(
                old(self).log_of(j),
                cutoff as int,
            ) by {
                if old(self).logs().has(j) {
                    old(self).quotas.lemma_wf();
                } else {
                    assert(evict_front(Seq::<UsageRecord>::empty(), cutoff as int) =~= Seq::<UsageRecord>::empty());
                }
            }
        }
        evicted
    }

    /// Evict stale records now, and stop tracking idle fighters.
    pub fn cleanup(&mut self) -> (evicted: usize)
        requires
            old(self).wf(),
        ensures
            final(self).wf(),
            exists|now: i64| in_range(now as int) && #[trigger] Self::cleaned(*old(self), *final(self), now),
    {
        let now = now_ms();
        let n = self.cleanup_at(now);
        assert(in_range(now as int) && Self::cleaned(*old(self), *self, now));
        n
    }

    /// `after` is `before` with the records older than the window ending at
    /// `now` evicted from the front of each log, and the fighters whose logs
    /// became empty no longer tracked.
    pub open spec fn cleaned(before: Self, after: Self, now: i64) -> bool {
        &&& after.cfg() == before.cfg()
        &&& forall|j: u128| #[trigger] after.log_of(j) == evict_front(
            before.log_of(j),
            now - before.cfg().window_ms,
        )
        &&& forall|j: u128| #[trigger] after.logs().has(j) ==> after.log_of(j).len() > 0
    }

    /// Forget all quota state of a fighter.
    pub fn remove_fighter(&mut self, fighter_id: &FighterId)
        requires
            old(self).wf(),
        ensures
            final(self).wf(),
            final(self).cfg() == old(self).cfg(),
            !final(self).logs().has(fighter_id.0),
            forall|j: u128| j != fighter_id.0 ==> #[trigger] final(self).log_of(j) == old(self).log_of(j),
    {
        let ghost t0 = self.quotas;
        let _ = self.quotas.remove(fighter_id.0);
        proof {
            lemma_table_remove(t0, self.quotas, fighter_id.0);
            assert forall|j: u128| j != fighter_id.0 implies #[trigger] self.log_of(j) == old(self).log_of(j) by {}
        }
    }
}

/// Recording usage never brings a fighter back within quota: if it is over
/// quota at `now`, it is still over quota after one more record.
pub proof fn lemma_usage_only_tightens(c: QuotaConfig, rs: Seq<UsageRecord>, r: UsageRecord, now: int)
    requires
        !within_quota(c, rs, now),
    ensures
        !within_quota(c, rs.push(r), now),
{
    lemma_window_push(rs, r, now - c.window_ms);
}

/// A fresh log is within any quota whose limits are positive, and a record
/// at `now` holding the whole token allowance puts the fighter over quota.
pub proof fn lemma_quota_limits(c: QuotaConfig, now: int)
    requires
        c.tokens_per_hour > 0,
        c.messages_per_hour > 0,
        c.window_ms >= 0,
        i64::MIN <= now <= i64::MAX,
    ensures
        within_quota(c, Seq::empty(), now),
        !within_quota(c, seq![UsageRecord { timestamp: now as i64, tokens: c.tokens_per_hour }], now),
{
    let rs = seq![UsageRecord { timestamp: now as i64, tokens: c.tokens_per_hour }];
    assert(rs.drop_last() =~= Seq::<UsageRecord>::empty());
}

} // verus!
