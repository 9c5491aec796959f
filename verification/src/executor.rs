//! The gorilla executor: lifecycle transitions, retries with exponential
//! back-off, execution history and a circuit breaker for runaway gorillas.
use vstd::prelude::*;

use crate::duration::Duration;
use crate::ids::GorillaId;
use crate::schedule::{in_range, now_ms, MAX_DELTA_NANOS};
use crate::text::{copy_strings, copy_text};
use crate::table::{lemma_table_insert, lemma_table_remove, lemma_table_set, Table};

verus! {

// ---------------------------------------------------------------------------
// Types
// ---------------------------------------------------------------------------

/// Lifecycle status of a gorilla.
#[derive(Debug, Clone, Copy, PartialEq, Eq, Hash, Structural)]
pub enum GorillaStatus {
    /// Stopped; it does not run.
    Caged,
    /// Ready to run.
    Unleashed,
    /// Running right now.
    Rampaging,
    /// Stopped by its circuit breaker after repeated failures.
    Injured,
}

/// What a gorilla is: its name, schedule and the settings its runs read.
#[derive(Debug, Clone)]
pub struct GorillaManifest {
    /// Display name.
    pub name: String,
    /// What the gorilla does.
    pub description: String,
    /// Its schedule text (cron expression, "every ..." or a duration).
    pub schedule: String,
    /// Names of the moves (skills) it needs.
    pub moves_required: Vec<String>,
    /// A JSON schema for its settings, as text.
    pub settings_schema: Option<String>,
    /// Names of the metrics its dashboard shows.
    pub dashboard_metrics: Vec<String>,
    /// The system prompt for its model.
    pub system_prompt: Option<String>,
    /// The model it runs on.
    pub model: Option<String>,
    /// Capabilities it is granted.
    pub capabilities: Vec<String>,
    /// Its weight class.
    pub weight_class: Option<String>,
}

/// Output produced by a gorilla execution run.
#[derive(Debug, Clone)]
pub struct GorillaOutput {
    /// Human-readable summary of what the gorilla accomplished.
    pub summary: String,
    /// File paths, URLs or other artifacts produced.
    pub artifacts: Vec<String>,
    /// Suggested next run time (milliseconds since the Unix epoch).
    pub next_run: Option<i64>,
}

/// Configuration of the gorilla executor.
#[derive(Debug, Clone, Copy)]
pub struct ExecutorConfig {
    /// Consecutive failures after which the circuit breaker trips.
    pub circuit_breaker_threshold: u32,
    /// How long a tripped circuit breaker stays closed to executions.
    pub circuit_breaker_reset: Duration,
    /// Maximum retry attempts per execution.
    pub max_retries: u32,
    /// Base delay for exponential back-off (doubled on each retry).
    pub retry_base_delay: Duration,
    /// Cap on the retry delay.
    pub retry_max_delay: Duration,
    /// Maximum execution time before a gorilla is stopped.
    pub execution_timeout: Duration,
    /// Maximum execution history entries kept per gorilla.
    pub max_history_entries: usize,
}

impl ExecutorConfig {
    /// All spans are well formed.
    pub open spec fn wf(&self) -> bool {
        &&& self.circuit_breaker_reset.wf()
        &&& self.retry_base_delay.wf()
        &&& self.retry_max_delay.wf()
        &&& self.execution_timeout.wf()
    }
}

impl Default for ExecutorConfig {
    /// Trip after 5 failures, reset after an hour, 3 retries from 5 s up to
    /// 300 s, a 600 s execution timeout and 100 history entries.
    fn default() -> (c: ExecutorConfig)
        ensures
            c.wf(),
            c.circuit_breaker_threshold == 5,
            c.circuit_breaker_reset@ == 3600 * 1_000_000_000,
            c.max_retries == 3,
            c.retry_base_delay@ == 5 * 1_000_000_000,
            c.retry_max_delay@ == 300 * 1_000_000_000,
            c.execution_timeout@ == 600 * 1_000_000_000,
            c.max_history_entries == 100,
    {
        ExecutorConfig {
            circuit_breaker_threshold: 5,
            circuit_breaker_reset: Duration::from_secs(3600),
            max_retries: 3,
            retry_base_delay: Duration::from_secs(5),
            retry_max_delay: Duration::from_secs(300),
            execution_timeout: Duration::from_secs(600),
            max_history_entries: 100,
        }
    }
}

/// A record of one gorilla execution.
#[derive(Debug, Clone)]
pub struct ExecutionRecord {
    /// When the execution started (milliseconds since the Unix epoch).
    pub started_at: i64,
    /// When it completed or failed (milliseconds since the Unix epoch).
    pub completed_at: i64,
    /// Whether it succeeded.
    pub success: bool,
    /// How long it took.
    pub duration: Duration,
    /// Error message if it failed.
    pub error: Option<String>,
    /// Output summary if it succeeded.
    pub summary: Option<String>,
    /// Number of retry attempts used.
    pub retries: u32,
}

/// Circuit breaker state of a gorilla.
#[derive(Debug, Clone, Copy, PartialEq, Eq, Structural)]
pub struct CircuitBreaker {
    /// Consecutive failure count.
    pub consecutive_failures: u32,
    /// Whether the circuit is open (tripped).
    pub is_open: bool,
    /// When it last tripped (milliseconds since the Unix epoch).
    pub tripped_at: Option<i64>,
}

/// A closed circuit breaker with no failures.
pub open spec fn closed_breaker() -> CircuitBreaker {
    CircuitBreaker { consecutive_failures: 0, is_open: false, tripped_at: None }
}

/// The breaker after one more failure at `now`: it trips (again) once the
/// consecutive failures reach `threshold`.
pub open spec fn after_failure(cb: CircuitBreaker, threshold: u32, now: i64) -> CircuitBreaker {
    let n = (cb.consecutive_failures + 1) as u32;
    if n >= threshold {
        CircuitBreaker { consecutive_failures: n, is_open: true, tripped_at: Some(now) }
    } else {
        CircuitBreaker { consecutive_failures: n, ..cb }
    }
}

/// Whether the breaker lets an execution through at `now`: it is closed, or
/// it tripped longer than `reset` ago (a reset span beyond the range of a
/// time delta never elapses).
pub open spec fn breaker_allows(cb: CircuitBreaker, reset: Duration, now: i64) -> bool {
    ||| !cb.is_open
    ||| {
        &&& cb.tripped_at is Some
        &&& reset@ <= MAX_DELTA_NANOS
        &&& (now - cb.tripped_at.unwrap()) * 1_000_000 > reset@
    }
}

impl CircuitBreaker {
    /// A closed breaker with no failures.
    pub fn new() -> (cb: CircuitBreaker)
        ensures
            cb == closed_breaker(),
    {
        CircuitBreaker { consecutive_failures: 0, is_open: false, tripped_at: None }
    }

    /// A success closes the breaker and clears the failure count.
    pub fn record_success(&mut self)
        ensures
            *final(self) == closed_breaker(),
    {
        self.consecutive_failures = 0;
        self.is_open = false;
        self.tripped_at = None;
    }

    /// Count a failure at `now`; the breaker trips once the consecutive
    /// failures reach `threshold`.
    pub fn record_failure_at(&mut self, threshold: u32, now: i64)
        requires
            old(self).consecutive_failures < u32::MAX,
        ensures
            *final(self) == after_failure(*old(self), threshold, now),
    {
        self.consecutive_failures = self.consecutive_failures + 1;
        if self.consecutive_failures >= threshold {
            self.is_open = true;
            self.tripped_at = Some(now);
        }
    }

    /// Count a failure now; see `record_failure_at`.
    pub fn record_failure(&mut self, threshold: u32)
        requires
            old(self).consecutive_failures < u32::MAX,
        ensures
            exists|now: i64| *final(self) == #[trigger] after_failure(*old(self), threshold, now),
    {
        let now = now_ms();
        self.record_failure_at(threshold, now);
    }

    /// Whether an execution may go ahead at `now`.
    pub fn should_allow_at(&self, reset_duration: Duration, now: i64) -> (b: bool)
        requires
            reset_duration.wf(),
        ensures
            b == breaker_allows(*self, reset_duration, now),
    {
        if !self.is_open {
            return true;
        }
        match self.tripped_at {
            Some(tripped) => {
                let elapsed: i128 = (now as i128) - (tripped as i128);
                let reset = reset_duration.as_nanos();
                if reset > MAX_DELTA_NANOS {
                    false
                } else {
                    elapsed * 1_000_000 > reset as i128
                }
            },
            None => false,
        }
    }

    /// Whether an execution may go ahead now: a closed breaker always lets it
    /// through, an open one only after `reset_duration` has passed.
    pub fn should_allow(&self, reset_duration: Duration) -> (b: bool)
        requires
            reset_duration.wf(),
        ensures
            !self.is_open ==> b,
            self.tripped_at is None ==> b == !self.is_open,
            exists|now: i64| in_range(now as int) && b == #[trigger] breaker_allows(*self, reset_duration, now),
    {
        let now = now_ms();
        self.should_allow_at(reset_duration, now)
    }
}

/// Execution state of one gorilla.
#[derive(Debug)]
pub struct GorillaExecutionState {
    /// Lifecycle status.
    pub status: GorillaStatus,
    /// Execution history, most recent first.
    pub history: Vec<ExecutionRecord>,
    /// Circuit breaker.
    pub circuit_breaker: CircuitBreaker,
    /// Successful runs.
    pub run_count: u64,
    /// Failed runs.
    pub error_count: u64,
    /// When it last ran (milliseconds since the Unix epoch).
    pub last_run: Option<i64>,
    /// The gorilla's manifest.
    pub manifest: GorillaManifest,
    /// Output of the last successful run.
    pub last_output: Option<GorillaOutput>,
}

/// Summary statistics of a gorilla's executions.
#[derive(Debug, Clone, Copy, PartialEq, Eq, Structural)]
pub struct ExecutionStats {
    /// Successful runs.
    pub run_count: u64,
    /// Failed runs.
    pub error_count: u64,
    /// When it last ran (milliseconds since the Unix epoch).
    pub last_run: Option<i64>,
    /// Whether the circuit breaker is open.
    pub circuit_breaker_open: bool,
    /// Current consecutive failure count.
    pub consecutive_failures: u32,
}

/// Why an executor operation failed.
#[derive(Debug, Clone, Copy, PartialEq, Eq, Structural)]
pub enum ExecutorError {
    /// The gorilla is not registered.
    NotFound(GorillaId),
    /// The circuit breaker is open.
    CircuitOpen { id: GorillaId, consecutive_failures: u32 },
    /// The gorilla is injured and cannot execute.
    Injured(GorillaId),
    /// The gorilla is caged and cannot execute.
    Caged(GorillaId),
}

/// `h` with `r` in front, dropping the oldest entry when that exceeds `max`.
pub open spec fn push_history(h: Seq<ExecutionRecord>, r: ExecutionRecord, max: nat) -> Seq<ExecutionRecord> {
    let h2 = seq![r] + h;
    if h2.len() > max {
        h2.drop_last()
    } else {
        h2
    }
}

/// The span from `started` to `now`; zero when `now` is earlier.
pub open spec fn elapsed_nanos(started: i64, now: i64) -> nat {
    if now >= started {
        ((now - started) * 1_000_000) as nat
    } else {
        0
    }
}

/// `r` records a successful run from `started` to `now` with summary `summary`.
pub open spec fn success_record(
    r: ExecutionRecord,
    started: i64,
    now: i64,
    summary: Seq<char>,
    retries: u32,
) -> bool {
    &&& r.started_at == started
    &&& r.completed_at == now
    &&& r.success
    &&& r.duration.wf()
    &&& r.duration@ == elapsed_nanos(started, now)
    &&& r.error is None
    &&& r.summary is Some && r.summary.unwrap()@ == summary
    &&& r.retries == retries
}

/// `r` records a failed run from `started` to `now` with error `error`.
pub open spec fn failure_record(
    r: ExecutionRecord,
    started: i64,
    now: i64,
    error: Seq<char>,
    retries: u32,
) -> bool {
    &&& r.started_at == started
    &&& r.completed_at == now
    &&& !r.success
    &&& r.duration.wf()
    &&& r.duration@ == elapsed_nanos(started, now)
    &&& r.error is Some && r.error.unwrap()@ == error
    &&& r.summary is None
    &&& r.retries == retries
}

/// `a` is a copy of `b`: equal fields, lists equal as sequences.
pub open spec fn same_manifest(a: GorillaManifest, b: GorillaManifest) -> bool {
    &&& a.moves_required@ == b.moves_required@
    &&& a.dashboard_metrics@ == b.dashboard_metrics@
    &&& a.capabilities@ == b.capabilities@
    &&& (GorillaManifest {
        moves_required: b.moves_required,
        dashboard_metrics: b.dashboard_metrics,
        capabilities: b.capabilities,
        ..a
    }) == b
}

/// `a` is a copy of `b`: equal fields, artifacts equal as a sequence.
pub open spec fn same_output(a: GorillaOutput, b: GorillaOutput) -> bool {
    &&& a.artifacts@ == b.artifacts@
    &&& (GorillaOutput { artifacts: b.artifacts, ..a }) == b
}

/// `s` with its history replaced by `h` (compared as a sequence) and the
/// other fields as in `t`.
pub open spec fn state_is(s: GorillaExecutionState, h: Seq<ExecutionRecord>, t: GorillaExecutionState) -> bool {
    &&& s.history@ == h
    &&& (GorillaExecutionState { history: t.history, ..s }) == t
}

fn copy_manifest(m: &GorillaManifest) -> (r: GorillaManifest)
    ensures
        same_manifest(r, *m),
{
    GorillaManifest {
        name: m.name.clone(),
        description: m.description.clone(),
        schedule: m.schedule.clone(),
        moves_required: copy_strings(&m.moves_required),
        settings_schema: copy_text(&m.settings_schema),
        dashboard_metrics: copy_strings(&m.dashboard_metrics),
        system_prompt: copy_text(&m.system_prompt),
        model: copy_text(&m.model),
        capabilities: copy_strings(&m.capabilities),
        weight_class: copy_text(&m.weight_class),
    }
}

fn copy_output(o: &GorillaOutput) -> (r: GorillaOutput)
    ensures
        same_output(r, *o),
{
    GorillaOutput { summary: o.summary.clone(), artifacts: copy_strings(&o.artifacts), next_run: o.next_run }
}

fn copy_record(r: &ExecutionRecord) -> (c: ExecutionRecord)
    ensures
        c == *r,
{
    ExecutionRecord {
        started_at: r.started_at,
        completed_at: r.completed_at,
        success: r.success,
        duration: r.duration,
        error: copy_text(&r.error),
        summary: copy_text(&r.summary),
        retries: r.retries,
    }
}

/// The span from `started` to `now`; zero when `now` is earlier.
fn elapsed(started: i64, now: i64) -> (d: Duration)
    ensures
        d.wf(),
        d@ == elapsed_nanos(started, now),
{
    if now >= started {
        let ms: u64 = ((now as i128) - (started as i128)) as u64;
        Duration::from_millis(ms)
    } else {
        Duration::zero()
    }
}

/// Put `r` in front of `h`, dropping the oldest entry when that exceeds `max`.
fn push_front_capped(h: &mut Vec<ExecutionRecord>, r: ExecutionRecord, max: usize)
    ensures
        final(h)@ == push_history(old(h)@, r, max as nat),
{
    h.insert(0, r);
    if h.len() > max {
        h.pop();
    }
    assert(final(h)@ =~= push_history(old(h)@, r, max as nat));
}

/// The breaker is open exactly when the consecutive failures are above zero
/// and have reached `threshold`, and it has a trip time exactly when open.
pub open spec fn breaker_consistent(cb: CircuitBreaker, threshold: u32) -> bool {
    &&& cb.is_open == (cb.consecutive_failures > 0 && cb.consecutive_failures >= threshold)
    &&& (cb.tripped_at is Some) == cb.is_open
}

/// The state of a newly registered gorilla: caged, with no history, a closed
/// breaker, no runs and manifest `m`.
pub open spec fn fresh_state(s: GorillaExecutionState, m: GorillaManifest) -> bool {
    &&& s.status == GorillaStatus::Caged
    &&& s.history@ == Seq::<ExecutionRecord>::empty()
    &&& s.circuit_breaker == closed_breaker()
    &&& s.run_count == 0
    &&& s.error_count == 0
    &&& s.last_run is None
    &&& s.manifest == m
    &&& s.last_output is None
}

/// Record a success at `now` in `s`.
fn apply_success(
    s: &mut GorillaExecutionState,
    rec: ExecutionRecord,
    max: usize,
    now: i64,
    output: GorillaOutput,
)
    requires
        old(s).run_count < u64::MAX,
    ensures
        state_is(
            *final(s),
            push_history(old(s).history@, rec, max as nat),
            GorillaExecutionState {
                history: final(s).history,
                circuit_breaker: closed_breaker(),
                run_count: (old(s).run_count + 1) as u64,
                last_run: Some(now),
                last_output: Some(output),
                status: GorillaStatus::Unleashed,
                ..*old(s)
            },
        ),
{
    push_front_capped(&mut s.history, rec, max);
    s.circuit_breaker.record_success();
    s.run_count = s.run_count + 1;
    s.last_run = Some(now);
    s.last_output = Some(output);
    s.status = GorillaStatus::Unleashed;
}

/// Record a failure at `now` in `s`.
fn apply_failure(
    s: &mut GorillaExecutionState,
    rec: ExecutionRecord,
    max: usize,
    threshold: u32,
    now: i64,
)
    requires
        old(s).error_count < u64::MAX,
        old(s).circuit_breaker.consecutive_failures < u32::MAX,
    ensures
        ({
            let cb = after_failure(old(s).circuit_breaker, threshold, now);
            state_is(
                *final(s),
                push_history(old(s).history@, rec, max as nat),
                GorillaExecutionState {
                    history: final(s).history,
                    circuit_breaker: cb,
                    error_count: (old(s).error_count + 1) as u64,
                    last_run: Some(now),
                    status: if cb.is_open {
                        GorillaStatus::Injured
                    } else {
                        GorillaStatus::Unleashed
                    },
                    ..*old(s)
                },
            )
        }),
{
    push_front_capped(&mut s.history, rec, max);
    s.circuit_breaker.record_failure_at(threshold, now);
    s.error_count = s.error_count + 1;
    s.last_run = Some(now);
    if s.circuit_breaker.is_open {
        s.status = GorillaStatus::Injured;
    } else {
        s.status = GorillaStatus::Unleashed;
    }
}

/// Reset the breaker of `s`; an injured gorilla becomes caged.
fn apply_reset(s: &mut GorillaExecutionState)
    ensures
        state_is(
            *final(s),
            old(s).history@,
            GorillaExecutionState {
                history: final(s).history,
                circuit_breaker: closed_breaker(),
                status: if old(s).status == GorillaStatus::Injured {
                    GorillaStatus::Caged
                } else {
                    old(s).status
                },
                ..*old(s)
            },
        ),
{
    s.circuit_breaker = CircuitBreaker::new();
    if s.status == GorillaStatus::Injured {
        s.status = GorillaStatus::Caged;
    }
}

/// `2^n`, or `u32::MAX` when that does not fit (`u32::saturating_pow` on 2).
pub open spec fn pow2_saturating(n: u32) -> nat
    decreases n,
{
    if n == 0 {
        1
    } else {
        let p = pow2_saturating((n - 1) as u32);
        if p * 2 > u32::MAX {
            u32::MAX as nat
        } else {
            p * 2
        }
    }
}

fn pow2_sat(n: u32) -> (r: u32)
    ensures
        r == pow2_saturating(n),
{
    let mut r: u32 = 1;
    let mut i: u32 = 0;
    while i < n
        invariant
            i <= n,
            r == pow2_saturating(i),
        decreases n - i,
    {
        i = i + 1;
        if r > u32::MAX / 2 {
            r = u32::MAX;
        } else {
            r = r * 2;
        }
    }
    r
}

/// `base * k`, or the largest span when that does not fit (`Duration::saturating_mul`).
pub open spec fn saturating_mul_nanos(base: nat, k: nat) -> nat {
    if base * k <= Duration::spec_max()@ {
        base * k
    } else {
        Duration::spec_max()@
    }
}

/// The delay before retry `attempt`: the base delay doubled `attempt` times
/// (saturating), capped at the maximum delay.
pub open spec fn retry_delay_nanos(config: ExecutorConfig, attempt: u32) -> nat {
    let d = saturating_mul_nanos(config.retry_base_delay@, pow2_saturating(attempt));
    if d <= config.retry_max_delay@ {
        d
    } else {
        config.retry_max_delay@
    }
}

// ---------------------------------------------------------------------------
// GorillaExecutor
// ---------------------------------------------------------------------------

/// The gorilla execution engine: lifecycle, retries, circuit breaking and
/// execution history of every registered gorilla.
pub struct GorillaExecutor {
    states: Table<GorillaExecutionState>,
    config: ExecutorConfig,
}

impl GorillaExecutor {
    /// Execution state per registered gorilla, keyed by gorilla id.
    pub closed spec fn states(&self) -> Table<GorillaExecutionState> {
        self.states
    }

    /// The executor's configuration.
    pub closed spec fn config(&self) -> ExecutorConfig {
        self.config
    }

    /// The table and configuration are well formed; every history fits the
    /// cap and every breaker is consistent with the threshold.
    pub closed spec fn wf(&self) -> bool {
        &&& self.states.wf()
        &&& self.config.wf()
        &&& forall|k: u128|
            self.states.has(k) ==> {
                &&& (#[trigger] self.states.at(k)).history@.len() <= self.config.max_history_entries
                &&& breaker_consistent(self.states.at(k).circuit_breaker, self.config.circuit_breaker_threshold)
            }
    }

    /// The state of registered gorilla `k`.
    pub open spec fn state(&self, k: u128) -> GorillaExecutionState {
        self.states().at(k)
    }

    /// Every key other than `k` keeps its presence and its state.
    pub open spec fn others_unchanged(
        before: Table<GorillaExecutionState>,
        after: Table<GorillaExecutionState>,
        k: u128,
    ) -> bool {
        &&& forall|j: u128| j != k ==> (after.has(j) == before.has(j))
        &&& forall|j: u128| j != k && before.has(j) ==> after.at(j) == before.at(j)
    }

    /// An executor with the default configuration.
    pub fn new() -> (e: GorillaExecutor)
        ensures
            e.wf(),
            e.states().len() == 0,
            e.config().circuit_breaker_threshold == 5,
            e.config().max_retries == 3,
            e.config().max_history_entries == 100,
    {
        GorillaExecutor { states: Table::new(), config: ExecutorConfig::default() }
    }

    /// An executor with configuration `config`.
    pub fn with_config(config: ExecutorConfig) -> (e: GorillaExecutor)
        requires
            config.wf(),
        ensures
            e.wf(),
            e.states().len() == 0,
            e.config() == config,
    {
        GorillaExecutor { states: Table::new(), config }
    }

    /// Register a gorilla: it starts caged, with no history and a closed
    /// breaker; an earlier registration is replaced.
    pub fn register(&mut self, gorilla_id: GorillaId, manifest: GorillaManifest)
        requires
            old(self).wf(),
        ensures
            final(self).wf(),
            final(self).config() == old(self).config(),
            final(self).states().has(gorilla_id.0),
            fresh_state(final(self).state(gorilla_id.0), manifest),
            Self::others_unchanged(old(self).states(), final(self).states(), gorilla_id.0),
    {
        let state = GorillaExecutionState {
            status: GorillaStatus::Caged,
            history: Vec::new(),
            circuit_breaker: CircuitBreaker::new(),
            run_count: 0,
            error_count: 0,
            last_run: None,
            manifest,
            last_output: None,
        };
        let ghost t0 = self.states;
        self.states.insert(gorilla_id.0, state);
        proof {
            lemma_table_insert(t0, self.states, gorilla_id.0, state);
            assert forall|k: u128| self.states.has(k) implies (#[trigger] self.states.at(k)).history@.len()
                <= self.config.max_history_entries && breaker_consistent(
                self.states.at(k).circuit_breaker,
                self.config.circuit_breaker_threshold,
            ) by {
                if k != gorilla_id.0 {
                    assert(t0.has(k));
                }
            }
        }
    }

    /// Unregister a gorilla.
    pub fn unregister(&mut self, gorilla_id: &GorillaId)
        requires
            old(self).wf(),
        ensures
            final(self).wf(),
            final(self).config() == old(self).config(),
            !final(self).states().has(gorilla_id.0),
            Self::others_unchanged(old(self).states(), final(self).states(), gorilla_id.0),
    {
        let ghost t0 = self.states;
        let _ = self.states.remove(gorilla_id.0);
        proof {
            lemma_table_remove(t0, self.states, gorilla_id.0);
            assert forall|k: u128| self.states.has(k) implies (#[trigger] self.states.at(k)).history@.len()
                <= self.config.max_history_entries && breaker_consistent(
                self.states.at(k).circuit_breaker,
                self.config.circuit_breaker_threshold,
            ) by {
                assert(t0.has(k));
            }
        }
    }

    /// Set the status of gorilla `gorilla_id`.
    fn set_status(&mut self, gorilla_id: &GorillaId, status: GorillaStatus) -> (r: Result<(), ExecutorError>)
        requires
            old(self).wf(),
        ensures
            final(self).wf(),
            final(self).config() == old(self).config(),
            !old(self).states().has(gorilla_id.0) ==> r == Err::<(), ExecutorError>(
                ExecutorError::NotFound(*gorilla_id),
            ) && final(self).states() == old(self).states(),
            old(self).states().has(gorilla_id.0) ==> r == Ok::<(), ExecutorError>(()) && final(self).states().has(gorilla_id.0) && final(self).state(gorilla_id.0) == (GorillaExecutionState {
                status,
                ..old(self).state(gorilla_id.0)
            }) && Self::others_unchanged(old(self).states(), final(self).states(), gorilla_id.0),
    {
        match self.states.find(gorilla_id.0) {
            None => Err(ExecutorError::NotFound(*gorilla_id)),
            Some(i) => {
                let ghost t0 = self.states;
                proof {
                    t0.lemma_wf();
                }
                self.states.val_mut(i).status = status;
                proof {
                    Table::lemma_wf_vals(t0, self.states);
                    lemma_table_set(t0, self.states, i as int, self.states.val_seq()[i as int]);
                    assert forall|k: u128| self.states.has(k) implies (#[trigger] self.states.at(
                        k,
                    )).history@.len() <= self.config.max_history_entries && breaker_consistent(
                        self.states.at(k).circuit_breaker,
                        self.config.circuit_breaker_threshold,
                    ) by {
                        assert(t0.has(k));
                    }
                }
                Ok(())
            },
        }
    }

    /// Make a gorilla unleashed (ready to run).
    pub fn unleash(&mut self, gorilla_id: &GorillaId) -> (r: Result<(), ExecutorError>)
        requires
            old(self).wf(),
        ensures
            final(self).wf(),
            final(self).config() == old(self).config(),
            !old(self).states().has(gorilla_id.0) ==> r == Err::<(), ExecutorError>(
                ExecutorError::NotFound(*gorilla_id),
            ) && final(self).states() == old(self).states(),
            old(self).states().has(gorilla_id.0) ==> r == Ok::<(), ExecutorError>(()) && final(self).states().has(gorilla_id.0) && final(self).state(gorilla_id.0) == (GorillaExecutionState {
                status: GorillaStatus::Unleashed,
                ..old(self).state(gorilla_id.0)
            }) && Self::others_unchanged(old(self).states(), final(self).states(), gorilla_id.0),
    {
        self.set_status(gorilla_id, GorillaStatus::Unleashed)
    }

    /// Make a gorilla caged (stopped).
    pub fn cage(&mut self, gorilla_id: &GorillaId) -> (r: Result<(), ExecutorError>)
        requires
            old(self).wf(),
        ensures
            final(self).wf(),
            final(self).config() == old(self).config(),
            !old(self).states().has(gorilla_id.0) ==> r == Err::<(), ExecutorError>(
                ExecutorError::NotFound(*gorilla_id),
            ) && final(self).states() == old(self).states(),
            old(self).states().has(gorilla_id.0) ==> r == Ok::<(), ExecutorError>(()) && final(self).states().has(gorilla_id.0) && final(self).state(gorilla_id.0) == (GorillaExecutionState {
                status: GorillaStatus::Caged,
                ..old(self).state(gorilla_id.0)
            }) && Self::others_unchanged(old(self).states(), final(self).states(), gorilla_id.0),
    {
        self.set_status(gorilla_id, GorillaStatus::Caged)
    }

    /// Whether gorilla `k` may execute at `now`: not caged or injured, and its
    /// breaker lets executions through.
    pub open spec fn may_execute(&self, k: u128, now: i64) -> bool {
        let s = self.state(k);
        &&& s.status != GorillaStatus::Caged
        &&& s.status != GorillaStatus::Injured
        &&& breaker_allows(s.circuit_breaker, self.config().circuit_breaker_reset, now)
    }

    /// Whether a gorilla may execute at `now`.
    pub fn can_execute_at(&self, gorilla_id: &GorillaId, now: i64) -> (r: Result<bool, ExecutorError>)
        requires
            self.wf(),
        ensures
            !self.states().has(gorilla_id.0) ==> r == Err::<bool, ExecutorError>(ExecutorError::NotFound(*gorilla_id)),
            self.states().has(gorilla_id.0) ==> r == Ok::<bool, ExecutorError>(self.may_execute(gorilla_id.0, now)),
    {
        match self.states.get(gorilla_id.0) {
            None => Err(ExecutorError::NotFound(*gorilla_id)),
            Some(s) => {
                if s.status == GorillaStatus::Caged || s.status == GorillaStatus::Injured {
                    return Ok(false);
                }
                Ok(s.circuit_breaker.should_allow_at(self.config.circuit_breaker_reset, now))
            },
        }
    }

    /// Whether a gorilla may execute now; see `can_execute_at`.
    pub fn can_execute(&self, gorilla_id: &GorillaId) -> (r: Result<bool, ExecutorError>)
        requires
            self.wf(),
        ensures
            !self.states().has(gorilla_id.0) ==> r == Err::<bool, ExecutorError>(ExecutorError::NotFound(*gorilla_id)),
            self.states().has(gorilla_id.0) ==> r is Ok && exists|now: i64|
                r == Ok::<bool, ExecutorError>(#[trigger] self.may_execute(gorilla_id.0, now)),
    {
        let now = now_ms();
        self.can_execute_at(gorilla_id, now)
    }

    /// What beginning an execution of `gorilla_id` at `now` does: an unknown
    /// gorilla is reported; while its breaker is open, or it is injured or
    /// caged, it is refused and nothing changes; otherwise it becomes
    /// rampaging and a copy of its manifest is returned.
    pub open spec fn begin_post(
        old_e: GorillaExecutor,
        new_e: GorillaExecutor,
        gorilla_id: GorillaId,
        now: i64,
        r: Result<GorillaManifest, ExecutorError>,
    ) -> bool {
        let k = gorilla_id.0;
        let s = old_e.state(k);
        &&& new_e.config() == old_e.config()
        &&& if !old_e.states().has(k) {
            r == Err::<GorillaManifest, ExecutorError>(ExecutorError::NotFound(gorilla_id)) && new_e.states()
                == old_e.states()
        } else if !breaker_allows(s.circuit_breaker, old_e.config().circuit_breaker_reset, now) {
            r == Err::<GorillaManifest, ExecutorError>(
                ExecutorError::CircuitOpen { id: gorilla_id, consecutive_failures: s.circuit_breaker.consecutive_failures },
            ) && new_e.states() == old_e.states()
        } else if s.status == GorillaStatus::Injured {
            r == Err::<GorillaManifest, ExecutorError>(ExecutorError::Injured(gorilla_id)) && new_e.states()
                == old_e.states()
        } else if s.status == GorillaStatus::Caged {
            r == Err::<GorillaManifest, ExecutorError>(ExecutorError::Caged(gorilla_id)) && new_e.states()
                == old_e.states()
        } else {
            &&& r is Ok && same_manifest(r.unwrap(), s.manifest)
            &&& new_e.states().has(k)
            &&& new_e.state(k) == (GorillaExecutionState { status: GorillaStatus::Rampaging, ..s })
            &&& Self::others_unchanged(old_e.states(), new_e.states(), k)
        }
    }

    /// Begin an execution at `now`: refused while the breaker is open or the
    /// gorilla is injured or caged; otherwise it becomes rampaging and a copy
    /// of its manifest is returned.
    pub fn begin_execution_at(&mut self, gorilla_id: &GorillaId, now: i64) -> (r: Result<GorillaManifest, ExecutorError>)
        requires
            old(self).wf(),
        ensures
            final(self).wf(),
            Self::begin_post(*old(self), *final(self), *gorilla_id, now, r),
    {
        match self.states.get(gorilla_id.0) {
            None => {
                return Err(ExecutorError::NotFound(*gorilla_id));
            },
            Some(s) => {
                if !s.circuit_breaker.should_allow_at(self.config.circuit_breaker_reset, now) {
                    return Err(
                        ExecutorError::CircuitOpen {
                            id: *gorilla_id,
                            consecutive_failures: s.circuit_breaker.consecutive_failures,
                        },
                    );
                }
                if s.status == GorillaStatus::Injured {
                    return Err(ExecutorError::Injured(*gorilla_id));
                }
                if s.status == GorillaStatus::Caged {
                    return Err(ExecutorError::Caged(*gorilla_id));
                }
            },
        }
        let _ = self.set_status(gorilla_id, GorillaStatus::Rampaging);
        match self.states.get(gorilla_id.0) {
            Some(s) => Ok(copy_manifest(&s.manifest)),
            None => Err(ExecutorError::NotFound(*gorilla_id)),
        }
    }

    /// Begin an execution now; see `begin_execution_at`.
    pub fn begin_execution(&mut self, gorilla_id: &GorillaId) -> (r: Result<GorillaManifest, ExecutorError>)
        requires
            old(self).wf(),
        ensures
            final(self).wf(),
            exists|now: i64| in_range(now as int) && #[trigger] Self::begin_post(*old(self), *final(self), *gorilla_id, now, r),
            old(self).states().has(gorilla_id.0) && (old(self).state(gorilla_id.0).status == GorillaStatus::Caged
                || old(self).state(gorilla_id.0).status == GorillaStatus::Injured) ==> r is Err && final(self).states()
                == old(self).states(),
    {
        let now = now_ms();
        self.begin_execution_at(gorilla_id, now)
    }

    /// The history, breaker and count invariants hold for every gorilla, given
    /// they hold for all but the one at position `i`, which was just replaced.
    proof fn lemma_wf_after_set(t0: Table<GorillaExecutionState>, e: &GorillaExecutor, i: int)
        requires
            t0.wf(),
            e.states.wf(),
            e.config.wf(),
            0 <= i < t0.len(),
            e.states.key_seq() == t0.key_seq(),
            e.states.val_seq() == t0.val_seq().update(i, e.states.val_seq()[i]),
            forall|k: u128|
                t0.has(k) ==> {
                    &&& (#[trigger] t0.at(k)).history@.len() <= e.config.max_history_entries
                    &&& breaker_consistent(t0.at(k).circuit_breaker, e.config.circuit_breaker_threshold)
                },
            e.states.val_seq()[i].history@.len() <= e.config.max_history_entries,
            breaker_consistent(e.states.val_seq()[i].circuit_breaker, e.config.circuit_breaker_threshold),
        ensures
            e.wf(),
            e.states.has(t0.key_seq()[i]),
            e.states.at(t0.key_seq()[i]) == e.states.val_seq()[i],
            Self::others_unchanged(t0, e.states, t0.key_seq()[i]),
    {
        lemma_table_set(t0, e.states, i, e.states.val_seq()[i]);
        t0.lemma_wf();
        e.states.lemma_wf();
        assert forall|k: u128| e.states.has(k) implies (#[trigger] e.states.at(k)).history@.len()
            <= e.config.max_history_entries && breaker_consistent(
            e.states.at(k).circuit_breaker,
            e.config.circuit_breaker_threshold,
        ) by {
            assert(t0.has(k));
        }
    }

    /// Record a successful execution that started at `started_at` and ended
    /// at `now`: it goes to the front of the history (the oldest entry is
    /// dropped beyond the cap), the breaker closes, the run count grows, the
    /// output is kept and the gorilla becomes unleashed.
    pub fn record_success_at(
        &mut self,
        gorilla_id: &GorillaId,
        started_at: i64,
        output: GorillaOutput,
        retries: u32,
        now: i64,
    ) -> (r: Result<(), ExecutorError>)
        requires
            old(self).wf(),
            old(self).states().has(gorilla_id.0) ==> old(self).state(gorilla_id.0).run_count < u64::MAX,
        ensures
            final(self).wf(),
            final(self).config() == old(self).config(),
            !old(self).states().has(gorilla_id.0) ==> r == Err::<(), ExecutorError>(
                ExecutorError::NotFound(*gorilla_id),
            ) && final(self).states() == old(self).states(),
            old(self).states().has(gorilla_id.0) ==> {
                let k = gorilla_id.0;
                let s = old(self).state(k);
                let n = final(self).state(k);
                &&& r == Ok::<(), ExecutorError>(())
                &&& final(self).states().has(k)
                &&& exists|rec: ExecutionRecord|
                    #[trigger] success_record(rec, started_at, now, output.summary@, retries) && n.history@
                        == push_history(s.history@, rec, old(self).config().max_history_entries as nat)
                &&& n == (GorillaExecutionState {
                    history: n.history,
                    circuit_breaker: closed_breaker(),
                    run_count: (s.run_count + 1) as u64,
                    last_run: Some(now),
                    last_output: Some(output),
                    status: GorillaStatus::Unleashed,
                    ..s
                })
                &&& Self::others_unchanged(old(self).states(), final(self).states(), k)
            },
    {
        let i = match self.states.find(gorilla_id.0) {
            Some(i) => i,
            None => {
                return Err(ExecutorError::NotFound(*gorilla_id));
            },
        };
        let rec = ExecutionRecord {
            started_at,
            completed_at: now,
            success: true,
            duration: elapsed(started_at, now),
            error: None,
            summary: Some(output.summary.clone()),
            retries,
        };
        let max = self.config.max_history_entries;
        let ghost t0 = self.states;
        proof {
            t0.lemma_wf();
        }
        apply_success(self.states.val_mut(i), rec, max, now, output);
        proof {
            Table::lemma_wf_vals(t0, self.states);
            Self::lemma_wf_after_set(t0, self, i as int);
            assert(success_record(rec, started_at, now, output.summary@, retries));
        }
        Ok(())
    }

    /// Record a successful execution that started at `started_at` and ended
    /// now; see `record_success_at`.
    pub fn record_success(
        &mut self,
        gorilla_id: &GorillaId,
        started_at: i64,
        output: GorillaOutput,
        retries: u32,
    ) -> (r: Result<(), ExecutorError>)
        requires
            old(self).wf(),
            old(self).states().has(gorilla_id.0) ==> old(self).state(gorilla_id.0).run_count < u64::MAX,
        ensures
            final(self).wf(),
            r is Err <==> !old(self).states().has(gorilla_id.0),
            r is Ok ==> final(self).state(gorilla_id.0).status == GorillaStatus::Unleashed
                && final(self).state(gorilla_id.0).run_count == old(self).state(gorilla_id.0).run_count + 1
                && final(self).state(gorilla_id.0).circuit_breaker == closed_breaker(),
            final(self).config() == old(self).config(),
            old(self).states().has(gorilla_id.0) ==> final(self).states().has(gorilla_id.0),
            r is Err ==> final(self).states() == old(self).states(),
            Self::others_unchanged(old(self).states(), final(self).states(), gorilla_id.0),
    {
        let now = now_ms();
        self.record_success_at(gorilla_id, started_at, output, retries, now)
    }

    /// Record a failed execution that started at `started_at` and ended at
    /// `now`: it goes to the front of the history, the breaker counts the
    /// failure and trips at the threshold, the error count grows, and the
    /// gorilla becomes injured when the breaker is open, unleashed otherwise.
    pub fn record_failure_at(
        &mut self,
        gorilla_id: &GorillaId,
        started_at: i64,
        error: &str,
        retries: u32,
        now: i64,
    ) -> (r: Result<(), ExecutorError>)
        requires
            old(self).wf(),
            old(self).states().has(gorilla_id.0) ==> old(self).state(gorilla_id.0).error_count < u64::MAX
                && old(self).state(gorilla_id.0).circuit_breaker.consecutive_failures < u32::MAX,
        ensures
            final(self).wf(),
            final(self).config() == old(self).config(),
            !old(self).states().has(gorilla_id.0) ==> r == Err::<(), ExecutorError>(
                ExecutorError::NotFound(*gorilla_id),
            ) && final(self).states() == old(self).states(),
            old(self).states().has(gorilla_id.0) ==> {
                let k = gorilla_id.0;
                let s = old(self).state(k);
                let n = final(self).state(k);
                let cb = after_failure(s.circuit_breaker, old(self).config().circuit_breaker_threshold, now);
                &&& r == Ok::<(), ExecutorError>(())
                &&& final(self).states().has(k)
                &&& exists|rec: ExecutionRecord|
                    #[trigger] failure_record(rec, started_at, now, error@, retries) && n.history@
                        == push_history(s.history@, rec, old(self).config().max_history_entries as nat)
                &&& n == (GorillaExecutionState {
                    history: n.history,
                    circuit_breaker: cb,
                    error_count: (s.error_count + 1) as u64,
                    last_run: Some(now),
                    status: if cb.is_open {
                        GorillaStatus::Injured
                    } else {
                        GorillaStatus::Unleashed
                    },
                    ..s
                })
                &&& Self::others_unchanged(old(self).states(), final(self).states(), k)
            },
    {
        let i = match self.states.find(gorilla_id.0) {
            Some(i) => i,
            None => {
                return Err(ExecutorError::NotFound(*gorilla_id));
            },
        };
        let rec = ExecutionRecord {
            started_at,
            completed_at: now,
            success: false,
            duration: elapsed(started_at, now),
            error: Some(crate::text::to_owned_string(error)),
            summary: None,
            retries,
        };
        let max = self.config.max_history_entries;
        let threshold = self.config.circuit_breaker_threshold;
        let ghost t0 = self.states;
        proof {
            t0.lemma_wf();
        }
        apply_failure(self.states.val_mut(i), rec, max, threshold, now);
        proof {
            Table::lemma_wf_vals(t0, self.states);
            Self::lemma_wf_after_set(t0, self, i as int);
            assert(failure_record(rec, started_at, now, error@, retries));
        }
        Ok(())
    }

    /// Record a failed execution that started at `started_at` and ended now;
    /// see `record_failure_at`.
    pub fn record_failure(
        &mut self,
        gorilla_id: &GorillaId,
        started_at: i64,
        error: &str,
        retries: u32,
    ) -> (r: Result<(), ExecutorError>)
        requires
            old(self).wf(),
            old(self).states().has(gorilla_id.0) ==> old(self).state(gorilla_id.0).error_count < u64::MAX
                && old(self).state(gorilla_id.0).circuit_breaker.consecutive_failures < u32::MAX,
        ensures
            final(self).wf(),
            r is Err <==> !old(self).states().has(gorilla_id.0),
            r is Ok ==> {
                let s = old(self).state(gorilla_id.0);
                let n = final(self).state(gorilla_id.0);
                &&& n.error_count == s.error_count + 1
                &&& n.circuit_breaker.consecutive_failures == s.circuit_breaker.consecutive_failures + 1
                &&& n.circuit_breaker.is_open == (n.circuit_breaker.consecutive_failures
                    >= old(self).config().circuit_breaker_threshold || s.circuit_breaker.is_open)
                &&& n.status == if n.circuit_breaker.is_open {
                    GorillaStatus::Injured
                } else {
                    GorillaStatus::Unleashed
                }
            },
            final(self).config() == old(self).config(),
            old(self).states().has(gorilla_id.0) ==> final(self).states().has(gorilla_id.0),
            r is Err ==> final(self).states() == old(self).states(),
            Self::others_unchanged(old(self).states(), final(self).states(), gorilla_id.0),
    {
        let now = now_ms();
        self.record_failure_at(gorilla_id, started_at, error, retries, now)
    }

    /// The delay before retry `attempt`: the base delay doubled `attempt`
    /// times (saturating), capped at the maximum delay.
    pub fn retry_delay(&self, attempt: u32) -> (d: Duration)
        requires
            self.wf(),
        ensures
            d.wf(),
            d@ == retry_delay_nanos(self.config(), attempt),
    {
        let delay = self.config.retry_base_delay.saturating_mul(pow2_sat(attempt));
        delay.min(self.config.retry_max_delay)
    }

    /// The maximum number of retries.
    pub fn max_retries(&self) -> (n: u32)
        ensures
            n == self.config().max_retries,
    {
        self.config.max_retries
    }

    /// The execution timeout.
    pub fn execution_timeout(&self) -> (d: Duration)
        ensures
            d == self.config().execution_timeout,
    {
        self.config.execution_timeout
    }

    /// The status of a gorilla, if registered.
    pub fn get_status(&self, gorilla_id: &GorillaId) -> (r: Option<GorillaStatus>)
        requires
            self.wf(),
        ensures
            r == if self.states().has(gorilla_id.0) {
                Some(self.state(gorilla_id.0).status)
            } else {
                None
            },
    {
        match self.states.get(gorilla_id.0) {
            Some(s) => Some(s.status),
            None => None,
        }
    }

    /// A copy of a gorilla's execution history, most recent first, if registered.
    pub fn get_history(&self, gorilla_id: &GorillaId) -> (r: Option<Vec<ExecutionRecord>>)
        requires
            self.wf(),
        ensures
            match r {
                Some(h) => self.states().has(gorilla_id.0) && h@ == self.state(gorilla_id.0).history@,
                None => !self.states().has(gorilla_id.0),
            },
    {
        match self.states.get(gorilla_id.0) {
            Some(s) => {
                let mut h: Vec<ExecutionRecord> = Vec::new();
                let mut i: usize = 0;
                while i < s.history.len()
                    invariant
                        i <= s.history@.len(),
                        h@ == s.history@.take(i as int),
                    decreases s.history@.len() - i,
                {
                    h.push(copy_record(&s.history[i]));
                    i = i + 1;
                    assert(h@ =~= s.history@.take(i as int));
                }
                assert(s.history@.take(s.history@.len() as int) =~= s.history@);
                Some(h)
            },
            None => None,
        }
    }

    /// Execution statistics of a gorilla, if registered.
    pub fn get_stats(&self, gorilla_id: &GorillaId) -> (r: Option<ExecutionStats>)
        requires
            self.wf(),
        ensures
            r == if self.states().has(gorilla_id.0) {
                let s = self.state(gorilla_id.0);
                Some(
                    ExecutionStats {
                        run_count: s.run_count,
                        error_count: s.error_count,
                        last_run: s.last_run,
                        circuit_breaker_open: s.circuit_breaker.is_open,
                        consecutive_failures: s.circuit_breaker.consecutive_failures,
                    },
                )
            } else {
                None
            },
    {
        match self.states.get(gorilla_id.0) {
            Some(s) => Some(
                ExecutionStats {
                    run_count: s.run_count,
                    error_count: s.error_count,
                    last_run: s.last_run,
                    circuit_breaker_open: s.circuit_breaker.is_open,
                    consecutive_failures: s.circuit_breaker.consecutive_failures,
                },
            ),
            None => None,
        }
    }

    /// A copy of the output of a gorilla's last successful run, if any.
    pub fn get_last_output(&self, gorilla_id: &GorillaId) -> (r: Option<GorillaOutput>)
        requires
            self.wf(),
        ensures
            match r {
                Some(o) => self.states().has(gorilla_id.0) && self.state(gorilla_id.0).last_output is Some
                    && same_output(o, self.state(gorilla_id.0).last_output.unwrap()),
                None => !self.states().has(gorilla_id.0) || self.state(gorilla_id.0).last_output is None,
            },
    {
        match self.states.get(gorilla_id.0) {
            Some(s) => match &s.last_output {
                Some(o) => Some(copy_output(o)),
                None => None,
            },
            None => None,
        }
    }

    /// Reset a gorilla's circuit breaker (after manual investigation): the
    /// breaker closes and an injured gorilla becomes caged.
    pub fn reset_circuit_breaker(&mut self, gorilla_id: &GorillaId) -> (r: Result<(), ExecutorError>)
        requires
            old(self).wf(),
        ensures
            final(self).wf(),
            final(self).config() == old(self).config(),
            !old(self).states().has(gorilla_id.0) ==> r == Err::<(), ExecutorError>(
                ExecutorError::NotFound(*gorilla_id),
            ) && final(self).states() == old(self).states(),
            old(self).states().has(gorilla_id.0) ==> {
                let k = gorilla_id.0;
                let s = old(self).state(k);
                let n = final(self).state(k);
                &&& r == Ok::<(), ExecutorError>(())
                &&& final(self).states().has(k)
                &&& state_is(
                    n,
                    s.history@,
                    GorillaExecutionState {
                        history: n.history,
                        circuit_breaker: closed_breaker(),
                        status: if s.status == GorillaStatus::Injured {
                            GorillaStatus::Caged
                        } else {
                            s.status
                        },
                        ..s
                    },
                )
                &&& Self::others_unchanged(old(self).states(), final(self).states(), k)
            },
    {
        let i = match self.states.find(gorilla_id.0) {
            Some(i) => i,
            None => {
                return Err(ExecutorError::NotFound(*gorilla_id));
            },
        };
        let ghost t0 = self.states;
        proof {
            t0.lemma_wf();
        }
        apply_reset(self.states.val_mut(i));
        proof {
            Table::lemma_wf_vals(t0, self.states);
            Self::lemma_wf_after_set(t0, self, i as int);
        }
        Ok(())
    }

    /// All registered gorillas with their statuses, in registration order.
    pub fn list(&self) -> (r: Vec<(GorillaId, GorillaStatus)>)
        requires
            self.wf(),
        ensures
            r@.len() == self.states().len(),
            forall|i: int|
                0 <= i < r@.len() ==> #[trigger] r@[i] == (
                    GorillaId(self.states().key_seq()[i]),
                    self.states().val_seq()[i].status,
                ),
    {
        let mut r: Vec<(GorillaId, GorillaStatus)> = Vec::new();
        let mut i: usize = 0;
        proof {
            self.states.lemma_wf();
        }
        while i < self.states.size()
            invariant
                self.wf(),
                i <= self.states().len(),
                r@.len() == i,
                forall|j: int|
                    0 <= j < i ==> #[trigger] r@[j] == (
                        GorillaId(self.states().key_seq()[j]),
                        self.states().val_seq()[j].status,
                    ),
            decreases self.states().len() - i,
        {
            proof {
                self.states.lemma_wf();
            }
            r.push((GorillaId(self.states.key_at(i)), self.states.val_at(i).status));
            i = i + 1;
        }
        r
    }
}

impl Default for GorillaExecutor {
    /// An executor with the default configuration.
    fn default() -> (e: GorillaExecutor)
        ensures
            e.wf(),
            e.states().len() == 0,
    {
        GorillaExecutor::new()
    }
}

/// The circuit breaker law: for every registered gorilla, the breaker is open
/// exactly when its consecutive failures since the last success or reset are
/// above zero and have reached the threshold, and a tripped breaker knows
/// when it tripped.
pub proof fn lemma_breaker_tracks_failures(e: GorillaExecutor, k: u128)
    requires
        e.wf(),
        e.states().has(k),
    ensures
        e.state(k).circuit_breaker.is_open == (e.state(k).circuit_breaker.consecutive_failures > 0
            && e.state(k).circuit_breaker.consecutive_failures >= e.config().circuit_breaker_threshold),
        e.state(k).circuit_breaker.is_open == (e.state(k).circuit_breaker.tripped_at is Some),
{
}

/// Retry delays are capped at the maximum delay and never shrink from one
/// attempt to the next.
pub proof fn lemma_retry_delay_capped_monotone(config: ExecutorConfig, a: u32, b: u32)
    requires
        a <= b,
    ensures
        retry_delay_nanos(config, a) <= config.retry_max_delay@,
        retry_delay_nanos(config, a) <= retry_delay_nanos(config, b),
{
    lemma_pow2_saturating_monotone(a, b);
    let pa = pow2_saturating(a);
    let pb = pow2_saturating(b);
    let base = config.retry_base_delay@;
    assert(base * pa <= base * pb) by (nonlinear_arith)
        requires pa <= pb;
}

/// Saturating powers of two never shrink as the exponent grows.
pub proof fn lemma_pow2_saturating_monotone(a: u32, b: u32)
    requires
        a <= b,
    ensures
        pow2_saturating(a) <= pow2_saturating(b),
        pow2_saturating(b) <= u32::MAX,
    decreases b,
{
    if b > 0 {
        if a < b {
            lemma_pow2_saturating_monotone(a, (b - 1) as u32);
        } else {
            lemma_pow2_saturating_monotone((a - 1) as u32, (b - 1) as u32);
        }
    }
}

} // verus!
