//! The data sweeper: the maintenance gorilla that deletes messages past
//! their retention, compacts memories and vacuums storage, in live or
//! dry-run mode, and reports what it did.
//!
//! Storage work happens outside; `plan` says which steps a run takes and
//! `finish` turns their results into the report and the run's output.
use vstd::prelude::*;

use crate::duration::Duration;
use crate::executor::{GorillaManifest, GorillaOutput};
use crate::lifecycle::RequirementStatus;
use crate::schedule::{in_range, put_time, utc_text, MAX_DELTA_NANOS, MAX_TIMESTAMP_MS, MIN_TIMESTAMP_MS};
use crate::text::{decimal, put, put_u64, string_from_chars, to_owned_string};

verus! {

/// Structured report of a data sweep.
#[derive(Debug, Clone)]
pub struct SweepReport {
    /// When the sweep ran (milliseconds since the Unix epoch).
    pub timestamp: i64,
    /// Whether this was a dry run (nothing changed).
    pub dry_run: bool,
    /// Old messages deleted (or that would be, in a dry run).
    pub messages_deleted: u64,
    /// Memory entries compacted.
    pub memories_compacted: u64,
    /// Whether storage was vacuumed.
    pub vacuum_performed: bool,
    /// The retention cutoff used (milliseconds since the Unix epoch).
    pub retention_cutoff: i64,
    /// Errors met during the sweep.
    pub errors: Vec<String>,
}

/// The summary line of a sweep report.
pub open spec fn summary_text(r: SweepReport) -> Seq<char> {
    "Data sweep ("@ + (if r.dry_run {
        "DRY RUN"@
    } else {
        "LIVE"@
    }) + ") completed at "@ + utc_text(r.timestamp, "%Y-%m-%d %H:%M:%S UTC"@) + ". "@ + "Retention cutoff: "@
        + utc_text(r.retention_cutoff, "%Y-%m-%d"@) + ". "@ + "Messages deleted: "@ + decimal(
        r.messages_deleted as nat,
    ) + ". "@ + "Memories compacted: "@ + decimal(r.memories_compacted as nat) + ". "@ + (if r.vacuum_performed {
        "Vacuum: performed. "@
    } else {
        Seq::empty()
    }) + (if r.errors@.len() > 0 {
        "Errors: "@ + decimal(r.errors@.len()) + "."@
    } else {
        Seq::empty()
    })
}

impl SweepReport {
    /// Whether the sweep met no errors.
    pub fn is_success(&self) -> (b: bool)
        ensures
            b == (self.errors@.len() == 0),
    {
        self.errors.len() == 0
    }

    /// The report as a human-readable summary.
    pub fn format_summary(&self) -> (s: String)
        requires
            in_range(self.timestamp as int),
            in_range(self.retention_cutoff as int),
        ensures
            s@ == summary_text(*self),
    {
        let mut out: Vec<char> = Vec::new();
        put(&mut out, "Data sweep (");
        let ghost o0 = out@;
        if self.dry_run {
            put(&mut out, "DRY RUN");
        } else {
            put(&mut out, "LIVE");
        }
        put(&mut out, ") completed at ");
        put_time(&mut out, self.timestamp, "%Y-%m-%d %H:%M:%S UTC");
        put(&mut out, ". ");
        put(&mut out, "Retention cutoff: ");
        put_time(&mut out, self.retention_cutoff, "%Y-%m-%d");
        put(&mut out, ". ");
        put(&mut out, "Messages deleted: ");
        put_u64(&mut out, self.messages_deleted);
        put(&mut out, ". ");
        put(&mut out, "Memories compacted: ");
        put_u64(&mut out, self.memories_compacted);
        put(&mut out, ". ");
        let ghost o1 = out@;
        if self.vacuum_performed {
            put(&mut out, "Vacuum: performed. ");
        } else {
            assert(out@ =~= o1 + Seq::<char>::empty());
        }
        let ghost o2 = out@;
        if self.errors.len() > 0 {
            put(&mut out, "Errors: ");
            let n = crate::text::wide_decimal_chars(self.errors.len() as u128);
            crate::text::append_chars(&mut out, n.as_slice());
            put(&mut out, ".");
        } else {
            assert(out@ =~= o2 + Seq::<char>::empty());
        }
        string_from_chars(out.as_slice())
    }
}

/// The manifest of the data sweeper.
pub open spec fn sweeper_manifest(m: GorillaManifest) -> bool {
    &&& m.name@ == "Data Sweeper"@
    &&& m.description@
        == "Maintenance gorilla that cleans up old data, compacts memory, and prunes expired sessions."@
    &&& m.schedule@ == "@daily"@
    &&& m.moves_required@.len() == 2
    &&& m.moves_required@[0]@ == "memory_store"@
    &&& m.moves_required@[1]@ == "memory_recall"@
    &&& m.settings_schema.is_none()
    &&& m.dashboard_metrics@.len() == 3
    &&& m.dashboard_metrics@[0]@ == "messages_cleaned"@
    &&& m.dashboard_metrics@[1]@ == "memories_compacted"@
    &&& m.dashboard_metrics@[2]@ == "bytes_freed"@
    &&& m.system_prompt matches Some(sp) && sp@
        == "You are the Data Sweeper gorilla. Your job is to maintain data hygiene by cleaning up old messages, compacting memory entries, and pruning expired sessions. Report what was cleaned and any issues found."@
    &&& m.model.is_none()
    &&& m.capabilities@.len() == 0
    &&& m.weight_class.is_none()
}

/// Data sweeper gorilla.
pub struct DataSweeper {
    /// Its manifest.
    pub manifest: GorillaManifest,
    /// How long bout messages are kept.
    pub retention_period: Duration,
    /// Whether memory entries are compacted.
    pub compact_memory: bool,
    /// Memory entries kept per fighter when compacting.
    pub max_memories_per_fighter: usize,
    /// Report only; change nothing.
    pub dry_run: bool,
}

/// The steps a sweep takes.
#[derive(Debug, Clone, Copy, PartialEq, Eq, Structural)]
pub struct SweepPlan {
    /// Delete messages older than this cutoff (or, in a dry run, count them).
    pub cutoff: i64,
    /// Only count the messages; do not delete them.
    pub count_only: bool,
    /// Compact memories down to this many per fighter, if at all.
    pub compact_to: Option<usize>,
    /// Vacuum storage.
    pub vacuum: bool,
}

/// The retention period in milliseconds, as chrono takes it: thirty days
/// when it is too long for a time delta.
pub open spec fn retention_ms(d: Duration) -> int {
    if d@ <= MAX_DELTA_NANOS {
        (d@ / 1_000_000) as int
    } else {
        2_592_000_000
    }
}

/// How one storage step went: a count, or the error's text.
pub enum StepResult {
    /// The step succeeded with this count.
    Done(u64),
    /// The step failed.
    Failed(String),
}

/// The report and the output of a sweep.
pub struct SweepRun {
    /// The report.
    pub report: SweepReport,
    /// What the run hands back.
    pub output: GorillaOutput,
}

/// The views of strings.
pub open spec fn text_views(s: Seq<String>) -> Seq<Seq<char>> {
    s.map_values(|t: String| t@)
}

impl DataSweeper {
    fn default_manifest() -> (m: GorillaManifest)
        ensures
            sweeper_manifest(m),
    {
        let mut moves: Vec<String> = Vec::new();
        moves.push(to_owned_string("memory_store"));
        moves.push(to_owned_string("memory_recall"));
        let mut metrics: Vec<String> = Vec::new();
        metrics.push(to_owned_string("messages_cleaned"));
        metrics.push(to_owned_string("memories_compacted"));
        metrics.push(to_owned_string("bytes_freed"));
        GorillaManifest {
            name: to_owned_string("Data Sweeper"),
            description: to_owned_string(
                "Maintenance gorilla that cleans up old data, compacts memory, and prunes expired sessions.",
            ),
            schedule: to_owned_string("@daily"),
            moves_required: moves,
            settings_schema: None,
            dashboard_metrics: metrics,
            system_prompt: Some(
                to_owned_string(
                    "You are the Data Sweeper gorilla. Your job is to maintain data hygiene by cleaning up old messages, compacting memory entries, and pruning expired sessions. Report what was cleaned and any issues found.",
                ),
            ),
            model: None,
            capabilities: Vec::new(),
            weight_class: None,
        }
    }

    /// A sweeper keeping 30 days of messages, compacting to 1000 memories
    /// per fighter, live.
    pub fn new() -> (s: DataSweeper)
        ensures
            sweeper_manifest(s.manifest),
            s.retention_period == (Duration { secs: 2_592_000, nanos: 0 }),
            s.compact_memory,
            s.max_memories_per_fighter == 1000,
            !s.dry_run,
    {
        DataSweeper {
            manifest: Self::default_manifest(),
            retention_period: Duration::from_secs(30 * 86400),
            compact_memory: true,
            max_memories_per_fighter: 1000,
            dry_run: false,
        }
    }

    /// A live sweeper with the given settings.
    pub fn with_config(retention_period: Duration, compact_memory: bool, max_memories_per_fighter: usize) -> (s: DataSweeper)
        ensures
            sweeper_manifest(s.manifest),
            s.retention_period == retention_period,
            s.compact_memory == compact_memory,
            s.max_memories_per_fighter == max_memories_per_fighter,
            !s.dry_run,
    {
        DataSweeper {
            manifest: Self::default_manifest(),
            retention_period,
            compact_memory,
            max_memories_per_fighter,
            dry_run: false,
        }
    }

    /// This sweeper in dry-run mode or not.
    pub fn with_dry_run(self, dry_run: bool) -> (s: DataSweeper)
        ensures
            s == (DataSweeper { dry_run, ..self }),
    {
        DataSweeper { dry_run, ..self }
    }

    /// Whether dry-run mode is on.
    pub fn is_dry_run(&self) -> (b: bool)
        ensures
            b == self.dry_run,
    {
        self.dry_run
    }

    /// The retention period.
    pub fn retention_period(&self) -> (d: Duration)
        ensures
            d == self.retention_period,
    {
        self.retention_period
    }

    /// Whether compaction is on.
    pub fn compact_memory_enabled(&self) -> (b: bool)
        ensures
            b == self.compact_memory,
    {
        self.compact_memory
    }

    /// Memory entries kept per fighter when compacting.
    pub fn max_memories_per_fighter(&self) -> (n: usize)
        ensures
            n == self.max_memories_per_fighter,
    {
        self.max_memories_per_fighter
    }

    /// The manifest.
    pub fn manifest(&self) -> (m: &GorillaManifest)
        ensures
            *m == self.manifest,
    {
        &self.manifest
    }

    /// The requirements this gorilla checks: database access, always met.
    pub fn check_requirements(&self) -> (r: Vec<RequirementStatus>)
        ensures
            r@.len() == 1,
            r@[0].name@ == "database_access"@,
            r@[0].met,
            r@[0].message@ == "Database accessible for cleanup operations"@,
    {
        let mut r: Vec<RequirementStatus> = Vec::new();
        r.push(
            RequirementStatus {
                name: to_owned_string("database_access"),
                met: true,
                message: to_owned_string("Database accessible for cleanup operations"),
            },
        );
        r
    }

    /// The retention cutoff for a sweep at `now` (milliseconds).
    pub fn retention_cutoff_at(&self, now: i64) -> (c: i64)
        requires
            self.retention_period.wf(),
            in_range(now - retention_ms(self.retention_period)),
            in_range(now as int),
        ensures
            c == now - retention_ms(self.retention_period),
    {
        let d = self.retention_period;
        let ms: i64 = if d.as_nanos() <= MAX_DELTA_NANOS {
            (d.as_nanos() / 1_000_000) as i64
        } else {
            2_592_000_000
        };
        now - ms
    }

    /// The cutoff at `now` when both lie in the range of instants; none
    /// otherwise.
    pub fn retention_cutoff_checked(&self, now: i64) -> (c: Option<i64>)
        requires
            self.retention_period.wf(),
        ensures
            c == if in_range(now as int) && in_range(now - retention_ms(self.retention_period)) {
                Some((now - retention_ms(self.retention_period)) as i64)
            } else {
                None::<i64>
            },
    {
        if now < MIN_TIMESTAMP_MS || now > MAX_TIMESTAMP_MS {
            return None;
        }
        let d = self.retention_period;
        let ms: i64 = if d.as_nanos() <= MAX_DELTA_NANOS {
            (d.as_nanos() / 1_000_000) as i64
        } else {
            2_592_000_000
        };
        let c: i128 = (now as i128) - (ms as i128);
        if c < MIN_TIMESTAMP_MS as i128 || c > MAX_TIMESTAMP_MS as i128 {
            return None;
        }
        Some(self.retention_cutoff_at(now))
    }

    /// The steps of a sweep with retention cutoff `cutoff`: count (dry run)
    /// or delete old messages; compact when enabled and live; vacuum when
    /// live.
    pub fn plan(&self, cutoff: i64) -> (p: SweepPlan)
        ensures
            p.cutoff == cutoff,
            p.count_only == self.dry_run,
            p.compact_to == if self.compact_memory && !self.dry_run {
                Some(self.max_memories_per_fighter)
            } else {
                None
            },
            p.vacuum == !self.dry_run,
    {
        SweepPlan {
            cutoff,
            count_only: self.dry_run,
            compact_to: if self.compact_memory && !self.dry_run {
                Some(self.max_memories_per_fighter)
            } else {
                None
            },
            vacuum: !self.dry_run,
        }
    }

    /// The report and output of a sweep at `now` with cutoff `cutoff`,
    /// from the results of the steps of its plan: the message step, the
    /// compaction (when planned) and whether the vacuum succeeded (when
    /// planned). A failed message or compaction step is recorded as an
    /// error (and, live, as an error artifact); a failed vacuum is not.
    pub fn finish(
        &self,
        now: i64,
        cutoff: i64,
        messages: StepResult,
        compaction: Option<StepResult>,
        vacuum_ok: Option<bool>,
    ) -> (r: SweepRun)
        requires
            in_range(now as int),
            in_range(cutoff as int),
            compaction.is_some() == (self.compact_memory && !self.dry_run),
            vacuum_ok.is_some() == !self.dry_run,
        ensures
            r.report.timestamp == now,
            r.report.retention_cutoff == cutoff,
            r.report.dry_run == self.dry_run,
            r.report.messages_deleted == match messages {
                StepResult::Done(n) => n,
                StepResult::Failed(_) => 0,
            },
            r.report.memories_compacted == match compaction {
                Some(StepResult::Done(n)) => n,
                _ => 0,
            },
            r.report.vacuum_performed == (vacuum_ok == Some(true)),
            text_views(r.report.errors@) == (match messages {
                StepResult::Failed(e) => seq![
                    (if self.dry_run {
                        "count_messages: "@
                    } else {
                        "cleanup_messages: "@
                    }) + e@,
                ],
                StepResult::Done(_) => Seq::empty(),
            }) + (match compaction {
                Some(StepResult::Failed(e)) => seq!["compact_memories: "@ + e@],
                _ => Seq::empty(),
            }),
            r.output.summary@ == summary_text(r.report),
            text_views(r.output.artifacts@) == (match messages {
                StepResult::Failed(e) => if self.dry_run {
                    Seq::empty()
                } else {
                    seq!["error:cleanup_messages:"@ + e@]
                },
                StepResult::Done(_) => Seq::empty(),
            }) + (match compaction {
                Some(StepResult::Failed(e)) => seq!["error:compact_memories:"@ + e@],
                _ => Seq::empty(),
            }) + (if vacuum_ok == Some(true) {
                seq!["vacuum:success"@]
            } else {
                Seq::empty()
            }) + seq![
                "messages_deleted:"@ + decimal(r.report.messages_deleted as nat),
                "memories_compacted:"@ + decimal(r.report.memories_compacted as nat),
            ] + (if self.dry_run {
                seq!["mode:dry_run"@]
            } else {
                Seq::empty()
            }),
            r.output.next_run.is_none(),
    {
        let mut errors: Vec<String> = Vec::new();
        let mut artifacts: Vec<String> = Vec::new();
        let mut deleted: u64 = 0;
        let mut compacted: u64 = 0;
        match messages {
            StepResult::Done(n) => {
                deleted = n;
            },
            StepResult::Failed(e) => {
                let mut t: Vec<char> = Vec::new();
                if self.dry_run {
                    put(&mut t, "count_messages: ");
                } else {
                    put(&mut t, "cleanup_messages: ");
                }
                put(&mut t, e.as_str());
                errors.push(string_from_chars(t.as_slice()));
                if !self.dry_run {
                    let mut a: Vec<char> = Vec::new();
                    put(&mut a, "error:cleanup_messages:");
                    put(&mut a, e.as_str());
                    artifacts.push(string_from_chars(a.as_slice()));
                }
            },
        }
        let ghost e1 = text_views(errors@);
        let ghost a1 = text_views(artifacts@);
        match compaction {
            Some(StepResult::Done(n)) => {
                compacted = n;
            },
            Some(StepResult::Failed(e)) => {
                let mut t: Vec<char> = Vec::new();
                put(&mut t, "compact_memories: ");
                put(&mut t, e.as_str());
                errors.push(string_from_chars(t.as_slice()));
                assert(text_views(errors@) =~= e1.push(t@));
                let mut a: Vec<char> = Vec::new();
                put(&mut a, "error:compact_memories:");
                put(&mut a, e.as_str());
                artifacts.push(string_from_chars(a.as_slice()));
                assert(text_views(artifacts@) =~= a1.push(a@));
            },
            None => {},
        }
        let ghost a2 = text_views(artifacts@);
        let vacuumed = match vacuum_ok {
            Some(true) => true,
            _ => false,
        };
        if vacuumed {
            artifacts.push(to_owned_string("vacuum:success"));
            assert(text_views(artifacts@) =~= a2.push("vacuum:success"@));
        }
        let report = SweepReport {
            timestamp: now,
            dry_run: self.dry_run,
            messages_deleted: deleted,
            memories_compacted: compacted,
            vacuum_performed: vacuumed,
            retention_cutoff: cutoff,
            errors,
        };
        let summary = report.format_summary();
        let ghost a3 = text_views(artifacts@);
        let mut m: Vec<char> = Vec::new();
        put(&mut m, "messages_deleted:");
        put_u64(&mut m, deleted);
        artifacts.push(string_from_chars(m.as_slice()));
        let mut c: Vec<char> = Vec::new();
        put(&mut c, "memories_compacted:");
        put_u64(&mut c, compacted);
        artifacts.push(string_from_chars(c.as_slice()));
        assert(text_views(artifacts@) =~= a3.push(m@).push(c@));
        let ghost a4 = text_views(artifacts@);
        if self.dry_run {
            artifacts.push(to_owned_string("mode:dry_run"));
            assert(text_views(artifacts@) =~= a4.push("mode:dry_run"@));
        }
        proof {
            assert(text_views(report.errors@) =~= (match messages {
                StepResult::Failed(e) => seq![
                    (if self.dry_run {
                        "count_messages: "@
                    } else {
                        "cleanup_messages: "@
                    }) + e@,
                ],
                StepResult::Done(_) => Seq::empty(),
            }) + (match compaction {
                Some(StepResult::Failed(e)) => seq!["compact_memories: "@ + e@],
                _ => Seq::empty(),
            }));
        }
        SweepRun { report, output: GorillaOutput { summary, artifacts, next_run: None } }
    }
}

impl Default for DataSweeper {
    /// The default sweeper.
    fn default() -> (s: DataSweeper)
        ensures
            sweeper_manifest(s.manifest),
            s.retention_period == (Duration { secs: 2_592_000, nanos: 0 }),
            s.compact_memory,
            s.max_memories_per_fighter == 1000,
            !s.dry_run,
    {
        DataSweeper::new()
    }
}

} // verus!
