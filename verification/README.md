# punch

The kernel and gorilla runtime of an agent operating system, written in
Verus: fighters (conversational agents) held in a Ring with quotas, budgets
and metrics; gorillas (autonomous background agents) with schedules,
triggers, an executor with a circuit breaker, and built-in runners; task
queues, swarms and coordination patterns; A2A tasks; agent messaging; and
the reports, health checks and sweeps the gorillas produce.

The functions in `src/` carry contracts that Verus proves; the few without
one are small helpers whose callers' contracts cover them, and the trusted
wrappers around outside crates state what is assumed of them. Laws that
span several calls (what a claim leaves behind, how a breaker recovers,
that a shutdown is idempotent, what an export shows of the registry) are
stated as public proof functions next to the code they are about; among
them, that a cron expression's next run is the earliest matching whole
minute (over the Gregorian calendar, stated in `schedule`).

## Layout

- `src/` — the library, one module per concern (`ring`, `quota`, `budget`,
  `metering`, `metrics`, `executor`, `gorilla_scheduler`, `background`,
  `tasks`, `swarm`, `patterns`, `a2a`, `messaging`, `cron`, `schedule`, ...).
  Calls into chrono, uuid and tokio sit behind small trusted wrappers whose
  doc comments say what is assumed of them.
- `tests/` — tests that run the library with the real outside crates.
- `app/` — the runtime around the library: tokio tasks and channels, files
  and HTTP probes, serialization, histograms (floating point), and the
  drivers that carry out what the library decides (sending a fighter a
  message, running A2A tasks, background gorilla loops, health probes).

## Units

Times are UTC milliseconds since the Unix epoch; durations are held to the
nanosecond. Prices are micro-dollars per million tokens, so a cost is an
exact count of pico-dollars.
