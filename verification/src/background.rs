//! Background gorilla execution: the schedule strings that set how often a
//! gorilla runs, and the registry of gorillas running in the background.
use vstd::prelude::*;

use crate::duration::Duration;
use crate::executor::GorillaManifest;
use crate::registry::{FighterManifest, WeightClass};
use crate::ids::GorillaId;
use crate::schedule::{in_range, now_ms};
use crate::table::{lemma_table_insert, lemma_table_remove, Table};
use crate::text::{
    chars_eq, chars_of, copy_strings, has_prefix, has_suffix, lowercase, parse_u64, parse_unsigned, put,
    slice_range, split_whitespace, string_from_chars, to_lowercase_chars, to_owned_string, trim, trim_chars, words,
};

verus! {

/// Seconds of the one-character unit `u` (`s`, `m`, `h`, `d`), or 0.
pub open spec fn unit_secs(u: char) -> nat {
    if u == 's' {
        1
    } else if u == 'm' {
        60
    } else if u == 'h' {
        3600
    } else if u == 'd' {
        86400
    } else {
        0
    }
}

/// The seconds of a human-friendly schedule `s` (already trimmed and lower
/// case): an optional "every " prefix, then a number and a unit `s`, `m`,
/// `h` or `d`, with spaces allowed around the number.
pub open spec fn human_secs(s: Seq<char>) -> Option<nat> {
    let t0 = if has_prefix(s, "every "@) {
        s.skip(6)
    } else {
        s
    };
    let t = trim(t0);
    if t.len() == 0 || unit_secs(t.last()) == 0 {
        None
    } else {
        match parse_unsigned(trim(t.drop_last()), u64::MAX as nat) {
            Some(n) => Some(n * unit_secs(t.last())),
            None => None,
        }
    }
}

/// The number after a "*/" prefix of field `f`, if it has one.
pub open spec fn step_of(f: Seq<char>) -> Option<nat> {
    if has_prefix(f, "*/"@) {
        parse_unsigned(f.skip(2), u64::MAX as nat)
    } else {
        None
    }
}

/// The interval, in seconds, of a five-field cron schedule of a common
/// periodic shape: `*/N * * * *` (N minutes), `0 */N * * *` (N hours),
/// `0 0 */N * *` (N days), `0 0 * * *` or `0 N * * *` (a day).
pub open spec fn cron_secs(s: Seq<char>) -> Option<nat> {
    let f = words(s);
    if f.len() != 5 {
        None
    } else {
        let (m, h, d) = (f[0], f[1], f[2]);
        if step_of(m) is Some && h == "*"@ && d == "*"@ {
            Some(step_of(m).unwrap() * 60)
        } else if m == "0"@ && step_of(h) is Some && d == "*"@ {
            Some(step_of(h).unwrap() * 3600)
        } else if m == "0"@ && h == "0"@ && step_of(d) is Some {
            Some(step_of(d).unwrap() * 86400)
        } else if m == "0"@ && h == "0"@ && d == "*"@ {
            Some(86400)
        } else if m == "0"@ && d == "*"@ && parse_unsigned(h, u64::MAX as nat) is Some {
            Some(86400)
        } else {
            None
        }
    }
}

/// The interval, in seconds, of a gorilla schedule: the trimmed, lower-cased
/// text read as a human-friendly schedule, else as a cron schedule, else as
/// a number of seconds. A schedule whose seconds do not fit a `u64` has none.
pub open spec fn schedule_secs(schedule: Seq<char>) -> Option<nat> {
    let s = lowercase(trim(schedule));
    let v = match human_secs(s) {
        Some(v) => Some(v),
        None => match cron_secs(s) {
            Some(v) => Some(v),
            None => parse_unsigned(s, u64::MAX as nat),
        },
    };
    match v {
        Some(x) => if x <= u64::MAX {
            Some(x)
        } else {
            None
        },
        None => None,
    }
}

/// `n * unit`, or `None` when it does not fit.
fn times(n: u64, unit: u64) -> (r: Option<u64>)
    requires
        unit > 0,
    ensures
        n * unit <= u64::MAX ==> r == Some((n * unit) as u64),
        n * unit > u64::MAX ==> r is None,
{
    if n > u64::MAX / unit {
        assert(n * unit > u64::MAX) by (nonlinear_arith)
            requires n > u64::MAX / unit, unit > 0;
        None
    } else {
        assert(n * unit <= u64::MAX) by (nonlinear_arith)
            requires n <= u64::MAX / unit, unit > 0;
        Some(n * unit)
    }
}

/// The outcome of one reading of a schedule: no match, a match whose seconds
/// overflow, or a match with its seconds.
pub enum Reading {
    NoMatch,
    Overflow,
    Secs(u64),
}

/// `r` is the reading of the spec value `v`.
pub open spec fn reads(r: Reading, v: Option<nat>) -> bool {
    match v {
        None => r is NoMatch,
        Some(x) => if x <= u64::MAX {
            r == Reading::Secs(x as u64)
        } else {
            r is Overflow
        },
    }
}

/// Read `s` as a human-friendly schedule (see `human_secs`).
fn read_human(s: &[char]) -> (r: Reading)
    ensures
        reads(r, human_secs(s@)),
{
    proof {
        reveal_strlit("every ");
    }
    let every = chars_of("every ");
    let rest = if crate::text::starts_with(s, every.as_slice()) {
        slice_range(s, 6, s.len())
    } else {
        slice_range(s, 0, s.len())
    };
    proof {
        if has_prefix(s@, "every "@) {
            assert(rest@ =~= s@.skip(6));
        } else {
            assert(rest@ =~= s@);
        }
    }
    let t = trim_chars(rest.as_slice());
    let n = t.len();
    if n == 0 {
        return Reading::NoMatch;
    }
    let u = t[n - 1];
    let unit: u64 = if u == 's' {
        1
    } else if u == 'm' {
        60
    } else if u == 'h' {
        3600
    } else if u == 'd' {
        86400
    } else {
        0
    };
    if unit == 0 {
        return Reading::NoMatch;
    }
    let body = slice_range(t.as_slice(), 0, n - 1);
    assert(body@ =~= t@.drop_last());
    let num = trim_chars(body.as_slice());
    match parse_u64(num.as_slice()) {
        None => Reading::NoMatch,
        Some(k) => match times(k, unit) {
            Some(v) => Reading::Secs(v),
            None => Reading::Overflow,
        },
    }
}

/// Whether `a` is the text `b`.
fn is_text(a: &Vec<char>, b: &str) -> (r: bool)
    ensures
        r == (a@ == b@),
{
    let bv = chars_of(b);
    chars_eq(a.as_slice(), bv.as_slice())
}

/// The number after a "*/" prefix of `f`, if it has one.
fn step_exec(f: &Vec<char>) -> (r: Option<u64>)
    ensures
        match step_of(f@) {
            Some(n) => r == Some(n as u64),
            None => r is None,
        },
{
    proof {
        reveal_strlit("*/");
    }
    let p = chars_of("*/");
    if crate::text::starts_with(f.as_slice(), p.as_slice()) {
        let rest = slice_range(f.as_slice(), 2, f.len());
        assert(rest@ =~= f@.skip(2));
        parse_u64(rest.as_slice())
    } else {
        None
    }
}

/// Read `s` as a cron schedule (see `cron_secs`).
fn read_cron(s: &[char]) -> (r: Reading)
    ensures
        reads(r, cron_secs(s@)),
{
    let f = split_whitespace(s);
    proof {
        assert(f@.map_values(|p: Vec<char>| p@).len() == f@.len());
    }
    if f.len() != 5 {
        return Reading::NoMatch;
    }
    let m = &f[0];
    let h = &f[1];
    let d = &f[2];
    proof {
        assert(f@.map_values(|p: Vec<char>| p@)[0] == m@);
        assert(f@.map_values(|p: Vec<char>| p@)[1] == h@);
        assert(f@.map_values(|p: Vec<char>| p@)[2] == d@);
    }
    let sm = step_exec(m);
    let sh = step_exec(h);
    let sd = step_exec(d);
    let h_star = is_text(h, "*");
    let d_star = is_text(d, "*");
    let m_zero = is_text(m, "0");
    let h_zero = is_text(h, "0");
    if sm.is_some() && h_star && d_star {
        return match times(sm.unwrap(), 60) {
            Some(v) => Reading::Secs(v),
            None => Reading::Overflow,
        };
    }
    if m_zero && sh.is_some() && d_star {
        return match times(sh.unwrap(), 3600) {
            Some(v) => Reading::Secs(v),
            None => Reading::Overflow,
        };
    }
    if m_zero && h_zero && sd.is_some() {
        return match times(sd.unwrap(), 86400) {
            Some(v) => Reading::Secs(v),
            None => Reading::Overflow,
        };
    }
    if m_zero && h_zero && d_star {
        return Reading::Secs(86400);
    }
    if m_zero && d_star && parse_u64(h.as_slice()).is_some() {
        return Reading::Secs(86400);
    }
    Reading::NoMatch
}

/// How often a gorilla with this schedule runs (see `schedule_secs`).
pub fn parse_schedule_chars(schedule: &[char]) -> (r: Option<Duration>)
    ensures
        match schedule_secs(schedule@) {
            Some(v) => r == Some(Duration { secs: v as u64, nanos: 0 }),
            None => r is None,
        },
{
    let t = trim_chars(schedule);
    let s = to_lowercase_chars(t.as_slice());
    match read_human(s.as_slice()) {
        Reading::Secs(v) => {
            return Some(Duration::from_secs(v));
        },
        Reading::Overflow => {
            return None;
        },
        Reading::NoMatch => {},
    }
    match read_cron(s.as_slice()) {
        Reading::Secs(v) => {
            return Some(Duration::from_secs(v));
        },
        Reading::Overflow => {
            return None;
        },
        Reading::NoMatch => {},
    }
    match parse_u64(s.as_slice()) {
        Some(v) => Some(Duration::from_secs(v)),
        None => None,
    }
}

// ---------------------------------------------------------------------------
// BackgroundExecutor
// ---------------------------------------------------------------------------

/// Why a background operation failed.
#[derive(Debug, Clone, Copy, PartialEq, Eq, Structural)]
pub enum BackgroundError {
    /// The gorilla is already running in the background.
    AlreadyRunning(GorillaId),
}

/// The interval used when a schedule cannot be read: five minutes.
pub const DEFAULT_INTERVAL_SECS: u64 = 300;

/// The gorillas running in the background, with the time each started.
pub struct BackgroundExecutor {
    tasks: Table<i64>,
}

impl BackgroundExecutor {
    /// The running gorillas, keyed by gorilla id, with their start times
    /// (milliseconds since the Unix epoch), in start order.
    pub closed spec fn running(&self) -> Table<i64> {
        self.tasks
    }

    /// The table is well formed.
    pub closed spec fn wf(&self) -> bool {
        self.tasks.wf()
    }

    /// No gorilla running.
    pub fn new() -> (b: BackgroundExecutor)
        ensures
            b.wf(),
            b.running().len() == 0,
    {
        BackgroundExecutor { tasks: Table::new() }
    }

    /// How often a gorilla with this schedule runs (see `schedule_secs`):
    /// "every 30s", "5m", "*/10 * * * *", "60" and the like.
    pub fn parse_schedule(schedule: &str) -> (r: Option<Duration>)
        ensures
            match schedule_secs(schedule@) {
                Some(v) => r == Some(Duration { secs: v as u64, nanos: 0 }),
                None => r is None,
            },
    {
        let c = chars_of(schedule);
        parse_schedule_chars(c.as_slice())
    }

    /// Start a gorilla in the background at `now`: refused when it already
    /// runs; otherwise it is recorded as running and the interval it runs at
    /// is returned: its schedule's, or five minutes when that cannot be read.
    pub fn start_gorilla_at(&mut self, id: GorillaId, schedule: &str, now: i64) -> (r: Result<Duration, BackgroundError>)
        requires
            old(self).wf(),
        ensures
            final(self).wf(),
            Self::started(*old(self), *final(self), id, schedule@, now, r),
    {
        if self.tasks.find(id.0).is_some() {
            return Err(BackgroundError::AlreadyRunning(id));
        }
        let interval = match Self::parse_schedule(schedule) {
            Some(d) => d,
            None => Duration::from_secs(DEFAULT_INTERVAL_SECS),
        };
        let ghost t0 = self.tasks;
        self.tasks.insert(id.0, now);
        proof {
            lemma_table_insert(t0, self.tasks, id.0, now);
        }
        Ok(interval)
    }

    /// Start a gorilla in the background now; see `start_gorilla_at`.
    pub fn start_gorilla(&mut self, id: GorillaId, schedule: &str) -> (r: Result<Duration, BackgroundError>)
        requires
            old(self).wf(),
        ensures
            final(self).wf(),
            exists|now: i64| in_range(now as int) && #[trigger] Self::started(*old(self), *final(self), id, schedule@, now, r),
    {
        let now = now_ms();
        let r = self.start_gorilla_at(id, schedule, now);
        assert(in_range(now as int) && Self::started(*old(self), *self, id, schedule@, now, r));
        r
    }

    /// Starting gorilla `id` on `schedule` at `now` took `before` to `after`
    /// with result `r`: a gorilla already running is refused and nothing
    /// changes; otherwise it runs from `now` on, ticking every
    /// `schedule_secs(schedule)` seconds (the default interval when the
    /// schedule does not parse), and the other running gorillas are as they were.
    pub open spec fn started(before: Self, after: Self, id: GorillaId, schedule: Seq<char>, now: i64, r: Result<Duration, BackgroundError>) -> bool {
        &&& before.running().has(id.0) ==> r == Err::<Duration, BackgroundError>(BackgroundError::AlreadyRunning(id))
            && after.running() == before.running()
        &&& !before.running().has(id.0) ==> {
            &&& r is Ok
            &&& r.unwrap() == match schedule_secs(schedule) {
                Some(v) => Duration { secs: v as u64, nanos: 0 },
                None => Duration { secs: DEFAULT_INTERVAL_SECS, nanos: 0 },
            }
            &&& after.running().has(id.0)
            &&& after.running().at(id.0) == now
            &&& after.running().len() == before.running().len() + 1
            &&& forall|k: u128| k != id.0 ==> (after.running().has(k) == before.running().has(k))
            &&& forall|k: u128| k != id.0 && before.running().has(k) ==> after.running().at(k) == before.running().at(k)
        }
    }

    /// Stop a gorilla; whether it was running.
    pub fn stop_gorilla(&mut self, id: &GorillaId) -> (r: bool)
        requires
            old(self).wf(),
        ensures
            final(self).wf(),
            r == old(self).running().has(id.0),
            !final(self).running().has(id.0),
            forall|k: u128| k != id.0 ==> (final(self).running().has(k) == old(self).running().has(k)),
    {
        let ghost t0 = self.tasks;
        let r = self.tasks.remove(id.0);
        proof {
            lemma_table_remove(t0, self.tasks, id.0);
        }
        r.is_some()
    }

    /// Whether a gorilla is running.
    pub fn is_running(&self, id: &GorillaId) -> (r: bool)
        requires
            self.wf(),
        ensures
            r == self.running().has(id.0),
    {
        self.tasks.find(id.0).is_some()
    }

    /// The running gorillas, in start order.
    pub fn list_running(&self) -> (r: Vec<GorillaId>)
        requires
            self.wf(),
        ensures
            r@ == self.running().key_seq().map_values(|k: u128| GorillaId(k)),
    {
        let mut r: Vec<GorillaId> = Vec::new();
        let mut i: usize = 0;
        while i < self.tasks.size()
            invariant
                self.wf(),
                i <= self.running().len(),
                r@ == self.running().key_seq().take(i as int).map_values(|k: u128| GorillaId(k)),
            decreases self.running().len() - i,
        {
            r.push(GorillaId(self.tasks.key_at(i)));
            i = i + 1;
            assert(r@ =~= self.running().key_seq().take(i as int).map_values(|k: u128| GorillaId(k)));
        }
        assert(self.running().key_seq().take(self.running().len() as int) =~= self.running().key_seq());
        r
    }

    /// Stop every gorilla; returns how many were running.
    pub fn shutdown_all(&mut self) -> (n: usize)
        requires
            old(self).wf(),
        ensures
            final(self).wf(),
            n == old(self).running().len(),
            final(self).running().len() == 0,
    {
        let n = self.tasks.size();
        self.tasks = Table::new();
        n
    }

    /// Number of running gorillas.
    pub fn running_count(&self) -> (n: usize)
        requires
            self.wf(),
        ensures
            n == self.running().len(),
    {
        self.tasks.size()
    }
}

impl Default for BackgroundExecutor {
    /// No gorilla running.
    fn default() -> (b: BackgroundExecutor)
        ensures
            b.wf(),
            b.running().len() == 0,
    {
        BackgroundExecutor::new()
    }
}

/// The weight class a gorilla manifest names (`featherweight`,
/// `middleweight` or `heavyweight`); middleweight when it names none.
pub open spec fn weight_class_named(w: Option<Seq<char>>) -> WeightClass {
    match w {
        Some(t) => if t == "featherweight"@ {
            WeightClass::Featherweight
        } else if t == "heavyweight"@ {
            WeightClass::Heavyweight
        } else {
            WeightClass::Middleweight
        },
        None => WeightClass::Middleweight,
    }
}

/// The system prompt a gorilla runs with: its own, else its description.
pub fn effective_system_prompt(m: &GorillaManifest) -> (s: String)
    ensures
        s@ == match m.system_prompt {
            Some(p) => p@,
            None => m.description@,
        },
{
    match &m.system_prompt {
        Some(p) => to_owned_string(p.as_str()),
        None => to_owned_string(m.description.as_str()),
    }
}

/// The manifest of the fighter a gorilla's autonomous tick runs as: the
/// gorilla's name and capabilities, its own model (else `default_model`),
/// its effective system prompt, its weight class (middleweight when none),
/// described as "Autonomous gorilla: <name>".
pub fn fighter_manifest_from_gorilla(m: &GorillaManifest, default_model: &str) -> (f: FighterManifest)
    ensures
        f.name@ == m.name@,
        f.description@ == "Autonomous gorilla: "@ + m.name@,
        f.model@ == match m.model {
            Some(x) => x@,
            None => default_model@,
        },
        f.system_prompt@ == match m.system_prompt {
            Some(p) => p@,
            None => m.description@,
        },
        f.capabilities@ == m.capabilities@,
        f.weight_class == weight_class_named(
            match m.weight_class {
                Some(w) => Some(w@),
                None => None,
            },
        ),
        f.tenant_id is None,
{
    let mut d: Vec<char> = Vec::new();
    put(&mut d, "Autonomous gorilla: ");
    put(&mut d, m.name.as_str());
    let model = match &m.model {
        Some(x) => to_owned_string(x.as_str()),
        None => to_owned_string(default_model),
    };
    let weight_class = match &m.weight_class {
        Some(w) => {
            let wc = chars_of(w.as_str());
            let fw = chars_of("featherweight");
            let hw = chars_of("heavyweight");
            proof {
                reveal_strlit("featherweight");
                reveal_strlit("heavyweight");
            }
            if chars_eq(wc.as_slice(), fw.as_slice()) {
                WeightClass::Featherweight
            } else if chars_eq(wc.as_slice(), hw.as_slice()) {
                WeightClass::Heavyweight
            } else {
                WeightClass::Middleweight
            }
        },
        None => WeightClass::Middleweight,
    };
    FighterManifest {
        name: to_owned_string(m.name.as_str()),
        description: string_from_chars(d.as_slice()),
        model,
        system_prompt: effective_system_prompt(m),
        capabilities: copy_strings(&m.capabilities),
        weight_class,
        tenant_id: None,
    }
}

} // verus!
