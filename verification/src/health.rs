//! The health monitor: memory and disk usage against thresholds, endpoint
//! checks, alerts, the overall status and a bounded history of reports.
//!
//! Percentages are exact ratios of byte counts. Thresholds are held in
//! thousandths of a percent (`80_000` is 80%), and usage is printed in
//! tenths of a percent, rounded half up.
use vstd::prelude::*;

use crate::executor::{GorillaManifest, GorillaOutput};
use crate::lifecycle::RequirementStatus;
use crate::report::rounded_tenths;
use crate::schedule::{in_range, put_time, utc_text};
use crate::text::{
    append_chars, chars_of, contains_chars, contains_seq, decimal, ends_with, has_prefix, has_suffix,
    join_chars, joined, lines, lines_of, parse_u64, parse_unsigned, put, put_tenths, put_u64, slice_range,
    split_char, split_on_char, starts_with, string_from_chars, tenths_text, to_owned_string, trim, trim_chars,
    wide_decimal_chars,
};

verus! {

// ---------------------------------------------------------------------------
// Reading memory figures from system text
// ---------------------------------------------------------------------------

/// `s` with every trailing occurrence of `p` removed (`trim_end_matches`).
pub open spec fn strip_suffixes(s: Seq<char>, p: Seq<char>) -> Seq<char>
    decreases s.len(),
{
    if p.len() > 0 && has_suffix(s, p) {
        strip_suffixes(s.subrange(0, s.len() - p.len()), p)
    } else {
        s
    }
}

/// `s` with every trailing occurrence of the non-empty `p` removed.
fn strip_suffixes_chars(s: &[char], p: &[char]) -> (r: Vec<char>)
    requires
        p@.len() > 0,
    ensures
        r@ == strip_suffixes(s@, p@),
{
    let mut n: usize = s.len();
    assert(s@.subrange(0, n as int) =~= s@);
    loop
        invariant
            n <= s@.len(),
            p@.len() > 0,
            strip_suffixes(s@.subrange(0, n as int), p@) == strip_suffixes(s@, p@),
        decreases n,
    {
        let cur = slice_range(s, 0, n);
        if n >= p.len() && ends_with(cur.as_slice(), p) {
            assert(cur@.subrange(0, cur@.len() - p@.len()) =~= s@.subrange(0, n - p@.len()));
            n = n - p.len();
        } else {
            assert(!has_suffix(cur@, p@));
            return cur;
        }
    }
}

/// A decimal `u64`, or 0 where `s` is not one (`parse().unwrap_or(0)`).
pub open spec fn number_or_zero(s: Seq<char>) -> nat {
    match parse_unsigned(s, u64::MAX as nat) {
        Some(n) => n,
        None => 0,
    }
}

/// The number of kilobytes in a `/proc/meminfo` value such as ` 16384 kB`.
pub open spec fn meminfo_kb(v: Seq<char>) -> nat {
    number_or_zero(trim(strip_suffixes(trim(v), "kB"@)))
}

/// The number of kilobytes in a `/proc/meminfo` value, or 0 if it is not a
/// number.
pub fn parse_meminfo_kb(value: &str) -> (r: u64)
    ensures
        r == meminfo_kb(value@),
{
    let v = chars_of(value);
    let t = trim_chars(v.as_slice());
    let kb = chars_of("kB");
    proof {
        reveal_strlit("kB");
    }
    let s = strip_suffixes_chars(t.as_slice(), kb.as_slice());
    let u = trim_chars(s.as_slice());
    match parse_u64(u.as_slice()) {
        Some(n) => n,
        None => 0,
    }
}

/// The count in a `vm_stat` line such as `Pages free:  12345.`: the piece
/// after the first colon, trimmed, without trailing dots; 0 if absent or
/// not a number.
pub open spec fn vm_stat_value(line: Seq<char>) -> nat {
    let pieces = split_char(line, ':');
    if pieces.len() > 1 {
        number_or_zero(strip_suffixes(trim(pieces[1]), "."@))
    } else {
        0
    }
}

/// The count in a `vm_stat` line, or 0.
pub fn parse_vm_stat_value(line: &str) -> (r: u64)
    ensures
        r == vm_stat_value(line@),
{
    let v = chars_of(line);
    let pieces = split_on_char(v.as_slice(), ':');
    proof {
        assert(pieces@.len() == split_char(v@, ':').len());
    }
    if pieces.len() > 1 {
        assert(pieces@[1]@ == split_char(line@, ':')[1]);
        let t = trim_chars(pieces[1].as_slice());
        let dot = chars_of(".");
        proof {
            reveal_strlit(".");
        }
        let s = strip_suffixes_chars(t.as_slice(), dot.as_slice());
        match parse_u64(s.as_slice()) {
            Some(n) => n,
            None => 0,
        }
    } else {
        0
    }
}

/// `n * 2^10`, wrapping at 64 bits as release builds do.
pub open spec fn times_1024(n: nat) -> nat {
    (n % 0x40_0000_0000_0000) * 1024
}

/// The (total, available) bytes named by the `MemTotal:` and `MemAvailable:`
/// lines among `ls`; for each, the last such line counts, and 0 if none.
pub open spec fn meminfo_scan(ls: Seq<Seq<char>>) -> (nat, nat)
    decreases ls.len(),
{
    if ls.len() == 0 {
        (0, 0)
    } else {
        let prev = meminfo_scan(ls.drop_last());
        let l = ls.last();
        if has_prefix(l, "MemTotal:"@) {
            (times_1024(meminfo_kb(l.subrange(9, l.len() as int))), prev.1)
        } else if has_prefix(l, "MemAvailable:"@) {
            (prev.0, times_1024(meminfo_kb(l.subrange(13, l.len() as int))))
        } else {
            prev
        }
    }
}

/// The total and available memory in bytes that `/proc/meminfo` text gives.
pub fn meminfo_totals(contents: &str) -> (r: (u64, u64))
    ensures
        r.0 == meminfo_scan(lines(contents@)).0,
        r.1 == meminfo_scan(lines(contents@)).1,
{
    let v = chars_of(contents);
    let ls = lines_of(v.as_slice());
    let ghost lv = ls@.map_values(|q: Vec<char>| q@);
    let total_key = chars_of("MemTotal:");
    let avail_key = chars_of("MemAvailable:");
    proof {
        reveal_strlit("MemTotal:");
        reveal_strlit("MemAvailable:");
    }
    let mut total: u64 = 0;
    let mut available: u64 = 0;
    let mut i: usize = 0;
    while i < ls.len()
        invariant
            i <= ls@.len(),
            lv == ls@.map_values(|q: Vec<char>| q@),
            lv == lines(contents@),
            total_key@ == "MemTotal:"@,
            avail_key@ == "MemAvailable:"@,
            total_key@.len() == 9,
            avail_key@.len() == 13,
            total == meminfo_scan(lv.take(i as int)).0,
            available == meminfo_scan(lv.take(i as int)).1,
        decreases ls@.len() - i,
    {
        assert(lv.take(i + 1).drop_last() =~= lv.take(i as int));
        let l = &ls[i];
        assert(l@ == lv[i as int]);
        if starts_with(l.as_slice(), total_key.as_slice()) {
            let rest = slice_range(l.as_slice(), 9, l.len());
            let s = string_from_chars(rest.as_slice());
            let kb = parse_meminfo_kb(s.as_str());
            total = (kb % 0x40_0000_0000_0000) * 1024;
        } else if starts_with(l.as_slice(), avail_key.as_slice()) {
            let rest = slice_range(l.as_slice(), 13, l.len());
            let s = string_from_chars(rest.as_slice());
            let kb = parse_meminfo_kb(s.as_str());
            available = (kb % 0x40_0000_0000_0000) * 1024;
        }
        i = i + 1;
    }
    assert(lv.take(ls@.len() as int) =~= lv);
    (total, available)
}

/// The macOS page size assumed for `vm_stat` counts.
pub const MACOS_PAGE_SIZE: u64 = 16384;

/// The free and inactive page counts among `vm_stat` lines, the last line
/// of each kind counting.
pub open spec fn vm_stat_scan(ls: Seq<Seq<char>>) -> (nat, nat)
    decreases ls.len(),
{
    if ls.len() == 0 {
        (0, 0)
    } else {
        let prev = vm_stat_scan(ls.drop_last());
        let l = ls.last();
        if has_prefix(l, "Pages free:"@) {
            (vm_stat_value(l), prev.1)
        } else if has_prefix(l, "Pages inactive:"@) {
            (prev.0, vm_stat_value(l))
        } else {
            prev
        }
    }
}

/// Available bytes from the free and inactive page counts, wrapping at 64
/// bits as release builds do.
pub open spec fn available_pages_bytes(free: nat, inactive: nat) -> nat {
    ((free + inactive) % 0x4_0000_0000_0000) * 16384
}

/// The available memory in bytes that `vm_stat` output gives: free plus
/// inactive pages times the page size.
pub fn macos_available_memory(stdout: &str) -> (r: u64)
    ensures
        r == available_pages_bytes(vm_stat_scan(lines(stdout@)).0, vm_stat_scan(lines(stdout@)).1),
{
    let v = chars_of(stdout);
    let ls = lines_of(v.as_slice());
    let ghost lv = ls@.map_values(|q: Vec<char>| q@);
    let free_key = chars_of("Pages free:");
    let inactive_key = chars_of("Pages inactive:");
    let mut free: u64 = 0;
    let mut inactive: u64 = 0;
    let mut i: usize = 0;
    while i < ls.len()
        invariant
            i <= ls@.len(),
            lv == ls@.map_values(|q: Vec<char>| q@),
            lv == lines(stdout@),
            free_key@ == "Pages free:"@,
            inactive_key@ == "Pages inactive:"@,
            free == vm_stat_scan(lv.take(i as int)).0,
            inactive == vm_stat_scan(lv.take(i as int)).1,
        decreases ls@.len() - i,
    {
        assert(lv.take(i + 1).drop_last() =~= lv.take(i as int));
        let l = &ls[i];
        assert(l@ == lv[i as int]);
        if starts_with(l.as_slice(), free_key.as_slice()) {
            let s = string_from_chars(l.as_slice());
            free = parse_vm_stat_value(s.as_str());
        } else if starts_with(l.as_slice(), inactive_key.as_slice()) {
            let s = string_from_chars(l.as_slice());
            inactive = parse_vm_stat_value(s.as_str());
        }
        i = i + 1;
    }
    assert(lv.take(ls@.len() as int) =~= lv);
    let sum: u128 = free as u128 + inactive as u128;
    ((sum % 0x4_0000_0000_0000) as u64) * MACOS_PAGE_SIZE
}

/// The total memory `sysctl -n hw.memsize` prints, or 0.
pub fn macos_total_memory(stdout: &str) -> (r: u64)
    ensures
        r == number_or_zero(trim(stdout@)),
{
    let v = chars_of(stdout);
    let t = trim_chars(v.as_slice());
    match parse_u64(t.as_slice()) {
        Some(n) => n,
        None => 0,
    }
}

/// Memory assumed when no reading is available: 8 GiB.
pub const FALLBACK_MEMORY_TOTAL: u64 = 8_589_934_592;

/// Memory assumed available when no reading is available: 4 GiB.
pub const FALLBACK_MEMORY_AVAILABLE: u64 = 4_294_967_296;

/// Disk size assumed when a path cannot be read: 100 GiB.
pub const FALLBACK_DISK_TOTAL: u64 = 107_374_182_400;

/// Disk space assumed available when a path cannot be read: 50 GiB.
pub const FALLBACK_DISK_AVAILABLE: u64 = 53_687_091_200;

/// The memory figures assumed when no platform reading is available:
/// 8 GiB total, half of it available.
pub fn estimate_memory_fallback() -> (r: (u64, u64))
    ensures
        r == (FALLBACK_MEMORY_TOTAL, FALLBACK_MEMORY_AVAILABLE),
{
    (FALLBACK_MEMORY_TOTAL, FALLBACK_MEMORY_AVAILABLE)
}

/// The system memory (total, available): the first platform reading with a
/// positive total, else the fallback estimate.
pub fn system_memory(readings: &Vec<(u64, u64)>) -> (r: (u64, u64))
    ensures
        (exists|i: int|
            0 <= i < readings@.len() && readings@[i].0 > 0 && r == readings@[i] && forall|j: int|
                0 <= j < i ==> (#[trigger] readings@[j]).0 == 0) || (r == (FALLBACK_MEMORY_TOTAL, FALLBACK_MEMORY_AVAILABLE) && forall|j: int| 0 <= j < readings@.len() ==> (#[trigger] readings@[j]).0 == 0),
{
    let mut i: usize = 0;
    while i < readings.len()
        invariant
            i <= readings@.len(),
            forall|j: int| 0 <= j < i ==> (#[trigger] readings@[j]).0 == 0,
        decreases readings@.len() - i,
    {
        if readings[i].0 > 0 {
            return readings[i];
        }
        i = i + 1;
    }
    estimate_memory_fallback()
}

/// The disk space (total, available) for a path: the reading if there is
/// one, else 100 GiB total with 50 GiB available.
pub fn disk_space_or_default(reading: Option<(u64, u64)>) -> (r: (u64, u64))
    ensures
        r == match reading {
            Some(x) => x,
            None => (FALLBACK_DISK_TOTAL, FALLBACK_DISK_AVAILABLE),
        },
{
    match reading {
        Some(x) => x,
        None => (FALLBACK_DISK_TOTAL, FALLBACK_DISK_AVAILABLE),
    }
}


// ---------------------------------------------------------------------------
// Health status, configuration and results
// ---------------------------------------------------------------------------

/// Overall health status of the system.
#[derive(Debug, Clone, Copy, PartialEq, Eq, Structural)]
pub enum HealthStatus {
    /// All checks passed.
    Healthy,
    /// Some checks are in a warning state.
    Degraded,
    /// Critical thresholds breached.
    Critical,
}

/// How a health status is displayed.
pub open spec fn status_text(s: HealthStatus) -> Seq<char> {
    match s {
        HealthStatus::Healthy => "Healthy"@,
        HealthStatus::Degraded => "Degraded"@,
        HealthStatus::Critical => "Critical"@,
    }
}

impl HealthStatus {
    /// The displayed form of this status.
    pub fn as_text(&self) -> (s: &'static str)
        ensures
            s@ == status_text(*self),
    {
        match self {
            HealthStatus::Healthy => "Healthy",
            HealthStatus::Degraded => "Degraded",
            HealthStatus::Critical => "Critical",
        }
    }

    /// The displayed form of this status, owned.
    pub fn to_string(&self) -> (s: String)
        ensures
            s@ == status_text(*self),
    {
        to_owned_string(self.as_text())
    }
}

/// Thresholds and settings of the health checks.
#[derive(Debug, Clone)]
pub struct HealthConfig {
    /// Memory usage warning threshold, in thousandths of a percent.
    pub memory_warning_millipercent: u64,
    /// Memory usage critical threshold, in thousandths of a percent.
    pub memory_critical_millipercent: u64,
    /// Disk usage warning threshold, in thousandths of a percent.
    pub disk_warning_millipercent: u64,
    /// HTTP endpoint timeout in milliseconds.
    pub endpoint_timeout_ms: u64,
    /// Maximum number of reports kept in the history.
    pub max_history: usize,
    /// Disk paths to check.
    pub disk_paths: Vec<String>,
}

impl Default for HealthConfig {
    /// Warnings at 80% memory and 85% disk, critical at 95% memory, a 5 s
    /// endpoint timeout, 100 reports of history, and the root disk.
    fn default() -> (c: HealthConfig)
        ensures
            c.memory_warning_millipercent == 80_000,
            c.memory_critical_millipercent == 95_000,
            c.disk_warning_millipercent == 85_000,
            c.endpoint_timeout_ms == 5000,
            c.max_history == 100,
            c.disk_paths@.len() == 1 && c.disk_paths@[0]@ == "/"@,
    {
        let mut paths: Vec<String> = Vec::new();
        paths.push(to_owned_string("/"));
        HealthConfig {
            memory_warning_millipercent: 80_000,
            memory_critical_millipercent: 95_000,
            disk_warning_millipercent: 85_000,
            endpoint_timeout_ms: 5000,
            max_history: 100,
            disk_paths: paths,
        }
    }
}

/// Result of an individual health check.
#[derive(Debug, Clone)]
pub struct CheckResult {
    /// Name of the check.
    pub name: String,
    /// Whether the check passed.
    pub passed: bool,
    /// Human-readable message.
    pub message: String,
    /// When the check ran (milliseconds since the Unix epoch).
    pub timestamp: i64,
}

/// Result of an HTTP endpoint check.
#[derive(Debug, Clone)]
pub struct EndpointResult {
    /// Name of the endpoint.
    pub name: String,
    /// URL checked.
    pub url: String,
    /// Whether the endpoint is healthy.
    pub healthy: bool,
    /// HTTP status code, if one was received.
    pub status_code: Option<u16>,
    /// Response time in milliseconds.
    pub response_time_ms: Option<u64>,
    /// Error message, if any.
    pub error: Option<String>,
}

/// A health check endpoint.
#[derive(Debug, Clone)]
pub struct HealthEndpoint {
    /// Human-readable name.
    pub name: String,
    /// URL to check.
    pub url: String,
    /// Text the response body must contain, if any.
    pub expected: Option<String>,
}

/// The report of one monitoring run.
#[derive(Debug, Clone)]
pub struct HealthReport {
    /// Overall status.
    pub status: HealthStatus,
    /// When the report was made (milliseconds since the Unix epoch).
    pub timestamp: i64,
    /// Memory usage in tenths of a percent.
    pub memory_usage_tenths: u64,
    /// Total system memory in bytes.
    pub memory_total_bytes: u64,
    /// Available system memory in bytes.
    pub memory_available_bytes: u64,
    /// Disk check results.
    pub disk_checks: Vec<CheckResult>,
    /// Endpoint check results.
    pub endpoint_results: Vec<EndpointResult>,
    /// All individual check results.
    pub all_checks: Vec<CheckResult>,
    /// Number of checks that passed.
    pub checks_passed: usize,
    /// Number of checks that failed.
    pub checks_failed: usize,
    /// Alerts raised.
    pub alerts: Vec<String>,
}

// ---------------------------------------------------------------------------
// The checks, as values
// ---------------------------------------------------------------------------

/// A reading of (total, available) bytes that makes sense: available is at
/// most total whenever there is a total.
pub open spec fn reading_ok(r: (u64, u64)) -> bool {
    r.0 == 0 || r.1 <= r.0
}

/// A reading made usable: one whose available part exceeds its (non-zero)
/// total is read as fully available; any other is kept as it is.
pub fn sane_reading(r: (u64, u64)) -> (c: (u64, u64))
    ensures
        reading_ok(c),
        c == (if r.0 != 0 && r.1 > r.0 {
            (r.0, r.0)
        } else {
            r
        }),
{
    if r.0 != 0 && r.1 > r.0 {
        (r.0, r.0)
    } else {
        r
    }
}

/// Bytes in use.
pub open spec fn used_bytes(r: (u64, u64)) -> nat {
    if r.0 == 0 {
        0
    } else {
        (r.0 - r.1) as nat
    }
}

/// Usage in tenths of a percent, rounded half up.
pub open spec fn usage_tenths(r: (u64, u64)) -> nat {
    if r.0 == 0 {
        0
    } else {
        rounded_tenths(used_bytes(r) * 100, r.0 as nat)
    }
}

/// Usage is below a threshold given in thousandths of a percent.
pub open spec fn below_threshold(r: (u64, u64), millipercent: u64) -> bool {
    if r.0 == 0 {
        0 < millipercent
    } else {
        used_bytes(r) * 100_000 < millipercent * r.0
    }
}

/// A threshold in thousandths of a percent, in tenths of a percent.
pub open spec fn threshold_tenths(millipercent: u64) -> nat {
    rounded_tenths(millipercent as nat, 1000)
}

/// A check as (name, passed, message).
pub open spec fn check_view(c: CheckResult) -> (Seq<char>, bool, Seq<char>) {
    (c.name@, c.passed, c.message@)
}

/// The views of checks.
pub open spec fn check_views(s: Seq<CheckResult>) -> Seq<(Seq<char>, bool, Seq<char>)> {
    s.map_values(|c: CheckResult| check_view(c))
}

/// The memory check.
pub open spec fn memory_check(c: HealthConfig, m: (u64, u64)) -> (Seq<char>, bool, Seq<char>) {
    ("memory"@, below_threshold(m, c.memory_warning_millipercent), "Memory usage: "@ + tenths_text(usage_tenths(m))
        + "%"@)
}

/// The alert raised when memory is over its warning threshold.
pub open spec fn memory_alert(c: HealthConfig, m: (u64, u64)) -> Seq<char> {
    "ALERT: Memory usage at "@ + tenths_text(usage_tenths(m)) + "% exceeds warning threshold of "@ + tenths_text(
        threshold_tenths(c.memory_warning_millipercent),
    ) + "%"@
}

/// The check of the disk at `path`.
pub open spec fn disk_check(c: HealthConfig, path: Seq<char>, d: (u64, u64)) -> (Seq<char>, bool, Seq<char>) {
    ("disk:"@ + path, below_threshold(d, c.disk_warning_millipercent), "Disk '"@ + path + "': "@ + tenths_text(
        usage_tenths(d),
    ) + "% used"@)
}

/// The alert raised when the disk at `path` is over its warning threshold.
pub open spec fn disk_alert(c: HealthConfig, path: Seq<char>, d: (u64, u64)) -> Seq<char> {
    "ALERT: Disk '"@ + path + "' at "@ + tenths_text(usage_tenths(d)) + "% exceeds warning threshold of "@
        + tenths_text(threshold_tenths(c.disk_warning_millipercent)) + "%"@
}

/// The disk paths of a configuration.
pub open spec fn path_views(c: HealthConfig) -> Seq<Seq<char>> {
    c.disk_paths@.map_values(|p: String| p@)
}

/// The checks of the first `n` disks.
pub open spec fn disk_checks(c: HealthConfig, ds: Seq<(u64, u64)>, n: nat) -> Seq<(Seq<char>, bool, Seq<char>)>
    decreases n,
{
    if n == 0 {
        Seq::empty()
    } else {
        disk_checks(c, ds, (n - 1) as nat).push(disk_check(c, path_views(c)[n - 1], ds[n - 1]))
    }
}

/// The alerts of the first `n` disks.
pub open spec fn disk_alerts(c: HealthConfig, ds: Seq<(u64, u64)>, n: nat) -> Seq<Seq<char>>
    decreases n,
{
    if n == 0 {
        Seq::empty()
    } else if below_threshold(ds[n - 1], c.disk_warning_millipercent) {
        disk_alerts(c, ds, (n - 1) as nat)
    } else {
        disk_alerts(c, ds, (n - 1) as nat).push(disk_alert(c, path_views(c)[n - 1], ds[n - 1]))
    }
}

/// The number of passed checks.
pub open spec fn count_passed(s: Seq<(Seq<char>, bool, Seq<char>)>) -> nat
    decreases s.len(),
{
    if s.len() == 0 {
        0
    } else {
        count_passed(s.drop_last()) + if s.last().1 {
            1nat
        } else {
            0nat
        }
    }
}

/// The number of failed checks.
pub open spec fn count_failed(s: Seq<(Seq<char>, bool, Seq<char>)>) -> nat
    decreases s.len(),
{
    if s.len() == 0 {
        0
    } else {
        count_failed(s.drop_last()) + if s.last().1 {
            0nat
        } else {
            1nat
        }
    }
}

/// Passed and failed checks add up to all checks.
pub proof fn lemma_counts_add_up(s: Seq<(Seq<char>, bool, Seq<char>)>)
    ensures
        count_passed(s) + count_failed(s) == s.len(),
    decreases s.len(),
{
    if s.len() > 0 {
        lemma_counts_add_up(s.drop_last());
    }
}

/// The status of a report: critical when memory is at its critical
/// threshold, else degraded when a check failed, else healthy.
pub open spec fn overall_status(c: HealthConfig, m: (u64, u64), failed: nat) -> HealthStatus {
    if !below_threshold(m, c.memory_critical_millipercent) {
        HealthStatus::Critical
    } else if failed > 0 {
        HealthStatus::Degraded
    } else {
        HealthStatus::Healthy
    }
}

/// Count the passed and failed checks.
fn count_checks(checks: &Vec<CheckResult>) -> (r: (usize, usize))
    ensures
        r.0 == count_passed(check_views(checks@)),
        r.1 == count_failed(check_views(checks@)),
{
    let ghost v = check_views(checks@);
    let mut p: usize = 0;
    let mut f: usize = 0;
    let mut i: usize = 0;
    while i < checks.len()
        invariant
            i <= checks@.len(),
            v == check_views(checks@),
            p == count_passed(v.take(i as int)),
            f == count_failed(v.take(i as int)),
            p + f == i,
        decreases checks@.len() - i,
    {
        assert(v.take(i + 1).drop_last() =~= v.take(i as int));
        if checks[i].passed {
            p = p + 1;
        } else {
            f = f + 1;
        }
        i = i + 1;
    }
    assert(v.take(checks@.len() as int) =~= v);
    (p, f)
}

/// Usage in tenths of a percent.
fn usage_tenths_of(r: (u64, u64)) -> (t: u64)
    requires
        reading_ok(r),
    ensures
        t == usage_tenths(r),
        t <= 1000,
{
    if r.0 == 0 {
        0
    } else {
        let used: u128 = (r.0 - r.1) as u128;
        let total: u128 = r.0 as u128;
        assert((20 * (used * 100) + total) / (2 * total) <= 1000) by (nonlinear_arith)
            requires
                used <= total,
                total > 0,
        {
            assert(20 * (used * 100) + total <= 2001 * total);
            assert(2001 * total < 1001 * (2 * total));
        }
        ((20 * (used * 100) + total) / (2 * total)) as u64
    }
}

/// Whether usage is below a threshold in thousandths of a percent.
fn is_below(r: (u64, u64), millipercent: u64) -> (b: bool)
    requires
        reading_ok(r),
    ensures
        b == below_threshold(r, millipercent),
{
    if r.0 == 0 {
        0 < millipercent
    } else {
        let used: u128 = (r.0 - r.1) as u128;
        assert(used * 100_000 <= 0xffff_ffff_ffff_ffffu128 * 100_000) by (nonlinear_arith)
            requires
                used <= 0xffff_ffff_ffff_ffffu128,
        ;
        assert(millipercent as u128 * r.0 as u128 <= 0xffff_ffff_ffff_ffffu128 * 0xffff_ffff_ffff_ffffu128)
            by (nonlinear_arith);
        used * 100_000 < millipercent as u128 * r.0 as u128
    }
}

/// A threshold in tenths of a percent.
fn threshold_tenths_of(millipercent: u64) -> (t: u128)
    ensures
        t == threshold_tenths(millipercent),
{
    let m: u128 = millipercent as u128;
    (20 * m + 1000) / 2000
}

/// A `String` of the characters `v`.
fn owned(v: &Vec<char>) -> (s: String)
    ensures
        s@ == v@,
{
    string_from_chars(v.as_slice())
}

// ---------------------------------------------------------------------------
// The monitor
// ---------------------------------------------------------------------------

/// The last `max` items of `s` (all of them if there are fewer).
pub open spec fn keep_last<A>(s: Seq<A>, max: nat) -> Seq<A> {
    if s.len() > max {
        s.subrange(s.len() - max, s.len() as int)
    } else {
        s
    }
}

/// `e` as text, or `default` when there is none.
pub open spec fn text_or(e: Option<String>, default: Seq<char>) -> Seq<char> {
    match e {
        Some(t) => t@,
        None => default,
    }
}

/// The check recorded for an endpoint result.
pub open spec fn endpoint_check(e: EndpointResult) -> (Seq<char>, bool, Seq<char>) {
    (
        "endpoint:"@ + e.name@,
        e.healthy,
        if e.healthy {
            "Endpoint '"@ + e.name@ + "' healthy ("@ + decimal(
                match e.response_time_ms {
                    Some(t) => t as nat,
                    None => 0,
                },
            ) + "ms)"@
        } else {
            "Endpoint '"@ + e.name@ + "' unhealthy: "@ + text_or(e.error, "unknown"@)
        },
    )
}

/// The alert raised for an unhealthy endpoint.
pub open spec fn endpoint_alert(e: EndpointResult) -> Seq<char> {
    "ALERT: Endpoint '"@ + e.name@ + "' ("@ + e.url@ + ") is unhealthy: "@ + text_or(e.error, "unexpected response"@)
}

/// The checks of the first `n` endpoint results.
pub open spec fn endpoint_checks(rs: Seq<EndpointResult>, n: nat) -> Seq<(Seq<char>, bool, Seq<char>)>
    decreases n,
{
    if n == 0 {
        Seq::empty()
    } else {
        endpoint_checks(rs, (n - 1) as nat).push(endpoint_check(rs[n - 1]))
    }
}

/// The alerts of the first `n` endpoint results.
pub open spec fn endpoint_alerts(rs: Seq<EndpointResult>, n: nat) -> Seq<Seq<char>>
    decreases n,
{
    if n == 0 {
        Seq::empty()
    } else if rs[n - 1].healthy {
        endpoint_alerts(rs, (n - 1) as nat)
    } else {
        endpoint_alerts(rs, (n - 1) as nat).push(endpoint_alert(rs[n - 1]))
    }
}

/// The number of healthy results among the first `n`.
pub open spec fn healthy_count(rs: Seq<EndpointResult>, n: nat) -> nat
    decreases n,
{
    if n == 0 {
        0
    } else {
        healthy_count(rs, (n - 1) as nat) + if rs[n - 1].healthy {
            1nat
        } else {
            0nat
        }
    }
}

/// The views of strings.
pub open spec fn text_views(s: Seq<String>) -> Seq<Seq<char>> {
    s.map_values(|t: String| t@)
}

/// What an endpoint check came to, as the HTTP client reported it.
pub enum EndpointOutcome {
    /// The client could not be built.
    ClientError(String),
    /// A response arrived, with the body text when it was read.
    Response { status: u16, elapsed_ms: u64, body: Option<String> },
    /// The request failed.
    Failed { elapsed_ms: u64, timed_out: bool, error: String },
}

/// The endpoint is healthy given a response with `status` and `body`: the
/// body holds the expected text, or with none expected, the status is in
/// 200..400.
pub open spec fn response_healthy(ep: HealthEndpoint, status: u16, body: Option<String>) -> bool {
    match ep.expected {
        Some(x) => body matches Some(b) && contains_seq(b@, x@),
        None => 200 <= status < 400,
    }
}

/// The manifest of the health monitor.
pub open spec fn health_manifest(m: GorillaManifest) -> bool {
    &&& m.name@ == "Health Monitor"@
    &&& m.description@ == "Monitors system health, checks endpoints, and alerts on threshold violations."@
    &&& m.schedule@ == "every 5m"@
    &&& m.moves_required@.len() == 1 && m.moves_required@[0]@ == "web_fetch"@
    &&& m.settings_schema.is_none()
    &&& m.dashboard_metrics@.len() == 4
    &&& m.dashboard_metrics@[0]@ == "endpoints_checked"@
    &&& m.dashboard_metrics@[1]@ == "endpoints_healthy"@
    &&& m.dashboard_metrics@[2]@ == "alerts_raised"@
    &&& m.dashboard_metrics@[3]@ == "memory_usage_pct"@
    &&& m.system_prompt matches Some(sp) && sp@
        == "You are the Health Monitor gorilla. Check system health, report issues, and provide actionable recommendations for any problems found."@
    &&& m.model.is_none()
    &&& m.capabilities@.len() == 0
    &&& m.weight_class.is_none()
}

/// Health monitor gorilla.
pub struct HealthMonitor {
    /// Its manifest.
    pub manifest: GorillaManifest,
    /// Thresholds and settings.
    pub config: HealthConfig,
    /// Endpoints to check.
    pub endpoints: Vec<HealthEndpoint>,
    /// Past reports, most recent last.
    pub history: Vec<HealthReport>,
}

/// The summary line of a run.
pub open spec fn health_summary(r: HealthReport, healthy: u32, checked: u32) -> Seq<char> {
    "Health check completed at "@ + utc_text(r.timestamp, "%Y-%m-%d %H:%M:%S UTC"@) + ". Status: "@ + status_text(
        r.status,
    ) + ". Memory: "@ + tenths_text(r.memory_usage_tenths as nat) + "%. Endpoints: "@ + decimal(healthy as nat)
        + "/"@ + decimal(checked as nat) + " healthy. Checks: "@ + decimal(r.checks_passed as nat) + "/"@
        + decimal((r.checks_passed + r.checks_failed) as nat) + " passed. Alerts: "@ + decimal(
        r.alerts@.len(),
    ) + "."@
}

/// The artifacts of a run.
pub open spec fn health_artifacts(r: HealthReport, key: Seq<char>) -> Seq<Seq<char>> {
    seq!["memory:"@ + key] + (if r.alerts@.len() > 0 {
        seq!["alerts:"@ + joined(text_views(r.alerts@), "; "@)]
    } else {
        Seq::empty()
    }) + seq![
        "status:"@ + status_text(r.status),
        "memory_pct:"@ + tenths_text(r.memory_usage_tenths as nat),
        "checks_passed:"@ + decimal(r.checks_passed as nat),
        "checks_failed:"@ + decimal(r.checks_failed as nat),
    ]
}

impl HealthMonitor {
    /// The reports kept, most recent last.
    pub open spec fn history_seq(&self) -> Seq<HealthReport> {
        self.history@
    }

    fn default_manifest() -> (m: GorillaManifest)
        ensures
            health_manifest(m),
    {
        let mut moves: Vec<String> = Vec::new();
        moves.push(to_owned_string("web_fetch"));
        let mut metrics: Vec<String> = Vec::new();
        metrics.push(to_owned_string("endpoints_checked"));
        metrics.push(to_owned_string("endpoints_healthy"));
        metrics.push(to_owned_string("alerts_raised"));
        metrics.push(to_owned_string("memory_usage_pct"));
        GorillaManifest {
            name: to_owned_string("Health Monitor"),
            description: to_owned_string(
                "Monitors system health, checks endpoints, and alerts on threshold violations.",
            ),
            schedule: to_owned_string("every 5m"),
            moves_required: moves,
            settings_schema: None,
            dashboard_metrics: metrics,
            system_prompt: Some(
                to_owned_string(
                    "You are the Health Monitor gorilla. Check system health, report issues, and provide actionable recommendations for any problems found.",
                ),
            ),
            model: None,
            capabilities: Vec::new(),
            weight_class: None,
        }
    }

    /// A health monitor with the default thresholds and no endpoints.
    pub fn new() -> (m: HealthMonitor)
        ensures
            health_manifest(m.manifest),
            m.config.memory_warning_millipercent == 80_000,
            m.config.memory_critical_millipercent == 95_000,
            m.config.disk_warning_millipercent == 85_000,
            m.config.endpoint_timeout_ms == 5000,
            m.config.max_history == 100,
            m.config.disk_paths@.len() == 1 && m.config.disk_paths@[0]@ == "/"@,
            m.endpoints@.len() == 0,
            m.history_seq().len() == 0,
    {
        HealthMonitor {
            manifest: Self::default_manifest(),
            config: HealthConfig::default(),
            endpoints: Vec::new(),
            history: Vec::new(),
        }
    }

    /// A health monitor with custom endpoints and warning thresholds (in
    /// thousandths of a percent); the other settings are the defaults.
    pub fn with_config(
        endpoints: Vec<HealthEndpoint>,
        memory_warning_millipercent: u64,
        disk_warning_millipercent: u64,
    ) -> (m: HealthMonitor)
        ensures
            health_manifest(m.manifest),
            m.config.memory_warning_millipercent == memory_warning_millipercent,
            m.config.memory_critical_millipercent == 95_000,
            m.config.disk_warning_millipercent == disk_warning_millipercent,
            m.config.endpoint_timeout_ms == 5000,
            m.config.max_history == 100,
            m.config.disk_paths@.len() == 1 && m.config.disk_paths@[0]@ == "/"@,
            m.endpoints == endpoints,
            m.history_seq().len() == 0,
    {
        let d = HealthConfig::default();
        let config = HealthConfig { memory_warning_millipercent, disk_warning_millipercent, ..d };
        HealthMonitor { manifest: Self::default_manifest(), config, endpoints, history: Vec::new() }
    }

    /// A health monitor with custom endpoints and configuration.
    pub fn with_full_config(endpoints: Vec<HealthEndpoint>, config: HealthConfig) -> (m: HealthMonitor)
        ensures
            health_manifest(m.manifest),
            m.config == config,
            m.endpoints == endpoints,
            m.history_seq().len() == 0,
    {
        HealthMonitor { manifest: Self::default_manifest(), config, endpoints, history: Vec::new() }
    }

    /// The configuration.
    pub fn config(&self) -> (c: &HealthConfig)
        ensures
            *c == self.config,
    {
        &self.config
    }

    /// The manifest.
    pub fn manifest(&self) -> (m: &GorillaManifest)
        ensures
            *m == self.manifest,
    {
        &self.manifest
    }

    /// The reports kept, most recent last.
    pub fn history(&self) -> (h: &Vec<HealthReport>)
        ensures
            h@ == self.history_seq(),
    {
        &self.history
    }

    /// The requirements this gorilla checks: access to system metrics, always met.
    pub fn check_requirements(&self) -> (r: Vec<RequirementStatus>)
        ensures
            r@.len() == 1,
            r@[0].name@ == "system_access"@,
            r@[0].met,
            r@[0].message@ == "System metrics accessible"@,
    {
        let mut r: Vec<RequirementStatus> = Vec::new();
        r.push(
            RequirementStatus {
                name: to_owned_string("system_access"),
                met: true,
                message: to_owned_string("System metrics accessible"),
            },
        );
        r
    }

    /// Keep `report` in the history, dropping the oldest reports beyond
    /// the configured maximum.
    pub fn record_history(&mut self, report: HealthReport)
        ensures
            final(self).history_seq() == keep_last(
                old(self).history_seq().push(report),
                old(self).config.max_history as nat,
            ),
            final(self).config == old(self).config,
            final(self).endpoints == old(self).endpoints,
            final(self).manifest == old(self).manifest,
    {
        let ghost s = self.history@.push(report);
        self.history.push(report);
        assert(self.history@ =~= s.subrange(0, s.len() as int));
        let max = self.config.max_history;
        while self.history.len() > max
            invariant
                max == self.config.max_history,
                self.config == old(self).config,
                self.endpoints == old(self).endpoints,
                self.manifest == old(self).manifest,
                s.len() >= self.history@.len(),
                self.history@ == s.subrange(s.len() - self.history@.len(), s.len() as int),
                self.history@.len() >= max || self.history@.len() == s.len(),
            decreases self.history@.len(),
        {
            self.history.remove(0);
        }
        proof {
            if s.len() <= max {
                assert(self.history@ =~= s);
            }
        }
    }

    /// The system checks of one run at `now`, from a memory reading and one
    /// disk reading per configured path, each (total, available) bytes: the
    /// memory check and the disk checks, the alerts of those over their
    /// warning thresholds, and the overall status. Endpoint results are
    /// added later.
    pub fn perform_health_check(&self, now: i64, memory: (u64, u64), disks: &Vec<(u64, u64)>) -> (r: HealthReport)
        requires
            reading_ok(memory),
            disks@.len() == self.config.disk_paths@.len(),
            forall|i: int| 0 <= i < disks@.len() ==> reading_ok(#[trigger] disks@[i]),
        ensures
            r.timestamp == now,
            r.memory_usage_tenths == usage_tenths(memory),
            r.memory_total_bytes == memory.0,
            r.memory_available_bytes == memory.1,
            check_views(r.disk_checks@) == disk_checks(self.config, disks@, disks@.len()),
            check_views(r.all_checks@) == seq![memory_check(self.config, memory)] + disk_checks(
                self.config,
                disks@,
                disks@.len(),
            ),
            forall|i: int| 0 <= i < r.all_checks@.len() ==> (#[trigger] r.all_checks@[i]).timestamp == now,
            forall|i: int| 0 <= i < r.disk_checks@.len() ==> (#[trigger] r.disk_checks@[i]).timestamp == now,
            r.endpoint_results@.len() == 0,
            r.checks_passed == count_passed(check_views(r.all_checks@)),
            r.checks_failed == count_failed(check_views(r.all_checks@)),
            text_views(r.alerts@) == (if below_threshold(memory, self.config.memory_warning_millipercent) {
                Seq::<Seq<char>>::empty()
            } else {
                seq![memory_alert(self.config, memory)]
            }) + disk_alerts(self.config, disks@, disks@.len()),
            r.status == overall_status(self.config, memory, r.checks_failed as nat),
    {
        let mut all_checks: Vec<CheckResult> = Vec::new();
        let mut alerts: Vec<String> = Vec::new();
        let mem_pct = usage_tenths_of(memory);
        let mem_passed = is_below(memory, self.config.memory_warning_millipercent);
        let mut msg: Vec<char> = Vec::new();
        put(&mut msg, "Memory usage: ");
        put_tenths(&mut msg, mem_pct as u128);
        put(&mut msg, "%");
        if !mem_passed {
            let mut a: Vec<char> = Vec::new();
            put(&mut a, "ALERT: Memory usage at ");
            put_tenths(&mut a, mem_pct as u128);
            put(&mut a, "% exceeds warning threshold of ");
            put_tenths(&mut a, threshold_tenths_of(self.config.memory_warning_millipercent));
            put(&mut a, "%");
            alerts.push(owned(&a));
        }
        all_checks.push(
            CheckResult { name: to_owned_string("memory"), passed: mem_passed, message: owned(&msg), timestamp: now },
        );
        let ghost mem_alerts = text_views(alerts@);
        assert(check_views(all_checks@) =~= seq![memory_check(self.config, memory)]);
        let mut disk_results: Vec<CheckResult> = Vec::new();
        let mut i: usize = 0;
        while i < disks.len()
            invariant
                i <= disks@.len(),
                disks@.len() == self.config.disk_paths@.len(),
                forall|j: int| 0 <= j < disks@.len() ==> reading_ok(#[trigger] disks@[j]),
                check_views(disk_results@) == disk_checks(self.config, disks@, i as nat),
                check_views(all_checks@) == seq![memory_check(self.config, memory)] + disk_checks(
                    self.config,
                    disks@,
                    i as nat,
                ),
                forall|j: int| 0 <= j < all_checks@.len() ==> (#[trigger] all_checks@[j]).timestamp == now,
                forall|j: int| 0 <= j < disk_results@.len() ==> (#[trigger] disk_results@[j]).timestamp == now,
                text_views(alerts@) == mem_alerts + disk_alerts(self.config, disks@, i as nat),
            decreases disks@.len() - i,
        {
            let path = &self.config.disk_paths[i];
            assert(path@ == path_views(self.config)[i as int]);
            let d = disks[i];
            let pct = usage_tenths_of(d);
            let passed = is_below(d, self.config.disk_warning_millipercent);
            let mut name: Vec<char> = Vec::new();
            put(&mut name, "disk:");
            put(&mut name, path.as_str());
            let mut m: Vec<char> = Vec::new();
            put(&mut m, "Disk '");
            put(&mut m, path.as_str());
            put(&mut m, "': ");
            put_tenths(&mut m, pct as u128);
            put(&mut m, "% used");
            let ghost a0 = alerts@;
            if !passed {
                let mut a: Vec<char> = Vec::new();
                put(&mut a, "ALERT: Disk '");
                put(&mut a, path.as_str());
                put(&mut a, "' at ");
                put_tenths(&mut a, pct as u128);
                put(&mut a, "% exceeds warning threshold of ");
                put_tenths(&mut a, threshold_tenths_of(self.config.disk_warning_millipercent));
                put(&mut a, "%");
                alerts.push(owned(&a));
                assert(text_views(alerts@) =~= text_views(a0).push(a@));
            }
            let ghost ac0 = all_checks@;
            disk_results.push(CheckResult { name: owned(&name), passed, message: owned(&m), timestamp: now });
            all_checks.push(CheckResult { name: owned(&name), passed, message: owned(&m), timestamp: now });
            assert(check_views(all_checks@) =~= check_views(ac0).push(check_view(all_checks@.last())));
            assert(check_view(all_checks@.last()) == disk_check(self.config, path_views(self.config)[i as int], d));
            i = i + 1;
            assert(check_views(disk_results@) =~= disk_checks(self.config, disks@, i as nat));
            assert(check_views(all_checks@) =~= seq![memory_check(self.config, memory)] + disk_checks(
                self.config,
                disks@,
                i as nat,
            ));
        }
        let (passed, failed) = count_checks(&all_checks);
        let critical = !is_below(memory, self.config.memory_critical_millipercent);
        let status = if critical {
            HealthStatus::Critical
        } else if failed > 0 {
            HealthStatus::Degraded
        } else {
            HealthStatus::Healthy
        };
        proof {
            if below_threshold(memory, self.config.memory_warning_millipercent) {
                assert(mem_alerts =~= Seq::<Seq<char>>::empty());
            }
        }
        HealthReport {
            status,
            timestamp: now,
            memory_usage_tenths: mem_pct,
            memory_total_bytes: memory.0,
            memory_available_bytes: memory.1,
            disk_checks: disk_results,
            endpoint_results: Vec::new(),
            all_checks,
            checks_passed: passed,
            checks_failed: failed,
            alerts,
        }
    }
}

impl Default for HealthMonitor {
    /// A health monitor with the default thresholds.
    fn default() -> (m: HealthMonitor)
        ensures
            health_manifest(m.manifest),
            m.config.memory_warning_millipercent == 80_000,
            m.endpoints@.len() == 0,
            m.history_seq().len() == 0,
    {
        HealthMonitor::new()
    }
}

/// The result of checking `ep` with a timeout of `timeout_ms`, from what the
/// HTTP client reported.
pub fn endpoint_result(ep: &HealthEndpoint, timeout_ms: u64, outcome: EndpointOutcome) -> (r: EndpointResult)
    ensures
        r.name@ == ep.name@,
        r.url@ == ep.url@,
        match outcome {
            EndpointOutcome::ClientError(e) => {
                &&& !r.healthy
                &&& r.status_code.is_none()
                &&& r.response_time_ms.is_none()
                &&& r.error matches Some(t) && t@ == "failed to build HTTP client: "@ + e@
            },
            EndpointOutcome::Response { status, elapsed_ms, body } => {
                &&& r.healthy == response_healthy(*ep, status, body)
                &&& r.status_code == Some(status)
                &&& r.response_time_ms == Some(elapsed_ms)
                &&& r.error.is_none()
            },
            EndpointOutcome::Failed { elapsed_ms, timed_out, error } => {
                &&& !r.healthy
                &&& r.status_code.is_none()
                &&& r.response_time_ms == Some(elapsed_ms)
                &&& r.error matches Some(t) && t@ == if timed_out {
                    "timeout after "@ + decimal(timeout_ms as nat) + "ms"@
                } else {
                    error@
                }
            },
        },
{
    let name = ep.name.clone();
    let url = ep.url.clone();
    match outcome {
        EndpointOutcome::ClientError(e) => {
            let mut t: Vec<char> = Vec::new();
            put(&mut t, "failed to build HTTP client: ");
            put(&mut t, e.as_str());
            EndpointResult {
                name,
                url,
                healthy: false,
                status_code: None,
                response_time_ms: None,
                error: Some(owned(&t)),
            }
        },
        EndpointOutcome::Response { status, elapsed_ms, body } => {
            let healthy = match &ep.expected {
                Some(x) => match &body {
                    Some(b) => {
                        let bv = chars_of(b.as_str());
                        let xv = chars_of(x.as_str());
                        contains_chars(bv.as_slice(), xv.as_slice())
                    },
                    None => false,
                },
                None => 200 <= status && status < 400,
            };
            EndpointResult {
                name,
                url,
                healthy,
                status_code: Some(status),
                response_time_ms: Some(elapsed_ms),
                error: None,
            }
        },
        EndpointOutcome::Failed { elapsed_ms, timed_out, error } => {
            let msg = if timed_out {
                let mut t: Vec<char> = Vec::new();
                put(&mut t, "timeout after ");
                put_u64(&mut t, timeout_ms);
                put(&mut t, "ms");
                owned(&t)
            } else {
                error
            };
            EndpointResult {
                name,
                url,
                healthy: false,
                status_code: None,
                response_time_ms: Some(elapsed_ms),
                error: Some(msg),
            }
        },
    }
}

/// Append `e` as text, or `default` when there is none.
fn put_text_or(out: &mut Vec<char>, e: &Option<String>, default: &str)
    ensures
        final(out)@ == old(out)@ + text_or(*e, default@),
{
    match e {
        Some(t) => put(out, t.as_str()),
        None => put(out, default),
    }
}

/// Add endpoint results, made at `now`, to a report: a check per result
/// and an alert per unhealthy one; then recount the checks, and degrade a
/// healthy status when a check failed. Returns how many endpoints were
/// healthy and how many were checked.
pub fn apply_endpoint_results(report: &mut HealthReport, results: Vec<EndpointResult>, now: i64) -> (r: (u32, u32))
    requires
        results@.len() <= u32::MAX,
    ensures
        check_views(final(report).all_checks@) == check_views(old(report).all_checks@) + endpoint_checks(
            results@,
            results@.len(),
        ),
        forall|i: int|
            old(report).all_checks@.len() <= i < final(report).all_checks@.len() ==> (
            #[trigger] final(report).all_checks@[i]).timestamp == now,
        text_views(final(report).alerts@) == text_views(old(report).alerts@) + endpoint_alerts(
            results@,
            results@.len(),
        ),
        final(report).endpoint_results@ == results@,
        final(report).checks_passed == count_passed(check_views(final(report).all_checks@)),
        final(report).checks_failed == count_failed(check_views(final(report).all_checks@)),
        final(report).status == if final(report).checks_failed > 0 && old(report).status == HealthStatus::Healthy {
            HealthStatus::Degraded
        } else {
            old(report).status
        },
        final(report).timestamp == old(report).timestamp,
        final(report).memory_usage_tenths == old(report).memory_usage_tenths,
        final(report).memory_total_bytes == old(report).memory_total_bytes,
        final(report).memory_available_bytes == old(report).memory_available_bytes,
        final(report).disk_checks@ == old(report).disk_checks@,
        r.0 == healthy_count(results@, results@.len()),
        r.1 == results@.len(),
{
    let ghost c0 = check_views(report.all_checks@);
    let ghost a0 = text_views(report.alerts@);
    let ghost n0 = report.all_checks@.len();
    let mut checked: u32 = 0;
    let mut healthy: u32 = 0;
    let mut i: usize = 0;
    while i < results.len()
        invariant
            i <= results@.len(),
            results@.len() <= u32::MAX,
            checked == i,
            healthy == healthy_count(results@, i as nat),
            healthy <= i,
            n0 <= report.all_checks@.len(),
            check_views(report.all_checks@) == c0 + endpoint_checks(results@, i as nat),
            text_views(report.alerts@) == a0 + endpoint_alerts(results@, i as nat),
            forall|j: int| n0 <= j < report.all_checks@.len() ==> (#[trigger] report.all_checks@[j]).timestamp == now,
            report.timestamp == old(report).timestamp,
            report.status == old(report).status,
            report.memory_usage_tenths == old(report).memory_usage_tenths,
            report.memory_total_bytes == old(report).memory_total_bytes,
            report.memory_available_bytes == old(report).memory_available_bytes,
            report.disk_checks@ == old(report).disk_checks@,
        decreases results@.len() - i,
    {
        let e = &results[i];
        checked = checked + 1;
        let ghost al0 = report.alerts@;
        if e.healthy {
            healthy = healthy + 1;
        } else {
            let mut a: Vec<char> = Vec::new();
            put(&mut a, "ALERT: Endpoint '");
            put(&mut a, e.name.as_str());
            put(&mut a, "' (");
            put(&mut a, e.url.as_str());
            put(&mut a, ") is unhealthy: ");
            put_text_or(&mut a, &e.error, "unexpected response");
            report.alerts.push(owned(&a));
            assert(text_views(report.alerts@) =~= text_views(al0).push(a@));
        }
        let mut name: Vec<char> = Vec::new();
        put(&mut name, "endpoint:");
        put(&mut name, e.name.as_str());
        let mut m: Vec<char> = Vec::new();
        if e.healthy {
            put(&mut m, "Endpoint '");
            put(&mut m, e.name.as_str());
            put(&mut m, "' healthy (");
            let ms = match e.response_time_ms {
                Some(t) => t,
                None => 0,
            };
            put_u64(&mut m, ms);
            put(&mut m, "ms)");
        } else {
            put(&mut m, "Endpoint '");
            put(&mut m, e.name.as_str());
            put(&mut m, "' unhealthy: ");
            put_text_or(&mut m, &e.error, "unknown");
        }
        let ghost ac0 = report.all_checks@;
        report.all_checks.push(CheckResult { name: owned(&name), passed: e.healthy, message: owned(&m), timestamp: now });
        assert(check_views(report.all_checks@) =~= check_views(ac0).push(check_view(report.all_checks@.last())));
        i = i + 1;
        assert(check_views(report.all_checks@) =~= c0 + endpoint_checks(results@, i as nat));
    }
    report.endpoint_results = results;
    let (p, f) = count_checks(&report.all_checks);
    report.checks_passed = p;
    report.checks_failed = f;
    if f > 0 && report.status == HealthStatus::Healthy {
        report.status = HealthStatus::Degraded;
    }
    (healthy, checked)
}

/// What one run hands back: the memory key its summary is stored under,
/// and the output with the summary and artifacts.
pub fn health_output(report: &HealthReport, healthy: u32, checked: u32, now: i64) -> (r: (String, GorillaOutput))
    requires
        in_range(report.timestamp as int),
        in_range(now as int),
    ensures
        r.0@ == "health_report_"@ + utc_text(now, "%Y%m%d_%H%M%S"@),
        r.1.summary@ == health_summary(*report, healthy, checked),
        text_views(r.1.artifacts@) == health_artifacts(*report, r.0@),
        r.1.next_run.is_none(),
{
    let mut sum: Vec<char> = Vec::new();
    put(&mut sum, "Health check completed at ");
    put_time(&mut sum, report.timestamp, "%Y-%m-%d %H:%M:%S UTC");
    put(&mut sum, ". Status: ");
    put(&mut sum, report.status.as_text());
    put(&mut sum, ". Memory: ");
    put_tenths(&mut sum, report.memory_usage_tenths as u128);
    put(&mut sum, "%. Endpoints: ");
    put_u64(&mut sum, healthy as u64);
    put(&mut sum, "/");
    put_u64(&mut sum, checked as u64);
    put(&mut sum, " healthy. Checks: ");
    let pw = wide_decimal_chars(report.checks_passed as u128);
    append_chars(&mut sum, pw.as_slice());
    put(&mut sum, "/");
    let tw = wide_decimal_chars(report.checks_passed as u128 + report.checks_failed as u128);
    append_chars(&mut sum, tw.as_slice());
    put(&mut sum, " passed. Alerts: ");
    let aw = wide_decimal_chars(report.alerts.len() as u128);
    append_chars(&mut sum, aw.as_slice());
    put(&mut sum, ".");
    let mut key: Vec<char> = Vec::new();
    put(&mut key, "health_report_");
    put_time(&mut key, now, "%Y%m%d_%H%M%S");
    let mut artifacts: Vec<String> = Vec::new();
    let mut a: Vec<char> = Vec::new();
    put(&mut a, "memory:");
    append_chars(&mut a, key.as_slice());
    artifacts.push(owned(&a));
    let ghost first = text_views(artifacts@);
    if report.alerts.len() > 0 {
        let mut parts: Vec<Vec<char>> = Vec::new();
        let mut i: usize = 0;
        while i < report.alerts.len()
            invariant
                i <= report.alerts@.len(),
                parts@.map_values(|q: Vec<char>| q@) == text_views(report.alerts@).take(i as int),
            decreases report.alerts@.len() - i,
        {
            let c = chars_of(report.alerts[i].as_str());
            assert(c@ == text_views(report.alerts@)[i as int]);
            let ghost p0 = parts@;
            parts.push(c);
            assert(parts@ == p0.push(c));
            assert(parts@.map_values(|q: Vec<char>| q@) =~= p0.map_values(|q: Vec<char>| q@).push(c@));
            i = i + 1;
            assert(parts@.map_values(|q: Vec<char>| q@) =~= text_views(report.alerts@).take(i as int));
        }
        assert(text_views(report.alerts@).take(report.alerts@.len() as int) =~= text_views(report.alerts@));
        let sep = chars_of("; ");
        let joined_alerts = join_chars(&parts, &sep);
        let mut t: Vec<char> = Vec::new();
        put(&mut t, "alerts:");
        append_chars(&mut t, joined_alerts.as_slice());
        artifacts.push(owned(&t));
    }
    let ghost second = text_views(artifacts@);
    let mut st: Vec<char> = Vec::new();
    put(&mut st, "status:");
    put(&mut st, report.status.as_text());
    artifacts.push(owned(&st));
    let mut mp: Vec<char> = Vec::new();
    put(&mut mp, "memory_pct:");
    put_tenths(&mut mp, report.memory_usage_tenths as u128);
    artifacts.push(owned(&mp));
    let mut cp: Vec<char> = Vec::new();
    put(&mut cp, "checks_passed:");
    let pw2 = wide_decimal_chars(report.checks_passed as u128);
    append_chars(&mut cp, pw2.as_slice());
    artifacts.push(owned(&cp));
    let mut cf: Vec<char> = Vec::new();
    put(&mut cf, "checks_failed:");
    let fw = wide_decimal_chars(report.checks_failed as u128);
    append_chars(&mut cf, fw.as_slice());
    artifacts.push(owned(&cf));
    assert(text_views(artifacts@) =~= health_artifacts(*report, key@));
    (owned(&key), GorillaOutput { summary: owned(&sum), artifacts, next_run: None })
}

} // verus!
