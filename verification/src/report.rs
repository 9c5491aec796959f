//! The report generator: periodic activity reports with trends against the
//! previous period, rendered as Markdown text.
//!
//! Rates (messages per day, average bout length) are held in tenths, the
//! precision the report prints them with.
use vstd::prelude::*;

use crate::duration::Duration;
use crate::executor::{GorillaManifest, GorillaOutput};
use crate::lifecycle::RequirementStatus;
use crate::schedule::{in_range, put_time, utc_text};
use crate::text::{
    append_chars, chars_of, decimal, put, put_tenths, put_u64, string_from_chars, tenths_text, to_owned_string,
};

verus! {

/// Milliseconds in one day.
pub const DAY_MS: i64 = 86_400_000;

/// The reporting period.
#[derive(Debug, Clone, Copy, PartialEq, Eq, Structural)]
pub enum ReportPeriod {
    /// Daily report (last 24 hours).
    Daily,
    /// Weekly report (last 7 days).
    Weekly,
    /// Monthly report (last 30 days).
    Monthly,
}

/// The number of days a period spans.
pub open spec fn period_days(p: ReportPeriod) -> int {
    match p {
        ReportPeriod::Daily => 1,
        ReportPeriod::Weekly => 7,
        ReportPeriod::Monthly => 30,
    }
}

/// The lower-case label of a period.
pub open spec fn label_text(p: ReportPeriod) -> Seq<char> {
    match p {
        ReportPeriod::Daily => "daily"@,
        ReportPeriod::Weekly => "weekly"@,
        ReportPeriod::Monthly => "monthly"@,
    }
}

/// The upper-case label of a period, used in report headers.
pub open spec fn upper_label_text(p: ReportPeriod) -> Seq<char> {
    match p {
        ReportPeriod::Daily => "DAILY"@,
        ReportPeriod::Weekly => "WEEKLY"@,
        ReportPeriod::Monthly => "MONTHLY"@,
    }
}

/// The schedule a report generator of period `p` runs on.
pub open spec fn schedule_text(p: ReportPeriod) -> Seq<char> {
    match p {
        ReportPeriod::Daily => "@daily"@,
        ReportPeriod::Weekly => "@weekly"@,
        ReportPeriod::Monthly => "0 0 1 * *"@,
    }
}

impl ReportPeriod {
    /// The length of this period.
    pub fn duration(&self) -> (d: Duration)
        ensures
            d.wf(),
            d@ == period_days(*self) * 86_400_000_000_000,
    {
        match self {
            ReportPeriod::Daily => Duration::from_secs(86_400),
            ReportPeriod::Weekly => Duration::from_secs(7 * 86_400),
            ReportPeriod::Monthly => Duration::from_secs(30 * 86_400),
        }
    }

    /// The length of this period in milliseconds.
    pub fn duration_ms(&self) -> (ms: i64)
        ensures
            ms == period_days(*self) * DAY_MS,
    {
        match self {
            ReportPeriod::Daily => DAY_MS,
            ReportPeriod::Weekly => 7 * DAY_MS,
            ReportPeriod::Monthly => 30 * DAY_MS,
        }
    }

    /// A human-readable label.
    pub fn label(&self) -> (s: &'static str)
        ensures
            s@ == label_text(*self),
    {
        match self {
            ReportPeriod::Daily => "daily",
            ReportPeriod::Weekly => "weekly",
            ReportPeriod::Monthly => "monthly",
        }
    }

    /// The label in upper case.
    pub fn upper_label(&self) -> (s: &'static str)
        ensures
            s@ == upper_label_text(*self),
    {
        match self {
            ReportPeriod::Daily => "DAILY",
            ReportPeriod::Weekly => "WEEKLY",
            ReportPeriod::Monthly => "MONTHLY",
        }
    }
}

/// Trend indicator compared to the previous period.
#[derive(Debug, Clone, Copy, PartialEq, Eq, Structural)]
pub enum Trend {
    /// Value increased from the previous period.
    Up,
    /// Value decreased from the previous period.
    Down,
    /// Value stayed the same.
    Flat,
    /// No previous data available.
    NoData,
}

/// How a trend is displayed.
pub open spec fn trend_text(t: Trend) -> Seq<char> {
    match t {
        Trend::Up => "[UP]"@,
        Trend::Down => "[DOWN]"@,
        Trend::Flat => "[FLAT]"@,
        Trend::NoData => "[N/A]"@,
    }
}

impl Trend {
    /// The displayed form of this trend.
    pub fn as_text(&self) -> (s: &'static str)
        ensures
            s@ == trend_text(*self),
    {
        match self {
            Trend::Up => "[UP]",
            Trend::Down => "[DOWN]",
            Trend::Flat => "[FLAT]",
            Trend::NoData => "[N/A]",
        }
    }

    /// The displayed form of this trend, owned.
    pub fn to_string(&self) -> (s: String)
        ensures
            s@ == trend_text(*self),
    {
        to_owned_string(self.as_text())
    }
}

/// The trend from `previous` to `current`.
pub open spec fn trend_of(current: u64, previous: u64) -> Trend {
    if current > previous {
        Trend::Up
    } else if current < previous {
        Trend::Down
    } else {
        Trend::Flat
    }
}

/// Compute the trend by comparing the current and previous values.
pub fn compute_trend(current: u64, previous: u64) -> (t: Trend)
    ensures
        t == trend_of(current, previous),
{
    if current > previous {
        Trend::Up
    } else if current < previous {
        Trend::Down
    } else {
        Trend::Flat
    }
}

/// A section of a generated report.
#[derive(Debug, Clone)]
pub struct ReportSection {
    /// Section title.
    pub title: String,
    /// Section content (formatted text).
    pub content: String,
}

/// Trend indicators for the key metrics.
#[derive(Debug, Clone, Copy)]
pub struct ReportTrends {
    /// Trend of total bouts.
    pub bouts_trend: Trend,
    /// Trend of total messages.
    pub messages_trend: Trend,
}

/// Per-fighter summary for reports.
#[derive(Debug, Clone)]
pub struct FighterSummary {
    /// Fighter display name.
    pub name: String,
    /// Number of bouts.
    pub bout_count: u64,
    /// Number of messages.
    pub message_count: u64,
}

/// Metrics collected for a report.
#[derive(Debug, Clone)]
pub struct ReportMetrics {
    /// Total bouts in the period.
    pub total_bouts: u64,
    /// Total messages in the period.
    pub total_messages: u64,
    /// Total tool calls in the period.
    pub total_tool_calls: u64,
    /// Number of active fighters.
    pub active_fighters: u64,
    /// Per-fighter summaries.
    pub fighter_summaries: Vec<FighterSummary>,
    /// Tool usage: tool name and call count.
    pub tool_usage: Vec<(String, u64)>,
    /// Messages per day over the period, in tenths.
    pub messages_per_day_tenths: u128,
    /// Average bout length in messages, in tenths.
    pub avg_bout_length_tenths: u128,
}

impl Default for ReportMetrics {
    /// All counts zero, no summaries.
    fn default() -> (m: ReportMetrics)
        ensures
            m.total_bouts == 0 && m.total_messages == 0 && m.total_tool_calls == 0,
            m.active_fighters == 0,
            m.fighter_summaries@.len() == 0 && m.tool_usage@.len() == 0,
            m.messages_per_day_tenths == 0 && m.avg_bout_length_tenths == 0,
    {
        ReportMetrics {
            total_bouts: 0,
            total_messages: 0,
            total_tool_calls: 0,
            active_fighters: 0,
            fighter_summaries: Vec::new(),
            tool_usage: Vec::new(),
            messages_per_day_tenths: 0,
            avg_bout_length_tenths: 0,
        }
    }
}

/// `num / den` in tenths, rounded half up.
pub open spec fn rounded_tenths(num: nat, den: nat) -> nat
    recommends
        den > 0,
{
    (20 * num + den) / (2 * den)
}

/// Fill in the derived rates of `m` for a period of `days` whole days
/// (counted as at least one): messages per day, and, when there were bouts,
/// the average bout length.
pub fn derive_rates(m: &mut ReportMetrics, days: u64)
    ensures
        final(m).messages_per_day_tenths == rounded_tenths(
            old(m).total_messages as nat,
            if days == 0 { 1 } else { days as nat },
        ),
        final(m).avg_bout_length_tenths == if old(m).total_bouts > 0 {
            rounded_tenths(old(m).total_messages as nat, old(m).total_bouts as nat)
        } else {
            old(m).avg_bout_length_tenths as nat
        },
        final(m).total_bouts == old(m).total_bouts,
        final(m).total_messages == old(m).total_messages,
        final(m).total_tool_calls == old(m).total_tool_calls,
        final(m).active_fighters == old(m).active_fighters,
        final(m).fighter_summaries == old(m).fighter_summaries,
        final(m).tool_usage == old(m).tool_usage,
{
    let d: u128 = if days == 0 { 1 } else { days as u128 };
    let n: u128 = m.total_messages as u128;
    assert(20 * n + d <= 20 * 0xffff_ffff_ffff_ffffu128 + 0xffff_ffff_ffff_ffffu128);
    m.messages_per_day_tenths = (20 * n + d) / (2 * d);
    if m.total_bouts > 0 {
        let b: u128 = m.total_bouts as u128;
        m.avg_bout_length_tenths = (20 * n + b) / (2 * b);
    }
}

/// The summary section of a report.
pub open spec fn summary_text(m: ReportMetrics, t: ReportTrends) -> Seq<char> {
    "- **Total Bouts:** "@ + decimal(m.total_bouts as nat) + " "@ + trend_text(t.bouts_trend) + "\n"@
        + "- **Total Messages:** "@ + decimal(m.total_messages as nat) + " "@ + trend_text(t.messages_trend)
        + "\n"@ + "- **Tool Calls:** "@ + decimal(m.total_tool_calls as nat) + "\n"@ + "- **Active Fighters:** "@
        + decimal(m.active_fighters as nat) + "\n"@ + "- **Messages/Day:** "@ + tenths_text(
        m.messages_per_day_tenths as nat,
    ) + "\n"@ + if m.total_bouts > 0 {
        "- **Avg Bout Length:** "@ + tenths_text(m.avg_bout_length_tenths as nat) + " messages\n"@
    } else {
        Seq::empty()
    }
}

/// The report line of one fighter.
pub open spec fn fighter_line(f: FighterSummary) -> Seq<char> {
    "- **"@ + f.name@ + "**: "@ + decimal(f.bout_count as nat) + " bouts, "@ + decimal(f.message_count as nat)
        + " messages\n"@
}

/// The report lines of the fighters `s`, in order.
pub open spec fn fighter_lines(s: Seq<FighterSummary>) -> Seq<char>
    decreases s.len(),
{
    if s.len() == 0 {
        Seq::empty()
    } else {
        fighter_lines(s.drop_last()) + fighter_line(s.last())
    }
}

/// The report line of one tool.
pub open spec fn tool_line(t: (String, u64)) -> Seq<char> {
    "- **"@ + t.0@ + "**: "@ + decimal(t.1 as nat) + " calls\n"@
}

/// The report lines of the tools `s`, in order.
pub open spec fn tool_lines(s: Seq<(String, u64)>) -> Seq<char>
    decreases s.len(),
{
    if s.len() == 0 {
        Seq::empty()
    } else {
        tool_lines(s.drop_last()) + tool_line(s.last())
    }
}

/// The fighter section is present.
pub open spec fn shows_fighters(g: ReportGenerator, m: ReportMetrics) -> bool {
    g.include_fighter_activity && m.fighter_summaries@.len() > 0
}

/// The tool section is present.
pub open spec fn shows_tools(g: ReportGenerator, m: ReportMetrics) -> bool {
    g.include_tool_usage && m.tool_usage@.len() > 0
}

/// The full report text.
pub open spec fn report_text(g: ReportGenerator, start: i64, end: i64, generated: i64, m: ReportMetrics, t: ReportTrends) -> Seq<char> {
    "# "@ + upper_label_text(g.period) + " Activity Report\n\n"@ + "**Period:** "@ + utc_text(
        start,
        "%Y-%m-%d %H:%M UTC"@,
    ) + " to "@ + utc_text(end, "%Y-%m-%d %H:%M UTC"@) + "\n\n"@ + "## Summary\n\n"@ + summary_text(m, t)
        + (if shows_fighters(g, m) {
        "\n## Fighter Activity\n\n"@ + fighter_lines(m.fighter_summaries@)
    } else {
        Seq::empty()
    }) + (if shows_tools(g, m) {
        "\n## Tool Usage\n\n"@ + tool_lines(m.tool_usage@)
    } else {
        Seq::empty()
    }) + "\n---\n*Generated at "@ + utc_text(generated, "%Y-%m-%d %H:%M:%S UTC"@) + "*\n"@
}

/// The report's sections: titles and contents, in order.
pub open spec fn report_sections(g: ReportGenerator, m: ReportMetrics, t: ReportTrends) -> Seq<(Seq<char>, Seq<char>)> {
    seq![("Summary"@, summary_text(m, t))] + (if shows_fighters(g, m) {
        seq![("Fighter Activity"@, fighter_lines(m.fighter_summaries@))]
    } else {
        Seq::empty()
    }) + (if shows_tools(g, m) {
        seq![("Tool Usage"@, tool_lines(m.tool_usage@))]
    } else {
        Seq::empty()
    })
}

/// The views of sections.
pub open spec fn section_views(s: Seq<ReportSection>) -> Seq<(Seq<char>, Seq<char>)> {
    s.map_values(|x: ReportSection| (x.title@, x.content@))
}

/// The summary section text.
fn summary_chars(m: &ReportMetrics, t: &ReportTrends) -> (r: Vec<char>)
    ensures
        r@ == summary_text(*m, *t),
{
    let mut out: Vec<char> = Vec::new();
    put(&mut out, "- **Total Bouts:** ");
    put_u64(&mut out, m.total_bouts);
    put(&mut out, " ");
    put(&mut out, t.bouts_trend.as_text());
    put(&mut out, "\n");
    put(&mut out, "- **Total Messages:** ");
    put_u64(&mut out, m.total_messages);
    put(&mut out, " ");
    put(&mut out, t.messages_trend.as_text());
    put(&mut out, "\n");
    put(&mut out, "- **Tool Calls:** ");
    put_u64(&mut out, m.total_tool_calls);
    put(&mut out, "\n");
    put(&mut out, "- **Active Fighters:** ");
    put_u64(&mut out, m.active_fighters);
    put(&mut out, "\n");
    put(&mut out, "- **Messages/Day:** ");
    put_tenths(&mut out, m.messages_per_day_tenths);
    put(&mut out, "\n");
    let ghost before = out@;
    if m.total_bouts > 0 {
        put(&mut out, "- **Avg Bout Length:** ");
        put_tenths(&mut out, m.avg_bout_length_tenths);
        put(&mut out, " messages\n");
    } else {
        assert(out@ =~= before + Seq::<char>::empty());
    }
    out
}

/// The fighter lines.
fn fighter_chars(s: &Vec<FighterSummary>) -> (r: Vec<char>)
    ensures
        r@ == fighter_lines(s@),
{
    let mut out: Vec<char> = Vec::new();
    let mut i: usize = 0;
    while i < s.len()
        invariant
            i <= s@.len(),
            out@ == fighter_lines(s@.take(i as int)),
        decreases s@.len() - i,
    {
        assert(s@.take(i + 1).drop_last() =~= s@.take(i as int));
        let f = &s[i];
        put(&mut out, "- **");
        put(&mut out, f.name.as_str());
        put(&mut out, "**: ");
        put_u64(&mut out, f.bout_count);
        put(&mut out, " bouts, ");
        put_u64(&mut out, f.message_count);
        put(&mut out, " messages\n");
        i = i + 1;
    }
    assert(s@.take(s@.len() as int) =~= s@);
    out
}

/// The tool lines.
fn tool_chars(s: &Vec<(String, u64)>) -> (r: Vec<char>)
    ensures
        r@ == tool_lines(s@),
{
    let mut out: Vec<char> = Vec::new();
    let mut i: usize = 0;
    while i < s.len()
        invariant
            i <= s@.len(),
            out@ == tool_lines(s@.take(i as int)),
        decreases s@.len() - i,
    {
        assert(s@.take(i + 1).drop_last() =~= s@.take(i as int));
        let t = &s[i];
        put(&mut out, "- **");
        put(&mut out, t.0.as_str());
        put(&mut out, "**: ");
        put_u64(&mut out, t.1);
        put(&mut out, " calls\n");
        i = i + 1;
    }
    assert(s@.take(s@.len() as int) =~= s@);
    out
}

/// Report generator gorilla.
pub struct ReportGenerator {
    /// Its manifest.
    pub manifest: GorillaManifest,
    /// The reporting period.
    pub period: ReportPeriod,
    /// Whether the report shows the tool usage breakdown.
    pub include_tool_usage: bool,
    /// Whether the report shows the fighter activity breakdown.
    pub include_fighter_activity: bool,
}

/// The manifest of a report generator of period `p`, apart from its schedule.
pub open spec fn default_manifest_of(m: GorillaManifest, p: ReportPeriod) -> bool {
    &&& m.name@ == "Report Generator ("@ + label_text(p) + ")"@
    &&& m.description@ == "Generates "@ + label_text(p)
        + " reports aggregating fighter activity, tool usage, and system metrics."@
    &&& m.moves_required@.len() == 2
    &&& m.moves_required@[0]@ == "memory_recall"@
    &&& m.moves_required@[1]@ == "memory_store"@
    &&& m.settings_schema.is_none()
    &&& m.dashboard_metrics@.len() == 4
    &&& m.dashboard_metrics@[0]@ == "reports_generated"@
    &&& m.dashboard_metrics@[1]@ == "total_bouts"@
    &&& m.dashboard_metrics@[2]@ == "total_messages"@
    &&& m.dashboard_metrics@[3]@ == "total_tool_calls"@
    &&& m.system_prompt matches Some(sp) && sp@ == "You are the Report Generator gorilla. Produce a clear, concise "@
        + label_text(p) + " activity report with key metrics, trends, and actionable insights."@
    &&& m.model.is_none()
    &&& m.capabilities@.len() == 0
    &&& m.weight_class.is_none()
}

/// A `String` of `s` followed by `label` and `t`.
fn three(s: &str, label: &str, t: &str) -> (r: String)
    ensures
        r@ == s@ + label@ + t@,
{
    let mut out: Vec<char> = Vec::new();
    put(&mut out, s);
    put(&mut out, label);
    put(&mut out, t);
    string_from_chars(out.as_slice())
}

impl ReportGenerator {
    /// The default manifest of a report generator of period `period`.
    fn default_manifest(period: ReportPeriod) -> (m: GorillaManifest)
        ensures
            default_manifest_of(m, period),
            m.schedule@ == "@daily"@,
    {
        let label = period.label();
        let mut moves: Vec<String> = Vec::new();
        moves.push(to_owned_string("memory_recall"));
        moves.push(to_owned_string("memory_store"));
        let mut metrics: Vec<String> = Vec::new();
        metrics.push(to_owned_string("reports_generated"));
        metrics.push(to_owned_string("total_bouts"));
        metrics.push(to_owned_string("total_messages"));
        metrics.push(to_owned_string("total_tool_calls"));
        GorillaManifest {
            name: three("Report Generator (", label, ")"),
            description: three(
                "Generates ",
                label,
                " reports aggregating fighter activity, tool usage, and system metrics.",
            ),
            schedule: to_owned_string("@daily"),
            moves_required: moves,
            settings_schema: None,
            dashboard_metrics: metrics,
            system_prompt: Some(
                three(
                    "You are the Report Generator gorilla. Produce a clear, concise ",
                    label,
                    " activity report with key metrics, trends, and actionable insights.",
                ),
            ),
            model: None,
            capabilities: Vec::new(),
            weight_class: None,
        }
    }

    /// A daily report generator including tool usage and fighter activity.
    pub fn new() -> (g: ReportGenerator)
        ensures
            g.period == ReportPeriod::Daily,
            g.include_tool_usage && g.include_fighter_activity,
            default_manifest_of(g.manifest, ReportPeriod::Daily),
            g.manifest.schedule@ == schedule_text(ReportPeriod::Daily),
    {
        ReportGenerator {
            manifest: Self::default_manifest(ReportPeriod::Daily),
            period: ReportPeriod::Daily,
            include_tool_usage: true,
            include_fighter_activity: true,
        }
    }

    /// A report generator for `period`, running on that period's schedule.
    pub fn with_period(period: ReportPeriod) -> (g: ReportGenerator)
        ensures
            g.period == period,
            g.include_tool_usage && g.include_fighter_activity,
            default_manifest_of(g.manifest, period),
            g.manifest.schedule@ == schedule_text(period),
    {
        let schedule = match period {
            ReportPeriod::Daily => "@daily",
            ReportPeriod::Weekly => "@weekly",
            ReportPeriod::Monthly => "0 0 1 * *",
        };
        let mut manifest = Self::default_manifest(period);
        manifest.schedule = to_owned_string(schedule);
        ReportGenerator { manifest, period, include_tool_usage: true, include_fighter_activity: true }
    }

    /// This generator, including tool usage or not.
    pub fn with_tool_usage(self, enabled: bool) -> (g: ReportGenerator)
        ensures
            g == (ReportGenerator { include_tool_usage: enabled, ..self }),
    {
        ReportGenerator { include_tool_usage: enabled, ..self }
    }

    /// This generator, including fighter activity or not.
    pub fn with_fighter_activity(self, enabled: bool) -> (g: ReportGenerator)
        ensures
            g == (ReportGenerator { include_fighter_activity: enabled, ..self }),
    {
        ReportGenerator { include_fighter_activity: enabled, ..self }
    }

    /// The reporting period.
    pub fn period(&self) -> (p: ReportPeriod)
        ensures
            p == self.period,
    {
        self.period
    }

    /// The manifest.
    pub fn manifest(&self) -> (m: &GorillaManifest)
        ensures
            *m == self.manifest,
    {
        &self.manifest
    }

    /// The requirements this gorilla checks: access to memory, always met.
    pub fn check_requirements(&self) -> (r: Vec<RequirementStatus>)
        ensures
            r@.len() == 1,
            r@[0].name@ == "memory_access"@,
            r@[0].met,
            r@[0].message@ == "Memory substrate accessible for report generation"@,
    {
        let mut r: Vec<RequirementStatus> = Vec::new();
        r.push(
            RequirementStatus {
                name: to_owned_string("memory_access"),
                met: true,
                message: to_owned_string("Memory substrate accessible for report generation"),
            },
        );
        r
    }

    /// The report text and its sections, for the period from `start` to
    /// `end`, generated at `generated` (all milliseconds since the epoch).
    pub fn format_report(
        &self,
        start: i64,
        end: i64,
        generated: i64,
        metrics: &ReportMetrics,
        trends: &ReportTrends,
    ) -> (r: (String, Vec<ReportSection>))
        requires
            in_range(start as int),
            in_range(end as int),
            in_range(generated as int),
        ensures
            r.0@ == report_text(*self, start, end, generated, *metrics, *trends),
            section_views(r.1@) == report_sections(*self, *metrics, *trends),
    {
        let mut out: Vec<char> = Vec::new();
        let mut sections: Vec<ReportSection> = Vec::new();
        put(&mut out, "# ");
        put(&mut out, self.period.upper_label());
        put(&mut out, " Activity Report\n\n");
        put(&mut out, "**Period:** ");
        put_time(&mut out, start, "%Y-%m-%d %H:%M UTC");
        put(&mut out, " to ");
        put_time(&mut out, end, "%Y-%m-%d %H:%M UTC");
        put(&mut out, "\n\n");
        let summary = summary_chars(metrics, trends);
        put(&mut out, "## Summary\n\n");
        append_chars(&mut out, summary.as_slice());
        sections.push(
            ReportSection { title: to_owned_string("Summary"), content: string_from_chars(summary.as_slice()) },
        );
        let ghost s1 = sections@;
        let ghost o1 = out@;
        if self.include_fighter_activity && metrics.fighter_summaries.len() > 0 {
            let f = fighter_chars(&metrics.fighter_summaries);
            put(&mut out, "\n## Fighter Activity\n\n");
            append_chars(&mut out, f.as_slice());
            sections.push(
                ReportSection {
                    title: to_owned_string("Fighter Activity"),
                    content: string_from_chars(f.as_slice()),
                },
            );
        } else {
            assert(out@ =~= o1 + Seq::<char>::empty());
        }
        let ghost s2 = sections@;
        let ghost o2 = out@;
        if self.include_tool_usage && metrics.tool_usage.len() > 0 {
            let t = tool_chars(&metrics.tool_usage);
            put(&mut out, "\n## Tool Usage\n\n");
            append_chars(&mut out, t.as_slice());
            sections.push(
                ReportSection { title: to_owned_string("Tool Usage"), content: string_from_chars(t.as_slice()) },
            );
        } else {
            assert(out@ =~= o2 + Seq::<char>::empty());
        }
        put(&mut out, "\n---\n*Generated at ");
        put_time(&mut out, generated, "%Y-%m-%d %H:%M:%S UTC");
        put(&mut out, "*\n");
        assert(section_views(sections@) =~= report_sections(*self, *metrics, *trends));
        (string_from_chars(out.as_slice()), sections)
    }
}

/// What one run of the report generator produces.
pub struct ReportRun {
    /// Trends against the previous period.
    pub trends: ReportTrends,
    /// The full report text.
    pub formatted_text: String,
    /// The report's sections.
    pub sections: Vec<ReportSection>,
    /// The memory key the report is stored under.
    pub report_key: String,
    /// What the run hands back.
    pub output: GorillaOutput,
}

/// The key a report of period `p` ending at `end` is stored under.
pub open spec fn report_key_text(p: ReportPeriod, end: i64) -> Seq<char> {
    "report_"@ + label_text(p) + "_"@ + utc_text(end, "%Y%m%d"@)
}

/// The one-line summary of a report run.
pub open spec fn run_summary_text(p: ReportPeriod, start: i64, end: i64, m: ReportMetrics, t: ReportTrends) -> Seq<char> {
    label_text(p) + " report generated for period "@ + utc_text(start, "%Y-%m-%d"@) + " to "@ + utc_text(
        end,
        "%Y-%m-%d"@,
    ) + ". "@ + decimal(m.total_bouts as nat) + " bouts "@ + trend_text(t.bouts_trend) + ", "@ + decimal(
        m.total_messages as nat,
    ) + " messages "@ + trend_text(t.messages_trend) + ", "@ + tenths_text(m.messages_per_day_tenths as nat)
        + " msgs/day."@
}

impl ReportGenerator {
    /// The current window `(start, end)` of a report ending at `end`, and the
    /// window of the period before it.
    pub fn windows(&self, end: i64) -> (r: ((i64, i64), (i64, i64)))
        requires
            in_range(end as int),
            in_range(end - 2 * period_days(self.period) * DAY_MS),
        ensures
            r.0.0 == end - period_days(self.period) * DAY_MS,
            r.0.1 == end,
            r.1.0 == end - 2 * period_days(self.period) * DAY_MS,
            r.1.1 == end - period_days(self.period) * DAY_MS,
    {
        let d = self.period.duration_ms();
        let start = end - d;
        ((start, end), (start - d, start))
    }

    /// The metrics of one period from its bout and message counts, with the
    /// rates derived over the period's days.
    pub fn collected_metrics(&self, bouts: u64, messages: u64) -> (m: ReportMetrics)
        ensures
            m.total_bouts == bouts && m.total_messages == messages,
            m.total_tool_calls == 0 && m.active_fighters == 0,
            m.fighter_summaries@.len() == 0 && m.tool_usage@.len() == 0,
            m.messages_per_day_tenths == rounded_tenths(messages as nat, period_days(self.period) as nat),
            m.avg_bout_length_tenths == if bouts > 0 {
                rounded_tenths(messages as nat, bouts as nat)
            } else {
                0
            },
    {
        let mut m = ReportMetrics::default();
        m.total_bouts = bouts;
        m.total_messages = messages;
        let days: u64 = match self.period {
            ReportPeriod::Daily => 1,
            ReportPeriod::Weekly => 7,
            ReportPeriod::Monthly => 30,
        };
        derive_rates(&mut m, days);
        m
    }

    /// One run from collected metrics: the trends against `previous`, the
    /// report for the period ending at `end`, the key to store it under, and
    /// the output with its summary and artifacts.
    pub fn run_report(
        &self,
        end: i64,
        generated: i64,
        metrics: &ReportMetrics,
        previous: &ReportMetrics,
    ) -> (r: ReportRun)
        requires
            in_range(end as int),
            in_range(end - period_days(self.period) * DAY_MS),
            in_range(generated as int),
        ensures
            r.trends == (ReportTrends {
                bouts_trend: trend_of(metrics.total_bouts, previous.total_bouts),
                messages_trend: trend_of(metrics.total_messages, previous.total_messages),
            }),
            r.formatted_text@ == report_text(
                *self,
                (end - period_days(self.period) * DAY_MS) as i64,
                end,
                generated,
                *metrics,
                r.trends,
            ),
            section_views(r.sections@) == report_sections(*self, *metrics, r.trends),
            r.report_key@ == report_key_text(self.period, end),
            r.output.summary@ == run_summary_text(
                self.period,
                (end - period_days(self.period) * DAY_MS) as i64,
                end,
                *metrics,
                r.trends,
            ),
            r.output.artifacts@.len() == 2,
            r.output.artifacts@[0]@ == "memory:"@ + r.report_key@,
            r.output.artifacts@[1]@ == r.formatted_text@,
            r.output.next_run.is_none(),
    {
        let start = end - self.period.duration_ms();
        let trends = ReportTrends {
            bouts_trend: compute_trend(metrics.total_bouts, previous.total_bouts),
            messages_trend: compute_trend(metrics.total_messages, previous.total_messages),
        };
        let (formatted_text, sections) = self.format_report(start, end, generated, metrics, &trends);
        let mut key: Vec<char> = Vec::new();
        put(&mut key, "report_");
        put(&mut key, self.period.label());
        put(&mut key, "_");
        put_time(&mut key, end, "%Y%m%d");
        let report_key = string_from_chars(key.as_slice());
        let mut sum: Vec<char> = Vec::new();
        put(&mut sum, self.period.label());
        put(&mut sum, " report generated for period ");
        put_time(&mut sum, start, "%Y-%m-%d");
        put(&mut sum, " to ");
        put_time(&mut sum, end, "%Y-%m-%d");
        put(&mut sum, ". ");
        put_u64(&mut sum, metrics.total_bouts);
        put(&mut sum, " bouts ");
        put(&mut sum, trends.bouts_trend.as_text());
        put(&mut sum, ", ");
        put_u64(&mut sum, metrics.total_messages);
        put(&mut sum, " messages ");
        put(&mut sum, trends.messages_trend.as_text());
        put(&mut sum, ", ");
        put_tenths(&mut sum, metrics.messages_per_day_tenths);
        put(&mut sum, " msgs/day.");
        let mut art: Vec<char> = Vec::new();
        put(&mut art, "memory:");
        put(&mut art, report_key.as_str());
        let mut artifacts: Vec<String> = Vec::new();
        artifacts.push(string_from_chars(art.as_slice()));
        artifacts.push(formatted_text.clone());
        let output = GorillaOutput { summary: string_from_chars(sum.as_slice()), artifacts, next_run: None };
        ReportRun { trends, formatted_text, sections, report_key, output }
    }
}

impl Default for ReportGenerator {
    /// A daily report generator.
    fn default() -> (g: ReportGenerator)
        ensures
            g.period == ReportPeriod::Daily,
            g.include_tool_usage && g.include_fighter_activity,
            default_manifest_of(g.manifest, ReportPeriod::Daily),
    {
        ReportGenerator::new()
    }
}

} // verus!
