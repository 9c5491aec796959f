//! Event-driven gorilla activation: cron, webhook, file watch, message,
//! manual and chain triggers, and the engine that evaluates them.
use vstd::prelude::*;

use crate::ids::GorillaId;
use crate::schedule::now_ms;
use crate::table::{lemma_filter_take_step, lemma_table_insert, lemma_table_remove, lemma_table_set, Table};
use crate::text::{
    chars_of, contains_chars, contains_seq, copy_strings, copy_text, ends_with, has_prefix, has_suffix,
    lowercase, split_char, starts_with, to_lowercase_chars,
};

verus! {

// ---------------------------------------------------------------------------
// Trigger types
// ---------------------------------------------------------------------------

/// The kind of event that activates a gorilla.
#[derive(Debug, Clone)]
pub enum TriggerType {
    /// Time-based scheduling (cron expression or interval).
    Cron {
        /// The schedule expression.
        schedule: String,
    },
    /// An HTTP webhook endpoint.
    Webhook {
        /// Path suffix of the endpoint (`*` matches any).
        path: String,
        /// Optional secret for webhook validation.
        secret: Option<String>,
    },
    /// Filesystem changes.
    FileWatch {
        /// Paths to watch (empty: anywhere).
        paths: Vec<String>,
        /// File patterns to match (`*.ext` matches by extension, anything
        /// else by substring; empty: any file).
        patterns: Vec<String>,
    },
    /// Incoming messages on a channel.
    Message {
        /// Channel name (`*` matches any).
        channel: String,
        /// Keywords that activate it, case-insensitively (empty: any message).
        keywords: Vec<String>,
    },
    /// An explicit API call.
    Manual,
    /// Another gorilla completing.
    Chain {
        /// The gorilla whose completion activates this one.
        source_gorilla: GorillaId,
        /// Only on a successful completion.
        on_success_only: bool,
    },
}

/// Unique identifier of a gorilla trigger.
#[derive(Debug, Clone, Copy, PartialEq, Eq, Hash, Structural)]
pub struct GorillaTriggerId(pub u128);

impl GorillaTriggerId {
    /// The id as UUID text (`Display`).
    pub fn to_string(&self) -> (s: String)
        ensures
            s@ == crate::ids::uuid_text(self.0),
    {
        crate::ids::uuid_string(self.0)
    }

    /// A new random trigger id.
    pub fn new() -> (id: GorillaTriggerId)
        ensures
            id.0 != 0,
    {
        GorillaTriggerId(crate::ids::new_uuid())
    }
}

impl Default for GorillaTriggerId {
    /// A new random trigger id.
    fn default() -> (id: GorillaTriggerId)
        ensures
            id.0 != 0,
    {
        GorillaTriggerId::new()
    }
}

/// A registered trigger that can activate a gorilla.
#[derive(Debug, Clone)]
pub struct GorillaTrigger {
    /// Unique trigger id.
    pub id: GorillaTriggerId,
    /// The gorilla this trigger activates.
    pub gorilla_id: GorillaId,
    /// Human-readable name.
    pub name: String,
    /// The kind of trigger and its configuration.
    pub trigger_type: TriggerType,
    /// Whether the trigger is active.
    pub enabled: bool,
    /// When it was created (milliseconds since the Unix epoch).
    pub created_at: i64,
    /// How many times it has fired.
    pub fire_count: u64,
    /// Maximum number of fires (0: unlimited).
    pub max_fires: u64,
    /// When it last fired (milliseconds since the Unix epoch).
    pub last_fired: Option<i64>,
}

/// `a` and `b` are the same kind of trigger with the same configuration.
pub open spec fn same_type(a: TriggerType, b: TriggerType) -> bool {
    match (a, b) {
        (TriggerType::FileWatch { paths: p1, patterns: q1 }, TriggerType::FileWatch { paths: p2, patterns: q2 }) => p1@
            == p2@ && q1@ == q2@,
        (TriggerType::Message { channel: c1, keywords: k1 }, TriggerType::Message { channel: c2, keywords: k2 }) => c1
            == c2 && k1@ == k2@,
        (TriggerType::FileWatch { .. }, _) => false,
        (TriggerType::Message { .. }, _) => false,
        (_, TriggerType::FileWatch { .. }) => false,
        (_, TriggerType::Message { .. }) => false,
        _ => a == b,
    }
}

/// `a` is a copy of `b`.
pub open spec fn same_trigger(a: GorillaTrigger, b: GorillaTrigger) -> bool {
    &&& same_type(a.trigger_type, b.trigger_type)
    &&& (GorillaTrigger { trigger_type: b.trigger_type, ..a }) == b
}

fn copy_type(t: &TriggerType) -> (r: TriggerType)
    ensures
        same_type(r, *t),
{
    match t {
        TriggerType::Cron { schedule } => TriggerType::Cron { schedule: schedule.clone() },
        TriggerType::Webhook { path, secret } => TriggerType::Webhook {
            path: path.clone(),
            secret: copy_text(secret),
        },
        TriggerType::FileWatch { paths, patterns } => TriggerType::FileWatch {
            paths: copy_strings(paths),
            patterns: copy_strings(patterns),
        },
        TriggerType::Message { channel, keywords } => TriggerType::Message {
            channel: channel.clone(),
            keywords: copy_strings(keywords),
        },
        TriggerType::Manual => TriggerType::Manual,
        TriggerType::Chain { source_gorilla, on_success_only } => TriggerType::Chain {
            source_gorilla: *source_gorilla,
            on_success_only: *on_success_only,
        },
    }
}

fn copy_trigger(t: &GorillaTrigger) -> (r: GorillaTrigger)
    ensures
        same_trigger(r, *t),
{
    GorillaTrigger {
        id: t.id,
        gorilla_id: t.gorilla_id,
        name: t.name.clone(),
        trigger_type: copy_type(&t.trigger_type),
        enabled: t.enabled,
        created_at: t.created_at,
        fire_count: t.fire_count,
        max_fires: t.max_fires,
        last_fired: t.last_fired,
    }
}

// ---------------------------------------------------------------------------
// Evaluators
// ---------------------------------------------------------------------------

/// Something that decides whether a trigger fires for the event at hand.
pub trait TriggerEvaluator {
    /// Whether `trigger` fires for this event.
    spec fn fires(&self, trigger: GorillaTrigger) -> bool;

    /// Whether `trigger` fires for this event.
    fn should_fire(&self, trigger: &GorillaTrigger) -> (b: bool)
        ensures
            b == self.fires(*trigger),
    ;

    /// The description of the event.
    spec fn description_text(&self) -> Seq<char>;

    /// A human-readable description of the event.
    fn description(&self) -> (s: String)
        ensures
            s@ == self.description_text(),
    ;
}

/// Fires every cron trigger: it is evaluated on the scheduler's tick.
pub struct CronEvaluator {
    /// The current time (milliseconds since the Unix epoch).
    pub now: i64,
}

impl TriggerEvaluator for CronEvaluator {
    open spec fn description_text(&self) -> Seq<char> {
        "cron/schedule trigger"@
    }

    open spec fn fires(&self, trigger: GorillaTrigger) -> bool {
        trigger.trigger_type is Cron
    }

    fn should_fire(&self, trigger: &GorillaTrigger) -> (b: bool) {
        match &trigger.trigger_type {
            TriggerType::Cron { .. } => true,
            _ => false,
        }
    }

    fn description(&self) -> (s: String) {
        crate::text::to_owned_string("cron/schedule trigger")
    }
}

/// Fires every manual trigger.
pub struct ManualEvaluator;

impl TriggerEvaluator for ManualEvaluator {
    open spec fn description_text(&self) -> Seq<char> {
        "manual trigger"@
    }

    open spec fn fires(&self, trigger: GorillaTrigger) -> bool {
        trigger.trigger_type is Manual
    }

    fn should_fire(&self, trigger: &GorillaTrigger) -> (b: bool) {
        match &trigger.trigger_type {
            TriggerType::Manual => true,
            _ => false,
        }
    }

    fn description(&self) -> (s: String) {
        crate::text::to_owned_string("manual trigger")
    }
}

/// `s` is the one-character text `*`.
pub open spec fn is_wildcard(s: Seq<char>) -> bool {
    s == seq!['*']
}

fn wildcard(s: &str) -> (b: bool)
    ensures
        b == is_wildcard(s@),
{
    let v = chars_of(s);
    let b = v.len() == 1 && v[0] == '*';
    proof {
        if b {
            assert(s@ =~= seq!['*']);
        }
    }
    b
}

/// An incoming message on a channel.
pub struct MessageEvaluator {
    /// The message content.
    pub message: String,
    /// The channel it came from.
    pub channel: String,
}

/// Some keyword of `keywords` occurs in `message`, ignoring case.
pub open spec fn keyword_hit(message: Seq<char>, keywords: Seq<String>) -> bool {
    exists|i: int| 0 <= i < keywords.len() && contains_seq(lowercase(message), lowercase(#[trigger] keywords[i]@))
}

impl TriggerEvaluator for MessageEvaluator {
    /// A message trigger on this channel (or on `*`) fires when it has no
    /// keywords or one of them occurs in the message, ignoring case.
    open spec fn description_text(&self) -> Seq<char> {
        "message trigger on channel '"@ + self.channel@ + "'"@
    }

    open spec fn fires(&self, trigger: GorillaTrigger) -> bool {
        match trigger.trigger_type {
            TriggerType::Message { channel, keywords } => {
                &&& (is_wildcard(channel@) || channel@ == self.channel@)
                &&& (keywords@.len() == 0 || keyword_hit(self.message@, keywords@))
            },
            _ => false,
        }
    }

    #[verifier::loop_isolation(false)]
    fn should_fire(&self, trigger: &GorillaTrigger) -> (b: bool) {
        match &trigger.trigger_type {
            TriggerType::Message { channel, keywords } => {
                if !wildcard(channel.as_str()) && *channel != self.channel {
                    return false;
                }
                if keywords.len() == 0 {
                    return true;
                }
                let msg = chars_of(self.message.as_str());
                let lower = to_lowercase_chars(msg.as_slice());
                let mut i: usize = 0;
                while i < keywords.len()
                    invariant
                        i <= keywords@.len(),
                        lower@ == lowercase(self.message@),
                        forall|j: int|
                            0 <= j < i ==> !contains_seq(lower@, lowercase(#[trigger] keywords@[j]@)),
                    decreases keywords@.len() - i,
                {
                    let kw = chars_of(keywords[i].as_str());
                    let kw_lower = to_lowercase_chars(kw.as_slice());
                    if contains_chars(lower.as_slice(), kw_lower.as_slice()) {
                        assert(contains_seq(lowercase(self.message@), lowercase(keywords@[i as int]@)));
                        return true;
                    }
                    i = i + 1;
                }
                false
            },
            _ => false,
        }
    }

    fn description(&self) -> (s: String) {
        let mut s = crate::text::to_owned_string("message trigger on channel '");
        s.append(self.channel.as_str());
        s.append("'");
        s
    }
}

/// The completion of a gorilla.
pub struct ChainEvaluator {
    /// The gorilla that completed.
    pub completed_gorilla: GorillaId,
    /// Whether it completed successfully.
    pub success: bool,
}

impl TriggerEvaluator for ChainEvaluator {
    /// A chain trigger on the completed gorilla fires, unless it asks for
    /// success and the completion failed.
    open spec fn description_text(&self) -> Seq<char> {
        "chain trigger from gorilla "@ + crate::ids::uuid_text(self.completed_gorilla.0)
    }

    open spec fn fires(&self, trigger: GorillaTrigger) -> bool {
        match trigger.trigger_type {
            TriggerType::Chain { source_gorilla, on_success_only } => source_gorilla == self.completed_gorilla
                && (!on_success_only || self.success),
            _ => false,
        }
    }

    fn should_fire(&self, trigger: &GorillaTrigger) -> (b: bool) {
        match &trigger.trigger_type {
            TriggerType::Chain { source_gorilla, on_success_only } => {
                if *source_gorilla != self.completed_gorilla {
                    return false;
                }
                if *on_success_only && !self.success {
                    return false;
                }
                true
            },
            _ => false,
        }
    }

    fn description(&self) -> (s: String) {
        let mut s = crate::text::to_owned_string("chain trigger from gorilla ");
        let id = crate::ids::uuid_string(self.completed_gorilla.0);
        s.append(id.as_str());
        s
    }
}

/// A webhook call on a path.
pub struct WebhookEvaluator {
    /// The path the webhook was received on.
    pub path: String,
}

impl TriggerEvaluator for WebhookEvaluator {
    /// A webhook trigger on this path, or on `*`, fires.
    open spec fn description_text(&self) -> Seq<char> {
        "webhook trigger on path '"@ + self.path@ + "'"@
    }

    open spec fn fires(&self, trigger: GorillaTrigger) -> bool {
        match trigger.trigger_type {
            TriggerType::Webhook { path, .. } => path@ == self.path@ || is_wildcard(path@),
            _ => false,
        }
    }

    fn should_fire(&self, trigger: &GorillaTrigger) -> (b: bool) {
        match &trigger.trigger_type {
            TriggerType::Webhook { path, .. } => *path == self.path || wildcard(path.as_str()),
            _ => false,
        }
    }

    fn description(&self) -> (s: String) {
        let mut s = crate::text::to_owned_string("webhook trigger on path '");
        s.append(self.path.as_str());
        s.append("'");
        s
    }
}

/// The components of the Unix path `p`, as `std::path::Path::components`
/// yields them, each as its text: the root (`/`) when `p` is absolute, `.`
/// when a relative `p` begins with the current directory, then the pieces
/// between slashes, leaving out empty pieces and `.`.
pub open spec fn path_components(p: Seq<char>) -> Seq<Seq<char>> {
    let root: Seq<Seq<char>> = if p.len() > 0 && p[0] == '/' {
        seq![seq!['/']]
    } else {
        Seq::empty()
    };
    let cur: Seq<Seq<char>> = if p.len() > 0 && p[0] == '.' && (p.len() == 1 || p[1] == '/') {
        seq![seq!['.']]
    } else {
        Seq::empty()
    };
    root + cur + split_char(p, '/').filter(|c: Seq<char>| c.len() > 0 && c != seq!['.'])
}

/// Whether the path `path` starts with the path `base`: the components of
/// `base` are the first components of `path`.
pub open spec fn path_has_prefix(path: Seq<char>, base: Seq<char>) -> bool {
    let a = path_components(path);
    let b = path_components(base);
    b.len() <= a.len() && a.take(b.len() as int) == b
}

/// `std::path::Path::starts_with` on two paths given as text: whole
/// components of `base` lead those of `path`.
#[verifier::external_body]
fn path_starts_with(path: &str, base: &str) -> (b: bool)
    ensures
        b == path_has_prefix(path@, base@),
{
    std::path::Path::new(path).starts_with(base)
}

/// The file pattern `pattern` matches `path`: `*.ext` by the suffix `.ext`,
/// anything else as a substring.
pub open spec fn pattern_matches(path: Seq<char>, pattern: Seq<char>) -> bool {
    if has_prefix(pattern, seq!['*', '.']) {
        has_suffix(path, seq!['.'] + pattern.skip(2))
    } else {
        contains_seq(path, pattern)
    }
}

fn pattern_matches_exec(path: &[char], pattern: &[char]) -> (b: bool)
    ensures
        b == pattern_matches(path@, pattern@),
{
    let star_dot: Vec<char> = vec!['*', '.'];
    if starts_with(pattern, star_dot.as_slice()) {
        let mut suffix: Vec<char> = vec!['.'];
        let mut i: usize = 2;
        while i < pattern.len()
            invariant
                2 <= i <= pattern@.len(),
                suffix@ == seq!['.'] + pattern@.subrange(2, i as int),
            decreases pattern@.len() - i,
        {
            suffix.push(pattern[i]);
            i = i + 1;
            assert(suffix@ =~= seq!['.'] + pattern@.subrange(2, i as int));
        }
        assert(pattern@.subrange(2, pattern@.len() as int) =~= pattern@.skip(2));
        ends_with(path, suffix.as_slice())
    } else {
        contains_chars(path, pattern)
    }
}

/// A change of a file.
pub struct FileWatchEvaluator {
    /// The path that changed.
    pub changed_path: String,
}

impl TriggerEvaluator for FileWatchEvaluator {
    /// A file watch trigger fires when the path lies under one of its paths
    /// (or it has none) and matches one of its patterns (or it has none).
    open spec fn description_text(&self) -> Seq<char> {
        "file watch trigger for '"@ + self.changed_path@ + "'"@
    }

    open spec fn fires(&self, trigger: GorillaTrigger) -> bool {
        match trigger.trigger_type {
            TriggerType::FileWatch { paths, patterns } => {
                &&& (paths@.len() == 0 || exists|i: int|
                    0 <= i < paths@.len() && path_has_prefix(self.changed_path@, #[trigger] paths@[i]@))
                &&& (patterns@.len() == 0 || exists|i: int|
                    0 <= i < patterns@.len() && pattern_matches(self.changed_path@, #[trigger] patterns@[i]@))
            },
            _ => false,
        }
    }

    #[verifier::loop_isolation(false)]
    fn should_fire(&self, trigger: &GorillaTrigger) -> (b: bool) {
        match &trigger.trigger_type {
            TriggerType::FileWatch { paths, patterns } => {
                let mut under = false;
                let mut i: usize = 0;
                while i < paths.len()
                    invariant
                        i <= paths@.len(),
                        under == exists|j: int|
                            0 <= j < i && path_has_prefix(self.changed_path@, #[trigger] paths@[j]@),
                    decreases paths@.len() - i,
                {
                    if path_starts_with(self.changed_path.as_str(), paths[i].as_str()) {
                        under = true;
                    }
                    i = i + 1;
                }
                if !under && paths.len() != 0 {
                    return false;
                }
                if patterns.len() == 0 {
                    return true;
                }
                let path = chars_of(self.changed_path.as_str());
                let mut k: usize = 0;
                while k < patterns.len()
                    invariant
                        k <= patterns@.len(),
                        path@ == self.changed_path@,
                        forall|j: int|
                            0 <= j < k ==> !pattern_matches(self.changed_path@, #[trigger] patterns@[j]@),
                    decreases patterns@.len() - k,
                {
                    let pat = chars_of(patterns[k].as_str());
                    if pattern_matches_exec(path.as_slice(), pat.as_slice()) {
                        assert(pattern_matches(self.changed_path@, patterns@[k as int]@));
                        return true;
                    }
                    k = k + 1;
                }
                false
            },
            _ => false,
        }
    }

    fn description(&self) -> (s: String) {
        let mut s = crate::text::to_owned_string("file watch trigger for '");
        s.append(self.changed_path.as_str());
        s.append("'");
        s
    }
}

/// Webhook triggers: a trigger on `*` fires for a call on any path, one on
/// the called path fires, and one on any other path does not.
pub proof fn lemma_webhook_trigger_fires(e: WebhookEvaluator, t: GorillaTrigger, path: String, secret: Option<String>)
    requires
        t.trigger_type == (TriggerType::Webhook { path, secret }),
    ensures
        path@ == seq!['*'] ==> e.fires(t),
        path@ == e.path@ ==> e.fires(t),
        path@ != seq!['*'] && path@ != e.path@ ==> !e.fires(t),
{
}

/// Message triggers: one on another channel (not `*`) never fires; one on
/// the message's channel or on `*` fires when it has no keywords, or when
/// any one of its keywords occurs in the message, ignoring case; and when a
/// trigger with keywords fires, one of them occurs in the message.
pub proof fn lemma_message_trigger_fires(e: MessageEvaluator, t: GorillaTrigger, channel: String, keywords: Vec<String>, k: int)
    requires
        t.trigger_type == (TriggerType::Message { channel, keywords }),
    ensures
        channel@ != seq!['*'] && channel@ != e.channel@ ==> !e.fires(t),
        (channel@ == seq!['*'] || channel@ == e.channel@) && keywords@.len() == 0 ==> e.fires(t),
        (channel@ == seq!['*'] || channel@ == e.channel@) && 0 <= k < keywords@.len() && contains_seq(
            lowercase(e.message@),
            lowercase(keywords@[k]@),
        ) ==> e.fires(t),
        e.fires(t) && keywords@.len() > 0 ==> exists|j: int|
            0 <= j < keywords@.len() && contains_seq(lowercase(e.message@), lowercase(#[trigger] keywords@[j]@)),
{
    if 0 <= k < keywords@.len() && contains_seq(lowercase(e.message@), lowercase(keywords@[k]@)) {
        assert(keyword_hit(e.message@, keywords@));
    }
}

/// Chain triggers and completions: a completion of another gorilla fires
/// no chain trigger; a trigger that does not ask for success fires on any
/// completion of its source gorilla, failed or not; one that asks for
/// success fires on exactly the successful ones.
pub proof fn lemma_chain_trigger_fires(e: ChainEvaluator, t: GorillaTrigger, source: GorillaId, on_success_only: bool)
    requires
        t.trigger_type == (TriggerType::Chain { source_gorilla: source, on_success_only }),
    ensures
        source != e.completed_gorilla ==> !e.fires(t),
        source == e.completed_gorilla && !on_success_only ==> e.fires(t),
        source == e.completed_gorilla && on_success_only ==> (e.fires(t) <==> e.success),
        !on_success_only ==> e.fires(t) == (ChainEvaluator { success: !e.success, ..e }).fires(t),
{
}

/// A file watch trigger fires for a changed path lying under one of its
/// paths (or having no paths) as soon as any one of its patterns matches the
/// path; with no patterns any such path fires it; and when it fires, the
/// path lies under one of its paths (if any) and some pattern (if any) matches.
pub proof fn lemma_file_watch_fires(e: FileWatchEvaluator, t: GorillaTrigger, paths: Vec<String>, patterns: Vec<String>, k: int)
    requires
        t.trigger_type == (TriggerType::FileWatch { paths, patterns }),
    ensures
        (paths@.len() == 0 || exists|j: int| 0 <= j < paths@.len() && path_has_prefix(e.changed_path@, #[trigger] paths@[j]@))
            && (patterns@.len() == 0 || (0 <= k < patterns@.len() && pattern_matches(e.changed_path@, patterns@[k]@)))
            ==> e.fires(t),
        e.fires(t) ==> (paths@.len() == 0 || exists|j: int| 0 <= j < paths@.len() && path_has_prefix(e.changed_path@, #[trigger] paths@[j]@)),
        e.fires(t) && patterns@.len() > 0 ==> exists|j: int| 0 <= j < patterns@.len() && pattern_matches(e.changed_path@, #[trigger] patterns@[j]@),
{
    if patterns@.len() > 0 && 0 <= k < patterns@.len() && pattern_matches(e.changed_path@, patterns@[k]@) {
        assert(pattern_matches(e.changed_path@, patterns@[k]@));
    }
}

// ---------------------------------------------------------------------------
// GorillaTriggerEngine
// ---------------------------------------------------------------------------

/// Why a trigger engine operation failed.
#[derive(Debug, Clone, Copy, PartialEq, Eq, Structural)]
pub enum TriggerError {
    /// No trigger with this id is registered.
    NotFound(GorillaTriggerId),
}

/// A trigger fires in an evaluation when it is enabled, below its fire limit
/// (if it has one) and the event fires it.
pub open spec fn fires_now(t: GorillaTrigger, event_fires: bool) -> bool {
    &&& t.enabled
    &&& !(t.max_fires > 0 && t.fire_count >= t.max_fires)
    &&& event_fires
}

/// A trigger after one evaluation at `now`: one that reached its fire limit
/// is disabled; one that fires counts the fire and remembers `now`.
pub open spec fn eval_step(t: GorillaTrigger, event_fires: bool, now: i64) -> GorillaTrigger {
    if !t.enabled {
        t
    } else if t.max_fires > 0 && t.fire_count >= t.max_fires {
        GorillaTrigger { enabled: false, ..t }
    } else if event_fires {
        GorillaTrigger { fire_count: (t.fire_count + 1) as u64, last_fired: Some(now), ..t }
    } else {
        t
    }
}

fn apply_eval(t: &mut GorillaTrigger, event_fires: bool, now: i64)
    requires
        old(t).fire_count < u64::MAX,
    ensures
        *final(t) == eval_step(*old(t), event_fires, now),
{
    if !t.enabled {
        return;
    }
    if t.max_fires > 0 && t.fire_count >= t.max_fires {
        t.enabled = false;
        return;
    }
    if event_fires {
        t.fire_count = t.fire_count + 1;
        t.last_fired = Some(now);
    }
}

/// The engine that keeps gorilla triggers and evaluates them against events.
pub struct GorillaTriggerEngine {
    triggers: Table<GorillaTrigger>,
    gorilla_index: Table<Vec<u128>>,
}

impl GorillaTriggerEngine {
    /// All triggers, keyed by trigger id, in registration order.
    pub closed spec fn triggers(&self) -> Table<GorillaTrigger> {
        self.triggers
    }

    /// The trigger ids registered for gorilla `g`, in registration order.
    pub closed spec fn ids_for(&self, g: u128) -> Seq<u128> {
        if self.gorilla_index.has(g) {
            self.gorilla_index.at(g)@
        } else {
            Seq::<u128>::empty()
        }
    }

    /// Both tables are well formed and every trigger is stored under its id.
    pub closed spec fn wf(&self) -> bool {
        &&& self.triggers.wf()
        &&& self.gorilla_index.wf()
        &&& forall|k: u128| self.triggers.has(k) ==> (#[trigger] self.triggers.at(k)).id.0 == k
    }

    /// Every key other than `k` keeps its presence and its trigger.
    pub open spec fn others_unchanged(before: Table<GorillaTrigger>, after: Table<GorillaTrigger>, k: u128) -> bool {
        &&& forall|j: u128| j != k ==> (after.has(j) == before.has(j))
        &&& forall|j: u128| j != k && before.has(j) ==> after.at(j) == before.at(j)
    }

    /// An engine with no triggers.
    pub fn new() -> (e: GorillaTriggerEngine)
        ensures
            e.wf(),
            e.triggers().len() == 0,
            forall|g: u128| e.ids_for(g) == Seq::<u128>::empty(),
    {
        GorillaTriggerEngine { triggers: Table::new(), gorilla_index: Table::new() }
    }

    /// Register a trigger under its id (replacing an earlier one with that id)
    /// and list it for its gorilla; returns its id.
    pub fn register(&mut self, trigger: GorillaTrigger) -> (r: GorillaTriggerId)
        requires
            old(self).wf(),
        ensures
            final(self).wf(),
            r == trigger.id,
            final(self).triggers().has(trigger.id.0),
            final(self).triggers().at(trigger.id.0) == trigger,
            Self::others_unchanged(old(self).triggers(), final(self).triggers(), trigger.id.0),
            final(self).ids_for(trigger.gorilla_id.0) == old(self).ids_for(trigger.gorilla_id.0).push(
                trigger.id.0,
            ),
            forall|g: u128| g != trigger.gorilla_id.0 ==> #[trigger] final(self).ids_for(g) == old(self).ids_for(g),
    {
        let id = trigger.id;
        let g = trigger.gorilla_id.0;
        let ghost t0 = self.triggers;
        self.triggers.insert(id.0, trigger);
        proof {
            lemma_table_insert(t0, self.triggers, id.0, trigger);
            assert forall|k: u128| self.triggers.has(k) implies (#[trigger] self.triggers.at(k)).id.0 == k by {
                if k != id.0 {
                    assert(t0.has(k));
                }
            }
        }
        let ghost i0 = self.gorilla_index;
        let mut list: Vec<u128> = match self.gorilla_index.get(g) {
            Some(v) => {
                let mut c: Vec<u128> = Vec::new();
                let mut j: usize = 0;
                while j < v.len()
                    invariant
                        j <= v@.len(),
                        c@ == v@.take(j as int),
                    decreases v@.len() - j,
                {
                    c.push(v[j]);
                    j = j + 1;
                    assert(c@ =~= v@.take(j as int));
                }
                assert(v@.take(v@.len() as int) =~= v@);
                c
            },
            None => Vec::new(),
        };
        list.push(id.0);
        let ghost l = list;
        self.gorilla_index.insert(g, list);
        proof {
            lemma_table_insert(i0, self.gorilla_index, g, l);
        }
        id
    }

    /// Remove a trigger and unlist it from its gorilla; unknown ids are ignored.
    pub fn remove(&mut self, trigger_id: &GorillaTriggerId)
        requires
            old(self).wf(),
        ensures
            final(self).wf(),
            !final(self).triggers().has(trigger_id.0),
            Self::others_unchanged(old(self).triggers(), final(self).triggers(), trigger_id.0),
            !old(self).triggers().has(trigger_id.0) ==> forall|g: u128| #[trigger] final(self).ids_for(g) == old(self).ids_for(g),
            old(self).triggers().has(trigger_id.0) ==> {
                let g0 = old(self).triggers().at(trigger_id.0).gorilla_id.0;
                &&& final(self).ids_for(g0) == old(self).ids_for(g0).filter(|x: u128| x != trigger_id.0)
                &&& forall|g: u128| g != g0 ==> #[trigger] final(self).ids_for(g) == old(self).ids_for(g)
            },
    {
        let ghost t0 = self.triggers;
        let removed = self.triggers.remove(trigger_id.0);
        proof {
            lemma_table_remove(t0, self.triggers, trigger_id.0);
            assert forall|k: u128| self.triggers.has(k) implies (#[trigger] self.triggers.at(k)).id.0 == k by {
                assert(t0.has(k));
            }
        }
        match removed {
            Some(t) => {
                let g = t.gorilla_id.0;
                match self.gorilla_index.find(g) {
                    Some(i) => {
                        let ghost pred = |x: u128| x != trigger_id.0;
                        let v = self.gorilla_index.val_at(i);
                        let mut kept: Vec<u128> = Vec::new();
                        let mut j: usize = 0;
                        while j < v.len()
                            invariant
                                j <= v@.len(),
                                pred == (|x: u128| x != trigger_id.0),
                                kept@ == v@.take(j as int).filter(pred),
                            decreases v@.len() - j,
                        {
                            proof {
                                lemma_filter_take_step(v@, j as int, pred);
                            }
                            if v[j] != trigger_id.0 {
                                kept.push(v[j]);
                            }
                            j = j + 1;
                        }
                        assert(v@.take(v@.len() as int) =~= v@);
                        let ghost i0 = self.gorilla_index;
                        let ghost kv = kept;
                        proof {
                            i0.lemma_wf();
                        }
                        self.gorilla_index.set_at(i, kept);
                        proof {
                            lemma_table_set(i0, self.gorilla_index, i as int, kv);
                        }
                    },
                    None => {},
                }
            },
            None => {},
        }
    }

    /// What `evaluate` does at `now` for event evaluator `ev`: every trigger
    /// takes one evaluation step, and the gorillas of the triggers that fired
    /// are returned, in registration order of the triggers.
    pub open spec fn evaluate_post<E: TriggerEvaluator>(
        old_e: GorillaTriggerEngine,
        new_e: GorillaTriggerEngine,
        ev: E,
        now: i64,
        r: Seq<GorillaId>,
    ) -> bool {
        let t0 = old_e.triggers();
        &&& forall|g: u128| #[trigger] new_e.ids_for(g) == old_e.ids_for(g)
        &&& new_e.triggers().key_seq() == t0.key_seq()
        &&& forall|k: u128| #[trigger] new_e.triggers().has(k) == t0.has(k)
        &&& forall|k: u128|
            t0.has(k) ==> #[trigger] new_e.triggers().at(k) == eval_step(t0.at(k), ev.fires(t0.at(k)), now)
        &&& r == t0.key_seq().filter(|k: u128| fires_now(t0.at(k), ev.fires(t0.at(k)))).map_values(
            |k: u128| t0.at(k).gorilla_id,
        )
    }

    /// Evaluate every trigger against an event at `now`; returns the gorillas
    /// to activate, one entry per trigger that fired.
    pub fn evaluate_at<E: TriggerEvaluator>(&mut self, evaluator: &E, now: i64) -> (r: Vec<GorillaId>)
        requires
            old(self).wf(),
            forall|k: u128| old(self).triggers().has(k) ==> (#[trigger] old(self).triggers().at(k)).fire_count < u64::MAX,
        ensures
            final(self).wf(),
            Self::evaluate_post(*old(self), *final(self), *evaluator, now, r@),
    {
        let ghost t0 = self.triggers;
        let ghost pred = |k: u128| fires_now(t0.at(k), evaluator.fires(t0.at(k)));
        let mut fired_keys: Vec<u128> = Vec::new();
        let mut fired: Vec<GorillaId> = Vec::new();
        let n = self.triggers.size();
        let mut i: usize = 0;
        proof {
            t0.lemma_wf();
            assert forall|k: u128| t0.has(k) implies (#[trigger] t0.at(k)).fire_count < u64::MAX by {
                assert(old(self).triggers().has(k));
            }
        }
        while i < n
            invariant
                self.wf(),
                t0.wf(),
                self.gorilla_index == old(self).gorilla_index,
                t0 == old(self).triggers,
                n == t0.len(),
                i <= n,
                pred == (|k: u128| fires_now(t0.at(k), evaluator.fires(t0.at(k)))),
                self.triggers.key_seq() == t0.key_seq(),
                fired_keys@ == t0.key_seq().take(i as int).filter(pred),
                fired@ == fired_keys@.map_values(|k: u128| t0.at(k).gorilla_id),
                forall|k: u128| t0.has(k) ==> (#[trigger] t0.at(k)).fire_count < u64::MAX,
                forall|j: int| i <= j < n ==> #[trigger] self.triggers.val_seq()[j] == t0.val_seq()[j],
                forall|j: int|
                    0 <= j < i ==> #[trigger] self.triggers.val_seq()[j] == eval_step(
                        t0.val_seq()[j],
                        evaluator.fires(t0.val_seq()[j]),
                        now,
                    ),
            decreases n - i,
        {
            proof {
                t0.lemma_wf();
                self.triggers.lemma_wf();
                lemma_filter_take_step(t0.key_seq(), i as int, pred);
                assert(t0.at(t0.key_seq()[i as int]) == t0.val_seq()[i as int]);
            }
            let t = self.triggers.val_at(i);
            let ev_fires = evaluator.should_fire(t);
            let hit = t.enabled && !(t.max_fires > 0 && t.fire_count >= t.max_fires) && ev_fires;
            let gid = t.gorilla_id;
            let k = self.triggers.key_at(i);
            let ghost before = self.triggers;
            proof {
                before.lemma_wf();
                assert(t0.has(k));
            }
            apply_eval(self.triggers.val_mut(i), ev_fires, now);
            proof {
                Table::lemma_wf_vals(before, self.triggers);
                lemma_table_set(before, self.triggers, i as int, self.triggers.val_seq()[i as int]);
                assert forall|kk: u128| self.triggers.has(kk) implies (#[trigger] self.triggers.at(kk)).id.0 == kk by {
                    assert(before.has(kk));
                    if kk == k {
                        assert(before.at(kk).id.0 == kk);
                    }
                }
            }
            if hit {
                fired_keys.push(k);
                fired.push(gid);
                proof {
                    assert(fired@ =~= fired_keys@.map_values(|k: u128| t0.at(k).gorilla_id));
                }
            }
            i = i + 1;
        }
        proof {
            assert(t0.key_seq().take(n as int) =~= t0.key_seq());
            self.triggers.lemma_wf();
            assert forall|k: u128| t0.has(k) implies #[trigger] self.triggers.at(k) == eval_step(
                t0.at(k),
                evaluator.fires(t0.at(k)),
                now,
            ) by {
                let p = t0.pos(k);
                assert(self.triggers.pos(k) == p);
            }
        }
        fired
    }

    /// Evaluate every trigger against an event now; see `evaluate_at`.
    pub fn evaluate<E: TriggerEvaluator>(&mut self, evaluator: &E) -> (r: Vec<GorillaId>)
        requires
            old(self).wf(),
            forall|k: u128| old(self).triggers().has(k) ==> (#[trigger] old(self).triggers().at(k)).fire_count < u64::MAX,
        ensures
            final(self).wf(),
            exists|now: i64| #[trigger] Self::evaluate_post(*old(self), *final(self), *evaluator, now, r@),
    {
        let now = now_ms();
        self.evaluate_at(evaluator, now)
    }

    /// Copies of the triggers listed for gorilla `gorilla_id` that are still
    /// registered, in registration order.
    pub fn get_triggers_for_gorilla(&self, gorilla_id: &GorillaId) -> (r: Vec<GorillaTrigger>)
        requires
            self.wf(),
        ensures
            ({
                let ids = self.ids_for(gorilla_id.0).filter(|k: u128| self.triggers().has(k));
                &&& r@.len() == ids.len()
                &&& forall|i: int| 0 <= i < ids.len() ==> same_trigger(#[trigger] r@[i], self.triggers().at(ids[i]))
            }),
    {
        let mut r: Vec<GorillaTrigger> = Vec::new();
        match self.gorilla_index.get(gorilla_id.0) {
            None => {
                proof {
                    reveal(Seq::filter);
                }
                r
            },
            Some(v) => {
                let ghost pred = |k: u128| self.triggers().has(k);
                let mut i: usize = 0;
                while i < v.len()
                    invariant
                        self.wf(),
                        v@ == self.ids_for(gorilla_id.0),
                        pred == (|k: u128| self.triggers().has(k)),
                        i <= v@.len(),
                        r@.len() == v@.take(i as int).filter(pred).len(),
                        forall|j: int|
                            0 <= j < r@.len() ==> same_trigger(
                                #[trigger] r@[j],
                                self.triggers().at(v@.take(i as int).filter(pred)[j]),
                            ),
                    decreases v@.len() - i,
                {
                    proof {
                        lemma_filter_take_step(v@, i as int, pred);
                    }
                    match self.triggers.get(v[i]) {
                        Some(t) => {
                            r.push(copy_trigger(t));
                        },
                        None => {},
                    }
                    i = i + 1;
                }
                assert(v@.take(v@.len() as int) =~= v@);
                r
            },
        }
    }

    /// A copy of the trigger `trigger_id`, if registered.
    pub fn get(&self, trigger_id: &GorillaTriggerId) -> (r: Option<GorillaTrigger>)
        requires
            self.wf(),
        ensures
            match r {
                Some(t) => self.triggers().has(trigger_id.0) && same_trigger(t, self.triggers().at(trigger_id.0)),
                None => !self.triggers().has(trigger_id.0),
            },
    {
        match self.triggers.get(trigger_id.0) {
            Some(t) => Some(copy_trigger(t)),
            None => None,
        }
    }

    /// Copies of all triggers, in registration order.
    pub fn list(&self) -> (r: Vec<GorillaTrigger>)
        requires
            self.wf(),
        ensures
            r@.len() == self.triggers().len(),
            forall|i: int| 0 <= i < r@.len() ==> same_trigger(#[trigger] r@[i], self.triggers().val_seq()[i]),
    {
        let mut r: Vec<GorillaTrigger> = Vec::new();
        let mut i: usize = 0;
        proof {
            self.triggers.lemma_wf();
        }
        while i < self.triggers.size()
            invariant
                self.wf(),
                i <= self.triggers().len(),
                r@.len() == i,
                forall|j: int| 0 <= j < i ==> same_trigger(#[trigger] r@[j], self.triggers().val_seq()[j]),
            decreases self.triggers().len() - i,
        {
            proof {
                self.triggers.lemma_wf();
            }
            r.push(copy_trigger(self.triggers.val_at(i)));
            i = i + 1;
        }
        r
    }

    /// Set whether a trigger is enabled.
    fn set_enabled(&mut self, trigger_id: &GorillaTriggerId, enabled: bool) -> (r: Result<(), TriggerError>)
        requires
            old(self).wf(),
        ensures
            final(self).wf(),
            forall|g: u128| #[trigger] final(self).ids_for(g) == old(self).ids_for(g),
            !old(self).triggers().has(trigger_id.0) ==> r == Err::<(), TriggerError>(
                TriggerError::NotFound(*trigger_id),
            ) && final(self).triggers() == old(self).triggers(),
            old(self).triggers().has(trigger_id.0) ==> r == Ok::<(), TriggerError>(()) && final(self).triggers().has(
                trigger_id.0,
            ) && final(self).triggers().at(trigger_id.0) == (GorillaTrigger {
                enabled,
                ..old(self).triggers().at(trigger_id.0)
            }) && Self::others_unchanged(old(self).triggers(), final(self).triggers(), trigger_id.0),
    {
        match self.triggers.find(trigger_id.0) {
            None => Err(TriggerError::NotFound(*trigger_id)),
            Some(i) => {
                let ghost t0 = self.triggers;
                proof {
                    t0.lemma_wf();
                }
                self.triggers.val_mut(i).enabled = enabled;
                proof {
                    Table::lemma_wf_vals(t0, self.triggers);
                    lemma_table_set(t0, self.triggers, i as int, self.triggers.val_seq()[i as int]);
                    assert forall|k: u128| self.triggers.has(k) implies (#[trigger] self.triggers.at(k)).id.0 == k by {
                        assert(t0.has(k));
                        if k == trigger_id.0 {
                            assert(t0.at(k).id.0 == k);
                        }
                    }
                }
                Ok(())
            },
        }
    }

    /// Enable a trigger.
    pub fn enable(&mut self, trigger_id: &GorillaTriggerId) -> (r: Result<(), TriggerError>)
        requires
            old(self).wf(),
        ensures
            final(self).wf(),
            !old(self).triggers().has(trigger_id.0) ==> r == Err::<(), TriggerError>(
                TriggerError::NotFound(*trigger_id),
            ) && final(self).triggers() == old(self).triggers(),
            old(self).triggers().has(trigger_id.0) ==> r == Ok::<(), TriggerError>(()) && final(self).triggers().has(
                trigger_id.0,
            ) && final(self).triggers().at(trigger_id.0) == (GorillaTrigger {
                enabled: true,
                ..old(self).triggers().at(trigger_id.0)
            }) && Self::others_unchanged(old(self).triggers(), final(self).triggers(), trigger_id.0),
    {
        self.set_enabled(trigger_id, true)
    }

    /// Disable a trigger.
    pub fn disable(&mut self, trigger_id: &GorillaTriggerId) -> (r: Result<(), TriggerError>)
        requires
            old(self).wf(),
        ensures
            final(self).wf(),
            !old(self).triggers().has(trigger_id.0) ==> r == Err::<(), TriggerError>(
                TriggerError::NotFound(*trigger_id),
            ) && final(self).triggers() == old(self).triggers(),
            old(self).triggers().has(trigger_id.0) ==> r == Ok::<(), TriggerError>(()) && final(self).triggers().has(
                trigger_id.0,
            ) && final(self).triggers().at(trigger_id.0) == (GorillaTrigger {
                enabled: false,
                ..old(self).triggers().at(trigger_id.0)
            }) && Self::others_unchanged(old(self).triggers(), final(self).triggers(), trigger_id.0),
    {
        self.set_enabled(trigger_id, false)
    }
}

impl Default for GorillaTriggerEngine {
    /// An engine with no triggers.
    fn default() -> (e: GorillaTriggerEngine)
        ensures
            e.wf(),
            e.triggers().len() == 0,
    {
        GorillaTriggerEngine::new()
    }
}

/// A trigger for `gorilla_id` named `name`, created at `now`: enabled, never
/// fired, without a fire limit.
pub fn new_trigger_at(gorilla_id: GorillaId, name: &str, trigger_type: TriggerType, now: i64) -> (t: GorillaTrigger)
    ensures
        t.id.0 != 0,
        t.gorilla_id == gorilla_id,
        t.name@ == name@,
        t.trigger_type == trigger_type,
        t.enabled,
        t.created_at == now,
        t.fire_count == 0,
        t.max_fires == 0,
        t.last_fired is None,
{
    GorillaTrigger {
        id: GorillaTriggerId::new(),
        gorilla_id,
        name: crate::text::to_owned_string(name),
        trigger_type,
        enabled: true,
        created_at: now,
        fire_count: 0,
        max_fires: 0,
        last_fired: None,
    }
}

/// A trigger for `gorilla_id` named `name`, created now: enabled, never
/// fired, without a fire limit.
pub fn new_trigger(gorilla_id: GorillaId, name: &str, trigger_type: TriggerType) -> (t: GorillaTrigger)
    ensures
        t.id.0 != 0,
        t.gorilla_id == gorilla_id,
        t.name@ == name@,
        t.trigger_type == trigger_type,
        t.enabled,
        t.fire_count == 0,
        t.max_fires == 0,
        t.last_fired is None,
{
    new_trigger_at(gorilla_id, name, trigger_type, now_ms())
}

/// Fire limits are respected: a trigger fires only while enabled and below
/// its limit, an evaluation never takes its fire count past the limit, and a
/// disabled trigger is left as it is.
pub proof fn lemma_fire_limit(t: GorillaTrigger, event_fires: bool, now: i64)
    requires
        t.fire_count < u64::MAX,
    ensures
        fires_now(t, event_fires) ==> t.enabled && (t.max_fires == 0 || t.fire_count < t.max_fires),
        t.max_fires > 0 && t.fire_count <= t.max_fires ==> eval_step(t, event_fires, now).fire_count <= t.max_fires,
        !t.enabled ==> eval_step(t, event_fires, now) == t && !fires_now(t, event_fires),
        eval_step(t, event_fires, now).fire_count == if fires_now(t, event_fires) {
            t.fire_count + 1
        } else {
            t.fire_count as int
        },
{
}

} // verus!
