//! The kernel's trigger engine: triggers that fire actions on a schedule,
//! on keywords in messages, on system events, or on webhooks, each with an
//! optional limit on how often it fires.
use vstd::prelude::*;

use crate::duration::Duration;
use crate::ids::{FighterId, GorillaId, new_uuid};
use crate::table::{Table, lemma_table_insert, lemma_table_remove, lemma_table_set};
use crate::text::{
    chars_eq, chars_of, contains_chars, contains_seq, decimal, join_chars, joined, lowercase, put, put_u64,
    string_from_chars, to_lowercase_chars, to_owned_string,
};

verus! {

/// Unique identifier of a trigger.
#[derive(Debug, Clone, Copy, PartialEq, Eq, Hash, Structural)]
pub struct TriggerId(pub u128);

impl TriggerId {
    /// The id as UUID text (`Display`).
    pub fn to_string(&self) -> (s: String)
        ensures
            s@ == crate::ids::uuid_text(self.0),
    {
        crate::ids::uuid_string(self.0)
    }

    /// A new random trigger id.
    pub fn new() -> (id: TriggerId)
        ensures
            id.0 != 0,
    {
        TriggerId(new_uuid())
    }
}

impl Default for TriggerId {
    /// A new random trigger id.
    fn default() -> (id: TriggerId)
        ensures
            id.0 != 0,
    {
        TriggerId::new()
    }
}

/// What kind of condition activates a trigger.
#[derive(Debug, Clone)]
pub enum TriggerCondition {
    /// Fire every `interval_secs` seconds.
    Schedule { interval_secs: u64 },
    /// Fire when a message contains one of the keywords (any case).
    Keyword { keywords: Vec<String> },
    /// Fire on events of a kind (`*` for any).
    Event { event_kind: String },
    /// Fire when a webhook is received.
    Webhook { secret: Option<String> },
}

/// What a trigger does when it fires.
#[derive(Debug, Clone)]
pub enum TriggerAction {
    /// Spawn a fighter from a template.
    SpawnFighter { template_name: String },
    /// Send a message to a fighter.
    SendMessage { fighter_id: FighterId, message: String },
    /// Execute a workflow.
    ExecuteWorkflow { workflow_id: String, input: String },
    /// Run one tick of a gorilla.
    RunGorilla { gorilla_id: GorillaId },
    /// Log a message.
    Log { message: String },
}

/// A registered trigger.
#[derive(Debug, Clone)]
pub struct Trigger {
    /// Unique id.
    pub id: TriggerId,
    /// Human-readable name.
    pub name: String,
    /// What activates it.
    pub condition: TriggerCondition,
    /// What it does.
    pub action: TriggerAction,
    /// Whether it is active.
    pub enabled: bool,
    /// When it was created (milliseconds since the Unix epoch).
    pub created_at: i64,
    /// How many times it has fired.
    pub fire_count: u64,
    /// How many times it may fire (0 = unlimited).
    pub max_fires: u64,
}

/// Summary of a trigger, for listing.
#[derive(Debug, Clone)]
pub struct TriggerSummary {
    /// Human-readable name.
    pub name: String,
    /// Description of the condition.
    pub condition_type: String,
    /// Whether it is active.
    pub enabled: bool,
    /// How many times it has fired.
    pub fire_count: u64,
    /// When it was created.
    pub created_at: i64,
}

/// The kind of a system event, as triggers match it.
#[derive(Debug, Clone, Copy, PartialEq, Eq, Structural)]
pub enum EventKind {
    FighterSpawned,
    FighterMessage,
    GorillaUnleashed,
    GorillaPaused,
    ToolExecuted,
    BoutStarted,
    BoutEnded,
    ComboTriggered,
    TroopFormed,
    TroopDisbanded,
    Error,
}

/// The name of an event kind.
pub open spec fn event_kind_text(k: EventKind) -> Seq<char> {
    match k {
        EventKind::FighterSpawned => "fighter_spawned"@,
        EventKind::FighterMessage => "fighter_message"@,
        EventKind::GorillaUnleashed => "gorilla_unleashed"@,
        EventKind::GorillaPaused => "gorilla_paused"@,
        EventKind::ToolExecuted => "tool_executed"@,
        EventKind::BoutStarted => "bout_started"@,
        EventKind::BoutEnded => "bout_ended"@,
        EventKind::ComboTriggered => "combo_triggered"@,
        EventKind::TroopFormed => "troop_formed"@,
        EventKind::TroopDisbanded => "troop_disbanded"@,
        EventKind::Error => "error"@,
    }
}

/// The name of an event kind.
pub fn event_kind_string(k: EventKind) -> (s: &'static str)
    ensures
        s@ == event_kind_text(k),
{
    match k {
        EventKind::FighterSpawned => "fighter_spawned",
        EventKind::FighterMessage => "fighter_message",
        EventKind::GorillaUnleashed => "gorilla_unleashed",
        EventKind::GorillaPaused => "gorilla_paused",
        EventKind::ToolExecuted => "tool_executed",
        EventKind::BoutStarted => "bout_started",
        EventKind::BoutEnded => "bout_ended",
        EventKind::ComboTriggered => "combo_triggered",
        EventKind::TroopFormed => "troop_formed",
        EventKind::TroopDisbanded => "troop_disbanded",
        EventKind::Error => "error",
    }
}

/// The views of strings.
pub open spec fn views(s: Seq<String>) -> Seq<Seq<char>> {
    s.map_values(|t: String| t@)
}

/// The trigger has used up its fires.
pub open spec fn exhausted(t: Trigger) -> bool {
    t.max_fires > 0 && t.fire_count >= t.max_fires
}

/// One trigger's step when a check runs: a disabled trigger stays as it
/// is; an exhausted one is disabled; one whose condition `fires` accepts
/// counts a fire and is reported.
pub open spec fn check_step(t: Trigger, fires: spec_fn(TriggerCondition) -> bool) -> (Trigger, bool) {
    if !t.enabled {
        (t, false)
    } else if exhausted(t) {
        (Trigger { enabled: false, ..t }, false)
    } else if fires(t.condition) {
        (Trigger { fire_count: t.fire_count.wrapping_add(1), ..t }, true)
    } else {
        (t, false)
    }
}

/// A trigger limited to `max_fires` never fires past its limit: a check
/// step keeps its fire count within the limit, and a trigger at its limit
/// does not fire (it is disabled instead).
pub proof fn lemma_fire_limit(t: Trigger, fires: spec_fn(TriggerCondition) -> bool)
    requires
        t.max_fires > 0,
        t.fire_count <= t.max_fires,
    ensures
        check_step(t, fires).0.fire_count <= t.max_fires,
        t.fire_count == t.max_fires ==> !check_step(t, fires).1,
        check_step(t, fires).0.max_fires == t.max_fires,
{
}

/// The ids of the triggers among `ts` that fire, in order.
pub open spec fn fired_ids(ts: Seq<Trigger>, fires: spec_fn(TriggerCondition) -> bool) -> Seq<TriggerId>
    decreases ts.len(),
{
    if ts.len() == 0 {
        Seq::empty()
    } else if check_step(ts.last(), fires).1 {
        fired_ids(ts.drop_last(), fires).push(ts.last().id)
    } else {
        fired_ids(ts.drop_last(), fires)
    }
}

/// The condition is a keyword condition with a keyword whose lower-case
/// form occurs in `lower_msg`.
pub open spec fn keyword_fires(lower_msg: Seq<char>) -> spec_fn(TriggerCondition) -> bool {
    |c: TriggerCondition|
        match c {
            TriggerCondition::Keyword { keywords } => exists|i: int|
                0 <= i < keywords@.len() && contains_seq(lower_msg, lowercase(#[trigger] keywords@[i]@)),
            _ => false,
        }
}

/// The condition is an event condition for `kind` or for any event.
pub open spec fn event_fires(kind: Seq<char>) -> spec_fn(TriggerCondition) -> bool {
    |c: TriggerCondition|
        match c {
            TriggerCondition::Event { event_kind } => event_kind@ == "*"@ || event_kind@ == kind,
            _ => false,
        }
}

/// The enabled schedule triggers among `ts` (keyed by `ks`) with their
/// intervals, in order.
pub open spec fn schedule_list(ks: Seq<u128>, ts: Seq<Trigger>) -> Seq<(TriggerId, Duration)>
    decreases ts.len(),
{
    if ts.len() == 0 || ks.len() != ts.len() {
        Seq::empty()
    } else {
        let prev = schedule_list(ks.drop_last(), ts.drop_last());
        if ts.last().enabled && ts.last().condition is Schedule {
            prev.push((TriggerId(ks.last()), Duration { secs: ts.last().condition->interval_secs, nanos: 0 }))
        } else {
            prev
        }
    }
}

/// The description of a condition in a summary.
pub open spec fn condition_text(c: TriggerCondition) -> Seq<char> {
    match c {
        TriggerCondition::Schedule { interval_secs } => "schedule("@ + decimal(interval_secs as nat) + "s)"@,
        TriggerCondition::Keyword { keywords } => "keyword("@ + joined(views(keywords@), ", "@) + ")"@,
        TriggerCondition::Event { event_kind } => "event("@ + event_kind@ + ")"@,
        TriggerCondition::Webhook { .. } => "webhook"@,
    }
}

/// A copy of an action.
fn copy_action(a: &TriggerAction) -> (r: TriggerAction)
    ensures
        r == *a || match (r, *a) {
            (TriggerAction::SpawnFighter { template_name: x }, TriggerAction::SpawnFighter { template_name: y }) => x@
                == y@,
            (
                TriggerAction::SendMessage { fighter_id: f1, message: m1 },
                TriggerAction::SendMessage { fighter_id: f2, message: m2 },
            ) => f1 == f2 && m1@ == m2@,
            (
                TriggerAction::ExecuteWorkflow { workflow_id: w1, input: i1 },
                TriggerAction::ExecuteWorkflow { workflow_id: w2, input: i2 },
            ) => w1@ == w2@ && i1@ == i2@,
            (TriggerAction::Log { message: m1 }, TriggerAction::Log { message: m2 }) => m1@ == m2@,
            _ => false,
        },
{
    match a {
        TriggerAction::SpawnFighter { template_name } => TriggerAction::SpawnFighter {
            template_name: template_name.clone(),
        },
        TriggerAction::SendMessage { fighter_id, message } => TriggerAction::SendMessage {
            fighter_id: *fighter_id,
            message: message.clone(),
        },
        TriggerAction::ExecuteWorkflow { workflow_id, input } => TriggerAction::ExecuteWorkflow {
            workflow_id: workflow_id.clone(),
            input: input.clone(),
        },
        TriggerAction::RunGorilla { gorilla_id } => TriggerAction::RunGorilla { gorilla_id: *gorilla_id },
        TriggerAction::Log { message } => TriggerAction::Log { message: message.clone() },
    }
}

/// Event-to-action routing.
pub struct TriggerEngine {
    triggers: Table<Trigger>,
}

impl TriggerEngine {
    /// The triggers by id, in registration order.
    pub closed spec fn table(&self) -> Table<Trigger> {
        self.triggers
    }

    /// The table is well formed and each trigger is stored under its id.
    pub closed spec fn wf(&self) -> bool {
        &&& self.triggers.wf()
        &&& forall|i: int|
            0 <= i < self.triggers.val_seq().len() ==> (#[trigger] self.triggers.val_seq()[i]).id.0
                == self.triggers.key_seq()[i]
    }

    /// An engine with no triggers.
    pub fn new() -> (e: TriggerEngine)
        ensures
            e.wf(),
            e.table().len() == 0,
    {
        TriggerEngine { triggers: Table::new() }
    }

    /// Register a trigger under its id (replacing one with the same id).
    pub fn register_trigger(&mut self, trigger: Trigger) -> (id: TriggerId)
        requires
            old(self).wf(),
        ensures
            final(self).wf(),
            id == trigger.id,
            final(self).table().has(id.0),
            final(self).table().at(id.0) == trigger,
            forall|j: u128| j != id.0 ==> (#[trigger] final(self).table().has(j) == old(self).table().has(j)),
            forall|j: u128| j != id.0 && old(self).table().has(j) ==> #[trigger] final(self).table().at(j) == old(
                self,
            ).table().at(j),
    {
        let id = trigger.id;
        let ghost t0 = self.triggers;
        proof {
            t0.lemma_wf();
        }
        self.triggers.insert(id.0, trigger);
        proof {
            lemma_table_insert(t0, self.triggers, id.0, trigger);
            self.triggers.lemma_wf();
            assert forall|i: int| 0 <= i < self.triggers.val_seq().len() implies (
            #[trigger] self.triggers.val_seq()[i]).id.0 == self.triggers.key_seq()[i] by {
                let k = self.triggers.key_seq()[i];
                assert(self.triggers.pos(k) == i);
                if k != id.0 {
                    assert(t0.has(k));
                    assert(t0.key_seq()[t0.pos(k)] == k);
                }
            }
        }
        id
    }

    /// Remove a trigger.
    pub fn remove_trigger(&mut self, id: &TriggerId)
        requires
            old(self).wf(),
        ensures
            final(self).wf(),
            !final(self).table().has(id.0),
            forall|j: u128| j != id.0 ==> (#[trigger] final(self).table().has(j) == old(self).table().has(j)),
            forall|j: u128| j != id.0 && old(self).table().has(j) ==> #[trigger] final(self).table().at(j) == old(
                self,
            ).table().at(j),
    {
        let ghost t0 = self.triggers;
        proof {
            t0.lemma_wf();
        }
        let _ = self.triggers.remove(id.0);
        proof {
            lemma_table_remove(t0, self.triggers, id.0);
            self.triggers.lemma_wf();
            assert forall|i: int| 0 <= i < self.triggers.val_seq().len() implies (
            #[trigger] self.triggers.val_seq()[i]).id.0 == self.triggers.key_seq()[i] by {
                let k = self.triggers.key_seq()[i];
                assert(self.triggers.pos(k) == i);
                assert(t0.has(k));
                assert(t0.key_seq()[t0.pos(k)] == k);
            }
        }
    }

    /// A trigger by id.
    pub fn get_trigger(&self, id: &TriggerId) -> (r: Option<&Trigger>)
        requires
            self.wf(),
        ensures
            match r {
                Some(t) => self.table().has(id.0) && *t == self.table().at(id.0),
                None => !self.table().has(id.0),
            },
    {
        self.triggers.get(id.0)
    }

    /// The description of a trigger's condition.
    fn condition_string(c: &TriggerCondition) -> (s: String)
        ensures
            s@ == condition_text(*c),
    {
        let mut out: Vec<char> = Vec::new();
        match c {
            TriggerCondition::Schedule { interval_secs } => {
                put(&mut out, "schedule(");
                put_u64(&mut out, *interval_secs);
                put(&mut out, "s)");
            },
            TriggerCondition::Keyword { keywords } => {
                let mut parts: Vec<Vec<char>> = Vec::new();
                let mut i: usize = 0;
                while i < keywords.len()
                    invariant
                        i <= keywords@.len(),
                        parts@.map_values(|q: Vec<char>| q@) == views(keywords@).take(i as int),
                    decreases keywords@.len() - i,
                {
                    let c = chars_of(keywords[i].as_str());
                    assert(c@ == views(keywords@)[i as int]);
                    let ghost p0 = parts@;
                    parts.push(c);
                    assert(parts@.map_values(|q: Vec<char>| q@) =~= p0.map_values(|q: Vec<char>| q@).push(c@));
                    i = i + 1;
                    assert(views(keywords@).take(i as int) =~= views(keywords@).take(i - 1).push(c@));
                }
                assert(views(keywords@).take(keywords@.len() as int) =~= views(keywords@));
                let sep = chars_of(", ");
                let j = join_chars(&parts, &sep);
                put(&mut out, "keyword(");
                crate::text::append_chars(&mut out, j.as_slice());
                put(&mut out, ")");
            },
            TriggerCondition::Event { event_kind } => {
                put(&mut out, "event(");
                put(&mut out, event_kind.as_str());
                put(&mut out, ")");
            },
            TriggerCondition::Webhook { .. } => {
                put(&mut out, "webhook");
            },
        }
        string_from_chars(out.as_slice())
    }

    /// Every trigger's id and summary, in registration order.
    pub fn list_triggers(&self) -> (r: Vec<(TriggerId, TriggerSummary)>)
        requires
            self.wf(),
        ensures
            r@.len() == self.table().len(),
            forall|i: int|
                0 <= i < r@.len() ==> {
                    let t = self.table().val_seq()[i];
                    &&& (#[trigger] r@[i]).0 == TriggerId(self.table().key_seq()[i])
                    &&& r@[i].1.name@ == t.name@
                    &&& r@[i].1.condition_type@ == condition_text(t.condition)
                    &&& r@[i].1.enabled == t.enabled
                    &&& r@[i].1.fire_count == t.fire_count
                    &&& r@[i].1.created_at == t.created_at
                },
    {
        let mut r: Vec<(TriggerId, TriggerSummary)> = Vec::new();
        let mut i: usize = 0;
        proof {
            self.triggers.lemma_wf();
        }
        while i < self.triggers.size()
            invariant
                self.wf(),
                i <= self.table().len(),
                self.table().key_seq().len() == self.table().val_seq().len(),
                r@.len() == i,
                forall|j: int|
                    0 <= j < i ==> {
                        let t = self.table().val_seq()[j];
                        &&& (#[trigger] r@[j]).0 == TriggerId(self.table().key_seq()[j])
                        &&& r@[j].1.name@ == t.name@
                        &&& r@[j].1.condition_type@ == condition_text(t.condition)
                        &&& r@[j].1.enabled == t.enabled
                        &&& r@[j].1.fire_count == t.fire_count
                        &&& r@[j].1.created_at == t.created_at
                    },
            decreases self.table().len() - i,
        {
            let k = self.triggers.key_at(i);
            let t = self.triggers.val_at(i);
            let s = TriggerSummary {
                name: t.name.clone(),
                condition_type: Self::condition_string(&t.condition),
                enabled: t.enabled,
                fire_count: t.fire_count,
                created_at: t.created_at,
            };
            r.push((TriggerId(k), s));
            i = i + 1;
        }
        r
    }

    /// Apply one check step to the trigger at position `i`; returns whether
    /// it fired, given whether its condition matches.
    fn step_at(&mut self, i: usize, matches: bool, Ghost(fires): Ghost<spec_fn(TriggerCondition) -> bool>) -> (fired: bool)
        requires
            old(self).wf(),
            i < old(self).table().len(),
            matches == fires(old(self).table().val_seq()[i as int].condition),
        ensures
            final(self).wf(),
            final(self).table().key_seq() == old(self).table().key_seq(),
            final(self).table().val_seq() == old(self).table().val_seq().update(
                i as int,
                check_step(old(self).table().val_seq()[i as int], fires).0,
            ),
            fired == check_step(old(self).table().val_seq()[i as int], fires).1,
    {
        let ghost t0 = self.triggers;
        proof {
            t0.lemma_wf();
        }
        let t = self.triggers.val_mut(i);
        let fired = if !t.enabled {
            false
        } else if t.max_fires > 0 && t.fire_count >= t.max_fires {
            t.enabled = false;
            false
        } else if matches {
            t.fire_count = t.fire_count.wrapping_add(1);
            true
        } else {
            false
        };
        proof {
            Table::lemma_wf_vals(t0, self.triggers);
            assert forall|j: int| 0 <= j < self.triggers.val_seq().len() implies (
            #[trigger] self.triggers.val_seq()[j]).id.0 == self.triggers.key_seq()[j] by {
                if j != i {
                    assert(self.triggers.val_seq()[j] == t0.val_seq()[j]);
                }
            }
        }
        fired
    }

    /// Run a check over all triggers with a condition test: each trigger
    /// takes its check step; returns the ids of those that fired.
    pub open spec fn checked(&self, fires: spec_fn(TriggerCondition) -> bool) -> Seq<Trigger> {
        self.table().val_seq().map_values(|t: Trigger| check_step(t, fires).0)
    }

    /// Fire the keyword triggers matching `message` (compared in lower
    /// case): exhausted triggers are disabled on the way; returns the ids of
    /// the triggers that fired, in registration order.
    pub fn check_keyword(&mut self, message: &str) -> (r: Vec<TriggerId>)
        requires
            old(self).wf(),
        ensures
            final(self).wf(),
            final(self).table().key_seq() == old(self).table().key_seq(),
            final(self).table().val_seq() == old(self).checked(keyword_fires(lowercase(message@))),
            r@ == fired_ids(old(self).table().val_seq(), keyword_fires(lowercase(message@))),
    {
        let mv = chars_of(message);
        let lower = to_lowercase_chars(mv.as_slice());
        let ghost fires = keyword_fires(lowercase(message@));
        let ghost t0 = self.triggers;
        let mut r: Vec<TriggerId> = Vec::new();
        let mut i: usize = 0;
        proof {
            t0.lemma_wf();
        }
        while i < self.triggers.size()
            invariant
                self.wf(),
                t0.wf(),
                lower@ == lowercase(message@),
                fires == keyword_fires(lowercase(message@)),
                t0 == old(self).triggers,
                i <= t0.len(),
                self.triggers.key_seq() == t0.key_seq(),
                t0.key_seq().len() == t0.val_seq().len(),
                self.triggers.val_seq().len() == t0.val_seq().len(),
                forall|j: int| 0 <= j < i ==> #[trigger] self.triggers.val_seq()[j] == check_step(t0.val_seq()[j], fires).0,
                forall|j: int| i <= j < t0.val_seq().len() ==> #[trigger] self.triggers.val_seq()[j] == t0.val_seq()[j],
                r@ == fired_ids(t0.val_seq().take(i as int), fires),
            decreases t0.len() - i,
        {
            proof {
                self.triggers.lemma_wf();
            }
            let matches = match &self.triggers.val_at(i).condition {
                TriggerCondition::Keyword { keywords } => {
                    let mut any = false;
                    let mut k: usize = 0;
                    while k < keywords.len()
                        invariant
                            k <= keywords@.len(),
                            !any ==> forall|q: int| 0 <= q < k ==> !contains_seq(lower@, lowercase(#[trigger] keywords@[q]@)),
                            any ==> exists|q: int| 0 <= q < keywords@.len() && contains_seq(lower@, lowercase(#[trigger] keywords@[q]@)),
                        decreases keywords@.len() - k,
                    {
                        let kv = chars_of(keywords[k].as_str());
                        let kl = to_lowercase_chars(kv.as_slice());
                        if contains_chars(lower.as_slice(), kl.as_slice()) {
                            any = true;
                            assert(contains_seq(lower@, lowercase(keywords@[k as int]@)));
                        }
                        k = k + 1;
                    }
                    any
                },
                _ => false,
            };
            let id = self.triggers.val_at(i).id;
            assert(matches == fires(t0.val_seq()[i as int].condition));
            let fired = self.step_at(i, matches, Ghost(fires));
            proof {
                assert(t0.val_seq().take(i + 1).drop_last() =~= t0.val_seq().take(i as int));
            }
            if fired {
                r.push(id);
            }
            i = i + 1;
        }
        proof {
            assert(t0.val_seq().take(t0.len() as int) =~= t0.val_seq());
            assert(self.triggers.val_seq() =~= old(self).checked(fires));
        }
        r
    }

    /// Fire the event triggers matching events of `kind` (or any event):
    /// exhausted triggers are disabled on the way; returns the ids of the
    /// triggers that fired, in registration order.
    pub fn check_event(&mut self, kind: EventKind) -> (r: Vec<TriggerId>)
        requires
            old(self).wf(),
        ensures
            final(self).wf(),
            final(self).table().key_seq() == old(self).table().key_seq(),
            final(self).table().val_seq() == old(self).checked(event_fires(event_kind_text(kind))),
            r@ == fired_ids(old(self).table().val_seq(), event_fires(event_kind_text(kind))),
    {
        let kv = chars_of(event_kind_string(kind));
        let star = chars_of("*");
        let ghost fires = event_fires(event_kind_text(kind));
        let ghost t0 = self.triggers;
        let mut r: Vec<TriggerId> = Vec::new();
        let mut i: usize = 0;
        proof {
            t0.lemma_wf();
        }
        while i < self.triggers.size()
            invariant
                self.wf(),
                t0.wf(),
                kv@ == event_kind_text(kind),
                star@ == "*"@,
                fires == event_fires(event_kind_text(kind)),
                t0 == old(self).triggers,
                i <= t0.len(),
                self.triggers.key_seq() == t0.key_seq(),
                t0.key_seq().len() == t0.val_seq().len(),
                self.triggers.val_seq().len() == t0.val_seq().len(),
                forall|j: int| 0 <= j < i ==> #[trigger] self.triggers.val_seq()[j] == check_step(t0.val_seq()[j], fires).0,
                forall|j: int| i <= j < t0.val_seq().len() ==> #[trigger] self.triggers.val_seq()[j] == t0.val_seq()[j],
                r@ == fired_ids(t0.val_seq().take(i as int), fires),
            decreases t0.len() - i,
        {
            proof {
                self.triggers.lemma_wf();
            }
            let matches = match &self.triggers.val_at(i).condition {
                TriggerCondition::Event { event_kind } => {
                    let ev = chars_of(event_kind.as_str());
                    chars_eq(ev.as_slice(), star.as_slice()) || chars_eq(ev.as_slice(), kv.as_slice())
                },
                _ => false,
            };
            let id = self.triggers.val_at(i).id;
            assert(matches == fires(t0.val_seq()[i as int].condition));
            let fired = self.step_at(i, matches, Ghost(fires));
            proof {
                assert(t0.val_seq().take(i + 1).drop_last() =~= t0.val_seq().take(i as int));
            }
            if fired {
                r.push(id);
            }
            i = i + 1;
        }
        proof {
            assert(t0.val_seq().take(t0.len() as int) =~= t0.val_seq());
            assert(self.triggers.val_seq() =~= old(self).checked(fires));
        }
        r
    }

    /// The enabled schedule triggers and their intervals, in registration
    /// order.
    pub fn get_schedule_triggers(&self) -> (r: Vec<(TriggerId, Duration)>)
        requires
            self.wf(),
        ensures
            r@ == schedule_list(self.table().key_seq(), self.table().val_seq()),
    {
        let mut r: Vec<(TriggerId, Duration)> = Vec::new();
        let mut i: usize = 0;
        proof {
            self.triggers.lemma_wf();
        }
        let ghost ks = self.table().key_seq();
        let ghost ts = self.table().val_seq();
        while i < self.triggers.size()
            invariant
                self.wf(),
                ks == self.table().key_seq(),
                ts == self.table().val_seq(),
                i <= self.table().len(),
                ks.len() == ts.len(),
                r@ == schedule_list(ks.take(i as int), ts.take(i as int)),
            decreases self.table().len() - i,
        {
            assert(ks.take(i + 1).drop_last() =~= ks.take(i as int));
            assert(ts.take(i + 1).drop_last() =~= ts.take(i as int));
            let k = self.triggers.key_at(i);
            let t = self.triggers.val_at(i);
            if t.enabled {
                match &t.condition {
                    TriggerCondition::Schedule { interval_secs } => {
                        r.push((TriggerId(k), Duration::from_secs(*interval_secs)));
                    },
                    _ => {},
                }
            }
            i = i + 1;
        }
        assert(ks.take(ks.len() as int) =~= ks);
        assert(ts.take(ts.len() as int) =~= ts);
        r
    }

    /// The action of a webhook trigger, counting a fire; `None` if there is
    /// no such trigger, it is disabled or not a webhook trigger, or it has
    /// used up its fires (it is then disabled).
    pub fn check_webhook(&mut self, id: &TriggerId) -> (r: Option<TriggerAction>)
        requires
            old(self).wf(),
        ensures
            final(self).wf(),
            final(self).table().key_seq() == old(self).table().key_seq(),
            !old(self).table().has(id.0) ==> r.is_none() && final(self).table() == old(self).table(),
            old(self).table().has(id.0) ==> {
                let t = old(self).table().at(id.0);
                let step = check_step(t, |c: TriggerCondition| c is Webhook);
                &&& final(self).table().val_seq() == old(self).table().val_seq().update(
                    old(self).table().pos(id.0),
                    step.0,
                )
                &&& r.is_some() == step.1
            },
    {
        match self.triggers.find(id.0) {
            None => None,
            Some(i) => {
                let is_webhook = match &self.triggers.val_at(i).condition {
                    TriggerCondition::Webhook { .. } => true,
                    _ => false,
                };
                let fired = self.step_at(i, is_webhook, Ghost(|c: TriggerCondition| c is Webhook));
                if fired {
                    proof {
                        self.triggers.lemma_wf();
                    }
                    Some(copy_action(&self.triggers.val_at(i).action))
                } else {
                    None
                }
            },
        }
    }
}

impl Default for TriggerEngine {
    /// An engine with no triggers.
    fn default() -> (e: TriggerEngine)
        ensures
            e.wf(),
            e.table().len() == 0,
    {
        TriggerEngine::new()
    }
}

} // verus!
