//! Hot reload of the configuration: which changes can be applied live and
//! which need a restart, and the decisions of the poll loop that watches
//! the configuration file.
use vstd::prelude::*;

use crate::text::{chars_eq, chars_of, to_owned_string};

verus! {

/// One difference between two configurations.
#[derive(Debug, Clone)]
pub enum ConfigChange {
    /// The rate limit (requests per minute) changed.
    RateLimitChanged { old: u32, new: u32 },
    /// The default model changed.
    ModelChanged { old_model: String, new_model: String },
    /// A channel was added.
    ChannelAdded(String),
    /// A channel was removed.
    ChannelRemoved(String),
    /// An MCP server was added.
    McpServerAdded(String),
    /// An MCP server was removed.
    McpServerRemoved(String),
    /// The memory configuration changed.
    MemoryConfigChanged,
    /// The API listen address changed (needs a restart).
    ListenAddressChanged { old: String, new: String },
    /// The API key changed (needs a restart).
    ApiKeyChanged,
}

/// Summary of what changed between two configurations.
#[derive(Debug, Clone)]
pub struct KernelConfigDiff {
    /// Whether rate limit settings changed.
    pub rate_limit_changed: bool,
    /// Whether the default model changed.
    pub model_changed: bool,
    /// Channel names that were added or removed, each once.
    pub channels_changed: Vec<String>,
    /// MCP server names that were added or removed, each once.
    pub mcp_servers_changed: Vec<String>,
    /// Whether the memory configuration changed.
    pub memory_changed: bool,
    /// Fields that changed but need a restart to take effect.
    pub requires_restart: Vec<String>,
}

impl Default for KernelConfigDiff {
    /// Nothing changed.
    fn default() -> (d: KernelConfigDiff)
        ensures
            !d.rate_limit_changed && !d.model_changed && !d.memory_changed,
            d.channels_changed@.len() == 0 && d.mcp_servers_changed@.len() == 0,
            d.requires_restart@.len() == 0,
    {
        KernelConfigDiff {
            rate_limit_changed: false,
            model_changed: false,
            channels_changed: Vec::new(),
            mcp_servers_changed: Vec::new(),
            memory_changed: false,
            requires_restart: Vec::new(),
        }
    }
}

/// A diff as plain values.
pub struct DiffView {
    pub rate_limit_changed: bool,
    pub model_changed: bool,
    pub channels_changed: Seq<Seq<char>>,
    pub mcp_servers_changed: Seq<Seq<char>>,
    pub memory_changed: bool,
    pub requires_restart: Seq<Seq<char>>,
}

/// The views of strings.
pub open spec fn views(s: Seq<String>) -> Seq<Seq<char>> {
    s.map_values(|t: String| t@)
}

/// A diff's plain values.
pub open spec fn diff_view(d: KernelConfigDiff) -> DiffView {
    DiffView {
        rate_limit_changed: d.rate_limit_changed,
        model_changed: d.model_changed,
        channels_changed: views(d.channels_changed@),
        mcp_servers_changed: views(d.mcp_servers_changed@),
        memory_changed: d.memory_changed,
        requires_restart: views(d.requires_restart@),
    }
}

/// `s` with `x` added at the end unless it is already there.
pub open spec fn push_new(s: Seq<Seq<char>>, x: Seq<char>) -> Seq<Seq<char>> {
    if s.contains(x) {
        s
    } else {
        s.push(x)
    }
}

/// The summary of `changes`, taken in order.
pub open spec fn summarize(changes: Seq<ConfigChange>) -> DiffView
    decreases changes.len(),
{
    if changes.len() == 0 {
        DiffView {
            rate_limit_changed: false,
            model_changed: false,
            channels_changed: Seq::empty(),
            mcp_servers_changed: Seq::empty(),
            memory_changed: false,
            requires_restart: Seq::empty(),
        }
    } else {
        let d = summarize(changes.drop_last());
        match changes.last() {
            ConfigChange::RateLimitChanged { .. } => DiffView { rate_limit_changed: true, ..d },
            ConfigChange::ModelChanged { .. } => DiffView { model_changed: true, ..d },
            ConfigChange::ChannelAdded(n) => DiffView { channels_changed: push_new(d.channels_changed, n@), ..d },
            ConfigChange::ChannelRemoved(n) => DiffView { channels_changed: push_new(d.channels_changed, n@), ..d },
            ConfigChange::McpServerAdded(n) => DiffView {
                mcp_servers_changed: push_new(d.mcp_servers_changed, n@),
                ..d
            },
            ConfigChange::McpServerRemoved(n) => DiffView {
                mcp_servers_changed: push_new(d.mcp_servers_changed, n@),
                ..d
            },
            ConfigChange::MemoryConfigChanged => DiffView { memory_changed: true, ..d },
            ConfigChange::ListenAddressChanged { .. } => DiffView {
                requires_restart: d.requires_restart.push("api_listen"@),
                ..d
            },
            ConfigChange::ApiKeyChanged => DiffView { requires_restart: d.requires_restart.push("api_key"@), ..d },
        }
    }
}

/// Whether `name` is among `list`.
fn contains_name(list: &Vec<String>, name: &String) -> (b: bool)
    ensures
        b == views(list@).contains(name@),
{
    let nv = chars_of(name.as_str());
    let mut i: usize = 0;
    while i < list.len()
        invariant
            i <= list@.len(),
            nv@ == name@,
            forall|j: int| 0 <= j < i ==> views(list@)[j] != name@,
        decreases list@.len() - i,
    {
        let lv = chars_of(list[i].as_str());
        if chars_eq(lv.as_slice(), nv.as_slice()) {
            assert(views(list@)[i as int] == name@);
            return true;
        }
        i = i + 1;
    }
    false
}

/// Add `name` to `list` unless it is already there.
fn push_name(list: &mut Vec<String>, name: &String)
    ensures
        views(final(list)@) == push_new(views(old(list)@), name@),
{
    if !contains_name(list, name) {
        let ghost l0 = list@;
        list.push(name.clone());
        assert(views(list@) =~= views(l0).push(name@));
    }
}

/// Whether the diff holds a change that can be applied live.
pub open spec fn reloadable(d: DiffView) -> bool {
    d.rate_limit_changed || d.model_changed || d.channels_changed.len() > 0 || d.mcp_servers_changed.len() > 0
        || d.memory_changed
}

impl KernelConfigDiff {
    /// Summarize a list of configuration changes.
    pub fn from_changes(changes: &[ConfigChange]) -> (d: KernelConfigDiff)
        ensures
            diff_view(d) == summarize(changes@),
    {
        let mut d = KernelConfigDiff::default();
        assert(views(d.channels_changed@) =~= Seq::<Seq<char>>::empty());
        assert(views(d.mcp_servers_changed@) =~= Seq::<Seq<char>>::empty());
        assert(views(d.requires_restart@) =~= Seq::<Seq<char>>::empty());
        assert(changes@.take(0) =~= Seq::<ConfigChange>::empty());
        assert(diff_view(d) == summarize(changes@.take(0)));
        let mut i: usize = 0;
        while i < changes.len()
            invariant
                i <= changes@.len(),
                diff_view(d) == summarize(changes@.take(i as int)),
            decreases changes@.len() - i,
        {
            assert(changes@.take(i + 1).drop_last() =~= changes@.take(i as int));
            let ghost d0 = d;
            match &changes[i] {
                ConfigChange::RateLimitChanged { .. } => {
                    d.rate_limit_changed = true;
                },
                ConfigChange::ModelChanged { .. } => {
                    d.model_changed = true;
                },
                ConfigChange::ChannelAdded(name) => {
                    push_name(&mut d.channels_changed, name);
                },
                ConfigChange::ChannelRemoved(name) => {
                    push_name(&mut d.channels_changed, name);
                },
                ConfigChange::McpServerAdded(name) => {
                    push_name(&mut d.mcp_servers_changed, name);
                },
                ConfigChange::McpServerRemoved(name) => {
                    push_name(&mut d.mcp_servers_changed, name);
                },
                ConfigChange::MemoryConfigChanged => {
                    d.memory_changed = true;
                },
                ConfigChange::ListenAddressChanged { .. } => {
                    d.requires_restart.push(to_owned_string("api_listen"));
                    assert(views(d.requires_restart@) =~= views(d0.requires_restart@).push("api_listen"@));
                },
                ConfigChange::ApiKeyChanged => {
                    d.requires_restart.push(to_owned_string("api_key"));
                    assert(views(d.requires_restart@) =~= views(d0.requires_restart@).push("api_key"@));
                },
            }
            i = i + 1;
        }
        assert(changes@.take(changes@.len() as int) =~= changes@);
        d
    }

    /// Whether any live-reloadable field changed.
    pub fn has_reloadable_changes(&self) -> (b: bool)
        ensures
            b == reloadable(diff_view(*self)),
    {
        self.rate_limit_changed || self.model_changed || self.channels_changed.len() > 0
            || self.mcp_servers_changed.len() > 0 || self.memory_changed
    }
}

/// How serious a validation finding is.
#[derive(Debug, Clone, Copy, PartialEq, Eq, Structural)]
pub enum ValidationSeverity {
    /// Worth a warning; the configuration can still be used.
    Warning,
    /// The configuration cannot be used.
    Error,
}

/// The poll loop's memory of the configuration file.
#[derive(Debug, Clone, Copy, PartialEq, Eq, Structural)]
pub struct ConfigPoller {
    /// The modification time last seen (seconds since the epoch; 0 if none).
    pub last_modified: u64,
}

/// What a reload attempt came to.
#[derive(Debug, Clone)]
pub enum ReloadOutcome {
    /// The file could not be read; the old configuration stays.
    ReadFailed,
    /// The file did not parse; the old configuration stays.
    ParseFailed,
    /// Validation found errors; the old configuration stays.
    Invalid { errors: usize },
    /// Nothing effectively changed.
    NoChanges,
    /// The new configuration is applied, with this summary.
    Applied(KernelConfigDiff),
}

/// The number of findings that are errors.
pub open spec fn error_count(s: Seq<ValidationSeverity>) -> nat
    decreases s.len(),
{
    if s.len() == 0 {
        0
    } else {
        error_count(s.drop_last()) + if s.last() == ValidationSeverity::Error {
            1nat
        } else {
            0nat
        }
    }
}

impl ConfigPoller {
    /// A poller that has seen modification time `mtime` (0 if the file
    /// could not be read).
    pub fn new(mtime: Option<u64>) -> (p: ConfigPoller)
        ensures
            p.last_modified == match mtime {
                Some(m) => m,
                None => 0,
            },
    {
        ConfigPoller {
            last_modified: match mtime {
                Some(m) => m,
                None => 0,
            },
        }
    }

    /// One tick of the poll loop with the file's current modification
    /// time, if it could be read: reload when it differs from the last
    /// one seen, and remember it.
    pub fn observe(&mut self, mtime: Option<u64>) -> (reload: bool)
        ensures
            reload == (mtime matches Some(m) && m != old(self).last_modified),
            final(self).last_modified == if reload {
                mtime->Some_0
            } else {
                old(self).last_modified
            },
    {
        match mtime {
            None => false,
            Some(m) => {
                if m == self.last_modified {
                    false
                } else {
                    self.last_modified = m;
                    true
                }
            },
        }
    }

    /// The outcome of a reload, given whether the file was read and parsed,
    /// the severities of the validation findings and the changes found.
    pub fn reload_outcome(read_ok: bool, parse_ok: bool, findings: &[ValidationSeverity], changes: &[ConfigChange]) -> (r: ReloadOutcome)
        ensures
            !read_ok ==> r is ReadFailed,
            read_ok && !parse_ok ==> r is ParseFailed,
            read_ok && parse_ok && error_count(findings@) > 0 ==> r == (ReloadOutcome::Invalid {
                errors: error_count(findings@) as usize,
            }),
            read_ok && parse_ok && error_count(findings@) == 0 && changes@.len() == 0 ==> r is NoChanges,
            read_ok && parse_ok && error_count(findings@) == 0 && changes@.len() > 0 ==> (r matches ReloadOutcome::Applied(d)
                && diff_view(d) == summarize(changes@)),
    {
        if !read_ok {
            return ReloadOutcome::ReadFailed;
        }
        if !parse_ok {
            return ReloadOutcome::ParseFailed;
        }
        let mut errors: usize = 0;
        let mut i: usize = 0;
        while i < findings.len()
            invariant
                i <= findings@.len(),
                errors == error_count(findings@.take(i as int)),
                errors <= i,
            decreases findings@.len() - i,
        {
            assert(findings@.take(i + 1).drop_last() =~= findings@.take(i as int));
            if findings[i] == ValidationSeverity::Error {
                errors = errors + 1;
            }
            i = i + 1;
        }
        assert(findings@.take(findings@.len() as int) =~= findings@);
        if errors > 0 {
            return ReloadOutcome::Invalid { errors };
        }
        if changes.len() == 0 {
            return ReloadOutcome::NoChanges;
        }
        ReloadOutcome::Applied(KernelConfigDiff::from_changes(changes))
    }
}

} // verus!
