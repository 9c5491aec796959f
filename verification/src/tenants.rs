//! The tenant registry for multi-tenant isolation: registration, lookup by
//! id or by API key, quota updates, suspension and deletion.
use vstd::prelude::*;

use crate::ids::{new_uuid, uuid_string, uuid_text};
use crate::schedule::now_ms;
use crate::table::{StrMap, Table, lemma_table_insert, lemma_table_remove, lemma_table_set};
use crate::text::{chars_eq, chars_of, copy_strings, put, string_from_chars, to_owned_string};

verus! {

/// Unique identifier of a tenant.
#[derive(Debug, Clone, Copy, PartialEq, Eq, Hash, Structural)]
pub struct TenantId(pub u128);

impl TenantId {
    /// The id as UUID text (`Display`).
    pub fn to_string(&self) -> (s: String)
        ensures
            s@ == uuid_text(self.0),
    {
        uuid_string(self.0)
    }

    /// A new random tenant id.
    pub fn new() -> (id: TenantId)
        ensures
            id.0 != 0,
    {
        TenantId(new_uuid())
    }
}

/// Whether a tenant may make requests.
#[derive(Debug, Clone, Copy, PartialEq, Eq, Structural)]
pub enum TenantStatus {
    /// In good standing.
    Active,
    /// Blocked.
    Suspended,
    /// On a trial.
    Trial,
}

/// What a tenant may use.
#[derive(Debug, Clone, PartialEq, Eq)]
pub struct TenantQuota {
    /// How many fighters the tenant may run at once.
    pub max_fighters: usize,
    /// The tools the tenant may use; empty for all.
    pub max_tools: Vec<String>,
}

impl Default for TenantQuota {
    /// Ten fighters, every tool.
    fn default() -> (q: TenantQuota)
        ensures
            q.max_fighters == 10,
            q.max_tools@.len() == 0,
    {
        TenantQuota { max_fighters: 10, max_tools: Vec::new() }
    }
}

/// A registered tenant.
#[derive(Debug, Clone, PartialEq, Eq)]
pub struct Tenant {
    /// Unique id.
    pub id: TenantId,
    /// Display name.
    pub name: String,
    /// The key its requests authenticate with.
    pub api_key: String,
    /// Whether it may make requests.
    pub status: TenantStatus,
    /// What it may use.
    pub quota: TenantQuota,
    /// When it was registered (milliseconds since the Unix epoch).
    pub created_at: i64,
}

/// The views of strings.
pub open spec fn views(s: Seq<String>) -> Seq<Seq<char>> {
    s.map_values(|t: String| t@)
}

/// Two tenants hold the same values.
pub open spec fn same_tenant(a: Tenant, b: Tenant) -> bool {
    &&& a.id == b.id
    &&& a.name@ == b.name@
    &&& a.api_key@ == b.api_key@
    &&& a.status == b.status
    &&& a.quota.max_fighters == b.quota.max_fighters
    &&& views(a.quota.max_tools@) == views(b.quota.max_tools@)
    &&& a.created_at == b.created_at
}

/// A copy of a tenant.
pub fn copy_tenant(t: &Tenant) -> (r: Tenant)
    ensures
        same_tenant(r, *t),
{
    let tools = copy_strings(&t.quota.max_tools);
    proof {
        assert(views(tools@) =~= views(t.quota.max_tools@));
    }
    Tenant {
        id: t.id,
        name: t.name.clone(),
        api_key: t.api_key.clone(),
        status: t.status,
        quota: TenantQuota { max_fighters: t.quota.max_fighters, max_tools: tools },
        created_at: t.created_at,
    }
}

/// `s` without its hyphens.
pub open spec fn without_hyphens(s: Seq<char>) -> Seq<char> {
    s.filter(|c: char| c != '-')
}

/// The API key generated from the UUID `u`: `pk_` and the UUID's hex
/// digits without hyphens.
pub open spec fn generated_key(u: u128) -> Seq<char> {
    "pk_"@ + without_hyphens(uuid_text(u))
}

/// The characters of `s` other than hyphens.
fn drop_hyphens(s: &[char]) -> (r: Vec<char>)
    ensures
        r@ == without_hyphens(s@),
{
    let mut r: Vec<char> = Vec::new();
    let mut i: usize = 0;
    while i < s.len()
        invariant
            i <= s@.len(),
            r@ == s@.take(i as int).filter(|c: char| c != '-'),
        decreases s@.len() - i,
    {
        proof {
            crate::table::lemma_filter_take_step(s@, i as int, |c: char| c != '-');
        }
        if s[i] != '-' {
            r.push(s[i]);
        }
        i = i + 1;
    }
    assert(s@.take(s@.len() as int) =~= s@);
    r
}

/// Thread-free registry of tenants with an index from API keys to ids.
pub struct TenantRegistry {
    tenants: Table<Tenant>,
    api_key_index: StrMap<Option<u128>>,
}

impl TenantRegistry {
    /// The tenants by id, in registration order.
    pub closed spec fn table(&self) -> Table<Tenant> {
        self.tenants
    }

    /// The tenant id an API key points to, if any.
    pub closed spec fn key_index(&self, key: Seq<char>) -> Option<u128> {
        if self.api_key_index.map().dom().contains(key) {
            self.api_key_index.map()[key]
        } else {
            None
        }
    }

    /// The tables are well formed.
    pub closed spec fn wf(&self) -> bool {
        &&& self.tenants.wf()
        &&& self.api_key_index.wf()
    }

    /// The tenant registered under `k`, if any.
    pub open spec fn tenant(&self, k: u128) -> Option<Tenant> {
        if self.table().has(k) {
            Some(self.table().at(k))
        } else {
            None
        }
    }

    /// The tenant an API key finds: the one its index entry points to, if
    /// that tenant is still registered.
    pub open spec fn by_key(&self, key: Seq<char>) -> Option<Tenant> {
        match self.key_index(key) {
            Some(k) => self.tenant(k),
            None => None,
        }
    }

    /// An empty registry.
    pub fn new() -> (r: TenantRegistry)
        ensures
            r.wf(),
            r.table().len() == 0,
            forall|key: Seq<char>| #[trigger] r.key_index(key).is_none(),
    {
        TenantRegistry { tenants: Table::new(), api_key_index: StrMap::new() }
    }

    /// Register a tenant under `id` with `api_key`, active, created at `now`.
    /// The key now points to this tenant; returns a copy of it.
    pub fn register_tenant_at(&mut self, id: TenantId, name: String, api_key: String, quota: TenantQuota, now: i64) -> (t: Tenant)
        requires
            old(self).wf(),
        ensures
            final(self).wf(),
            t.id == id && t.name@ == name@ && t.api_key@ == api_key@ && t.status == TenantStatus::Active,
            t.quota.max_fighters == quota.max_fighters && views(t.quota.max_tools@) == views(quota.max_tools@),
            t.created_at == now,
            final(self).table().has(id.0),
            same_tenant(final(self).table().at(id.0), t),
            final(self).key_index(api_key@) == Some(id.0),
            final(self).by_key(api_key@) matches Some(found) && same_tenant(found, t),
            forall|j: u128| j != id.0 ==> #[trigger] final(self).tenant(j) == old(self).tenant(j),
            forall|key: Seq<char>| key != api_key@ ==> #[trigger] final(self).key_index(key) == old(self).key_index(key),
    {
        let tenant = Tenant {
            id,
            name,
            api_key,
            status: TenantStatus::Active,
            quota,
            created_at: now,
        };
        let copy = copy_tenant(&tenant);
        let key = tenant.api_key.clone();
        let ghost m0 = self.api_key_index.map();
        self.api_key_index.insert(key, Some(id.0));
        let ghost t0 = self.tenants;
        self.tenants.insert(id.0, tenant);
        proof {
            lemma_table_insert(t0, self.tenants, id.0, tenant);
            assert forall|j: u128| j != id.0 implies #[trigger] self.tenant(j) == old(self).tenant(j) by {}
            assert forall|k: Seq<char>| k != tenant.api_key@ implies #[trigger] self.key_index(k) == old(self).key_index(k) by {}
        }
        copy
    }

    /// Register a tenant with a given API key, now.
    pub fn register_tenant_with_key(&mut self, name: String, api_key: String, quota: TenantQuota) -> (t: Tenant)
        requires
            old(self).wf(),
        ensures
            final(self).wf(),
            t.name@ == name@ && t.api_key@ == api_key@ && t.status == TenantStatus::Active,
            t.quota.max_fighters == quota.max_fighters && views(t.quota.max_tools@) == views(quota.max_tools@),
            final(self).tenant(t.id.0) matches Some(found) && same_tenant(found, t),
            final(self).by_key(api_key@) matches Some(found) && same_tenant(found, t),
            forall|j: u128| j != t.id.0 ==> #[trigger] final(self).tenant(j) == old(self).tenant(j),
            forall|key: Seq<char>| key != api_key@ ==> #[trigger] final(self).key_index(key) == old(self).key_index(key),
    {
        let id = TenantId::new();
        let now = now_ms();
        self.register_tenant_at(id, name, api_key, quota, now)
    }

    /// Register a tenant with a generated API key (`pk_` and the hex digits
    /// of a random UUID), now.
    pub fn register_tenant(&mut self, name: String, quota: TenantQuota) -> (t: Tenant)
        requires
            old(self).wf(),
        ensures
            final(self).wf(),
            t.name@ == name@ && t.status == TenantStatus::Active,
            t.quota.max_fighters == quota.max_fighters && views(t.quota.max_tools@) == views(quota.max_tools@),
            exists|u: u128| t.api_key@ == generated_key(u),
            final(self).tenant(t.id.0) matches Some(found) && same_tenant(found, t),
            final(self).by_key(t.api_key@) matches Some(found) && same_tenant(found, t),
            forall|j: u128| j != t.id.0 ==> #[trigger] final(self).tenant(j) == old(self).tenant(j),
    {
        let id = TenantId::new();
        let u = new_uuid();
        let text = uuid_string(u);
        let tv = chars_of(text.as_str());
        let hex = drop_hyphens(tv.as_slice());
        let mut key: Vec<char> = Vec::new();
        put(&mut key, "pk_");
        crate::text::append_chars(&mut key, hex.as_slice());
        let api_key = string_from_chars(key.as_slice());
        assert(api_key@ == generated_key(u));
        let now = now_ms();
        self.register_tenant_at(id, name, api_key, quota, now)
    }

    /// A tenant by id.
    pub fn get_tenant(&self, id: &TenantId) -> (r: Option<&Tenant>)
        requires
            self.wf(),
        ensures
            match r {
                Some(t) => self.tenant(id.0) == Some(*t),
                None => self.tenant(id.0).is_none(),
            },
    {
        self.tenants.get(id.0)
    }

    /// A tenant by API key.
    pub fn get_tenant_by_api_key(&self, api_key: &str) -> (r: Option<&Tenant>)
        requires
            self.wf(),
        ensures
            match r {
                Some(t) => self.by_key(api_key@) == Some(*t),
                None => self.by_key(api_key@).is_none(),
            },
    {
        let key = to_owned_string(api_key);
        match self.api_key_index.get(&key) {
            Some(Some(id)) => self.tenants.get(*id),
            _ => None,
        }
    }

    /// Change a tenant; an error (holding the id) if it is not registered.
    fn modify(&mut self, id: &TenantId, status: Option<TenantStatus>, quota: Option<TenantQuota>) -> (r: Result<(), TenantId>)
        requires
            old(self).wf(),
        ensures
            final(self).wf(),
            forall|key: Seq<char>| #[trigger] final(self).key_index(key) == old(self).key_index(key),
            !old(self).table().has(id.0) ==> r == Err::<(), TenantId>(*id) && final(self).table() == old(self).table(),
            old(self).table().has(id.0) ==> r is Ok && final(self).tenant(id.0) == Some(
                Tenant {
                    status: match status {
                        Some(s) => s,
                        None => old(self).table().at(id.0).status,
                    },
                    quota: match quota {
                        Some(q) => q,
                        None => old(self).table().at(id.0).quota,
                    },
                    ..old(self).table().at(id.0)
                },
            ),
            forall|j: u128| j != id.0 ==> #[trigger] final(self).tenant(j) == old(self).tenant(j),
    {
        match self.tenants.find(id.0) {
            None => Err(*id),
            Some(i) => {
                let ghost t0 = self.tenants;
                proof {
                    t0.lemma_wf();
                }
                {
                    let e = self.tenants.val_mut(i);
                    match status {
                        Some(s) => {
                            e.status = s;
                        },
                        None => {},
                    }
                    match quota {
                        Some(q) => {
                            e.quota = q;
                        },
                        None => {},
                    }
                }
                proof {
                    Table::lemma_wf_vals(t0, self.tenants);
                    lemma_table_set(t0, self.tenants, i as int, self.tenants.val_seq()[i as int]);
                    assert forall|j: u128| j != id.0 implies #[trigger] self.tenant(j) == old(self).tenant(j) by {}
                }
                Ok(())
            },
        }
    }

    /// Replace a tenant's quota; an error if it is not registered.
    pub fn update_quota(&mut self, id: &TenantId, quota: TenantQuota) -> (r: Result<(), TenantId>)
        requires
            old(self).wf(),
        ensures
            final(self).wf(),
            !old(self).table().has(id.0) ==> r == Err::<(), TenantId>(*id) && final(self).table() == old(self).table(),
            old(self).table().has(id.0) ==> r is Ok && final(self).tenant(id.0) == Some(
                Tenant { quota, ..old(self).table().at(id.0) },
            ),
            forall|j: u128| j != id.0 ==> #[trigger] final(self).tenant(j) == old(self).tenant(j),
            forall|key: Seq<char>| #[trigger] final(self).key_index(key) == old(self).key_index(key),
    {
        self.modify(id, None, Some(quota))
    }

    /// Suspend a tenant; an error if it is not registered.
    pub fn suspend_tenant(&mut self, id: &TenantId) -> (r: Result<(), TenantId>)
        requires
            old(self).wf(),
        ensures
            final(self).wf(),
            !old(self).table().has(id.0) ==> r == Err::<(), TenantId>(*id) && final(self).table() == old(self).table(),
            old(self).table().has(id.0) ==> r is Ok && final(self).tenant(id.0) == Some(
                Tenant { status: TenantStatus::Suspended, ..old(self).table().at(id.0) },
            ),
            forall|j: u128| j != id.0 ==> #[trigger] final(self).tenant(j) == old(self).tenant(j),
            forall|key: Seq<char>| #[trigger] final(self).key_index(key) == old(self).key_index(key),
    {
        self.modify(id, Some(TenantStatus::Suspended), None)
    }

    /// Activate a tenant; an error if it is not registered.
    pub fn activate_tenant(&mut self, id: &TenantId) -> (r: Result<(), TenantId>)
        requires
            old(self).wf(),
        ensures
            final(self).wf(),
            !old(self).table().has(id.0) ==> r == Err::<(), TenantId>(*id) && final(self).table() == old(self).table(),
            old(self).table().has(id.0) ==> r is Ok && final(self).tenant(id.0) == Some(
                Tenant { status: TenantStatus::Active, ..old(self).table().at(id.0) },
            ),
            forall|j: u128| j != id.0 ==> #[trigger] final(self).tenant(j) == old(self).tenant(j),
            forall|key: Seq<char>| #[trigger] final(self).key_index(key) == old(self).key_index(key),
    {
        self.modify(id, Some(TenantStatus::Active), None)
    }

    /// Copies of all tenants, in registration order.
    pub fn list_tenants(&self) -> (r: Vec<Tenant>)
        requires
            self.wf(),
        ensures
            r@.len() == self.table().len(),
            forall|i: int| 0 <= i < r@.len() ==> same_tenant(#[trigger] r@[i], self.table().val_seq()[i]),
    {
        let mut r: Vec<Tenant> = Vec::new();
        let mut i: usize = 0;
        proof {
            self.tenants.lemma_wf();
        }
        while i < self.tenants.size()
            invariant
                self.wf(),
                i <= self.table().len(),
                self.table().key_seq().len() == self.table().val_seq().len(),
                r@.len() == i,
                forall|j: int| 0 <= j < i ==> same_tenant(#[trigger] r@[j], self.table().val_seq()[j]),
            decreases self.table().len() - i,
        {
            r.push(copy_tenant(self.tenants.val_at(i)));
            i = i + 1;
        }
        r
    }

    /// Delete a tenant and its API key entry; returns it if it existed.
    pub fn delete_tenant(&mut self, id: &TenantId) -> (r: Option<Tenant>)
        requires
            old(self).wf(),
        ensures
            final(self).wf(),
            r == old(self).tenant(id.0),
            final(self).tenant(id.0).is_none(),
            forall|j: u128| j != id.0 ==> #[trigger] final(self).tenant(j) == old(self).tenant(j),
            r matches Some(t) ==> final(self).key_index(t.api_key@).is_none() && forall|key: Seq<char>|
                key != t.api_key@ ==> #[trigger] final(self).key_index(key) == old(self).key_index(key),
            r is None ==> forall|key: Seq<char>| #[trigger] final(self).key_index(key) == old(self).key_index(key),
    {
        let ghost t0 = self.tenants;
        proof {
            t0.lemma_wf();
        }
        let removed = self.tenants.remove(id.0);
        proof {
            lemma_table_remove(t0, self.tenants, id.0);
            assert forall|j: u128| j != id.0 implies #[trigger] self.tenant(j) == old(self).tenant(j) by {}
        }
        match removed {
            Some(t) => {
                let key = t.api_key.clone();
                self.api_key_index.insert(key, None);
                proof {
                    assert forall|k: Seq<char>| k != t.api_key@ implies #[trigger] self.key_index(k) == old(self).key_index(k) by {}
                }
                Some(t)
            },
            None => None,
        }
    }

    /// Whether a tenant is registered and not suspended.
    pub fn is_tenant_active(&self, id: &TenantId) -> (b: bool)
        requires
            self.wf(),
        ensures
            b == (self.tenant(id.0) matches Some(t) && t.status != TenantStatus::Suspended),
    {
        match self.tenants.get(id.0) {
            Some(t) => t.status != TenantStatus::Suspended,
            None => false,
        }
    }

    /// The number of registered tenants.
    pub fn tenant_count(&self) -> (n: usize)
        requires
            self.wf(),
        ensures
            n == self.table().len(),
    {
        self.tenants.size()
    }

    /// Whether a tenant may use a tool: it is registered, and its tool list
    /// is empty or names the tool.
    pub fn check_tool_access(&self, id: &TenantId, tool_name: &str) -> (b: bool)
        requires
            self.wf(),
        ensures
            b == (self.tenant(id.0) matches Some(t) && (t.quota.max_tools@.len() == 0 || views(
                t.quota.max_tools@,
            ).contains(tool_name@))),
    {
        match self.tenants.get(id.0) {
            None => false,
            Some(t) => {
                if t.quota.max_tools.len() == 0 {
                    return true;
                }
                let tv = chars_of(tool_name);
                let mut i: usize = 0;
                while i < t.quota.max_tools.len()
                    invariant
                        i <= t.quota.max_tools@.len(),
                        tv@ == tool_name@,
                        self.tenant(id.0) == Some(*t),
                        t.quota.max_tools@.len() > 0,
                        forall|j: int| 0 <= j < i ==> views(t.quota.max_tools@)[j] != tool_name@,
                    decreases t.quota.max_tools@.len() - i,
                {
                    let c = chars_of(t.quota.max_tools[i].as_str());
                    if chars_eq(c.as_slice(), tv.as_slice()) {
                        assert(views(t.quota.max_tools@)[i as int] == tool_name@);
                        assert(views(t.quota.max_tools@).contains(tool_name@));
                        return true;
                    }
                    i = i + 1;
                }
                false
            },
        }
    }
}

impl Default for TenantRegistry {
    /// An empty registry.
    fn default() -> (r: TenantRegistry)
        ensures
            r.wf(),
            r.table().len() == 0,
    {
        TenantRegistry::new()
    }
}

} // verus!
