//! The lifecycle of registered gorillas (caged or unleashed), and the
//! requirement checks a gorilla reports about itself.
use vstd::prelude::*;

use crate::executor::{ExecutorError, GorillaManifest, GorillaStatus};
use crate::ids::GorillaId;
use crate::schedule::now_ms;
use crate::table::{Table, lemma_table_insert, lemma_table_set};

verus! {

/// Status of a single requirement check.
#[derive(Debug, Clone)]
pub struct RequirementStatus {
    /// Name of the requirement.
    pub name: String,
    /// Whether the requirement is currently met.
    pub met: bool,
    /// Human-readable status message.
    pub message: String,
}

/// What the lifecycle keeps about a registered gorilla.
pub struct LifecycleEntry {
    /// Its manifest.
    pub manifest: GorillaManifest,
    /// Its current status.
    pub status: GorillaStatus,
    /// When it was registered (milliseconds since the Unix epoch).
    pub registered_at: i64,
}

/// Registration, starting and stopping of gorillas.
pub struct GorillaLifecycle {
    gorillas: Table<LifecycleEntry>,
}

impl GorillaLifecycle {
    /// The registered gorillas by id, in registration order.
    pub closed spec fn entries(&self) -> Table<LifecycleEntry> {
        self.gorillas
    }

    /// The table is well formed.
    pub closed spec fn wf(&self) -> bool {
        self.gorillas.wf()
    }

    /// The status of gorilla `k`.
    pub open spec fn status_of(&self, k: u128) -> GorillaStatus {
        self.entries().at(k).status
    }

    /// A lifecycle manager with no gorillas.
    pub fn new() -> (r: GorillaLifecycle)
        ensures
            r.wf(),
            r.entries().len() == 0,
    {
        GorillaLifecycle { gorillas: Table::new() }
    }

    /// Register `manifest` under `id`, caged, registered at `now`.
    pub fn register_with_id(&mut self, id: GorillaId, manifest: GorillaManifest, now: i64)
        requires
            old(self).wf(),
        ensures
            final(self).wf(),
            final(self).entries().has(id.0),
            final(self).entries().at(id.0) == (LifecycleEntry { manifest, status: GorillaStatus::Caged, registered_at: now }),
            forall|j: u128| j != id.0 ==> (final(self).entries().has(j) == old(self).entries().has(j)),
            forall|j: u128| j != id.0 && old(self).entries().has(j) ==> final(self).entries().at(j) == old(self).entries().at(j),
            !old(self).entries().has(id.0) ==> final(self).entries().key_seq() == old(self).entries().key_seq().push(id.0),
    {
        let entry = LifecycleEntry { manifest, status: GorillaStatus::Caged, registered_at: now };
        let ghost t0 = self.gorillas;
        self.gorillas.insert(id.0, entry);
        proof {
            lemma_table_insert(t0, self.gorillas, id.0, entry);
        }
    }

    /// Register a gorilla manifest under a new random id, caged, and return
    /// the id.
    pub fn register(&mut self, manifest: GorillaManifest) -> (id: GorillaId)
        requires
            old(self).wf(),
        ensures
            final(self).wf(),
            final(self).entries().has(id.0),
            final(self).entries().at(id.0).manifest == manifest,
            final(self).status_of(id.0) == GorillaStatus::Caged,
            forall|j: u128| j != id.0 ==> (final(self).entries().has(j) == old(self).entries().has(j)),
            forall|j: u128| j != id.0 && old(self).entries().has(j) ==> final(self).entries().at(j) == old(self).entries().at(j),
    {
        let id = GorillaId::new();
        let now = now_ms();
        self.register_with_id(id, manifest, now);
        id
    }

    fn set_status(&mut self, id: GorillaId, status: GorillaStatus) -> (r: Result<(), ExecutorError>)
        requires
            old(self).wf(),
        ensures
            final(self).wf(),
            !old(self).entries().has(id.0) ==> r == Err::<(), ExecutorError>(ExecutorError::NotFound(id))
                && final(self).entries() == old(self).entries(),
            old(self).entries().has(id.0) ==> r == Ok::<(), ExecutorError>(()) && final(self).entries().has(id.0)
                && final(self).entries().at(id.0) == (LifecycleEntry { status, ..old(self).entries().at(id.0) })
                && (forall|j: u128| (final(self).entries().has(j) == old(self).entries().has(j)))
                && (forall|j: u128| j != id.0 && old(self).entries().has(j) ==> final(self).entries().at(j)
                    == old(self).entries().at(j)),
    {
        match self.gorillas.find(id.0) {
            None => Err(ExecutorError::NotFound(id)),
            Some(i) => {
                let ghost t0 = self.gorillas;
                proof {
                    t0.lemma_wf();
                }
                self.gorillas.val_mut(i).status = status;
                proof {
                    Table::lemma_wf_vals(t0, self.gorillas);
                    lemma_table_set(t0, self.gorillas, i as int, self.gorillas.val_seq()[i as int]);
                }
                Ok(())
            },
        }
    }

    /// Start (unleash) a gorilla; an error if it is not registered.
    pub fn unleash(&mut self, id: GorillaId) -> (r: Result<(), ExecutorError>)
        requires
            old(self).wf(),
        ensures
            final(self).wf(),
            !old(self).entries().has(id.0) ==> r == Err::<(), ExecutorError>(ExecutorError::NotFound(id))
                && final(self).entries() == old(self).entries(),
            old(self).entries().has(id.0) ==> r == Ok::<(), ExecutorError>(()) && final(self).entries().has(id.0)
                && final(self).entries().at(id.0) == (LifecycleEntry {
                    status: GorillaStatus::Unleashed,
                    ..old(self).entries().at(id.0)
                })
                && (forall|j: u128| (final(self).entries().has(j) == old(self).entries().has(j)))
                && (forall|j: u128| j != id.0 && old(self).entries().has(j) ==> final(self).entries().at(j)
                    == old(self).entries().at(j)),
    {
        self.set_status(id, GorillaStatus::Unleashed)
    }

    /// Stop (cage) a gorilla; an error if it is not registered.
    pub fn cage(&mut self, id: GorillaId) -> (r: Result<(), ExecutorError>)
        requires
            old(self).wf(),
        ensures
            final(self).wf(),
            !old(self).entries().has(id.0) ==> r == Err::<(), ExecutorError>(ExecutorError::NotFound(id))
                && final(self).entries() == old(self).entries(),
            old(self).entries().has(id.0) ==> r == Ok::<(), ExecutorError>(()) && final(self).entries().has(id.0)
                && final(self).entries().at(id.0) == (LifecycleEntry {
                    status: GorillaStatus::Caged,
                    ..old(self).entries().at(id.0)
                })
                && (forall|j: u128| (final(self).entries().has(j) == old(self).entries().has(j)))
                && (forall|j: u128| j != id.0 && old(self).entries().has(j) ==> final(self).entries().at(j)
                    == old(self).entries().at(j)),
    {
        self.set_status(id, GorillaStatus::Caged)
    }

    /// The current status of a gorilla; an error if it is not registered.
    pub fn get_status(&self, id: GorillaId) -> (r: Result<GorillaStatus, ExecutorError>)
        requires
            self.wf(),
        ensures
            r == if self.entries().has(id.0) {
                Ok::<GorillaStatus, ExecutorError>(self.status_of(id.0))
            } else {
                Err::<GorillaStatus, ExecutorError>(ExecutorError::NotFound(id))
            },
    {
        match self.gorillas.get(id.0) {
            Some(e) => Ok(e.status),
            None => Err(ExecutorError::NotFound(id)),
        }
    }

    /// Every registered gorilla: its id, name and status, in registration order.
    pub fn list(&self) -> (r: Vec<(GorillaId, String, GorillaStatus)>)
        requires
            self.wf(),
        ensures
            r@.len() == self.entries().len(),
            forall|i: int|
                0 <= i < r@.len() ==> {
                    &&& (#[trigger] r@[i]).0 == GorillaId(self.entries().key_seq()[i])
                    &&& r@[i].1@ == self.entries().val_seq()[i].manifest.name@
                    &&& r@[i].2 == self.entries().val_seq()[i].status
                },
    {
        let mut r: Vec<(GorillaId, String, GorillaStatus)> = Vec::new();
        let mut i: usize = 0;
        proof {
            self.gorillas.lemma_wf();
        }
        while i < self.gorillas.size()
            invariant
                self.wf(),
                i <= self.entries().len(),
                self.entries().key_seq().len() == self.entries().val_seq().len(),
                r@.len() == i,
                forall|j: int|
                    0 <= j < i ==> {
                        &&& (#[trigger] r@[j]).0 == GorillaId(self.entries().key_seq()[j])
                        &&& r@[j].1@ == self.entries().val_seq()[j].manifest.name@
                        &&& r@[j].2 == self.entries().val_seq()[j].status
                    },
            decreases self.entries().len() - i,
        {
            let k = self.gorillas.key_at(i);
            let e = self.gorillas.val_at(i);
            r.push((GorillaId(k), e.manifest.name.clone(), e.status));
            i = i + 1;
        }
        r
    }
}

impl Default for GorillaLifecycle {
    /// A lifecycle manager with no gorillas.
    fn default() -> (r: GorillaLifecycle)
        ensures
            r.wf(),
            r.entries().len() == 0,
    {
        GorillaLifecycle::new()
    }
}

} // verus!
