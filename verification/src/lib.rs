//! Punch: scheduling, task queues, triggers, quotas and coordination logic
//! for autonomous agents ("gorillas") and conversational agents ("fighters").
use vstd::prelude::*;

pub mod duration;
pub mod text;
pub mod cron;
pub mod schedule;
pub mod ids;
pub mod table;
pub mod tasks;
pub mod executor;
pub mod gorilla_triggers;
pub mod swarm;
pub mod patterns;
pub mod background;
pub mod heartbeat;
pub mod metrics;
pub mod gorilla_scheduler;
pub mod lifecycle;
pub mod report;
pub mod health;
pub mod metering;
pub mod budget;
pub mod config_watch;
pub mod quota;
pub mod ring;
pub mod sweeper;
pub mod kernel_triggers;
pub mod tenants;
pub mod shutdown;
pub mod registry;
pub mod a2a;
pub mod messaging;

verus! {
} // verus!
