//! The scheduler's decisions: the fail-open settings default, skipping a
//! disabled tick entirely, the resolution step of a scan pass, and the tick
//! counter that runs the ledger cleanup on every Nth tick. The periodic
//! driver performing the I/O between these decisions serializes scan
//! passes: at most one may be in flight at a time.

use vstd::prelude::*;

use crate::ledger::{DeliveryLedger, RETENTION_SECONDS};
use crate::model::{NotificationSettings, RecordSpec, ReminderTask, Task};
use crate::resolve::{carries_occurrences, resolve_due, spec_resolve};

verus! {

/// How many seconds lie between two periodic ticks.
pub const TICK_SECONDS: u64 = 10;

/// Every how many ticks the ledger cleanup additionally runs.
pub const CLEANUP_INTERVAL_TICKS: u64 = 100;

/// The settings a scan pass runs under: the loaded settings where there are
/// any, and the fail-open default (enabled, no webhook) where none were
/// saved or they could not be read.
pub fn effective_settings(loaded: Option<NotificationSettings>) -> (s: NotificationSettings)
    ensures
        match loaded {
            Some(l) => s.enabled == l.enabled && s.wechat_webhook == l.wechat_webhook,
            None => s.enabled && s.wechat_webhook is None,
        },
{
    match loaded {
        Some(l) => l,
        None => NotificationSettings { enabled: true, wechat_webhook: None },
    }
}

/// The engine's long-lived state: the delivery ledger and the position in
/// the cleanup cycle.
pub struct Scheduler {
    pub ledger: DeliveryLedger,
    pub cleanup_counter: u64,
}

impl Scheduler {
    /// The scheduler's invariant: a well-formed ledger, and a cleanup
    /// counter inside the cycle.
    pub open spec fn wf(&self) -> bool {
        self.ledger.wf() && self.cleanup_counter < CLEANUP_INTERVAL_TICKS
    }

    /// A fresh engine: empty ledger, cleanup cycle at its start.
    pub fn new() -> (s: Scheduler)
        ensures
            s.wf(),
            s.ledger@ == Map::<(Seq<char>, int), RecordSpec>::empty(),
            s.cleanup_counter == 0,
    {
        Scheduler { ledger: DeliveryLedger::new(), cleanup_counter: 0 }
    }

    /// The resolution step of one scan pass. Where notifications are
    /// disabled the pass is skipped entirely: nothing is resolved, so
    /// nothing is dispatched and nothing is written to the ledger for an
    /// otherwise-due occurrence. Where they are enabled the due set is
    /// resolved in full, so re-enabling and re-running picks a still-due
    /// occurrence up again.
    pub fn prepare_pass(
        &self,
        settings: &NotificationSettings,
        now: i64,
        tasks: &Vec<Task>,
    ) -> (r: Vec<ReminderTask>)
        ensures
            settings.enabled ==> carries_occurrences(
                r@,
                spec_resolve(now as int, tasks@, self.ledger@),
            ),
            !settings.enabled ==> r@.len() == 0,
    {
        if !settings.enabled {
            Vec::new()
        } else {
            resolve_due(now, tasks, &self.ledger)
        }
    }

    /// Ends one tick: counts it, and on every
    /// [`CLEANUP_INTERVAL_TICKS`]-th tick additionally runs the ledger
    /// cleanup; otherwise the ledger is left untouched.
    pub fn finish_tick(&mut self, now: i64) -> (cleaned: bool)
        requires
            old(self).wf(),
            now >= i64::MIN + RETENTION_SECONDS,
        ensures
            final(self).wf(),
            cleaned == (old(self).cleanup_counter + 1 >= CLEANUP_INTERVAL_TICKS),
            !cleaned ==> final(self).cleanup_counter == old(self).cleanup_counter + 1
                && final(self).ledger@ == old(self).ledger@,
            cleaned ==> final(self).cleanup_counter == 0 && final(self).ledger@ == Map::new(
                |k: (Seq<char>, int)|
                    old(self).ledger@.dom().contains(k) && old(self).ledger@[k].sent_at >= now
                        - RETENTION_SECONDS,
                |k: (Seq<char>, int)| old(self).ledger@[k],
            ),
    {
        self.cleanup_counter = self.cleanup_counter + 1;
        if self.cleanup_counter >= CLEANUP_INTERVAL_TICKS {
            self.ledger.cleanup(now);
            self.cleanup_counter = 0;
            true
        } else {
            false
        }
    }
}

} // verus!
