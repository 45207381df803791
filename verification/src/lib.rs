//! Reminder scheduling and notification dispatch engine for a personal task
//! manager: extraction of reminder occurrences from tasks, resolution of the
//! due set against a delivery ledger, dispatch planning for notification
//! channels, and the periodic scheduler's bookkeeping.

pub mod backup;
pub mod dispatch;
pub mod extract;
pub mod ledger;
pub mod model;
pub mod resolve;
pub mod sched;
pub mod trusted;

use vstd::prelude::*;

pub use backup::WebDavSettings;
pub use model::NotificationSettings;
pub use model::ReminderTask;
pub use model::Task;
pub use model::TaskList;

verus! {

/// Greets a caller by name; kept as the smallest round trip through the
/// library.
pub fn greet(name: &str) -> (r: String)
    ensures
        r@ == "Hello, "@ + name@ + "! You've been greeted from Rust!"@,
{
    let s = String::from_str("Hello, ");
    let s = s.concat(name);
    s.concat("! You've been greeted from Rust!")
}

} // verus!
