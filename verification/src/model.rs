//! Data model of the engine: tasks and lists as the task store hands them
//! over, notification settings, reminder occurrences derived from a task's
//! reminder blob, and the ledger's delivery records.

use vstd::prelude::*;

verus! {

/// A task as the task store returns it. The engine reads `id`, `title`,
/// `completed` and the serialized `reminders` list; it never mutates a task.
#[derive(Debug, Clone)]
pub struct Task {
    pub id: String,
    pub title: String,
    pub description: Option<String>,
    pub completed: bool,
    pub priority: String,
    pub status: String,
    pub list_id: String,
    pub tags: String,
    pub sub_tasks: String,
    pub reminders: String,
    pub due_date: Option<String>,
    pub created_at: String,
    pub updated_at: String,
    pub order: i32,
}

/// A task list; carried through unchanged, the engine never inspects it.
#[derive(Debug, Clone)]
pub struct TaskList {
    pub id: String,
    pub name: String,
    pub icon: Option<String>,
    pub color: Option<String>,
    pub order: i32,
    pub created_at: String,
}

/// User preferences for notification delivery, re-read on every scheduler
/// tick so that changes take effect within one tick interval.
#[derive(Debug, Clone)]
pub struct NotificationSettings {
    pub enabled: bool,
    pub wechat_webhook: Option<String>,
}

/// A due reminder picked up by the resolver and handed to dispatch: one
/// concrete occurrence of a reminder, plus a fresh record identifier.
/// Identity for deduplication is the pair `(task_id, reminder_time)`.
#[derive(Debug, Clone)]
pub struct ReminderTask {
    pub id: String,
    pub task_id: String,
    pub task_title: String,
    pub reminder_time: i64,
    pub repeat: String,
    pub sent: bool,
}

/// One occurrence extracted from a task's reminder list: the task it belongs
/// to, the absolute reminder time in epoch seconds, and the repeat tag
/// (an opaque string, passed through unchanged).
#[derive(Debug, Clone)]
pub struct ReminderOccurrence {
    pub task_id: String,
    pub task_title: String,
    pub reminder_time: i64,
    pub repeat: String,
}

/// The mathematical value of a [`ReminderOccurrence`].
pub ghost struct OccurrenceSpec {
    pub task_id: Seq<char>,
    pub task_title: Seq<char>,
    pub reminder_time: int,
    pub repeat: Seq<char>,
}

impl View for ReminderOccurrence {
    type V = OccurrenceSpec;

    open spec fn view(&self) -> OccurrenceSpec {
        OccurrenceSpec {
            task_id: self.task_id@,
            task_title: self.task_title@,
            reminder_time: self.reminder_time as int,
            repeat: self.repeat@,
        }
    }
}

impl DeepView for ReminderOccurrence {
    type V = OccurrenceSpec;

    open spec fn deep_view(&self) -> OccurrenceSpec {
        self.view()
    }
}

/// A durable record of one delivered occurrence, created exactly once per
/// delivery, immutable afterwards, removed only by age-based cleanup or when
/// its owning task is deleted.
#[derive(Debug, Clone)]
pub struct DeliveryRecord {
    pub record_id: String,
    pub task_id: String,
    pub reminder_time: i64,
    pub sent_at: i64,
    pub payload_snapshot: String,
}

/// The mathematical value of a [`DeliveryRecord`].
pub ghost struct RecordSpec {
    pub record_id: Seq<char>,
    pub task_id: Seq<char>,
    pub reminder_time: int,
    pub sent_at: int,
    pub payload_snapshot: Seq<char>,
}

impl View for DeliveryRecord {
    type V = RecordSpec;

    open spec fn view(&self) -> RecordSpec {
        RecordSpec {
            record_id: self.record_id@,
            task_id: self.task_id@,
            reminder_time: self.reminder_time as int,
            sent_at: self.sent_at as int,
            payload_snapshot: self.payload_snapshot@,
        }
    }
}

impl DeepView for DeliveryRecord {
    type V = RecordSpec;

    open spec fn deep_view(&self) -> RecordSpec {
        self.view()
    }
}

/// The deduplication key of a record: the pair that identifies a delivery.
pub open spec fn record_key(r: RecordSpec) -> (Seq<char>, int) {
    (r.task_id, r.reminder_time)
}

/// The deduplication key of an occurrence.
pub open spec fn occurrence_key(o: OccurrenceSpec) -> (Seq<char>, int) {
    (o.task_id, o.reminder_time)
}

} // verus!
