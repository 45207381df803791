use reminder_engine::dispatch::{complete_dispatch, plan_dispatch, DispatchOutcome};
use reminder_engine::ledger::DeliveryLedger;
use reminder_engine::model::{DeliveryRecord, NotificationSettings, Task};
use reminder_engine::resolve::resolve_due;
use reminder_engine::sched::{effective_settings, Scheduler};

fn task(id: &str, title: &str, completed: bool, reminders: &str) -> Task {
    Task {
        id: id.to_string(),
        title: title.to_string(),
        description: None,
        completed,
        priority: "none".to_string(),
        status: "todo".to_string(),
        list_id: "all".to_string(),
        tags: "[]".to_string(),
        sub_tasks: "[]".to_string(),
        reminders: reminders.to_string(),
        due_date: None,
        created_at: "2024-01-01T00:00:00+00:00".to_string(),
        updated_at: "2024-01-01T00:00:00+00:00".to_string(),
        order: 0,
    }
}

fn reminder_blob(epoch: i64, repeat: &str) -> String {
    let date = chrono::DateTime::from_timestamp(epoch, 0).unwrap().to_rfc3339();
    format!("[{{\"date\":\"{}\",\"repeat\":\"{}\"}}]", date, repeat)
}

fn enabled_settings() -> NotificationSettings {
    NotificationSettings { enabled: true, wechat_webhook: None }
}

#[test]
fn due_reminder_dispatched_once_then_never_again() {
    // One incomplete task with a reminder five seconds in the past: the
    // first pass resolves it, dispatch commits it, the second pass with an
    // unchanged clock resolves nothing.
    let now = 1_700_000_000_i64;
    let t = now - 5;
    let tasks = vec![task("t1", "water the plants", false, &reminder_blob(t, "none"))];
    let mut ledger = DeliveryLedger::new();

    let due = resolve_due(now, &tasks, &ledger);
    assert_eq!(due.len(), 1);
    assert_eq!(due[0].task_id, "t1");
    assert_eq!(due[0].task_title, "water the plants");
    assert_eq!(due[0].reminder_time, t);
    assert_eq!(due[0].repeat, "none");
    assert!(!due[0].sent);
    assert_eq!(due[0].id.len(), 36);

    let outcome = DispatchOutcome { toast_ok: true, webhook_attempted: false, webhook_ok: false };
    complete_dispatch(&mut ledger, &due[0], &outcome, now);
    assert_eq!(ledger.len(), 1);
    assert!(ledger.is_reminder_sent("t1", t));

    let again = resolve_due(now, &tasks, &ledger);
    assert!(again.is_empty());
    assert_eq!(ledger.len(), 1);
}

#[test]
fn future_reminder_not_due() {
    // A reminder an hour ahead is not due: nothing resolved, no record.
    let now = 1_700_000_000_i64;
    let tasks = vec![task("t2", "file the report", false, &reminder_blob(now + 3600, "daily"))];
    let ledger = DeliveryLedger::new();
    let due = resolve_due(now, &tasks, &ledger);
    assert!(due.is_empty());
    assert_eq!(ledger.len(), 0);
}

#[test]
fn completed_task_excluded() {
    let now = 1_700_000_000_i64;
    let tasks = vec![task("t3", "done already", true, &reminder_blob(now - 100, "none"))];
    let due = resolve_due(now, &tasks, &DeliveryLedger::new());
    assert!(due.is_empty());
}

#[test]
fn old_reminder_stays_due_indefinitely() {
    // No upper bound on how early the reminder was missed.
    let now = 1_700_000_000_i64;
    let tasks = vec![task("t4", "ancient", false, &reminder_blob(now - 90 * 24 * 3600, "none"))];
    let due = resolve_due(now, &tasks, &DeliveryLedger::new());
    assert_eq!(due.len(), 1);
}

#[test]
fn malformed_blob_skipped_others_processed() {
    // A task whose blob is not JSON yields nothing and aborts nothing: the
    // other task in the batch is still resolved.
    let now = 1_700_000_000_i64;
    let tasks = vec![
        task("bad", "broken blob", false, "not json at all"),
        task("good", "fine", false, &reminder_blob(now - 1, "none")),
    ];
    let due = resolve_due(now, &tasks, &DeliveryLedger::new());
    assert_eq!(due.len(), 1);
    assert_eq!(due[0].task_id, "good");
}

#[test]
fn malformed_entries_skipped_within_one_task() {
    // Entries without a date, with a non-string date, or with an
    // unparseable date are inert; the well-formed entry still comes out,
    // and a missing repeat defaults to "none".
    let now = 1_700_000_000_i64;
    let date = chrono::DateTime::from_timestamp(now - 10, 0).unwrap().to_rfc3339();
    let blob = format!(
        "[{{\"repeat\":\"daily\"}},{{\"date\":5}},{{\"date\":\"tomorrow\"}},{{\"date\":\"{}\"}},17,null]",
        date
    );
    let tasks = vec![task("t5", "mixed", false, &blob)];
    let due = resolve_due(now, &tasks, &DeliveryLedger::new());
    assert_eq!(due.len(), 1);
    assert_eq!(due[0].reminder_time, now - 10);
    assert_eq!(due[0].repeat, "none");
}

#[test]
fn rfc3339_offset_parsed_to_epoch() {
    let now = 1_800_000_000_i64;
    let blob = "[{\"date\":\"2024-01-15T10:00:00+08:00\",\"repeat\":\"weekly\"}]";
    let tasks = vec![task("t6", "offset", false, blob)];
    let due = resolve_due(now, &tasks, &DeliveryLedger::new());
    assert_eq!(due.len(), 1);
    assert_eq!(due[0].reminder_time, 1_705_284_000);
    assert_eq!(due[0].repeat, "weekly");
}

#[test]
fn deleting_task_removes_its_records_only() {
    // Deleting a task removes its DeliveryRecords and nothing else, and a
    // new task reusing the id with the same reminder time is due again.
    let now = 1_700_000_000_i64;
    let t = now - 5;
    let mut ledger = DeliveryLedger::new();
    let tasks = vec![
        task("t1", "first", false, &reminder_blob(t, "none")),
        task("t2", "second", false, &reminder_blob(t, "none")),
    ];
    let due = resolve_due(now, &tasks, &ledger);
    assert_eq!(due.len(), 2);
    let outcome = DispatchOutcome { toast_ok: true, webhook_attempted: false, webhook_ok: false };
    complete_dispatch(&mut ledger, &due[0], &outcome, now);
    complete_dispatch(&mut ledger, &due[1], &outcome, now);
    assert_eq!(ledger.len(), 2);

    ledger.delete_for_task("t1");
    assert_eq!(ledger.len(), 1);
    assert!(!ledger.is_reminder_sent("t1", t));
    assert!(ledger.is_reminder_sent("t2", t));

    // The reused id finds no stale dedup state.
    let reused = vec![task("t1", "reborn", false, &reminder_blob(t, "none"))];
    let due_again = resolve_due(now, &reused, &ledger);
    assert_eq!(due_again.len(), 1);
    assert_eq!(due_again[0].task_title, "reborn");
}

#[test]
fn disabled_settings_skip_pass_entirely() {
    // enabled: false yields zero dispatches and zero ledger writes for an
    // otherwise-due occurrence; re-enabling then dispatches it.
    let now = 1_700_000_000_i64;
    let tasks = vec![task("t1", "waiting", false, &reminder_blob(now - 5, "none"))];
    let sched = Scheduler::new();

    let off = NotificationSettings { enabled: false, wechat_webhook: None };
    let planned = sched.prepare_pass(&off, now, &tasks);
    assert!(planned.is_empty());
    assert_eq!(sched.ledger.len(), 0);

    let on = enabled_settings();
    let planned = sched.prepare_pass(&on, now, &tasks);
    assert_eq!(planned.len(), 1);
}

#[test]
fn settings_default_fail_open() {
    let s = effective_settings(None);
    assert!(s.enabled);
    assert!(s.wechat_webhook.is_none());
    let loaded = NotificationSettings {
        enabled: false,
        wechat_webhook: Some("https://example.invalid/hook".to_string()),
    };
    let s = effective_settings(Some(loaded));
    assert!(!s.enabled);
    assert_eq!(s.wechat_webhook.as_deref(), Some("https://example.invalid/hook"));
}

#[test]
fn cleanup_removes_only_stale_records() {
    // Only records whose sent_at lies before now minus 30 days go; one
    // exactly at the boundary and one inside the window survive verbatim.
    let now = 1_700_000_000_i64;
    let window = 30 * 24 * 60 * 60;
    let mut ledger = DeliveryLedger::new();
    let mk = |id: &str, task: &str, time: i64, sent: i64| DeliveryRecord {
        record_id: id.to_string(),
        task_id: task.to_string(),
        reminder_time: time,
        sent_at: sent,
        payload_snapshot: format!("{{\"date\":\"x\",\"repeat\":\"none\"}}"),
    };
    ledger.record(mk("r1", "old", 1, now - window - 1));
    ledger.record(mk("r2", "edge", 2, now - window));
    ledger.record(mk("r3", "fresh", 3, now - 10));
    ledger.cleanup(now);
    assert_eq!(ledger.len(), 2);
    assert!(ledger.lookup("old", 1).is_none());
    let edge = ledger.lookup("edge", 2).expect("record at the boundary must survive");
    assert_eq!(edge.record_id, "r2");
    assert_eq!(edge.sent_at, now - window);
    let fresh = ledger.lookup("fresh", 3).expect("record inside the window must survive");
    assert_eq!(fresh.record_id, "r3");
    assert_eq!(fresh.payload_snapshot, "{\"date\":\"x\",\"repeat\":\"none\"}");
}

#[test]
fn upsert_is_idempotent_under_retry() {
    let mut ledger = DeliveryLedger::new();
    let mk = |rid: &str, sent: i64| DeliveryRecord {
        record_id: rid.to_string(),
        task_id: "t".to_string(),
        reminder_time: 42,
        sent_at: sent,
        payload_snapshot: "{}".to_string(),
    };
    ledger.record(mk("a", 1));
    ledger.record(mk("b", 2));
    assert_eq!(ledger.len(), 1);
    assert_eq!(ledger.rows().len(), 1);
    let rec = ledger.lookup("t", 42).unwrap();
    assert_eq!(rec.record_id, "b");
    assert_eq!(rec.sent_at, 2);
}

#[test]
fn webhook_failure_still_commits_record() {
    // Webhook configured but unreachable: the toast was still attempted,
    // and the ledger record is created all the same.
    let now = 1_700_000_000_i64;
    let t = now - 5;
    let tasks = vec![task("t1", "call home", false, &reminder_blob(t, "none"))];
    let mut ledger = DeliveryLedger::new();
    let settings = NotificationSettings {
        enabled: true,
        wechat_webhook: Some("https://unreachable.invalid/hook".to_string()),
    };
    let due = resolve_due(now, &tasks, &ledger);
    assert_eq!(due.len(), 1);
    let plan = plan_dispatch(&settings, &due[0]);
    let call = plan.webhook.expect("a configured webhook must be planned");
    assert_eq!(call.url, "https://unreachable.invalid/hook");
    let outcome = DispatchOutcome { toast_ok: true, webhook_attempted: true, webhook_ok: false };
    complete_dispatch(&mut ledger, &due[0], &outcome, now);
    assert_eq!(ledger.len(), 1);
    assert!(ledger.is_reminder_sent("t1", t));
    assert!(resolve_due(now, &tasks, &ledger).is_empty());
}

#[test]
fn scheduler_cleans_every_hundredth_tick() {
    let now = 1_700_000_000_i64;
    let mut sched = Scheduler::new();
    sched.ledger.record(DeliveryRecord {
        record_id: "r".to_string(),
        task_id: "t".to_string(),
        reminder_time: 1,
        sent_at: now - 40 * 24 * 60 * 60,
        payload_snapshot: "{}".to_string(),
    });
    for _ in 0..99 {
        assert!(!sched.finish_tick(now));
    }
    assert_eq!(sched.ledger.len(), 1);
    assert!(sched.finish_tick(now));
    assert_eq!(sched.cleanup_counter, 0);
    assert_eq!(sched.ledger.len(), 0);
}

#[test]
fn two_reminders_one_task() {
    let now = 1_700_000_000_i64;
    let d1 = chrono::DateTime::from_timestamp(now - 50, 0).unwrap().to_rfc3339();
    let d2 = chrono::DateTime::from_timestamp(now - 20, 0).unwrap().to_rfc3339();
    let blob = format!(
        "[{{\"date\":\"{}\",\"repeat\":\"none\"}},{{\"date\":\"{}\",\"repeat\":\"daily\"}}]",
        d1, d2
    );
    let tasks = vec![task("t1", "twice", false, &blob)];
    let mut ledger = DeliveryLedger::new();
    let due = resolve_due(now, &tasks, &ledger);
    assert_eq!(due.len(), 2);
    assert_eq!(due[0].reminder_time, now - 50);
    assert_eq!(due[1].reminder_time, now - 20);
    let outcome = DispatchOutcome { toast_ok: true, webhook_attempted: false, webhook_ok: false };
    complete_dispatch(&mut ledger, &due[0], &outcome, now);
    // Only the committed occurrence is deduplicated.
    let rest = resolve_due(now, &tasks, &ledger);
    assert_eq!(rest.len(), 1);
    assert_eq!(rest[0].reminder_time, now - 20);
}
