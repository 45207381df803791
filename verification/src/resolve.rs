//! Due-set resolution: given "now" and the tasks, the occurrences that are
//! due (`reminder_time <= now`, with no lower bound on how long ago) and have
//! no delivery record yet. A previously undelivered past reminder stays due
//! until it is delivered; completed tasks contribute nothing.

use vstd::prelude::*;

use crate::extract::{extract_occurrences, extracted};
use crate::ledger::DeliveryLedger;
use crate::model::{occurrence_key, OccurrenceSpec, RecordSpec, ReminderTask, Task};
use crate::trusted::fresh_record_id;

verus! {

/// Whether an occurrence is due at `now` and not yet delivered according to
/// the ledger.
pub open spec fn spec_due(
    now: int,
    ledger: Map<(Seq<char>, int), RecordSpec>,
    o: OccurrenceSpec,
) -> bool {
    o.reminder_time <= now && !ledger.dom().contains(occurrence_key(o))
}

/// The occurrences of `s` that are due and undelivered, in order.
pub open spec fn due_occurrences(
    now: int,
    ledger: Map<(Seq<char>, int), RecordSpec>,
    s: Seq<OccurrenceSpec>,
) -> Seq<OccurrenceSpec>
    decreases s.len(),
{
    if s.len() == 0 {
        Seq::empty()
    } else if spec_due(now, ledger, s.last()) {
        due_occurrences(now, ledger, s.drop_last()).push(s.last())
    } else {
        due_occurrences(now, ledger, s.drop_last())
    }
}

/// The due set across all tasks: for each incomplete task in order, its due,
/// undelivered occurrences. Completed tasks are excluded before extraction.
pub open spec fn spec_resolve(
    now: int,
    tasks: Seq<Task>,
    ledger: Map<(Seq<char>, int), RecordSpec>,
) -> Seq<OccurrenceSpec>
    decreases tasks.len(),
{
    if tasks.len() == 0 {
        Seq::empty()
    } else {
        spec_resolve(now, tasks.drop_last(), ledger) + (if tasks.last().completed {
            Seq::empty()
        } else {
            due_occurrences(now, ledger, extracted(tasks.last()))
        })
    }
}

/// Whether a due reminder carries exactly the fields of an occurrence, with
/// `sent` still false and a fresh 36-character record identifier.
pub open spec fn carries_occurrence(r: ReminderTask, o: OccurrenceSpec) -> bool {
    &&& r.task_id@ == o.task_id
    &&& r.task_title@ == o.task_title
    &&& r.reminder_time as int == o.reminder_time
    &&& r.repeat@ == o.repeat
    &&& !r.sent
    &&& r.id@.len() == 36
}

/// Whether a list of due reminders carries exactly a list of occurrences, in
/// order.
pub open spec fn carries_occurrences(rs: Seq<ReminderTask>, os: Seq<OccurrenceSpec>) -> bool {
    &&& rs.len() == os.len()
    &&& forall|i: int| 0 <= i < rs.len() ==> carries_occurrence(#[trigger] rs[i], os[i])
}

/// Resolves the due set: returns one due reminder per due, undelivered
/// occurrence of an incomplete task, in task order, each under a fresh
/// record identifier.
pub fn resolve_due(now: i64, tasks: &Vec<Task>, ledger: &DeliveryLedger) -> (r: Vec<ReminderTask>)
    ensures
        carries_occurrences(r@, spec_resolve(now as int, tasks@, ledger@)),
{
    let mut out: Vec<ReminderTask> = Vec::new();
    let n = tasks.len();
    let mut t: usize = 0;
    while t < n
        invariant
            n == tasks@.len(),
            t <= n,
            carries_occurrences(out@, spec_resolve(now as int, tasks@.take(t as int), ledger@)),
        decreases n - t,
    {
        let task = &tasks[t];
        let ghost done = spec_resolve(now as int, tasks@.take(t as int), ledger@);
        if !task.completed {
            let occs = extract_occurrences(task);
            let m = occs.len();
            let mut k: usize = 0;
            while k < m
                invariant
                    m == occs@.len(),
                    k <= m,
                    occs.deep_view() == extracted(tasks@[t as int]),
                    done == spec_resolve(now as int, tasks@.take(t as int), ledger@),
                    carries_occurrences(
                        out@,
                        done + due_occurrences(
                            now as int,
                            ledger@,
                            occs.deep_view().take(k as int),
                        ),
                    ),
                decreases m - k,
            {
                let occ = &occs[k];
                let ghost os = occs.deep_view();
                let ghost prev = done + due_occurrences(now as int, ledger@, os.take(k as int));
                if occ.reminder_time <= now && !ledger.is_reminder_sent(
                    occ.task_id.as_str(),
                    occ.reminder_time,
                ) {
                    let fresh = fresh_record_id();
                    out.push(
                        ReminderTask {
                            id: fresh,
                            task_id: occ.task_id.clone(),
                            task_title: occ.task_title.clone(),
                            reminder_time: occ.reminder_time,
                            repeat: occ.repeat.clone(),
                            sent: false,
                        },
                    );
                    proof {
                        assert(spec_due(now as int, ledger@, os[k as int]));
                        assert(carries_occurrence(out@.last(), os[k as int]));
                    }
                } else {
                    proof {
                        assert(!spec_due(now as int, ledger@, os[k as int]));
                    }
                }
                proof {
                    assert(os.take(k + 1).drop_last() =~= os.take(k as int));
                    assert(os.take(k + 1).last() == os[k as int]);
                    let cur = done + due_occurrences(now as int, ledger@, os.take(k + 1));
                    if spec_due(now as int, ledger@, os[k as int]) {
                        assert(cur =~= prev.push(os[k as int]));
                    } else {
                        assert(cur =~= prev);
                    }
                    assert(carries_occurrences(out@, cur));
                }
                k = k + 1;
            }
            proof {
                assert(occs.deep_view().take(m as int) =~= occs.deep_view());
            }
        }
        proof {
            assert(tasks@.take(t + 1).drop_last() =~= tasks@.take(t as int));
            assert(tasks@.take(t + 1).last() == tasks@[t as int]);
            if tasks@[t as int].completed {
                assert(spec_resolve(now as int, tasks@.take(t + 1), ledger@) =~= done);
            } else {
                assert(spec_resolve(now as int, tasks@.take(t + 1), ledger@) =~= done
                    + due_occurrences(now as int, ledger@, extracted(tasks@[t as int])));
            }
        }
        t = t + 1;
    }
    proof {
        assert(tasks@.take(n as int) =~= tasks@);
    }
    out
}

/// Membership in the due list of one task: an occurrence is in it exactly
/// when it is among the task's occurrences and is due and undelivered.
pub proof fn lemma_due_occurrences_membership(
    now: int,
    ledger: Map<(Seq<char>, int), RecordSpec>,
    s: Seq<OccurrenceSpec>,
)
    ensures
        forall|o: OccurrenceSpec| #[trigger]
            due_occurrences(now, ledger, s).contains(o) <==> s.contains(o) && spec_due(
                now,
                ledger,
                o,
            ),
    decreases s.len(),
{
    let d = due_occurrences(now, ledger, s);
    if s.len() > 0 {
        lemma_due_occurrences_membership(now, ledger, s.drop_last());
        let s0 = s.drop_last();
        let d0 = due_occurrences(now, ledger, s0);
        assert forall|o: OccurrenceSpec| #[trigger] d.contains(o) implies s.contains(o)
            && spec_due(now, ledger, o) by {
            let i = choose|i: int| 0 <= i < d.len() && d[i] == o;
            if spec_due(now, ledger, s.last()) && i == d.len() - 1 {
                assert(s[s.len() - 1] == o);
            } else {
                assert(d0.contains(o));
                let j = choose|j: int| 0 <= j < s0.len() && s0[j] == o;
                assert(s[j] == o);
            }
        }
        assert forall|o: OccurrenceSpec| s.contains(o) && spec_due(now, ledger, o) implies #[trigger]
            d.contains(o) by {
            let i = choose|i: int| 0 <= i < s.len() && s[i] == o;
            if i == s.len() - 1 {
                assert(d[d.len() - 1] == o);
            } else {
                assert(s0[i] == o);
                assert(s0.contains(o));
                assert(d0.contains(o));
                let j = choose|j: int| 0 <= j < d0.len() && d0[j] == o;
                assert(d[j] == o);
            }
        }
    }
}

/// Membership in the due set: an occurrence is resolved exactly when some
/// incomplete task yields it and it is due and undelivered.
pub proof fn lemma_resolve_membership(
    now: int,
    tasks: Seq<Task>,
    ledger: Map<(Seq<char>, int), RecordSpec>,
)
    ensures
        forall|o: OccurrenceSpec| #[trigger]
            spec_resolve(now, tasks, ledger).contains(o) <==> (spec_due(now, ledger, o)
                && exists|t: int|
                0 <= t < tasks.len() && !(#[trigger] tasks[t]).completed && extracted(
                    tasks[t],
                ).contains(o)),
    decreases tasks.len(),
{
    let r = spec_resolve(now, tasks, ledger);
    if tasks.len() > 0 {
        let ts0 = tasks.drop_last();
        let r0 = spec_resolve(now, ts0, ledger);
        let last = tasks.last();
        lemma_resolve_membership(now, ts0, ledger);
        lemma_due_occurrences_membership(now, ledger, extracted(last));
        assert forall|o: OccurrenceSpec| #[trigger] r.contains(o) implies (spec_due(now, ledger, o)
            && exists|t: int|
            0 <= t < tasks.len() && !(#[trigger] tasks[t]).completed && extracted(
                tasks[t],
            ).contains(o)) by {
            let i = choose|i: int| 0 <= i < r.len() && r[i] == o;
            if i < r0.len() {
                assert(r0[i] == o);
                assert(r0.contains(o));
                let t = choose|t: int|
                    0 <= t < ts0.len() && !(#[trigger] ts0[t]).completed && extracted(
                        ts0[t],
                    ).contains(o);
                assert(tasks[t] == ts0[t]);
                assert(!(tasks[t]).completed && extracted(tasks[t]).contains(o));
            } else {
                assert(!last.completed);
                let d = due_occurrences(now, ledger, extracted(last));
                assert(d[i - r0.len()] == o);
                assert(d.contains(o));
                assert(tasks[tasks.len() - 1] == last);
            }
        }
        assert forall|o: OccurrenceSpec|
            (spec_due(now, ledger, o) && exists|t: int|
                0 <= t < tasks.len() && !(#[trigger] tasks[t]).completed && extracted(
                    tasks[t],
                ).contains(o)) implies #[trigger] r.contains(o) by {
            let t = choose|t: int|
                0 <= t < tasks.len() && !(#[trigger] tasks[t]).completed && extracted(
                    tasks[t],
                ).contains(o);
            if t < tasks.len() - 1 {
                assert(ts0[t] == tasks[t]);
                assert(r0.contains(o));
                let i = choose|i: int| 0 <= i < r0.len() && r0[i] == o;
                assert(r[i] == o);
            } else {
                let d = due_occurrences(now, ledger, extracted(last));
                assert(d.contains(o));
                let i = choose|i: int| 0 <= i < d.len() && d[i] == o;
                assert(r[r0.len() + i] == o);
            }
        }
    }
}

/// Dedup idempotence of a scan pass: once every occurrence resolved against
/// the ledger `before` has a delivery record in the ledger `after` (as a
/// pass's commits make true, whatever else was recorded meanwhile), a second
/// resolution over unchanged tasks and clock returns nothing.
pub proof fn lemma_second_pass_empty(
    now: int,
    tasks: Seq<Task>,
    before: Map<(Seq<char>, int), RecordSpec>,
    after: Map<(Seq<char>, int), RecordSpec>,
)
    requires
        before.dom().subset_of(after.dom()),
        forall|o: OccurrenceSpec| #[trigger]
            spec_resolve(now, tasks, before).contains(o) ==> after.dom().contains(
                occurrence_key(o),
            ),
    ensures
        spec_resolve(now, tasks, after).len() == 0,
{
    lemma_resolve_membership(now, tasks, before);
    lemma_resolve_membership(now, tasks, after);
    let r = spec_resolve(now, tasks, after);
    if r.len() > 0 {
        let o = r[0];
        assert(r.contains(o));
        assert(spec_due(now, after, o));
        assert(!before.dom().contains(occurrence_key(o)));
        assert(spec_due(now, before, o));
        assert(spec_resolve(now, tasks, before).contains(o));
        assert(false);
    }
}

/// Dedup idempotence in the terms a pass actually produces: where `planned`
/// carries the due set resolved against `before` and the ledger has since
/// gained (at least) a record under every planned reminder's key — which
/// committing each planned dispatch makes true — resolving again over
/// unchanged tasks and clock returns nothing, so no occurrence is dispatched
/// twice.
pub proof fn lemma_pass_commits_dedup(
    now: int,
    tasks: Seq<Task>,
    before: Map<(Seq<char>, int), RecordSpec>,
    after: Map<(Seq<char>, int), RecordSpec>,
    planned: Seq<ReminderTask>,
)
    requires
        carries_occurrences(planned, spec_resolve(now, tasks, before)),
        before.dom().subset_of(after.dom()),
        forall|i: int|
            0 <= i < planned.len() ==> after.dom().contains(
                ((#[trigger] planned[i]).task_id@, planned[i].reminder_time as int),
            ),
    ensures
        spec_resolve(now, tasks, after).len() == 0,
{
    let resolved = spec_resolve(now, tasks, before);
    assert forall|o: OccurrenceSpec| #[trigger] resolved.contains(o) implies after.dom().contains(
        occurrence_key(o),
    ) by {
        let i = choose|i: int| 0 <= i < resolved.len() && resolved[i] == o;
        assert(carries_occurrence(planned[i], o));
        assert((planned[i].task_id@, planned[i].reminder_time as int) == occurrence_key(o));
    }
    lemma_second_pass_empty(now, tasks, before, after);
}

} // verus!
